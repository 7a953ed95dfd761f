use infernal_worker_simple::clock::{cap_seconds, reading, unix_time};
use infernal_worker_simple::json::{read_record, write_integer_object, Value};
use infernal_worker_simple::text::{
    parse_signed, parse_unsigned, same_text, second_word, signed_text, trim, unsigned_text,
    white_space,
};
use infernal_worker_simple::wire::Shape;

#[test]
fn numbers_are_written_in_decimal() {
    assert_eq!(unsigned_text(0), "0");
    assert_eq!(unsigned_text(10), "10");
    assert_eq!(unsigned_text(u128::MAX), "340282366920938463463374607431768211455");
    assert_eq!(signed_text(-1), "-1");
    assert_eq!(signed_text(i64::MIN), "-9223372036854775808");
    assert_eq!(signed_text(i64::MAX), "9223372036854775807");
}

#[test]
fn numbers_are_read_as_they_are_written() {
    for n in [i64::MIN, -100, -1, 0, 1, 9, 10, 99, 12_345, i64::MAX] {
        assert_eq!(parse_signed(&signed_text(n)), Some(n));
        assert_eq!(signed_text(n), n.to_string());
    }
    for n in [0, 7, 10, u64::MAX] {
        assert_eq!(parse_unsigned(&unsigned_text(u128::from(n))), Some(n));
    }
}

#[test]
fn what_is_no_number_is_not_read() {
    let texts = [
        "", "+", "-", "+5", "-5", "-0", "+-5", "--5", "05", " 5", "5 ", "5.0", "0x5", "\u{665}",
        "9223372036854775807", "9223372036854775808", "-9223372036854775808",
        "-9223372036854775809", "18446744073709551615", "18446744073709551616",
        "99999999999999999999999", "+0", "00000000000000000000000001",
    ];
    for text in texts {
        assert_eq!(parse_signed(text), text.parse::<i64>().ok(), "{text}");
        assert_eq!(parse_unsigned(text), text.parse::<u64>().ok(), "{text}");
    }
}

#[test]
fn white_space_is_trimmed_and_splits_words() {
    let texts = [
        "", " ", "a", " a ", "\r\na b\t\n", "\u{2003}x\u{3000}", "\u{200b}x", "x\u{85}\u{a0}",
        "GET /a HTTP/1.1", "GET", "GET\r\n/a", "  one\u{2028}two three", "one two\nthree",
    ];
    for text in texts {
        assert_eq!(trim(text), text.trim(), "{text:?}");
        let word = text
            .lines()
            .next()
            .and_then(|line| line.split_whitespace().nth(1))
            .unwrap_or("");
        assert_eq!(second_word(text), word, "{text:?}");
    }
    for code in 0..0x11_0000 {
        if let Some(c) = char::from_u32(code) {
            assert_eq!(white_space(c), c.is_whitespace());
        }
    }
}

#[test]
fn texts_are_compared_whole() {
    assert!(same_text("", ""));
    assert!(same_text("ab", "ab"));
    assert!(!same_text("ab", "abc"));
    assert!(!same_text("ab", "aB"));
}

#[test]
fn a_clock_reading_is_capped() {
    assert_eq!(cap_seconds(None), 0);
    assert_eq!(cap_seconds(Some(0)), 0);
    assert_eq!(cap_seconds(Some(1_700_000_000)), 1_700_000_000);
    assert_eq!(cap_seconds(Some(9_223_372_036_854_775_807)), i64::MAX);
    assert_eq!(cap_seconds(Some(9_223_372_036_854_775_808)), i64::MAX);
    assert_eq!(cap_seconds(Some(u64::MAX)), i64::MAX);
}

#[test]
fn the_clock_goes_on() {
    let before = unix_time();
    assert!(before > 1_577_836_800);
    assert!(unix_time() >= before);
    assert!(reading().unwrap() >= before as u64);
}

#[test]
fn an_object_of_one_number_is_written() {
    assert_eq!(write_integer_object("n", -12), br#"{"n":-12}"#);
}

#[test]
fn a_record_is_read_into_its_fields() {
    let fields = read_record(
        b"{\"routes\":[ [\"a\",\"b\",\"c\",\"d\",1], [\"e\",\"f\",\"g\",\"h\",2]]}",
        Shape::EligibleRouteListResponse,
    )
    .unwrap();
    assert!(matches!(&fields[..], [Some(Value::Places(places))] if places == &[12, 33]));
    let fields = read_record(b"[1,2]", Shape::RenewedLease).unwrap();
    assert!(matches!(
        &fields[..],
        [Some(Value::Number(1)), Some(Value::Number(2))]
    ));
    assert_eq!(
        read_record(b"[1,2] 3", Shape::RenewedLease).unwrap_err(),
        "trailing characters at line 1 column 7"
    );
}

#[test]
fn further_members_and_their_order_do_not_matter() {
    for body in [
        r#"{"lease_expires_at":1,"lease_revision":2}"#,
        r#"{"x":0,"lease_revision":2,"x":0,"lease_expires_at":1,"x":0}"#,
        "[1,2]",
    ] {
        let fields = read_record(body.as_bytes(), Shape::RenewedLease).unwrap();
        assert!(matches!(
            &fields[..],
            [Some(Value::Number(1)), Some(Value::Number(2))]
        ));
    }
}
