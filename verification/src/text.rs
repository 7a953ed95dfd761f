//! Plain text in and out: decimal numbers, white space, words.

use vstd::prelude::*;
use vstd::string::*;

verus! {

/// The character that writes the digit `d`.
pub open spec fn digit_char(d: nat) -> char
    recommends
        d < 10,
{
    ('0' as nat + d) as char
}

/// The decimal digits of `n`, most significant first, without leading zeros.
pub open spec fn decimal_digits(n: nat) -> Seq<char>
    decreases n,
{
    if n < 10 {
        seq![digit_char(n)]
    } else {
        decimal_digits(n / 10).push(digit_char(n % 10))
    }
}

/// `n` in decimal, with a leading `-` where it is negative.
pub open spec fn decimal(n: int) -> Seq<char> {
    if n < 0 {
        seq!['-'] + decimal_digits((-n) as nat)
    } else {
        decimal_digits(n as nat)
    }
}

/// The one-character text of the digit `d`.
fn digit_text(d: u128) -> (text: &'static str)
    requires
        d < 10,
    ensures
        text@ == seq![digit_char(d as nat)],
{
    proof {
        reveal_strlit("0");
        reveal_strlit("1");
        reveal_strlit("2");
        reveal_strlit("3");
        reveal_strlit("4");
        reveal_strlit("5");
        reveal_strlit("6");
        reveal_strlit("7");
        reveal_strlit("8");
        reveal_strlit("9");
    }
    let text: &'static str = match d {
        0 => "0",
        1 => "1",
        2 => "2",
        3 => "3",
        4 => "4",
        5 => "5",
        6 => "6",
        7 => "7",
        8 => "8",
        _ => "9",
    };
    assert(text@ =~= seq![digit_char(d as nat)]);
    text
}

/// Writes an unsigned number in decimal.
pub fn unsigned_text(n: u128) -> (text: String)
    ensures
        text@ == decimal_digits(n as nat),
    decreases n,
{
    if n < 10 {
        digit_text(n).to_owned()
    } else {
        let mut text = unsigned_text(n / 10);
        text.append(digit_text(n % 10));
        assert(text@ =~= decimal_digits(n as nat));
        text
    }
}

/// Writes a signed number in decimal.
pub fn signed_text(n: i64) -> (text: String)
    ensures
        text@ == decimal(n as int),
{
    if n < 0 {
        let magnitude: u64 = (-(n as i128)) as u64;
        let mut text = "-".to_owned();
        text.append(unsigned_text(magnitude as u128).as_str());
        proof {
            reveal_strlit("-");
            assert("-"@ =~= seq!['-']);
        }
        text
    } else {
        unsigned_text(n as u128)
    }
}

/// Whether every character of `s` is a decimal digit, and there is one.
pub open spec fn all_digits(s: Seq<char>) -> bool {
    &&& s.len() > 0
    &&& forall|i: int| 0 <= i < s.len() ==> '0' <= #[trigger] s[i] <= '9'
}

/// The number that the digits `s` write.
pub open spec fn digits_value(s: Seq<char>) -> nat
    decreases s.len(),
{
    if s.len() == 0 {
        0
    } else {
        digits_value(s.drop_last()) * 10 + (s.last() as nat - '0' as nat) as nat
    }
}

/// The number that `s` writes: digits, after at most one `+` sign.
pub open spec fn unsigned_number(s: Seq<char>) -> Option<int> {
    let digits = if s.len() > 0 && s[0] == '+' {
        s.skip(1)
    } else {
        s
    };
    if all_digits(digits) {
        Some(digits_value(digits) as int)
    } else {
        None
    }
}

/// The number that `s` writes: digits, after at most one `+` or `-` sign.
pub open spec fn signed_number(s: Seq<char>) -> Option<int> {
    if s.len() > 0 && s[0] == '-' {
        if all_digits(s.skip(1)) {
            Some(-(digits_value(s.skip(1)) as int))
        } else {
            None
        }
    } else {
        unsigned_number(s)
    }
}

/// More digits never write a smaller number.
proof fn lemma_digits_value_grows(s: Seq<char>, n: int)
    requires
        all_digits(s),
        0 <= n <= s.len(),
    ensures
        digits_value(s.take(n)) <= digits_value(s),
    decreases s.len() - n,
{
    if n == s.len() {
        assert(s.take(n) =~= s);
    } else {
        lemma_digits_value_grows(s, n + 1);
        assert(s.take(n + 1).drop_last() =~= s.take(n));
        assert('0' <= s[n] <= '9');
    }
}

/// Reads the digits of `text` from the character `from` on.
fn digits_from(text: &str, from: usize) -> (number: Option<u64>)
    requires
        from <= text@.len(),
    ensures
        number == (if all_digits(text@.skip(from as int)) && digits_value(text@.skip(from as int))
            <= u64::MAX {
            Some(digits_value(text@.skip(from as int)) as u64)
        } else {
            None
        }),
{
    let len: usize = text.unicode_len();
    let ghost digits = text@.skip(from as int);
    if from == len {
        return None;
    }
    let mut number: u64 = 0;
    let mut i: usize = from;
    assert(digits.take(0) =~= Seq::<char>::empty());
    while i < len
        invariant
            from < len == text@.len(),
            from <= i <= len,
            digits == text@.skip(from as int),
            forall|k: int| 0 <= k < i - from ==> '0' <= #[trigger] digits[k] <= '9',
            number == digits_value(digits.take(i - from)),
        decreases len - i,
    {
        let c = text.get_char(i);
        assert(digits[i - from] == c);
        if c < '0' || c > '9' {
            return None;
        }
        proof {
            assert(digits.take(i + 1 - from).drop_last() =~= digits.take(i - from));
            assert(digits.take(i + 1 - from).last() == c);
            if all_digits(digits) {
                lemma_digits_value_grows(digits, i + 1 - from);
            }
        }
        let d: u64 = (c as u32 - '0' as u32) as u64;
        if number > u64::MAX / 10 {
            return None;
        }
        match (number * 10).checked_add(d) {
            Some(sum) => {
                number = sum;
            },
            None => {
                return None;
            },
        }
        i += 1;
    }
    assert(digits.take(len - from) =~= digits);
    Some(number)
}

/// Reads an unsigned number: what `str::parse` accepts for a `u64`.
pub fn parse_unsigned(text: &str) -> (number: Option<u64>)
    ensures
        number == (match unsigned_number(text@) {
            Some(n) if n <= u64::MAX => Some(n as u64),
            _ => None,
        }),
{
    assert(text@.skip(0) =~= text@);
    let signed: bool = text.unicode_len() > 0 && text.get_char(0) == '+';
    digits_from(text, if signed { 1 } else { 0 })
}

/// Reads a signed number: what `str::parse` accepts for an `i64`.
pub fn parse_signed(text: &str) -> (number: Option<i64>)
    ensures
        number == (match signed_number(text@) {
            Some(n) if i64::MIN <= n <= i64::MAX => Some(n as i64),
            _ => None,
        }),
{
    if text.unicode_len() > 0 && text.get_char(0) == '-' {
        match digits_from(text, 1) {
            Some(magnitude) if magnitude <= 0x8000_0000_0000_0000 => Some(
                (-(magnitude as i128)) as i64,
            ),
            _ => None,
        }
    } else {
        match parse_unsigned(text) {
            Some(magnitude) if magnitude <= 0x7fff_ffff_ffff_ffff => Some(magnitude as i64),
            _ => None,
        }
    }
}

/// Unicode's `White_Space` characters.
pub open spec fn is_white_space(c: char) -> bool {
    ||| '\u{9}' <= c <= '\u{d}'
    ||| c == ' '
    ||| c == '\u{85}'
    ||| c == '\u{a0}'
    ||| c == '\u{1680}'
    ||| '\u{2000}' <= c <= '\u{200a}'
    ||| c == '\u{2028}'
    ||| c == '\u{2029}'
    ||| c == '\u{202f}'
    ||| c == '\u{205f}'
    ||| c == '\u{3000}'
}

/// Tells whether `c` is white space.
pub fn white_space(c: char) -> (yes: bool)
    ensures
        yes == is_white_space(c),
{
    ('\u{9}' <= c && c <= '\u{d}') || c == ' ' || c == '\u{85}' || c == '\u{a0}' || c == '\u{1680}'
        || ('\u{2000}' <= c && c <= '\u{200a}') || c == '\u{2028}' || c == '\u{2029}' || c
        == '\u{202f}' || c == '\u{205f}' || c == '\u{3000}'
}

/// `s` without the white space that it starts with.
pub open spec fn skip_space(s: Seq<char>) -> Seq<char>
    decreases s.len(),
{
    if s.len() > 0 && is_white_space(s[0]) {
        skip_space(s.skip(1))
    } else {
        s
    }
}

/// `s` without the white space that it ends with.
pub open spec fn drop_trailing_space(s: Seq<char>) -> Seq<char>
    decreases s.len(),
{
    if s.len() > 0 && is_white_space(s.last()) {
        drop_trailing_space(s.drop_last())
    } else {
        s
    }
}

/// `s` without the white space around it.
pub open spec fn trimmed(s: Seq<char>) -> Seq<char> {
    drop_trailing_space(skip_space(s))
}

/// The characters of `s` before its first white space.
pub open spec fn first_word(s: Seq<char>) -> Seq<char>
    decreases s.len(),
{
    if s.len() > 0 && !is_white_space(s[0]) {
        seq![s[0]] + first_word(s.skip(1))
    } else {
        Seq::empty()
    }
}

/// The characters of `s` before its first line feed.
pub open spec fn first_line(s: Seq<char>) -> Seq<char>
    decreases s.len(),
{
    if s.len() > 0 && s[0] != '\n' {
        seq![s[0]] + first_line(s.skip(1))
    } else {
        Seq::empty()
    }
}

/// The second of the words on the first line of `s`; empty where there is none.
pub open spec fn second_word_of_first_line(s: Seq<char>) -> Seq<char> {
    let line = skip_space(first_line(s));
    first_word(skip_space(line.skip(first_word(line).len() as int)))
}

/// Where the text ends that stands before the first line feed of `text`.
fn line_end(text: &str) -> (end: usize)
    ensures
        end <= text@.len(),
        first_line(text@) == text@.take(end as int),
{
    let len: usize = text.unicode_len();
    let mut i: usize = 0;
    assert(text@.skip(0) =~= text@);
    assert(text@.take(0) + first_line(text@) =~= first_line(text@));
    while i < len && text.get_char(i) != '\n'
        invariant
            i <= len == text@.len(),
            first_line(text@) == text@.take(i as int) + first_line(text@.skip(i as int)),
        decreases len - i,
    {
        assert(text@.skip(i as int).skip(1) =~= text@.skip(i + 1));
        assert(text@.take(i as int) + (seq![text@[i as int]] + first_line(text@.skip(i + 1)))
            =~= text@.take(i + 1) + first_line(text@.skip(i + 1)));
        i += 1;
    }
    assert(first_line(text@) =~= text@.take(i as int));
    i
}

/// Where the white space ends that the stretch `from..end` of `text` starts with.
fn space_end(text: &str, from: usize, end: usize) -> (at: usize)
    requires
        from <= end <= text@.len(),
    ensures
        from <= at <= end,
        skip_space(text@.subrange(from as int, end as int)) == text@.subrange(at as int, end as int),
{
    let mut i: usize = from;
    while i < end && white_space(text.get_char(i))
        invariant
            from <= i <= end <= text@.len(),
            skip_space(text@.subrange(from as int, end as int)) == skip_space(
                text@.subrange(i as int, end as int),
            ),
        decreases end - i,
    {
        assert(text@.subrange(i as int, end as int).skip(1) =~= text@.subrange(
            i + 1,
            end as int,
        ));
        i += 1;
    }
    i
}

/// Where the word ends that the stretch `from..end` of `text` starts with.
fn word_end(text: &str, from: usize, end: usize) -> (at: usize)
    requires
        from <= end <= text@.len(),
    ensures
        from <= at <= end,
        first_word(text@.subrange(from as int, end as int)) == text@.subrange(
            from as int,
            at as int,
        ),
{
    let mut i: usize = from;
    let ghost stretch = text@.subrange(from as int, end as int);
    assert(text@.subrange(from as int, from as int) + first_word(stretch) =~= first_word(stretch));
    while i < end && !white_space(text.get_char(i))
        invariant
            from <= i <= end <= text@.len(),
            stretch == text@.subrange(from as int, end as int),
            first_word(stretch) == text@.subrange(from as int, i as int) + first_word(
                text@.subrange(i as int, end as int),
            ),
        decreases end - i,
    {
        let ghost rest = text@.subrange(i + 1, end as int);
        assert(text@.subrange(i as int, end as int).skip(1) =~= rest);
        assert(text@.subrange(from as int, i as int) + (seq![text@[i as int]] + first_word(rest))
            =~= text@.subrange(from as int, i + 1) + first_word(rest));
        i += 1;
    }
    assert(first_word(stretch) =~= text@.subrange(from as int, i as int));
    i
}

/// Where the white space starts that the stretch `from..end` of `text` ends with.
fn trailing_space_start(text: &str, from: usize, end: usize) -> (at: usize)
    requires
        from <= end <= text@.len(),
    ensures
        from <= at <= end,
        drop_trailing_space(text@.subrange(from as int, end as int)) == text@.subrange(
            from as int,
            at as int,
        ),
{
    let mut i: usize = end;
    while i > from && white_space(text.get_char(i - 1))
        invariant
            from <= i <= end <= text@.len(),
            drop_trailing_space(text@.subrange(from as int, end as int)) == drop_trailing_space(
                text@.subrange(from as int, i as int),
            ),
        decreases i,
    {
        assert(text@.subrange(from as int, i as int).drop_last() =~= text@.subrange(
            from as int,
            i - 1,
        ));
        i -= 1;
    }
    i
}

/// `text` without the white space around it.
pub fn trim(text: &str) -> (inner: String)
    ensures
        inner@ == trimmed(text@),
{
    let len: usize = text.unicode_len();
    assert(text@.subrange(0, len as int) =~= text@);
    let from: usize = space_end(text, 0, len);
    let end: usize = trailing_space_start(text, from, len);
    text.substring_char(from, end).to_owned()
}

/// The second of the words on the first line of `text`; empty where there is none.
pub fn second_word(text: &str) -> (word: String)
    ensures
        word@ == second_word_of_first_line(text@),
{
    let end: usize = line_end(text);
    assert(text@.subrange(0, end as int) =~= text@.take(end as int));
    let first: usize = space_end(text, 0, end);
    let first_end: usize = word_end(text, first, end);
    assert(text@.subrange(first as int, end as int).skip(first_end - first) =~= text@.subrange(
        first_end as int,
        end as int,
    ));
    let second: usize = space_end(text, first_end, end);
    let second_end: usize = word_end(text, second, end);
    text.substring_char(second, second_end).to_owned()
}

/// Tells whether the two texts are the same.
pub fn same_text(a: &str, b: &str) -> (yes: bool)
    ensures
        yes == (a@ == b@),
{
    a.to_owned() == b.to_owned()
}

/// The digits of a number are digits, and write that number.
proof fn lemma_digits_write_the_number(n: nat)
    ensures
        all_digits(decimal_digits(n)),
        digits_value(decimal_digits(n)) == n,
    decreases n,
{
    if n < 10 {
        let s = decimal_digits(n);
        assert(s.drop_last() =~= Seq::<char>::empty());
        assert(digits_value(s.drop_last()) == 0);
    } else {
        lemma_digits_write_the_number(n / 10);
        let s = decimal_digits(n);
        assert(s.drop_last() =~= decimal_digits(n / 10));
        assert forall|i: int| 0 <= i < s.len() implies '0' <= #[trigger] s[i] <= '9' by {
            if i < s.len() - 1 {
                assert(s[i] == decimal_digits(n / 10)[i]);
            }
        }
    }
}

/// A number that is written in decimal is read back as the same number, so two
/// numbers that are written alike are the same.
pub proof fn law_decimal_reads_back(n: int)
    ensures
        signed_number(decimal(n)) == Some(n),
        n >= 0 ==> unsigned_number(decimal(n)) == Some(n),
{
    if n < 0 {
        lemma_digits_write_the_number((-n) as nat);
        assert(decimal(n).skip(1) =~= decimal_digits((-n) as nat));
    } else {
        lemma_digits_write_the_number(n as nat);
        assert('0' <= decimal(n)[0] <= '9');
    }
}

/// Trimming takes white space from the ends only, and takes all of it: what is
/// left stands in the text as it is, and neither starts nor ends with white space.
pub proof fn law_trimming_leaves_the_inner_text(s: Seq<char>)
    ensures
        exists|from: int, end: int|
            #![trigger s.subrange(from, end)]
            {
                &&& 0 <= from <= end <= s.len()
                &&& trimmed(s) == s.subrange(from, end)
                &&& forall|i: int| 0 <= i < from ==> is_white_space(#[trigger] s[i])
                &&& forall|i: int| end <= i < s.len() ==> is_white_space(#[trigger] s[i])
            },
        trimmed(s).len() > 0 ==> !is_white_space(trimmed(s)[0]) && !is_white_space(
            trimmed(s).last(),
        ),
{
    let from = lemma_skip_space(s);
    let inner = skip_space(s);
    let kept = lemma_drop_trailing_space(inner);
    let end = from + kept;
    assert(trimmed(s) =~= s.subrange(from, end));
    assert forall|i: int| end <= i < s.len() implies is_white_space(#[trigger] s[i]) by {
        assert(inner[i - from] == s[i]);
    }
}

/// How much white space a text starts with.
proof fn lemma_skip_space(s: Seq<char>) -> (from: int)
    ensures
        0 <= from <= s.len(),
        skip_space(s) == s.skip(from),
        forall|i: int| 0 <= i < from ==> is_white_space(#[trigger] s[i]),
        from < s.len() ==> !is_white_space(s[from]),
    decreases s.len(),
{
    if s.len() > 0 && is_white_space(s[0]) {
        let rest = lemma_skip_space(s.skip(1));
        assert(s.skip(1).skip(rest) =~= s.skip(rest + 1));
        assert forall|i: int| 0 <= i < rest + 1 implies is_white_space(#[trigger] s[i]) by {
            if i > 0 {
                assert(s.skip(1)[i - 1] == s[i]);
            }
        }
        rest + 1
    } else {
        assert(s.skip(0) =~= s);
        0
    }
}

/// Where the white space starts that a text ends with.
proof fn lemma_drop_trailing_space(s: Seq<char>) -> (end: int)
    ensures
        0 <= end <= s.len(),
        drop_trailing_space(s) == s.take(end),
        forall|i: int| end <= i < s.len() ==> is_white_space(#[trigger] s[i]),
        end > 0 ==> !is_white_space(s[end - 1]),
    decreases s.len(),
{
    if s.len() > 0 && is_white_space(s.last()) {
        let end = lemma_drop_trailing_space(s.drop_last());
        assert(s.drop_last().take(end) =~= s.take(end));
        assert forall|i: int| end <= i < s.len() implies is_white_space(#[trigger] s[i]) by {
            if i < s.len() - 1 {
                assert(s.drop_last()[i] == s[i]);
            }
        }
        end
    } else {
        assert(s.take(s.len() as int) =~= s);
        s.len() as int
    }
}

/// Decimal is positional: the last digit of a number is its remainder by ten, before it
/// stand the digits of the quotient, and a negative number has a `-` before the digits
/// of its magnitude.
pub proof fn law_decimal_is_positional(n: int)
    requires
        n >= 0,
    ensures
        n < 10 ==> decimal(n) == seq![('0' as int + n) as char],
        n >= 10 ==> decimal(n) == decimal(n / 10).push(('0' as int + n % 10) as char),
        n > 0 ==> decimal(-n) == seq!['-'] + decimal(n),
{
}

/// One more digit makes ten times the number, and the digit.
pub proof fn law_a_digit_more(s: Seq<char>, c: char)
    requires
        '0' <= c <= '9',
    ensures
        digits_value(Seq::empty()) == 0,
        digits_value(s.push(c)) == 10 * digits_value(s) + (c as int - '0' as int),
{
    assert(s.push(c).drop_last() =~= s);
}

/// A text writes a number if and only if it is digits, with a `+` or a `-` before them
/// or not, and then it writes the number of the digits, or its negative.
pub proof fn law_what_writes_a_number(digits: Seq<char>, any: Seq<char>)
    requires
        digits.len() > 0,
        forall|i: int| 0 <= i < digits.len() ==> '0' <= #[trigger] digits[i] <= '9',
    ensures
        signed_number(digits) == Some(digits_value(digits) as int),
        signed_number(seq!['+'] + digits) == Some(digits_value(digits) as int),
        signed_number(seq!['-'] + digits) == Some(-(digits_value(digits) as int)),
        unsigned_number(digits) == Some(digits_value(digits) as int),
        unsigned_number(seq!['+'] + digits) == Some(digits_value(digits) as int),
        signed_number(any) is Some ==> any.len() > 0 && {
            let from: int = if any[0] == '+' || any[0] == '-' {
                1
            } else {
                0
            };
            &&& any.len() > from
            &&& forall|i: int| from <= i < any.len() ==> '0' <= #[trigger] any[i] <= '9'
        },
        unsigned_number(any) is Some ==> any.len() > 0 && any[0] != '-' && unsigned_number(any)
            == signed_number(any),
{
    assert('0' <= digits[0] <= '9');
    assert((seq!['+'] + digits).skip(1) =~= digits);
    assert((seq!['-'] + digits).skip(1) =~= digits);
    if signed_number(any) is Some {
        if any[0] == '+' || any[0] == '-' {
            let rest = any.skip(1);
            assert forall|i: int| 1 <= i < any.len() implies '0' <= #[trigger] any[i] <= '9' by {
                assert(rest[i - 1] == any[i]);
            }
        }
    }
    if unsigned_number(any) is Some {
        if any[0] == '-' {
            assert(!('0' <= any[0] <= '9'));
        }
    }
}

/// Numbers are read as they are written: a text that is the decimal form of a number in
/// range is that number, and a number that is read is the one that the text writes.
pub proof fn law_numbers_are_read_as_written(
    text: &str,
    signed: Option<i64>,
    unsigned: Option<u64>,
)
    requires
        call_ensures(parse_signed, (text,), signed),
        call_ensures(parse_unsigned, (text,), unsigned),
    ensures
        forall|n: i64| text@ == #[trigger] decimal(n as int) ==> signed == Some(n),
        forall|n: u64| text@ == #[trigger] decimal(n as int) ==> unsigned == Some(n),
        signed matches Some(n) ==> signed_number(text@) == Some(n as int),
        unsigned matches Some(n) ==> unsigned_number(text@) == Some(n as int),
        signed is None && signed_number(text@) is Some ==> !(i64::MIN <= signed_number(
            text@,
        )->Some_0 <= i64::MAX),
        unsigned is None && unsigned_number(text@) is Some ==> unsigned_number(text@)->Some_0
            > u64::MAX,
{
    assert forall|n: i64| text@ == #[trigger] decimal(n as int) implies signed == Some(n) by {
        law_decimal_reads_back(n as int);
    }
    assert forall|n: u64| text@ == #[trigger] decimal(n as int) implies unsigned == Some(n) by {
        law_decimal_reads_back(n as int);
    }
}

/// What is written of a number reads back as the number.
pub proof fn law_numbers_are_written_to_be_read(
    n: i64,
    m: u128,
    signed: String,
    unsigned: String,
)
    requires
        call_ensures(signed_text, (n,), signed),
        call_ensures(unsigned_text, (m,), unsigned),
    ensures
        signed_number(signed@) == Some(n as int),
        unsigned_number(unsigned@) == Some(m as int),
        signed@ == decimal(n as int),
        unsigned@ == decimal(m as int),
{
    law_decimal_reads_back(n as int);
    law_decimal_reads_back(m as int);
}

/// What is trimmed is a stretch of the text, whole, with nothing but white space before
/// and after it, and none at its ends.
pub proof fn law_trimming_a_text(text: &str, inner: String)
    requires
        call_ensures(trim, (text,), inner),
    ensures
        exists|from: int, end: int|
            #![trigger text@.subrange(from, end)]
            {
                &&& 0 <= from <= end <= text@.len()
                &&& inner@ == text@.subrange(from, end)
                &&& forall|i: int| 0 <= i < from ==> is_white_space(#[trigger] text@[i])
                &&& forall|i: int| end <= i < text@.len() ==> is_white_space(#[trigger] text@[i])
            },
        inner@.len() > 0 ==> !is_white_space(inner@[0]) && !is_white_space(inner@.last()),
{
    law_trimming_leaves_the_inner_text(text@);
}

/// A text without a line feed, before one or before the end, is the first line.
proof fn lemma_first_line_of(s: Seq<char>, t: Seq<char>)
    requires
        forall|i: int| 0 <= i < s.len() ==> #[trigger] s[i] != '\n',
        t.len() == 0 || t[0] == '\n',
    ensures
        first_line(s + t) == s,
    decreases s.len(),
{
    if s.len() == 0 {
        assert(s + t =~= t);
        assert(first_line(t) =~= s);
    } else {
        let rest = s.skip(1);
        assert((s + t).skip(1) =~= rest + t);
        assert forall|i: int| 0 <= i < rest.len() implies #[trigger] rest[i] != '\n' by {
            assert(rest[i] == s[i + 1]);
        }
        lemma_first_line_of(rest, t);
        assert(seq![s[0]] + rest =~= s);
    }
}

/// White space is skipped up to what is none.
proof fn lemma_skip_space_of(s: Seq<char>, t: Seq<char>)
    requires
        forall|i: int| 0 <= i < s.len() ==> is_white_space(#[trigger] s[i]),
        t.len() == 0 || !is_white_space(t[0]),
    ensures
        skip_space(s + t) == t,
    decreases s.len(),
{
    if s.len() == 0 {
        assert(s + t =~= t);
    } else {
        let rest = s.skip(1);
        assert((s + t)[0] == s[0]);
        assert((s + t).skip(1) =~= rest + t);
        assert forall|i: int| 0 <= i < rest.len() implies is_white_space(#[trigger] rest[i]) by {
            assert(rest[i] == s[i + 1]);
        }
        lemma_skip_space_of(rest, t);
    }
}

/// A text without white space, before some or before the end, is the first word.
proof fn lemma_first_word_of(s: Seq<char>, t: Seq<char>)
    requires
        forall|i: int| 0 <= i < s.len() ==> !is_white_space(#[trigger] s[i]),
        t.len() == 0 || is_white_space(t[0]),
    ensures
        first_word(s + t) == s,
    decreases s.len(),
{
    if s.len() == 0 {
        assert(s + t =~= t);
        assert(first_word(t) =~= s);
    } else {
        let rest = s.skip(1);
        assert((s + t)[0] == s[0]);
        assert((s + t).skip(1) =~= rest + t);
        assert forall|i: int| 0 <= i < rest.len() implies !is_white_space(#[trigger] rest[i]) by {
            assert(rest[i] == s[i + 1]);
        }
        lemma_first_word_of(rest, t);
        assert(seq![s[0]] + rest =~= s);
    }
}

/// Whether every character is white space that does not end a line.
pub open spec fn is_gap(s: Seq<char>) -> bool {
    forall|i: int| 0 <= i < s.len() ==> is_white_space(#[trigger] s[i]) && s[i] != '\n'
}

/// Whether no character is white space.
pub open spec fn is_word(s: Seq<char>) -> bool {
    forall|i: int| 0 <= i < s.len() ==> !is_white_space(#[trigger] s[i])
}

/// Where the second word of a first line is.
pub proof fn lemma_second_word_of(
    lead: Seq<char>,
    one: Seq<char>,
    gap: Seq<char>,
    two: Seq<char>,
    rest: Seq<char>,
    lines: Seq<char>,
)
    requires
        is_gap(lead),
        is_word(one),
        is_gap(gap),
        is_word(two),
        two.len() > 0 ==> one.len() > 0 && gap.len() > 0,
        two.len() == 0 ==> rest.len() == 0,
        one.len() == 0 ==> gap.len() == 0,
        rest.len() > 0 ==> is_white_space(rest[0]),
        forall|i: int| 0 <= i < rest.len() ==> #[trigger] rest[i] != '\n',
        lines.len() > 0 ==> lines[0] == '\n',
    ensures
        second_word_of_first_line(lead + one + gap + two + rest + lines) == two,
{
    let line = lead + one + gap + two + rest;
    assert(lead + one + gap + two + rest + lines =~= line + lines);
    assert forall|i: int| 0 <= i < line.len() implies #[trigger] line[i] != '\n' by {
        let n = lead.len();
        let m = n + one.len();
        let k = m + gap.len();
        let l = k + two.len();
        if i < n {
            assert(line[i] == lead[i]);
        } else if i < m {
            assert(line[i] == one[i - n]);
        } else if i < k {
            assert(line[i] == gap[i - m]);
        } else if i < l {
            assert(line[i] == two[i - k]);
        } else {
            assert(line[i] == rest[i - l]);
        }
    }
    lemma_first_line_of(line, lines);
    let body = one + (gap + (two + rest));
    let after = gap + (two + rest);
    assert(line =~= lead + body);
    assert(two + rest =~= if two.len() == 0 {
        Seq::empty()
    } else {
        two + rest
    });
    if one.len() > 0 {
        assert(body[0] == one[0]);
    } else {
        assert(body =~= Seq::empty());
    }
    lemma_skip_space_of(lead, body);
    if gap.len() > 0 {
        assert(after[0] == gap[0]);
    } else {
        assert(after =~= Seq::empty());
    }
    lemma_first_word_of(one, after);
    assert(body.skip(one.len() as int) =~= after);
    if two.len() > 0 {
        assert((two + rest)[0] == two[0]);
    }
    lemma_skip_space_of(gap, two + rest);
    lemma_first_word_of(two, rest);
}

/// Of a line with two words or more, the second is found, whole, whatever follows it; of
/// a line with one word or none, nothing is.
pub proof fn law_the_second_word_is_found(
    lead: Seq<char>,
    one: Seq<char>,
    gap: Seq<char>,
    two: Seq<char>,
    rest: Seq<char>,
    lines: Seq<char>,
    text: &str,
    word: String,
)
    requires
        is_gap(lead),
        is_word(one),
        is_gap(gap),
        is_word(two),
        two.len() > 0 ==> one.len() > 0 && gap.len() > 0,
        two.len() == 0 ==> rest.len() == 0,
        one.len() == 0 ==> gap.len() == 0,
        rest.len() > 0 ==> is_white_space(rest[0]),
        forall|i: int| 0 <= i < rest.len() ==> #[trigger] rest[i] != '\n',
        lines.len() > 0 ==> lines[0] == '\n',
        text@ == lead + one + gap + two + rest + lines,
        call_ensures(second_word, (text,), word),
    ensures
        word@ == two,
{
    lemma_second_word_of(lead, one, gap, two, rest, lines);
}

}
