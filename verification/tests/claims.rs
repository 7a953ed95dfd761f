use infernal_worker_simple::claims::{
    classify_claim, classify_completion, decode_work_claim, parse_claim_response,
    parse_complete_response, ClaimOutcome, ClaimRequest, CompleteOutcome, FencedActionRequest,
    WorkClaim,
};
use infernal_worker_simple::error::WorkerError;

fn claim() -> WorkClaim {
    WorkClaim {
        claim_id: "c1".to_owned(),
        route_id: "r1".to_owned(),
        worker_service_id: "w1".to_owned(),
        worker_instance_id: "i1".to_owned(),
        fencing_token: 1,
        status: "active".to_owned(),
        claimed_at: 10,
        lease_expires_at: 310,
    }
}

fn claim_body() -> &'static [u8] {
    br#"{"claim_id":"c1","route_id":"r1","worker_service_id":"w1","worker_instance_id":"i1","fencing_token":1,"status":"active","claimed_at":10,"lease_expires_at":310}"#
}

#[test]
fn parses_a_successful_claim() {
    assert_eq!(
        parse_claim_response(201, claim_body()).unwrap(),
        ClaimOutcome::Claimed(claim())
    );
}

#[test]
fn classifies_a_lost_race_as_already_claimed_not_an_error() {
    assert_eq!(
        parse_claim_response(409, br#"{"code":"route_already_claimed"}"#).unwrap(),
        ClaimOutcome::AlreadyClaimed
    );
}

#[test]
fn classifies_an_unowned_or_unknown_route_as_route_not_found() {
    assert_eq!(
        parse_claim_response(404, br#"{"code":"claim_not_found"}"#).unwrap(),
        ClaimOutcome::RouteNotFound
    );
}

#[test]
fn claim_surfaces_any_other_status_as_an_error() {
    assert!(matches!(
        parse_claim_response(503, b"{}"),
        Err(WorkerError::UnexpectedStatus(503))
    ));
}

#[test]
fn parses_a_successful_completion() {
    let body = br#"{"claim_id":"c1","route_id":"r1","worker_service_id":"w1","worker_instance_id":"i1","fencing_token":1,"status":"completed","claimed_at":10,"lease_expires_at":310}"#;

    let outcome = parse_complete_response(200, body).unwrap();

    assert_eq!(
        outcome,
        CompleteOutcome::Completed(WorkClaim {
            status: "completed".to_owned(),
            ..claim()
        })
    );
}

#[test]
fn classifies_a_stale_fencing_token_as_fenced_not_an_error() {
    assert_eq!(
        parse_complete_response(409, br#"{"code":"claim_fenced"}"#).unwrap(),
        CompleteOutcome::Fenced
    );
}

#[test]
fn classifies_an_unknown_claim_as_not_found() {
    assert_eq!(
        parse_complete_response(404, br#"{"code":"claim_not_found"}"#).unwrap(),
        CompleteOutcome::NotFound
    );
}

#[test]
fn complete_surfaces_any_other_status_as_an_error() {
    assert!(matches!(
        parse_complete_response(503, b"{}"),
        Err(WorkerError::UnexpectedStatus(503))
    ));
}

#[test]
fn request_bodies_carry_one_number() {
    assert_eq!(
        ClaimRequest { lease_seconds: 300 }.to_json(),
        br#"{"lease_seconds":300}"#
    );
    assert_eq!(
        FencedActionRequest { fencing_token: 7 }.to_json(),
        br#"{"fencing_token":7}"#
    );
    assert_eq!(
        ClaimRequest { lease_seconds: 0 }.to_json(),
        br#"{"lease_seconds":0}"#
    );
    assert_eq!(
        FencedActionRequest {
            fencing_token: i64::MIN
        }
        .to_json(),
        br#"{"fencing_token":-9223372036854775808}"#
    );
    assert_eq!(
        FencedActionRequest {
            fencing_token: i64::MAX
        }
        .to_json(),
        br#"{"fencing_token":9223372036854775807}"#
    );
}

#[test]
fn a_malformed_claim_is_reported() {
    assert!(matches!(
        parse_claim_response(201, b"{}"),
        Err(WorkerError::MalformedResponse(message)) if message == "missing field `claim_id` at line 1 column 2"
    ));
    assert!(matches!(
        parse_complete_response(200, b"not json"),
        Err(WorkerError::MalformedResponse(_))
    ));
    assert!(matches!(
        parse_complete_response(201, claim_body()),
        Err(WorkerError::UnexpectedStatus(201))
    ));
    assert!(matches!(
        parse_claim_response(200, claim_body()),
        Err(WorkerError::UnexpectedStatus(200))
    ));
}

#[test]
fn a_claim_is_read_whatever_the_order_and_the_white_space() {
    let body = b" {\n\"lease_expires_at\" : 310 ,\t\"claimed_at\":10,\"status\":\"active\",\r\"fencing_token\":1,\"worker_instance_id\":\"i1\",\"worker_service_id\":\"w1\",\"route_id\":\"r1\",\"claim_id\":\"c1\"} ";
    assert_eq!(decode_work_claim(body).unwrap(), claim());
}

#[test]
fn escapes_in_names_and_values_are_read() {
    let body = br#"{"claim\u005fid":"c1","route_id":"a\"b\\c","worker_service_id":"w1","worker_instance_id":"\u00e4","fencing_token":-5,"status":"","claimed_at":10,"lease_expires_at":310}"#;
    let decoded = decode_work_claim(body).unwrap();
    assert_eq!(decoded.claim_id, "c1");
    assert_eq!(decoded.route_id, "a\"b\\c");
    assert_eq!(decoded.worker_instance_id, "\u{e4}");
    assert_eq!(decoded.fencing_token, -5);
    assert_eq!(decoded.status, "");
}

#[test]
fn a_claim_can_be_written_as_an_array() {
    let body = br#"["c1","r1","w1","i1",1,"active",10,310]"#;
    assert_eq!(decode_work_claim(body).unwrap(), claim());
    assert!(decode_work_claim(br#"["c1","r1","w1","i1",1,"active",10]"#).is_err());
    assert!(decode_work_claim(br#"["c1","r1","w1","i1",1,"active",10,310,0]"#).is_err());
    assert!(decode_work_claim(br#"["c1","r1","w1","i1",1,"active",10,310],"#).is_err());
}

#[test]
fn a_field_of_another_type_is_refused() {
    let good = String::from_utf8(claim_body().to_vec()).unwrap();
    let text_for_number = good.replace("\"fencing_token\":1", "\"fencing_token\":\"1\"");
    assert!(decode_work_claim(text_for_number.as_bytes()).is_err());
    let number_for_text = good.replace("\"claim_id\":\"c1\"", "\"claim_id\":1");
    assert!(decode_work_claim(number_for_text.as_bytes()).is_err());
    let fraction = good.replace("\"claimed_at\":10", "\"claimed_at\":10.0");
    assert!(decode_work_claim(fraction.as_bytes()).is_err());
    let too_large = good.replace("\"claimed_at\":10", "\"claimed_at\":9223372036854775808");
    assert!(decode_work_claim(too_large.as_bytes()).is_err());
    let largest = good.replace("\"claimed_at\":10", "\"claimed_at\":9223372036854775807");
    assert_eq!(decode_work_claim(largest.as_bytes()).unwrap().claimed_at, i64::MAX);
    let nothing = good.replace("\"status\":\"active\"", "\"status\":null");
    assert!(decode_work_claim(nothing.as_bytes()).is_err());
}

#[test]
fn a_decoded_claim_matters_with_its_own_status_only() {
    assert_eq!(
        classify_claim(201, Ok(claim())).unwrap(),
        ClaimOutcome::Claimed(claim())
    );
    assert_eq!(
        classify_claim(409, Ok(claim())).unwrap(),
        ClaimOutcome::AlreadyClaimed
    );
    assert_eq!(
        classify_claim(404, Err("x".to_owned())).unwrap(),
        ClaimOutcome::RouteNotFound
    );
    assert!(matches!(
        classify_claim(201, Err("x".to_owned())),
        Err(WorkerError::MalformedResponse(message)) if message == "x"
    ));
    assert_eq!(
        classify_completion(200, Ok(claim())).unwrap(),
        CompleteOutcome::Completed(claim())
    );
    assert_eq!(
        classify_completion(409, Ok(claim())).unwrap(),
        CompleteOutcome::Fenced
    );
    assert!(matches!(
        classify_completion(200, Err("y".to_owned())),
        Err(WorkerError::MalformedResponse(message)) if message == "y"
    ));
}
