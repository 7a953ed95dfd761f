use infernal_worker_simple::error::WorkerError;
use infernal_worker_simple::routed_request::{
    classify_routed_request, decode_routed_request, parse_routed_request_response, RoutedRequest,
    RoutedRequestOutcome,
};

#[test]
fn parses_the_kernels_actual_routed_request_wire_shape() {
    let body = br#"{"request_id":"q1","source_service_id":"s1","action":"billing.invoice.submit","scope":"invoice-42","artifact_schema_version_id":"a1","permission_policy_schema_version_id":"p1","accepted_at":10}"#;

    let outcome = parse_routed_request_response(200, body).unwrap();

    assert_eq!(
        outcome,
        RoutedRequestOutcome::Found(RoutedRequest {
            request_id: "q1".to_owned(),
            source_service_id: "s1".to_owned(),
            action: "billing.invoice.submit".to_owned(),
            scope: "invoice-42".to_owned(),
            artifact_schema_version_id: "a1".to_owned(),
            permission_policy_schema_version_id: "p1".to_owned(),
            accepted_at: 10,
        })
    );
}

#[test]
fn classifies_a_hidden_or_missing_route_as_not_found() {
    assert_eq!(
        parse_routed_request_response(404, br#"{"code":"claim_not_found"}"#).unwrap(),
        RoutedRequestOutcome::NotFound
    );
}

#[test]
fn surfaces_any_other_status_as_an_error() {
    assert!(matches!(
        parse_routed_request_response(503, b"{}"),
        Err(WorkerError::UnexpectedStatus(503))
    ));
}

#[test]
fn rejects_a_malformed_success_body() {
    assert!(matches!(
        parse_routed_request_response(200, b"not json"),
        Err(WorkerError::MalformedResponse(_))
    ));
}

#[test]
fn a_request_that_lacks_its_action_is_malformed() {
    let body = br#"{"request_id":"q1","source_service_id":"s1","scope":"invoice-42","artifact_schema_version_id":"a1","permission_policy_schema_version_id":"p1","accepted_at":10}"#;
    assert!(matches!(
        parse_routed_request_response(200, body),
        Err(WorkerError::MalformedResponse(message)) if message.starts_with("missing field `action` at line 1 column ")
    ));
}

#[test]
fn a_decoded_request_matters_with_its_own_status_only() {
    let request = decode_routed_request(br#"["q1","s1","act","sc","a1","p1",-3]"#).unwrap();
    assert_eq!(request.action, "act");
    assert_eq!(request.accepted_at, -3);
    assert_eq!(
        classify_routed_request(404, Ok(request.clone())).unwrap(),
        RoutedRequestOutcome::NotFound
    );
    assert_eq!(
        classify_routed_request(200, Ok(request.clone())).unwrap(),
        RoutedRequestOutcome::Found(request)
    );
    assert!(matches!(
        classify_routed_request(409, Err("z".to_owned())),
        Err(WorkerError::UnexpectedStatus(409))
    ));
}
