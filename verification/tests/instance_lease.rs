use infernal_worker_simple::error::WorkerError;
use infernal_worker_simple::instance_lease::{
    classify_renewal, parse_renewal_response, renewal_request_body, renewal_to_make,
    InstanceLease, RenewedLease, RENEWAL_MARGIN_SECONDS, RENEW_INSTANCE_PATH,
};

#[test]
fn renewal_request_carries_the_expected_revision() {
    assert_eq!(renewal_request_body(3), br#"{"expected_revision":3}"#);
}

#[test]
fn parses_the_kernels_actual_renewal_success_shape() {
    let body = br#"{"service_id":"s1","instance_id":"i1","key_id":"k1","algorithm":"ed25519","public_key":"pk","endpoint":"https://x","registered_at":10,"lease_expires_at":70,"lease_revision":2}"#;

    let renewed = parse_renewal_response(200, body).unwrap();

    assert_eq!(
        renewed,
        RenewedLease {
            lease_expires_at: 70,
            lease_revision: 2,
        }
    );
}

#[test]
fn a_conflicting_revision_is_reported_as_an_unexpected_status() {
    assert!(matches!(
        parse_renewal_response(409, b"{}"),
        Err(WorkerError::UnexpectedStatus(409))
    ));
}

#[test]
fn a_malformed_renewal_is_reported() {
    assert!(matches!(
        parse_renewal_response(200, br#"{"lease_expires_at":70}"#),
        Err(WorkerError::MalformedResponse(message))
            if message == "missing field `lease_revision` at line 1 column 23"
    ));
    assert!(matches!(
        parse_renewal_response(
            200,
            br#"{"lease_expires_at":70,"lease_revision":2,"lease_expires_at":71}"#
        ),
        Err(WorkerError::MalformedResponse(message))
            if message == "duplicate field `lease_expires_at` at line 1 column 60"
    ));
    assert!(matches!(
        parse_renewal_response(200, b""),
        Err(WorkerError::MalformedResponse(_))
    ));
    assert!(matches!(
        parse_renewal_response(200, br#"{"lease_expires_at":70,"lease_revision":2}}"#),
        Err(WorkerError::MalformedResponse(_))
    ));
    assert!(matches!(
        classify_renewal(200, Err("cut short".to_owned())),
        Err(WorkerError::MalformedResponse(message)) if message == "cut short"
    ));
}

#[test]
fn what_else_a_renewal_carries_does_not_matter() {
    let expected = RenewedLease {
        lease_expires_at: 70,
        lease_revision: 2,
    };
    let nested = br#"{"extra":{"lease_revision":9,"list":[1,"]}",{}]},"lease_revision":2,"extra":null,"lease_expires_at":70}"#;
    assert_eq!(parse_renewal_response(200, nested).unwrap(), expected);
    // Not even where it is no text.
    let unreadable = b"{\"extra\":\"\xff\",\"lease_revision\":2,\"lease_expires_at\":70}";
    assert_eq!(parse_renewal_response(200, unreadable).unwrap(), expected);
    let by_position = b" [ 70 , 2 ] ";
    assert_eq!(parse_renewal_response(200, by_position).unwrap(), expected);
}

#[test]
fn a_renewal_falls_due_a_margin_before_the_expiry() {
    assert_eq!(RENEWAL_MARGIN_SECONDS, 20);
    assert_eq!(RENEW_INSTANCE_PATH, "/v1/instances/renew");
    let lease = InstanceLease {
        revision: 4,
        expires_at: 100,
    };
    assert!(!lease.renewal_due(79));
    assert!(lease.renewal_due(80));
    assert!(lease.renewal_due(100));
    assert_eq!(renewal_to_make(&Some(lease), 79), None);
    assert_eq!(renewal_to_make(&Some(lease), 80), Some(4));
    assert_eq!(renewal_to_make(&Some(lease), 500), Some(4));
    assert_eq!(renewal_to_make(&None, 500), None);
}

#[test]
fn only_a_granted_renewal_changes_the_lease() {
    let mut lease = InstanceLease {
        revision: 4,
        expires_at: 100,
    };
    lease.take_renewal(&Err(WorkerError::UnexpectedStatus(503)));
    assert_eq!((lease.revision, lease.expires_at), (4, 100));
    assert_eq!(renewal_to_make(&Some(lease), 99), Some(4));
    lease.take_renewal(&Ok(RenewedLease {
        lease_expires_at: 160,
        lease_revision: 5,
    }));
    assert_eq!((lease.revision, lease.expires_at), (5, 160));
    assert_eq!(renewal_to_make(&Some(lease), 139), None);
    assert_eq!(renewal_to_make(&Some(lease), 140), Some(5));
}
