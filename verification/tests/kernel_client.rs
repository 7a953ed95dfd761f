use infernal_worker_simple::claims::{
    ClaimOutcome, ClaimRequest, CompleteOutcome, FencedActionRequest,
};
use infernal_worker_simple::error::WorkerError;
use infernal_worker_simple::kernel_client::{
    build_get, build_post, renewal_request, KernelCall, KernelReply, JSON_CONTENT_TYPE,
    SIGNATURE_VALIDITY_SECONDS,
};
use infernal_worker_simple::routed_request::RoutedRequestOutcome;
use infernal_worker_simple::routes::ELIGIBLE_ROUTES_PATH;
use uuid::Uuid;

fn claim_call() -> KernelCall {
    KernelCall::ProposeClaim {
        route_id: "route-42".to_owned(),
        lease_seconds: 300,
    }
}

fn read_call() -> KernelCall {
    KernelCall::RoutedRequest {
        route_id: "route-42".to_owned(),
    }
}

fn completion_call() -> KernelCall {
    KernelCall::CompleteClaim {
        claim_id: "claim-9".to_owned(),
        fencing_token: 7,
    }
}

#[test]
fn a_listing_is_a_bare_read() {
    let request = KernelCall::EligibleRoutes.to_request("kernel.example.test", 5, 1_000);
    assert_eq!(request.method, "GET");
    assert_eq!(request.authority, "kernel.example.test");
    assert_eq!(request.path, ELIGIBLE_ROUTES_PATH);
    assert_eq!(request.content_type, "application/json");
    assert!(request.body.is_empty());
    assert_eq!(request.request_id, 5);
    assert_eq!(request.created_at, 1_000);
    assert_eq!(request.expires_at, 1_030);
}

#[test]
fn a_claim_names_its_route_and_carries_the_lease() {
    let request = claim_call().to_request("kernel.example.test", 6, 1_000);
    assert_eq!(request.method, "POST");
    assert_eq!(request.path, "/v1/routes/route-42/claims");
    assert_eq!(request.body, br#"{"lease_seconds":300}"#);
    assert_eq!(request.expires_at, 1_030);
}

#[test]
fn a_read_names_its_route() {
    let request = read_call().to_request("kernel.example.test", 7, 1_000);
    assert_eq!(request.method, "GET");
    assert_eq!(request.path, "/v1/routes/route-42/request");
    assert!(request.body.is_empty());
}

#[test]
fn a_completion_names_its_claim_and_carries_the_fencing_token() {
    let request = completion_call().to_request("kernel.example.test", 8, -5);
    assert_eq!(request.method, "POST");
    assert_eq!(request.path, "/v1/claims/claim-9/complete");
    assert_eq!(request.body, br#"{"fencing_token":7}"#);
    assert_eq!(request.created_at, -5);
    assert_eq!(request.expires_at, 25);
}

#[test]
fn a_renewal_carries_the_expected_revision() {
    let request = renewal_request("kernel.example.test", 3, 9, 1_000);
    assert_eq!(request.method, "POST");
    assert_eq!(request.authority, "kernel.example.test");
    assert_eq!(request.path, "/v1/instances/renew");
    assert_eq!(request.body, br#"{"expected_revision":3}"#);
    assert_eq!(request.request_id, 9);
}

#[test]
fn different_calls_make_different_requests() {
    let calls = [
        KernelCall::EligibleRoutes,
        claim_call(),
        KernelCall::ProposeClaim {
            route_id: "route-42".to_owned(),
            lease_seconds: 301,
        },
        read_call(),
        completion_call(),
        KernelCall::CompleteClaim {
            claim_id: "claim-9".to_owned(),
            fencing_token: 8,
        },
    ];
    for a in &calls {
        for b in &calls {
            assert_eq!(
                a.to_request("k", 1, 1) == b.to_request("k", 1, 1),
                a == b,
                "{a:?} {b:?}"
            );
        }
    }
}

#[test]
fn requests_are_put_together_as_told() {
    let read = build_get("k:8443", "/x", 1, i64::MAX - SIGNATURE_VALIDITY_SECONDS);
    assert_eq!(read.expires_at, i64::MAX);
    assert_eq!(read.content_type, JSON_CONTENT_TYPE);
    let write = build_post("k:8443", "/y", vec![1, 2], 2, 0);
    assert_eq!((write.method, write.path.as_str()), ("POST", "/y"));
    assert_eq!(write.body, [1, 2]);
    assert_eq!(write.expires_at, 30);
}

#[test]
fn an_answer_is_read_as_one_to_its_call() {
    assert!(matches!(
        KernelCall::EligibleRoutes.read_reply(200, br#"{"routes":[]}"#),
        KernelReply::EligibleRoutes(Ok(routes)) if routes.is_empty()
    ));
    assert!(matches!(
        claim_call().read_reply(409, b"{}"),
        KernelReply::ProposeClaim(Ok(ClaimOutcome::AlreadyClaimed))
    ));
    assert!(matches!(
        claim_call().read_reply(404, b""),
        KernelReply::ProposeClaim(Ok(ClaimOutcome::RouteNotFound))
    ));
    assert!(matches!(
        read_call().read_reply(404, b"{}"),
        KernelReply::RoutedRequest(Ok(RoutedRequestOutcome::NotFound))
    ));
    assert!(matches!(
        completion_call().read_reply(409, b"{}"),
        KernelReply::CompleteClaim(Ok(CompleteOutcome::Fenced))
    ));
    assert!(matches!(
        completion_call().read_reply(401, b"{}"),
        KernelReply::CompleteClaim(Err(WorkerError::UnexpectedStatus(401)))
    ));
}

#[test]
fn a_call_that_could_not_be_made_fails_as_itself() {
    let failure = || WorkerError::Client("no route to host".to_owned());
    assert!(matches!(
        KernelCall::EligibleRoutes.fail(failure()),
        KernelReply::EligibleRoutes(Err(WorkerError::Client(message))) if message == "no route to host"
    ));
    assert!(matches!(
        claim_call().fail(failure()),
        KernelReply::ProposeClaim(Err(WorkerError::Client(_)))
    ));
    assert!(matches!(
        read_call().fail(failure()),
        KernelReply::RoutedRequest(Err(WorkerError::Client(_)))
    ));
    assert!(matches!(
        completion_call().fail(failure()),
        KernelReply::CompleteClaim(Err(WorkerError::Client(_)))
    ));
}

#[test]
fn the_claim_request_targets_the_right_route_and_carries_the_lease() {
    let body = ClaimRequest { lease_seconds: 300 }.to_json();

    let request = build_post(
        "kernel.example.test",
        "/v1/routes/route-42/claims",
        body,
        Uuid::new_v4().as_u128(),
        1_000,
    );

    assert_eq!(request.method, "POST");
    assert_eq!(request.path, "/v1/routes/route-42/claims");
    assert_eq!(request.body, br#"{"lease_seconds":300}"#);
}

#[test]
fn the_routed_request_read_targets_the_right_route() {
    let request = build_get(
        "kernel.example.test",
        "/v1/routes/route-42/request",
        Uuid::new_v4().as_u128(),
        1_000,
    );

    assert_eq!(request.method, "GET");
    assert_eq!(request.path, "/v1/routes/route-42/request");
}

#[test]
fn the_complete_request_targets_the_right_claim_and_carries_the_fencing_token() {
    let body = FencedActionRequest { fencing_token: 7 }.to_json();

    let request = build_post(
        "kernel.example.test",
        "/v1/claims/claim-9/complete",
        body,
        Uuid::new_v4().as_u128(),
        1_000,
    );

    assert_eq!(request.method, "POST");
    assert_eq!(request.path, "/v1/claims/claim-9/complete");
    assert_eq!(request.body, br#"{"fencing_token":7}"#);
}

#[test]
fn the_eligible_routes_request_verifies_under_its_own_public_key() {
    let request = build_get(
        "kernel.example.test",
        ELIGIBLE_ROUTES_PATH,
        Uuid::new_v4().as_u128(),
        1_000,
    );

    assert_eq!(request.method, "GET");
    assert_eq!(request.path, ELIGIBLE_ROUTES_PATH);
    assert!(request.body.is_empty());
}
