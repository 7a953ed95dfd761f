use infernal_worker_simple::claims::{ClaimOutcome, CompleteOutcome, WorkClaim};
use infernal_worker_simple::error::WorkerError;
use infernal_worker_simple::kernel_client::{perform, KernelCall, KernelPort, KernelReply};
use infernal_worker_simple::routed_request::{RoutedRequest, RoutedRequestOutcome};
use infernal_worker_simple::routes::EligibleRoute;
use infernal_worker_simple::worker::{execute, work_once, Pass, Progress, WorkOutcome};

#[derive(Default)]
struct FakePort {
    routes: Vec<EligibleRoute>,
    claim_outcome: Option<ClaimOutcome>,
    request_outcome: Option<RoutedRequestOutcome>,
    complete_outcome: Option<CompleteOutcome>,
}

impl KernelPort for FakePort {
    fn eligible_routes(&self) -> Result<Vec<EligibleRoute>, WorkerError> {
        Ok(self.routes.clone())
    }

    fn propose_claim(
        &self,
        _route_id: &str,
        _lease_seconds: i64,
    ) -> Result<ClaimOutcome, WorkerError> {
        Ok(self
            .claim_outcome
            .clone()
            .unwrap_or(ClaimOutcome::AlreadyClaimed))
    }

    fn routed_request(&self, _route_id: &str) -> Result<RoutedRequestOutcome, WorkerError> {
        Ok(self
            .request_outcome
            .clone()
            .unwrap_or(RoutedRequestOutcome::NotFound))
    }

    fn complete_claim(
        &self,
        _claim_id: &str,
        _fencing_token: i64,
    ) -> Result<CompleteOutcome, WorkerError> {
        Ok(self
            .complete_outcome
            .clone()
            .unwrap_or(CompleteOutcome::NotFound))
    }
}

fn route() -> EligibleRoute {
    EligibleRoute {
        route_id: "route-1".to_owned(),
        request_id: "request-1".to_owned(),
        subscription_id: "subscription-1".to_owned(),
        destination_service_id: "destination-1".to_owned(),
        created_at: 1,
    }
}

fn claim() -> WorkClaim {
    WorkClaim {
        claim_id: "claim-1".to_owned(),
        route_id: "route-1".to_owned(),
        worker_service_id: "destination-1".to_owned(),
        worker_instance_id: "instance-1".to_owned(),
        fencing_token: 1,
        status: "active".to_owned(),
        claimed_at: 1,
        lease_expires_at: 301,
    }
}

fn routed_request() -> RoutedRequest {
    RoutedRequest {
        request_id: "request-1".to_owned(),
        source_service_id: "source-1".to_owned(),
        action: "billing.invoice.submit".to_owned(),
        scope: "invoice-42".to_owned(),
        artifact_schema_version_id: "a1".to_owned(),
        permission_policy_schema_version_id: "p1".to_owned(),
        accepted_at: 1,
    }
}

#[test]
fn does_nothing_when_no_route_is_eligible() {
    let port = FakePort::default();

    let outcome = work_once(&port, 300).unwrap();

    assert!(matches!(outcome, WorkOutcome::NothingEligible));
}

#[test]
fn reports_a_lost_claim_race_without_erroring() {
    let port = FakePort {
        routes: vec![route()],
        claim_outcome: Some(ClaimOutcome::AlreadyClaimed),
        ..FakePort::default()
    };

    let outcome = work_once(&port, 300).unwrap();

    assert!(matches!(outcome, WorkOutcome::ClaimLost { route_id } if route_id == "route-1"));
}

#[test]
fn reports_an_unavailable_request_without_completing_blind() {
    let port = FakePort {
        routes: vec![route()],
        claim_outcome: Some(ClaimOutcome::Claimed(claim())),
        request_outcome: Some(RoutedRequestOutcome::NotFound),
        ..FakePort::default()
    };

    let outcome = work_once(&port, 300).unwrap();

    assert!(
        matches!(outcome, WorkOutcome::RequestUnavailable { route_id } if route_id == "route-1")
    );
}

#[test]
fn reports_fencing_loss_before_completion_without_erroring() {
    let port = FakePort {
        routes: vec![route()],
        claim_outcome: Some(ClaimOutcome::Claimed(claim())),
        request_outcome: Some(RoutedRequestOutcome::Found(routed_request())),
        complete_outcome: Some(CompleteOutcome::Fenced),
    };

    let outcome = work_once(&port, 300).unwrap();

    assert!(matches!(
        outcome,
        WorkOutcome::LostBeforeCompletion { route_id, claim_id }
            if route_id == "route-1" && claim_id == "claim-1"
    ));
}

#[test]
fn completes_the_full_receive_execute_complete_loop() {
    let port = FakePort {
        routes: vec![route()],
        claim_outcome: Some(ClaimOutcome::Claimed(claim())),
        request_outcome: Some(RoutedRequestOutcome::Found(routed_request())),
        complete_outcome: Some(CompleteOutcome::Completed(WorkClaim {
            status: "completed".to_owned(),
            ..claim()
        })),
    };

    let outcome = work_once(&port, 300).unwrap();

    match outcome {
        WorkOutcome::Completed {
            route_id,
            action,
            claim_id,
        } => {
            assert_eq!(route_id, "route-1");
            assert_eq!(claim_id, "claim-1");
            assert!(action.contains("billing.invoice.submit"));
            assert!(action.contains("invoice-42"));
        }
        other => panic!("expected Completed, got {other:?}"),
    }
}

/// A kernel that fails one of its calls, and notes what it was asked.
struct FailingPort {
    failing: usize,
    asked: std::cell::RefCell<Vec<String>>,
}

impl FailingPort {
    fn new(failing: usize) -> Self {
        FailingPort {
            failing,
            asked: std::cell::RefCell::new(Vec::new()),
        }
    }

    fn note<T>(&self, asked: String, answer: T) -> Result<T, WorkerError> {
        let mut list = self.asked.borrow_mut();
        list.push(asked);
        if list.len() == self.failing {
            Err(WorkerError::UnexpectedStatus(500 + self.failing as u16))
        } else {
            Ok(answer)
        }
    }
}

impl KernelPort for FailingPort {
    fn eligible_routes(&self) -> Result<Vec<EligibleRoute>, WorkerError> {
        let mut second = route();
        second.route_id = "route-2".to_owned();
        self.note("list".to_owned(), vec![route(), second])
    }

    fn propose_claim(
        &self,
        route_id: &str,
        lease_seconds: i64,
    ) -> Result<ClaimOutcome, WorkerError> {
        self.note(
            format!("claim {route_id} {lease_seconds}"),
            ClaimOutcome::Claimed(claim()),
        )
    }

    fn routed_request(&self, route_id: &str) -> Result<RoutedRequestOutcome, WorkerError> {
        self.note(
            format!("read {route_id}"),
            RoutedRequestOutcome::Found(routed_request()),
        )
    }

    fn complete_claim(
        &self,
        claim_id: &str,
        fencing_token: i64,
    ) -> Result<CompleteOutcome, WorkerError> {
        self.note(
            format!("complete {claim_id} {fencing_token}"),
            CompleteOutcome::Completed(claim()),
        )
    }
}

#[test]
fn a_pass_asks_for_the_oldest_route_and_ends_with_the_first_failure() {
    let asked = ["list", "claim route-1 300", "read route-1", "complete claim-1 1"];
    for failing in 1..=4 {
        let port = FailingPort::new(failing);
        let result = work_once(&port, 300);
        let expected = 500 + failing as u16;
        assert!(matches!(result, Err(WorkerError::UnexpectedStatus(status)) if status == expected));
        assert_eq!(*port.asked.borrow(), asked[..failing]);
    }
    let port = FailingPort::new(0);
    assert!(matches!(
        work_once(&port, 300),
        Ok(WorkOutcome::Completed { .. })
    ));
    assert_eq!(*port.asked.borrow(), asked);
}

#[test]
fn a_route_that_is_gone_is_a_lost_claim() {
    let port = FakePort {
        routes: vec![route()],
        claim_outcome: Some(ClaimOutcome::RouteNotFound),
        ..FakePort::default()
    };
    assert!(matches!(
        work_once(&port, 300),
        Ok(WorkOutcome::ClaimLost { route_id }) if route_id == "route-1"
    ));
}

#[test]
fn a_claim_that_is_gone_is_lost_before_completion() {
    let port = FakePort {
        routes: vec![route()],
        claim_outcome: Some(ClaimOutcome::Claimed(claim())),
        request_outcome: Some(RoutedRequestOutcome::Found(routed_request())),
        complete_outcome: Some(CompleteOutcome::NotFound),
    };
    assert!(matches!(
        work_once(&port, 300),
        Ok(WorkOutcome::LostBeforeCompletion { route_id, claim_id })
            if route_id == "route-1" && claim_id == "claim-1"
    ));
}

#[test]
fn executing_acknowledges_the_request() {
    assert_eq!(
        execute(&routed_request()),
        "acknowledged action `billing.invoice.submit` (scope `invoice-42`) from source source-1"
    );
}

#[test]
fn a_pass_goes_on_reply_by_reply() {
    let pass = Pass::begin(60);
    assert_eq!(pass.call(), KernelCall::EligibleRoutes);
    assert_eq!(pass.rest_seconds(9), 0);
    // A reply to another call leaves the pass where it is.
    let pass = match pass.advance(KernelReply::CompleteClaim(Ok(CompleteOutcome::Fenced))) {
        Progress::Waiting(pass) => pass,
        other => panic!("expected Waiting, got {other:?}"),
    };
    assert_eq!(pass.call(), KernelCall::EligibleRoutes);
    let pass = match pass.advance(KernelReply::EligibleRoutes(Ok(vec![route()]))) {
        Progress::Waiting(pass) => pass,
        other => panic!("expected Waiting, got {other:?}"),
    };
    assert_eq!(
        pass.call(),
        KernelCall::ProposeClaim {
            route_id: "route-1".to_owned(),
            lease_seconds: 60
        }
    );
    assert_eq!(pass.rest_seconds(9), 0);
    let pass = match pass.advance(KernelReply::ProposeClaim(Ok(ClaimOutcome::Claimed(claim())))) {
        Progress::Waiting(pass) => pass,
        other => panic!("expected Waiting, got {other:?}"),
    };
    assert_eq!(
        pass.call(),
        KernelCall::RoutedRequest {
            route_id: "route-1".to_owned()
        }
    );
    let found = RoutedRequestOutcome::Found(routed_request());
    let pass = match pass.advance(KernelReply::RoutedRequest(Ok(found))) {
        Progress::Waiting(pass) => pass,
        other => panic!("expected Waiting, got {other:?}"),
    };
    assert_eq!(
        pass.call(),
        KernelCall::CompleteClaim {
            claim_id: "claim-1".to_owned(),
            fencing_token: 1
        }
    );
    assert_eq!(pass.rest_seconds(9), 9);
    match pass.advance(KernelReply::CompleteClaim(Err(
        WorkerError::UnexpectedStatus(500),
    ))) {
        Progress::Finished(Err(WorkerError::UnexpectedStatus(500))) => {}
        other => panic!("expected a failed pass, got {other:?}"),
    }
}

#[test]
fn a_call_is_made_through_the_method_that_it_names() {
    let port = FailingPort::new(0);
    assert!(matches!(
        perform(&port, &KernelCall::EligibleRoutes),
        KernelReply::EligibleRoutes(Ok(routes)) if routes.len() == 2
    ));
    assert!(matches!(
        perform(
            &port,
            &KernelCall::CompleteClaim {
                claim_id: "c".to_owned(),
                fencing_token: 3
            }
        ),
        KernelReply::CompleteClaim(Ok(CompleteOutcome::Completed(_)))
    ));
    assert!(matches!(
        perform(
            &port,
            &KernelCall::RoutedRequest {
                route_id: "r".to_owned()
            }
        ),
        KernelReply::RoutedRequest(Ok(RoutedRequestOutcome::Found(_)))
    ));
    assert!(matches!(
        perform(
            &port,
            &KernelCall::ProposeClaim {
                route_id: "r".to_owned(),
                lease_seconds: 1
            }
        ),
        KernelReply::ProposeClaim(Ok(ClaimOutcome::Claimed(_)))
    ));
    assert_eq!(*port.asked.borrow(), ["list", "complete c 3", "read r", "claim r 1"]);
}
