use infernal_worker_simple::claims::{ClaimOutcome, CompleteOutcome, WorkClaim};
use infernal_worker_simple::config::Environment;
use infernal_worker_simple::error::WorkerError;
use infernal_worker_simple::instance_lease::RenewedLease;
use infernal_worker_simple::kernel_client::{KernelCall, KernelReply};
use infernal_worker_simple::routed_request::{RoutedRequest, RoutedRequestOutcome};
use infernal_worker_simple::routes::EligibleRoute;
use infernal_worker_simple::work_loop::{Event, Task, WorkLoop};
use infernal_worker_simple::worker::WorkOutcome;
use infernal_worker_simple::{Config, InstanceLease};

fn config(instance_lease: Option<InstanceLease>) -> Config {
    let environment = Environment {
        kernel_authority: Some("kernel.example.test".to_owned()),
        worker_service_id: Some("67e55044-10b1-426f-9247-bb680e5fe0c8".to_owned()),
        work_duration_seconds: Some("3".to_owned()),
        ..Environment::default()
    };
    let mut config = Config::from_env(&environment).unwrap();
    config.instance_lease = instance_lease;
    config
}

fn listing() -> Task {
    Task::Call {
        rest_seconds: 0,
        call: KernelCall::EligibleRoutes,
    }
}

fn replied(work_loop: WorkLoop, reply: KernelReply) -> WorkLoop {
    let (work_loop, ended) = work_loop.step(Event::Replied(reply));
    assert!(ended.is_none());
    work_loop
}

#[test]
fn a_worker_without_a_lease_goes_straight_to_work() {
    let work_loop = WorkLoop::start(&config(None), 1_000);
    assert_eq!(work_loop.task(), listing());
}

#[test]
fn a_failed_pass_is_followed_by_a_rest_and_another_pass() {
    let work_loop = WorkLoop::start(&config(None), 1_000);
    let failure = KernelReply::EligibleRoutes(Err(WorkerError::UnexpectedStatus(401)));
    let (work_loop, ended) = work_loop.step(Event::Replied(failure));
    assert!(matches!(
        ended,
        Some(Err(WorkerError::UnexpectedStatus(401)))
    ));
    assert_eq!(work_loop.task(), Task::Rest { seconds: 5 });
    let (work_loop, ended) = work_loop.step(Event::Rested { now: 1_005 });
    assert!(ended.is_none());
    assert_eq!(work_loop.task(), listing());
}

#[test]
fn a_whole_pass_holds_the_work_before_it_is_completed() {
    let claim = WorkClaim {
        claim_id: "claim-1".to_owned(),
        route_id: "route-1".to_owned(),
        worker_service_id: "w".to_owned(),
        worker_instance_id: "i".to_owned(),
        fencing_token: 6,
        status: "active".to_owned(),
        claimed_at: 1,
        lease_expires_at: 301,
    };
    let work_loop = WorkLoop::start(&config(None), 1_000);
    let work_loop = replied(
        work_loop,
        KernelReply::EligibleRoutes(Ok(vec![EligibleRoute {
            route_id: "route-1".to_owned(),
            request_id: "q".to_owned(),
            subscription_id: "s".to_owned(),
            destination_service_id: "d".to_owned(),
            created_at: 1,
        }])),
    );
    assert_eq!(
        work_loop.task(),
        Task::Call {
            rest_seconds: 0,
            call: KernelCall::ProposeClaim {
                route_id: "route-1".to_owned(),
                lease_seconds: 300
            }
        }
    );
    let work_loop = replied(
        work_loop,
        KernelReply::ProposeClaim(Ok(ClaimOutcome::Claimed(claim.clone()))),
    );
    let work_loop = replied(
        work_loop,
        KernelReply::RoutedRequest(Ok(RoutedRequestOutcome::Found(RoutedRequest {
            request_id: "q".to_owned(),
            source_service_id: "source-1".to_owned(),
            action: "act".to_owned(),
            scope: "sc".to_owned(),
            artifact_schema_version_id: "a".to_owned(),
            permission_policy_schema_version_id: "p".to_owned(),
            accepted_at: 1,
        }))),
    );
    assert_eq!(
        work_loop.task(),
        Task::Call {
            rest_seconds: 3,
            call: KernelCall::CompleteClaim {
                claim_id: "claim-1".to_owned(),
                fencing_token: 6
            }
        }
    );
    let completed = KernelReply::CompleteClaim(Ok(CompleteOutcome::Completed(claim)));
    let (work_loop, ended) = work_loop.step(Event::Replied(completed));
    assert!(matches!(
        ended,
        Some(Ok(WorkOutcome::Completed { route_id, action, claim_id }))
            if route_id == "route-1"
                && claim_id == "claim-1"
                && action == "acknowledged action `act` (scope `sc`) from source source-1"
    ));
    assert_eq!(work_loop.task(), Task::Rest { seconds: 5 });
}

#[test]
fn a_due_lease_is_renewed_before_the_work() {
    let lease = InstanceLease {
        revision: 1,
        expires_at: 1_060,
    };
    // Not due yet.
    let work_loop = WorkLoop::start(&config(Some(lease)), 1_039);
    assert_eq!(work_loop.task(), listing());
    let (work_loop, _) = work_loop.step(Event::Replied(KernelReply::EligibleRoutes(Ok(vec![]))));
    // Due, and refused: work goes on, and the next round tries again.
    let (work_loop, _) = work_loop.step(Event::Rested { now: 1_044 });
    assert_eq!(work_loop.task(), Task::Renew { revision: 1 });
    let (work_loop, ended) =
        work_loop.step(Event::Renewed(Err(WorkerError::UnexpectedStatus(503))));
    assert!(ended.is_none());
    assert_eq!(work_loop.task(), listing());
    let (work_loop, _) = work_loop.step(Event::Replied(KernelReply::EligibleRoutes(Ok(vec![]))));
    let (work_loop, _) = work_loop.step(Event::Rested { now: 1_049 });
    assert_eq!(work_loop.task(), Task::Renew { revision: 1 });
    // Granted: the next renewal is due by the new expiry, with the new revision.
    let (work_loop, _) = work_loop.step(Event::Renewed(Ok(RenewedLease {
        lease_expires_at: 1_109,
        lease_revision: 2,
    })));
    assert_eq!(work_loop.task(), listing());
    let (work_loop, _) = work_loop.step(Event::Replied(KernelReply::EligibleRoutes(Ok(vec![]))));
    let (work_loop, _) = work_loop.step(Event::Rested { now: 1_088 });
    assert_eq!(work_loop.task(), listing());
    let (work_loop, _) = work_loop.step(Event::Replied(KernelReply::EligibleRoutes(Ok(vec![]))));
    let (work_loop, _) = work_loop.step(Event::Rested { now: 1_093 });
    assert_eq!(work_loop.task(), Task::Renew { revision: 2 });
}

#[test]
fn an_event_of_another_task_changes_nothing() {
    let work_loop = WorkLoop::start(&config(None), 1_000);
    let (work_loop, ended) = work_loop.step(Event::Rested { now: 2_000 });
    assert!(ended.is_none());
    assert_eq!(work_loop.task(), listing());
    let (work_loop, ended) = work_loop.step(Event::Renewed(Ok(RenewedLease {
        lease_expires_at: 5,
        lease_revision: 5,
    })));
    assert!(ended.is_none());
    assert!(work_loop.instance_lease.is_none());
    assert_eq!(work_loop.task(), listing());
}

#[test]
fn the_loop_goes_on_round_after_round() {
    let lease = InstanceLease {
        revision: 1,
        expires_at: 1_000,
    };
    let mut work_loop = WorkLoop::start(&config(Some(lease)), 1_000);
    for round in 0..50 {
        // Every renewal and every pass fails, and still each follows the other.
        assert_eq!(work_loop.task(), Task::Renew { revision: 1 });
        work_loop = work_loop
            .step(Event::Renewed(Err(WorkerError::UnexpectedStatus(403))))
            .0;
        assert_eq!(work_loop.task(), listing());
        let failure = KernelReply::EligibleRoutes(Err(WorkerError::UnexpectedStatus(403)));
        let (resting, ended) = work_loop.step(Event::Replied(failure));
        assert!(matches!(
            ended,
            Some(Err(WorkerError::UnexpectedStatus(403)))
        ));
        assert_eq!(resting.task(), Task::Rest { seconds: 5 });
        work_loop = resting
            .step(Event::Rested {
                now: 1_005 + 5 * round,
            })
            .0;
    }
}

#[test]
fn a_lease_of_any_expiry_can_be_held_in_the_middle_of_a_pass() {
    let mut work_loop = WorkLoop::start(&config(None), 1_000);
    work_loop.instance_lease = Some(InstanceLease {
        revision: 1,
        expires_at: i64::MIN,
    });
    let (work_loop, ended) = work_loop.step(Event::Rested { now: 1_005 });
    assert!(ended.is_none());
    assert_eq!(work_loop.task(), listing());
}
