use infernal_worker_simple::config::Environment;
use infernal_worker_simple::error::WorkerError;
use infernal_worker_simple::instance_lease::RenewedLease;
use infernal_worker_simple::startup::{Startup, StartupEvent, StartupTask};

const SERVICE_ID_BITS: u128 = 0x67e55044_10b1_426f_9247_bb680e5fe0c8;

/// The bytes 0 to 31.
const CHALLENGE: &str = "AAECAwQFBgcICQoLDA0ODxAREhMUFRYXGBkaGxwdHh8";

fn plain() -> Environment {
    Environment {
        kernel_authority: Some("kernel.example.test".to_owned()),
        worker_service_id: Some("67e55044-10b1-426f-9247-bb680e5fe0c8".to_owned()),
        ..Environment::default()
    }
}

fn enrolling() -> Environment {
    Environment {
        enrollment_challenge: Some(CHALLENGE.to_owned()),
        service_endpoint: Some("https://worker.example.test".to_owned()),
        pod_uid: Some("pod-1".to_owned()),
        ..plain()
    }
}

fn connected(environment: Environment) -> Result<Startup, WorkerError> {
    Startup::begin(environment)
        .unwrap()
        .step(StartupEvent::Connected(Ok(())))
}

fn token_read(environment: Environment) -> Result<Startup, WorkerError> {
    connected(environment)
        .unwrap()
        .step(StartupEvent::TokenRead(Ok(" token\n".to_owned())))
}

#[test]
fn without_a_challenge_a_process_connects_and_works_without_a_lease() {
    let startup = Startup::begin(plain()).unwrap();
    assert_eq!(
        startup.task(),
        StartupTask::Connect {
            service_id: SERVICE_ID_BITS,
            authority: "kernel.example.test".to_owned(),
            extra_root: None,
        }
    );
    let startup = startup.step(StartupEvent::Connected(Ok(()))).unwrap();
    assert_eq!(startup.task(), StartupTask::Work);
    let config = startup.ready().unwrap();
    assert!(config.instance_lease.is_none());
    assert_eq!(config.lease_seconds, 300);
}

#[test]
fn with_a_challenge_a_process_enrolls_and_holds_what_it_was_granted() {
    let startup = connected(enrolling()).unwrap();
    assert_eq!(
        startup.task(),
        StartupTask::ReadToken {
            path: "/var/run/secrets/infernal-law-enrollment/token".to_owned()
        }
    );
    let startup = startup
        .step(StartupEvent::TokenRead(Ok(" token\n".to_owned())))
        .unwrap();
    match startup.task() {
        StartupTask::Enroll(enrollment) => {
            assert_eq!(enrollment.challenge[31], 31);
            assert_eq!(enrollment.endpoint, "https://worker.example.test");
            assert_eq!(enrollment.pod_uid, "pod-1");
            assert_eq!(enrollment.workload_token, "token");
        }
        other => panic!("expected to enroll, got {other:?}"),
    }
    let startup = startup.ready().unwrap_err();
    let startup = startup
        .step(StartupEvent::Enrolled(Ok(RenewedLease {
            lease_expires_at: 1_060,
            lease_revision: 4,
        })))
        .unwrap();
    // Another grant does not count any more.
    let startup = startup
        .step(StartupEvent::Enrolled(Ok(RenewedLease {
            lease_expires_at: 9,
            lease_revision: 9,
        })))
        .unwrap();
    assert_eq!(startup.task(), StartupTask::Work);
    let config = startup.ready().unwrap();
    let lease = config.instance_lease.unwrap();
    assert_eq!((lease.revision, lease.expires_at), (4, 1_060));
    assert_eq!(config.authority, "kernel.example.test");
}

#[test]
fn a_certificate_is_read_first() {
    let environment = Environment {
        kernel_ca_cert_path: Some("/etc/ca.pem".to_owned()),
        ..plain()
    };
    let startup = Startup::begin(environment.clone()).unwrap();
    assert_eq!(
        startup.task(),
        StartupTask::ReadCertificate {
            path: "/etc/ca.pem".to_owned()
        }
    );
    let startup = startup
        .step(StartupEvent::CertificateRead(Ok(vec![1, 2, 3])))
        .unwrap();
    assert_eq!(
        startup.task(),
        StartupTask::Connect {
            service_id: SERVICE_ID_BITS,
            authority: "kernel.example.test".to_owned(),
            extra_root: Some(vec![1, 2, 3]),
        }
    );
    let failed = Startup::begin(environment)
        .unwrap()
        .step(StartupEvent::CertificateRead(Err("gone".to_owned())));
    assert!(matches!(
        failed,
        Err(WorkerError::CaCertificateUnreadable(message)) if message == "gone"
    ));
}

#[test]
fn whatever_fails_first_is_reported() {
    assert!(matches!(
        Startup::begin(Environment::default()),
        Err(WorkerError::MissingEnv("KERNEL_AUTHORITY"))
    ));
    // A client that cannot be made comes before a missing variable.
    let lacking = || Environment {
        service_endpoint: None,
        pod_uid: None,
        enrollment_challenge: Some("short".to_owned()),
        ..enrolling()
    };
    let failed = Startup::begin(lacking())
        .unwrap()
        .step(StartupEvent::Connected(Err(WorkerError::Client(
            "no roots".to_owned(),
        ))));
    assert!(matches!(failed, Err(WorkerError::Client(_))));
    // A missing variable comes before the token file, and the token file before a
    // challenge that is none.
    assert!(matches!(
        connected(lacking()),
        Err(WorkerError::MissingEnv("SERVICE_ENDPOINT"))
    ));
    let spoiled = || Environment {
        enrollment_challenge: Some("short".to_owned()),
        ..enrolling()
    };
    let failed = connected(spoiled())
        .unwrap()
        .step(StartupEvent::TokenRead(Err("denied".to_owned())));
    assert!(matches!(
        failed,
        Err(WorkerError::EnrollmentTokenUnreadable(message)) if message == "denied"
    ));
    assert!(matches!(
        token_read(spoiled()),
        Err(WorkerError::InvalidEnrollmentChallenge)
    ));
    let failed = token_read(enrolling())
        .unwrap()
        .step(StartupEvent::Enrolled(Err(WorkerError::UnexpectedStatus(403))));
    assert!(matches!(failed, Err(WorkerError::UnexpectedStatus(403))));
}

#[test]
fn an_event_of_another_task_leaves_the_process_where_it_is() {
    let startup = Startup::begin(enrolling()).unwrap();
    let startup = startup
        .step(StartupEvent::Enrolled(Ok(RenewedLease {
            lease_expires_at: 9,
            lease_revision: 9,
        })))
        .unwrap();
    let startup = startup
        .step(StartupEvent::TokenRead(Err("early".to_owned())))
        .unwrap();
    assert!(matches!(startup.task(), StartupTask::Connect { .. }));
}
