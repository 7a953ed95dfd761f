use infernal_worker_simple::config::{
    read_signed, read_unsigned, Environment, DEFAULT_LEASE_SECONDS,
    DEFAULT_POLL_INTERVAL_SECONDS, ENROLLMENT_CHALLENGE_ENV, KERNEL_AUTHORITY_ENV, POD_UID_ENV,
    SERVICE_ENDPOINT_ENV, WORKER_SERVICE_ID_ENV,
};
use infernal_worker_simple::enrollment::{
    challenge_from, decode_challenge, EnrollmentPlan, CHALLENGE_LENGTH,
};
use infernal_worker_simple::error::WorkerError;
use infernal_worker_simple::Config;

const SERVICE_ID: &str = "67e55044-10b1-426f-9247-bb680e5fe0c8";
const SERVICE_ID_BITS: u128 = 0x67e55044_10b1_426f_9247_bb680e5fe0c8;

/// The bytes 0 to 31.
const CHALLENGE: &str = "AAECAwQFBgcICQoLDA0ODxAREhMUFRYXGBkaGxwdHh8";

fn environment() -> Environment {
    Environment {
        kernel_authority: Some("kernel.example.test".to_owned()),
        worker_service_id: Some(SERVICE_ID.to_owned()),
        ..Environment::default()
    }
}

fn counting() -> [u8; CHALLENGE_LENGTH] {
    let mut bytes = [0; CHALLENGE_LENGTH];
    for (i, byte) in bytes.iter_mut().enumerate() {
        *byte = i as u8;
    }
    bytes
}

#[test]
fn what_is_not_set_has_its_default() {
    let config = Config::from_env(&environment()).unwrap();
    assert_eq!(config.authority, "kernel.example.test");
    assert_eq!(config.service_id, SERVICE_ID_BITS);
    assert_eq!(config.lease_seconds, 300);
    assert_eq!(config.poll_interval_seconds, 5);
    assert_eq!(config.work_duration_seconds, 0);
    assert_eq!(config.ca_certificate_path, None);
    assert!(config.instance_lease.is_none());
    assert_eq!(DEFAULT_LEASE_SECONDS, 300);
    assert_eq!(DEFAULT_POLL_INTERVAL_SECONDS, 5);
}

#[test]
fn what_is_set_is_taken() {
    let config = Config::from_env(&Environment {
        claim_lease_seconds: Some("-60".to_owned()),
        poll_interval_seconds: Some("0".to_owned()),
        work_duration_seconds: Some("+7".to_owned()),
        kernel_ca_cert_path: Some("/etc/ca.pem".to_owned()),
        ..environment()
    })
    .unwrap();
    assert_eq!(config.lease_seconds, -60);
    assert_eq!(config.poll_interval_seconds, 0);
    assert_eq!(config.work_duration_seconds, 7);
    assert_eq!(config.ca_certificate_path.as_deref(), Some("/etc/ca.pem"));
}

#[test]
fn numbers_that_cannot_be_read_are_as_good_as_not_set() {
    let config = Config::from_env(&Environment {
        claim_lease_seconds: Some("soon".to_owned()),
        poll_interval_seconds: Some("-5".to_owned()),
        work_duration_seconds: Some("1.5".to_owned()),
        ..environment()
    })
    .unwrap();
    assert_eq!(config.lease_seconds, 300);
    assert_eq!(config.poll_interval_seconds, 5);
    assert_eq!(config.work_duration_seconds, 0);
    assert_eq!(read_signed(&Some("9223372036854775808".to_owned()), 4), 4);
    assert_eq!(read_signed(&None, 4), 4);
    assert_eq!(read_unsigned(&Some("18446744073709551615".to_owned()), 4), u64::MAX);
    assert_eq!(read_unsigned(&Some("".to_owned()), 4), 4);
}

#[test]
fn the_authority_and_the_service_id_are_required() {
    assert!(matches!(
        Config::from_env(&Environment::default()),
        Err(WorkerError::MissingEnv(name)) if name == KERNEL_AUTHORITY_ENV
    ));
    let mut lacking = environment();
    lacking.worker_service_id = None;
    assert!(matches!(
        Config::from_env(&lacking),
        Err(WorkerError::MissingEnv(name)) if name == WORKER_SERVICE_ID_ENV
    ));
    // The authority is missed first.
    lacking.kernel_authority = None;
    lacking.worker_service_id = Some("no id".to_owned());
    assert!(matches!(
        Config::from_env(&lacking),
        Err(WorkerError::MissingEnv("KERNEL_AUTHORITY"))
    ));
}

#[test]
fn the_service_id_is_a_uuid() {
    let with_id = |id: &str| {
        Config::from_env(&Environment {
            worker_service_id: Some(id.to_owned()),
            ..environment()
        })
    };
    for id in [
        "67e5504410b1426f9247bb680e5fe0c8",
        "67E55044-10B1-426F-9247-BB680E5FE0C8",
        "urn:uuid:67e55044-10b1-426f-9247-bb680e5fe0c8",
        "{67e55044-10b1-426f-9247-bb680e5fe0c8}",
    ] {
        assert_eq!(with_id(id).unwrap().service_id, SERVICE_ID_BITS, "{id}");
    }
    for id in ["", "worker-1", "67e55044-10b1-426f-9247-bb680e5fe0c", "zz"] {
        assert!(
            matches!(with_id(id), Err(WorkerError::InvalidServiceId)),
            "{id}"
        );
    }
}

#[test]
fn the_configuration_takes_the_service_id_as_it_was_read() {
    let config = Config::with_service_id(&environment(), Some(12)).unwrap();
    assert_eq!(config.service_id, 12);
    assert!(matches!(
        Config::with_service_id(&environment(), None),
        Err(WorkerError::InvalidServiceId)
    ));
    let mut lacking = environment();
    lacking.worker_service_id = None;
    assert!(matches!(
        Config::with_service_id(&lacking, Some(12)),
        Err(WorkerError::MissingEnv("WORKER_SERVICE_ID"))
    ));
}

#[test]
fn enrollment_is_asked_for_by_a_challenge() {
    let mut environment = environment();
    environment.service_endpoint = Some("https://worker.example.test".to_owned());
    assert_eq!(environment.enrollment_plan().unwrap(), None);
    environment.enrollment_challenge = Some(CHALLENGE.to_owned());
    assert!(matches!(
        environment.enrollment_plan(),
        Err(WorkerError::MissingEnv(name)) if name == POD_UID_ENV
    ));
    environment.pod_uid = Some("pod-1".to_owned());
    assert_eq!(
        environment.enrollment_plan().unwrap().unwrap(),
        EnrollmentPlan {
            challenge: CHALLENGE.to_owned(),
            endpoint: "https://worker.example.test".to_owned(),
            pod_uid: "pod-1".to_owned(),
            token_path: "/var/run/secrets/infernal-law-enrollment/token".to_owned(),
        }
    );
    environment.workload_token_path = Some("/tmp/token".to_owned());
    assert_eq!(
        environment.enrollment_plan().unwrap().unwrap().token_path,
        "/tmp/token"
    );
    environment.service_endpoint = None;
    environment.pod_uid = None;
    assert!(matches!(
        environment.enrollment_plan(),
        Err(WorkerError::MissingEnv(name)) if name == SERVICE_ENDPOINT_ENV
    ));
    assert_eq!(ENROLLMENT_CHALLENGE_ENV, "ENROLLMENT_CHALLENGE");
}

#[test]
fn a_challenge_is_the_base64url_form_of_32_bytes() {
    assert_eq!(decode_challenge(CHALLENGE).unwrap(), counting());
    let ones = "_".repeat(42) + "8";
    assert_eq!(decode_challenge(&ones).unwrap(), [255; CHALLENGE_LENGTH]);
    let zeros = "A".repeat(43);
    assert_eq!(decode_challenge(&zeros).unwrap(), [0; CHALLENGE_LENGTH]);
}

#[test]
fn whatever_else_is_no_challenge() {
    let refused = [
        // Too short, too long, empty.
        "A".repeat(42),
        "A".repeat(44),
        String::new(),
        // Padded, with bits left over, in the other alphabet, with white space.
        format!("{CHALLENGE}="),
        "_".repeat(42) + "9",
        "/".repeat(42) + "8",
        format!("{CHALLENGE}\n"),
        "\u{e4}".repeat(43),
    ];
    for text in refused {
        assert!(
            matches!(
                decode_challenge(&text),
                Err(WorkerError::InvalidEnrollmentChallenge)
            ),
            "{text}"
        );
    }
}

#[test]
fn as_many_bytes_as_a_challenge_has_are_one() {
    assert_eq!(
        challenge_from(Some(counting().to_vec())).unwrap(),
        counting()
    );
    assert!(matches!(
        challenge_from(Some(vec![0; 31])),
        Err(WorkerError::InvalidEnrollmentChallenge)
    ));
    assert!(matches!(
        challenge_from(None),
        Err(WorkerError::InvalidEnrollmentChallenge)
    ));
}

#[test]
fn a_submission_carries_the_token_without_white_space() {
    let plan = EnrollmentPlan {
        challenge: CHALLENGE.to_owned(),
        endpoint: "https://worker.example.test".to_owned(),
        pod_uid: "pod-1".to_owned(),
        token_path: "/tmp/token".to_owned(),
    };
    let submission = plan.clone().submission("  SECRET token\n").unwrap();
    assert_eq!(submission.challenge, counting());
    assert_eq!(submission.endpoint, "https://worker.example.test");
    assert_eq!(submission.pod_uid, "pod-1");
    assert_eq!(submission.workload_token, "SECRET token");
    let spoiled = EnrollmentPlan {
        challenge: "short".to_owned(),
        ..plan
    };
    assert!(matches!(
        spoiled.submission("token"),
        Err(WorkerError::InvalidEnrollmentChallenge)
    ));
}

#[test]
fn enrolling_adds_the_lease_and_changes_nothing_else() {
    let mut environment = environment();
    environment.enrollment_challenge = Some(CHALLENGE.to_owned());
    let config = Config::from_env(&environment).unwrap();
    assert!(config.instance_lease.is_none());
    let config = config.enrolled(3, 1_060);
    let lease = config.instance_lease.unwrap();
    assert_eq!((lease.revision, lease.expires_at), (3, 1_060));
    assert_eq!(config.authority, "kernel.example.test");
    assert_eq!(config.service_id, SERVICE_ID_BITS);
    assert_eq!(config.lease_seconds, 300);
}
