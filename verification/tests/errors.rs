use infernal_worker_simple::error::WorkerError;

#[test]
fn every_failure_says_what_it_is() {
    let told = |error: WorkerError| error.message();
    assert_eq!(
        told(WorkerError::MissingEnv("KERNEL_AUTHORITY")),
        "missing required environment variable KERNEL_AUTHORITY"
    );
    assert_eq!(
        told(WorkerError::InvalidServiceId),
        "service ID must be a UUID"
    );
    assert_eq!(
        told(WorkerError::Client("refused".to_owned())),
        "kernel client error: refused"
    );
    assert_eq!(
        told(WorkerError::UnexpectedStatus(503)),
        "kernel returned unexpected status 503"
    );
    assert_eq!(
        told(WorkerError::UnexpectedStatus(u16::MAX)),
        "kernel returned unexpected status 65535"
    );
    assert_eq!(
        told(WorkerError::MalformedResponse("eof".to_owned())),
        "malformed kernel response: eof"
    );
    assert_eq!(
        told(WorkerError::CaCertificateUnreadable("gone".to_owned())),
        "could not read the kernel CA certificate: gone"
    );
    assert_eq!(
        told(WorkerError::EnrollmentTokenUnreadable("gone".to_owned())),
        "could not read the enrollment workload token: gone"
    );
    assert_eq!(
        told(WorkerError::InvalidEnrollmentChallenge),
        "enrollment challenge must be 32 base64url-encoded bytes"
    );
}
