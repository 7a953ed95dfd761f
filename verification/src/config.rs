//! The configuration of the worker, from the environment of its process.

use crate::enrollment::{EnrollmentPlan, EnrollmentPlanView};
use crate::error;
use crate::error::{WorkerError, WorkerErrorView};
use crate::instance_lease::InstanceLease;
use crate::text;
use vstd::prelude::*;
use vstd::string::*;

verus! {

/// The kernel's host and, if needed, port. Required.
pub const KERNEL_AUTHORITY_ENV: &'static str = "KERNEL_AUTHORITY";

/// This service's own ID, a UUID. Required.
pub const WORKER_SERVICE_ID_ENV: &'static str = "WORKER_SERVICE_ID";

/// The lease to propose with each claim.
pub const CLAIM_LEASE_SECONDS_ENV: &'static str = "CLAIM_LEASE_SECONDS";

/// How often to look for work.
pub const POLL_INTERVAL_SECONDS_ENV: &'static str = "POLL_INTERVAL_SECONDS";

/// How long to hold work between claiming and completing it, to open a window in
/// which this process can be killed with a claim in hand.
pub const WORK_DURATION_SECONDS_ENV: &'static str = "WORK_DURATION_SECONDS";

/// A file with a certificate authority to trust besides the public ones.
pub const KERNEL_CA_CERT_PATH_ENV: &'static str = "KERNEL_CA_CERT_PATH";

/// The enrollment challenge, in base64url. Unset where this process need not
/// enroll itself; where it is set, the endpoint and the Pod UID are required.
pub const ENROLLMENT_CHALLENGE_ENV: &'static str = "ENROLLMENT_CHALLENGE";

/// This process's own HTTPS endpoint.
pub const SERVICE_ENDPOINT_ENV: &'static str = "SERVICE_ENDPOINT";

/// The UID of this process's Pod.
pub const POD_UID_ENV: &'static str = "POD_UID";

/// The file that holds the workload token.
pub const WORKLOAD_TOKEN_PATH_ENV: &'static str = "WORKLOAD_TOKEN_PATH";

/// Where the workload token is, unless the environment says otherwise.
pub const DEFAULT_WORKLOAD_TOKEN_PATH: &'static str =
    "/var/run/secrets/infernal-law-enrollment/token";

/// The lease to propose, unless the environment says otherwise.
pub const DEFAULT_LEASE_SECONDS: i64 = 300;

/// How often to look for work, unless the environment says otherwise.
pub const DEFAULT_POLL_INTERVAL_SECONDS: u64 = 5;

/// The variables of the environment that matter, each with its value where it is
/// set to a text.
#[derive(Clone, Debug, Default)]
pub struct Environment {
    pub kernel_authority: Option<String>,
    pub worker_service_id: Option<String>,
    pub claim_lease_seconds: Option<String>,
    pub poll_interval_seconds: Option<String>,
    pub work_duration_seconds: Option<String>,
    pub kernel_ca_cert_path: Option<String>,
    pub enrollment_challenge: Option<String>,
    pub service_endpoint: Option<String>,
    pub pod_uid: Option<String>,
    pub workload_token_path: Option<String>,
}

/// The value of a variable as a character sequence.
pub open spec fn value_view(value: Option<String>) -> Option<Seq<char>> {
    match value {
        Some(value) => Some(value@),
        None => None,
    }
}

/// What `uuid` reads in a text: the 128 bits of a UUID, or nothing.
pub uninterp spec fn uuid_of(text: Seq<char>) -> Option<u128>;

/// `uuid::Uuid::parse_str`. Claimed: the outcome depends on the text alone.
#[verifier::external_body]
fn parse_uuid(text: &str) -> (id: Option<u128>)
    ensures
        id == uuid_of(text@),
{
    uuid::Uuid::parse_str(text).ok().map(|id| id.as_u128())
}

/// The signed number that a variable holds, or `otherwise` where it holds none
/// that fits.
pub open spec fn signed_setting(value: Option<Seq<char>>, otherwise: i64) -> i64 {
    match value {
        Some(value) => match text::signed_number(value) {
            Some(n) if i64::MIN <= n <= i64::MAX => n as i64,
            _ => otherwise,
        },
        None => otherwise,
    }
}

/// The unsigned number that a variable holds, or `otherwise` where it holds none
/// that fits.
pub open spec fn unsigned_setting(value: Option<Seq<char>>, otherwise: u64) -> u64 {
    match value {
        Some(value) => match text::unsigned_number(value) {
            Some(n) if n <= u64::MAX => n as u64,
            _ => otherwise,
        },
        None => otherwise,
    }
}

/// Reads a signed number from a variable.
pub fn read_signed(value: &Option<String>, otherwise: i64) -> (setting: i64)
    ensures
        setting == signed_setting(value_view(*value), otherwise),
{
    match value {
        Some(value) => match text::parse_signed(value.as_str()) {
            Some(n) => n,
            None => otherwise,
        },
        None => otherwise,
    }
}

/// Reads an unsigned number from a variable.
pub fn read_unsigned(value: &Option<String>, otherwise: u64) -> (setting: u64)
    ensures
        setting == unsigned_setting(value_view(*value), otherwise),
{
    match value {
        Some(value) => match text::parse_unsigned(value.as_str()) {
            Some(n) => n,
            None => otherwise,
        },
        None => otherwise,
    }
}

/// How the worker is to run.
#[derive(Clone, Debug)]
pub struct Config {
    /// The kernel's host and, if needed, port.
    pub authority: String,
    /// This service's own ID.
    pub service_id: u128,
    /// The lease to propose with each claim.
    pub lease_seconds: i64,
    /// How long to rest between two passes.
    pub poll_interval_seconds: u64,
    /// How long to hold work before it is completed.
    pub work_duration_seconds: u64,
    /// A file with a certificate authority to trust besides the public ones.
    pub ca_certificate_path: Option<String>,
    /// This process's own lease, where it enrolled itself. A process that was
    /// enrolled otherwise cannot know its lease, and does not renew it.
    pub instance_lease: Option<InstanceLease>,
}

/// A [`Config`] with its texts as character sequences.
pub struct ConfigView {
    pub authority: Seq<char>,
    pub service_id: u128,
    pub lease_seconds: i64,
    pub poll_interval_seconds: u64,
    pub work_duration_seconds: u64,
    pub ca_certificate_path: Option<Seq<char>>,
    pub instance_lease: Option<InstanceLease>,
}

impl View for Config {
    type V = ConfigView;

    open spec fn view(&self) -> ConfigView {
        ConfigView {
            authority: self.authority@,
            service_id: self.service_id,
            lease_seconds: self.lease_seconds,
            poll_interval_seconds: self.poll_interval_seconds,
            work_duration_seconds: self.work_duration_seconds,
            ca_certificate_path: value_view(self.ca_certificate_path),
            instance_lease: self.instance_lease,
        }
    }
}

/// The configuration that an environment asks for, where its service ID reads as
/// `service_id`. A missing authority is reported before a missing service ID, and
/// that before one that is no UUID; numbers that cannot be read are as good as not
/// set. No lease is held yet.
pub open spec fn config_of(environment: Environment, service_id: Option<u128>) -> Result<
    ConfigView,
    WorkerErrorView,
> {
    if environment.kernel_authority is None {
        Err(WorkerErrorView::MissingEnv(KERNEL_AUTHORITY_ENV@))
    } else if environment.worker_service_id is None {
        Err(WorkerErrorView::MissingEnv(WORKER_SERVICE_ID_ENV@))
    } else {
        match service_id {
            None => Err(WorkerErrorView::InvalidServiceId),
            Some(id) => Ok(
                ConfigView {
                    authority: environment.kernel_authority->Some_0@,
                    service_id: id,
                    lease_seconds: signed_setting(
                        value_view(environment.claim_lease_seconds),
                        DEFAULT_LEASE_SECONDS,
                    ),
                    poll_interval_seconds: unsigned_setting(
                        value_view(environment.poll_interval_seconds),
                        DEFAULT_POLL_INTERVAL_SECONDS,
                    ),
                    work_duration_seconds: unsigned_setting(
                        value_view(environment.work_duration_seconds),
                        0,
                    ),
                    ca_certificate_path: value_view(environment.kernel_ca_cert_path),
                    instance_lease: None,
                },
            ),
        }
    }
}

/// The service ID that an environment holds.
pub open spec fn service_id_of(environment: Environment) -> Option<u128> {
    match environment.worker_service_id {
        Some(text) => uuid_of(text@),
        None => None,
    }
}

impl Config {
    /// Takes the configuration from an environment whose service ID has been read.
    pub fn with_service_id(environment: &Environment, service_id: Option<u128>) -> (config: Result<
        Config,
        WorkerError,
    >)
        ensures
            error::result_view(config) == config_of(*environment, service_id),
    {
        let authority = match &environment.kernel_authority {
            Some(authority) => authority.clone(),
            None => {
                return Err(WorkerError::MissingEnv(KERNEL_AUTHORITY_ENV));
            },
        };
        if environment.worker_service_id.is_none() {
            return Err(WorkerError::MissingEnv(WORKER_SERVICE_ID_ENV));
        }
        let service_id: u128 = match service_id {
            Some(id) => id,
            None => {
                return Err(WorkerError::InvalidServiceId);
            },
        };
        let ca_certificate_path: Option<String> = match &environment.kernel_ca_cert_path {
            Some(path) => Some(path.clone()),
            None => None,
        };
        Ok(
            Config {
                authority,
                service_id,
                lease_seconds: read_signed(
                    &environment.claim_lease_seconds,
                    DEFAULT_LEASE_SECONDS,
                ),
                poll_interval_seconds: read_unsigned(
                    &environment.poll_interval_seconds,
                    DEFAULT_POLL_INTERVAL_SECONDS,
                ),
                work_duration_seconds: read_unsigned(&environment.work_duration_seconds, 0),
                ca_certificate_path,
                instance_lease: None,
            },
        )
    }

    /// Takes the configuration from an environment. The variables that ask for
    /// enrollment are not looked at here, but by [`Environment::enrollment_plan`]: no
    /// lease is held until [`Config::enrolled`] tells of one.
    pub fn from_env(environment: &Environment) -> (config: Result<Config, WorkerError>)
        ensures
            error::result_view(config) == config_of(*environment, service_id_of(*environment)),
    {
        let service_id: Option<u128> = match &environment.worker_service_id {
            Some(text) => parse_uuid(text.as_str()),
            None => None,
        };
        Config::with_service_id(environment, service_id)
    }

    /// The configuration of a process that has enrolled itself, with the lease that it
    /// was granted.
    pub fn enrolled(self, lease_revision: i64, lease_expires_at: i64) -> (config: Config)
        ensures
            config@ == (ConfigView {
                instance_lease: Some(
                    InstanceLease { revision: lease_revision, expires_at: lease_expires_at },
                ),
                ..self@
            }),
    {
        Config {
            instance_lease: Some(
                InstanceLease { revision: lease_revision, expires_at: lease_expires_at },
            ),
            ..self
        }
    }
}

/// The enrollment that an environment asks for: none without a challenge, and with
/// one, an error where the endpoint or else the Pod UID is missing.
pub open spec fn enrollment_plan_of(environment: Environment) -> Result<
    Option<EnrollmentPlanView>,
    WorkerErrorView,
> {
    if environment.enrollment_challenge is None {
        Ok(None)
    } else if environment.service_endpoint is None {
        Err(WorkerErrorView::MissingEnv(SERVICE_ENDPOINT_ENV@))
    } else if environment.pod_uid is None {
        Err(WorkerErrorView::MissingEnv(POD_UID_ENV@))
    } else {
        Ok(
            Some(
                EnrollmentPlanView {
                    challenge: environment.enrollment_challenge->Some_0@,
                    endpoint: environment.service_endpoint->Some_0@,
                    pod_uid: environment.pod_uid->Some_0@,
                    token_path: match environment.workload_token_path {
                        Some(path) => path@,
                        None => DEFAULT_WORKLOAD_TOKEN_PATH@,
                    },
                },
            ),
        )
    }
}

/// A plan, or none, or an error, by their views.
pub open spec fn plan_result_view(result: Result<Option<EnrollmentPlan>, WorkerError>) -> Result<
    Option<EnrollmentPlanView>,
    WorkerErrorView,
> {
    match result {
        Ok(Some(plan)) => Ok(Some(plan@)),
        Ok(None) => Ok(None),
        Err(error) => Err(error@),
    }
}

impl Environment {
    /// Takes from the environment whether and how to enroll.
    pub fn enrollment_plan(&self) -> (plan: Result<Option<EnrollmentPlan>, WorkerError>)
        ensures
            plan_result_view(plan) == enrollment_plan_of(*self),
    {
        let challenge: String = match &self.enrollment_challenge {
            Some(challenge) => challenge.clone(),
            None => {
                return Ok(None);
            },
        };
        let endpoint: String = match &self.service_endpoint {
            Some(endpoint) => endpoint.clone(),
            None => {
                return Err(WorkerError::MissingEnv(SERVICE_ENDPOINT_ENV));
            },
        };
        let pod_uid: String = match &self.pod_uid {
            Some(pod_uid) => pod_uid.clone(),
            None => {
                return Err(WorkerError::MissingEnv(POD_UID_ENV));
            },
        };
        let token_path: String = match &self.workload_token_path {
            Some(path) => path.clone(),
            None => DEFAULT_WORKLOAD_TOKEN_PATH.to_owned(),
        };
        Ok(Some(EnrollmentPlan { challenge, endpoint, pod_uid, token_path }))
    }
}

/// A number that is set is taken, whatever it is and whatever else would be: where a
/// variable is the decimal form of a number that fits, the setting is that number. What
/// would be otherwise is taken only where the variable is not set, or writes no number
/// that fits.
pub proof fn law_a_number_that_is_set_is_taken(
    value: &Option<String>,
    otherwise: i64,
    setting: i64,
    unsigned_otherwise: u64,
    unsigned_setting: u64,
)
    requires
        call_ensures(read_signed, (value, otherwise), setting),
        call_ensures(read_unsigned, (value, unsigned_otherwise), unsigned_setting),
    ensures
        value matches Some(held) ==> {
            &&& forall|n: i64| held@ == #[trigger] text::decimal(n as int) ==> setting == n
            &&& forall|n: u64| held@ == #[trigger] text::decimal(n as int) ==> unsigned_setting == n
            &&& text::signed_number(held@) matches Some(n) ==> (i64::MIN <= n <= i64::MAX
                ==> setting == n)
            &&& text::unsigned_number(held@) matches Some(n) ==> (n <= u64::MAX
                ==> unsigned_setting == n)
            &&& setting != otherwise ==> text::signed_number(held@) == Some(setting as int)
            &&& unsigned_setting != unsigned_otherwise ==> text::unsigned_number(held@) == Some(
                unsigned_setting as int,
            )
        },
        value is None ==> setting == otherwise && unsigned_setting == unsigned_otherwise,
{
    if let Some(held) = value {
        assert forall|n: i64| held@ == #[trigger] text::decimal(n as int) implies setting == n by {
            text::law_decimal_reads_back(n as int);
        }
        assert forall|n: u64| held@ == #[trigger] text::decimal(n as int) implies unsigned_setting
            == n by {
            text::law_decimal_reads_back(n as int);
        }
    }
}

/// The configuration holds what the environment says, whole: its authority, the service
/// ID, the numbers that are set or else their defaults, and the certificate's path. No
/// lease is held.
pub proof fn law_the_configuration_is_the_environments(
    environment: &Environment,
    service_id: Option<u128>,
    config: Config,
)
    requires
        call_ensures(Config::with_service_id, (environment, service_id), Ok(config)),
    ensures
        environment.kernel_authority matches Some(authority) && config.authority@ == authority@,
        environment.worker_service_id is Some,
        service_id == Some(config.service_id),
        match environment.claim_lease_seconds {
            Some(held) => {
                &&& forall|n: i64|
                    held@ == #[trigger] text::decimal(n as int) ==> config.lease_seconds == n
                &&& config.lease_seconds != 300 ==> text::signed_number(held@) == Some(
                    config.lease_seconds as int,
                )
            },
            None => config.lease_seconds == 300,
        },
        match environment.poll_interval_seconds {
            Some(held) => {
                &&& forall|n: u64|
                    held@ == #[trigger] text::decimal(n as int) ==> config.poll_interval_seconds
                        == n
                &&& config.poll_interval_seconds != 5 ==> text::unsigned_number(held@) == Some(
                    config.poll_interval_seconds as int,
                )
            },
            None => config.poll_interval_seconds == 5,
        },
        match environment.work_duration_seconds {
            Some(held) => {
                &&& forall|n: u64|
                    held@ == #[trigger] text::decimal(n as int) ==> config.work_duration_seconds
                        == n
                &&& config.work_duration_seconds != 0 ==> text::unsigned_number(held@) == Some(
                    config.work_duration_seconds as int,
                )
            },
            None => config.work_duration_seconds == 0,
        },
        match environment.kernel_ca_cert_path {
            Some(path) => config.ca_certificate_path matches Some(held) && held@ == path@,
            None => config.ca_certificate_path is None,
        },
        config.instance_lease is None,
{
    assert forall|n: int| true implies #[trigger] text::signed_number(text::decimal(n)) == Some(
        n,
    ) && (n >= 0 ==> text::unsigned_number(text::decimal(n)) == Some(n)) by {
        text::law_decimal_reads_back(n);
    }
    if let Some(held) = environment.claim_lease_seconds {
        assert forall|n: i64| held@ == #[trigger] text::decimal(n as int) implies
            config.lease_seconds == n by {
            assert(text::signed_number(text::decimal(n as int)) == Some(n as int));
        }
    }
    if let Some(held) = environment.poll_interval_seconds {
        assert forall|n: u64| held@ == #[trigger] text::decimal(n as int) implies
            config.poll_interval_seconds == n by {
            assert(text::signed_number(text::decimal(n as int)) == Some(n as int));
        }
    }
    if let Some(held) = environment.work_duration_seconds {
        assert forall|n: u64| held@ == #[trigger] text::decimal(n as int) implies
            config.work_duration_seconds == n by {
            assert(text::signed_number(text::decimal(n as int)) == Some(n as int));
        }
    }
}

/// A configuration is refused for want of an authority, then for want of a service ID,
/// then for one that is no UUID, and for nothing else: no number is ever refused.
pub proof fn law_what_configuration_is_refused(
    environment: &Environment,
    service_id: Option<u128>,
    config: Result<Config, WorkerError>,
)
    requires
        call_ensures(Config::with_service_id, (environment, service_id), config),
    ensures
        environment.kernel_authority is None ==> (config matches Err(WorkerError::MissingEnv(name))
            && name@ == "KERNEL_AUTHORITY"@),
        environment.kernel_authority is Some && environment.worker_service_id is None ==> (
        config matches Err(WorkerError::MissingEnv(name)) && name@ == "WORKER_SERVICE_ID"@),
        environment.kernel_authority is Some && environment.worker_service_id is Some
            && service_id is None ==> config matches Err(WorkerError::InvalidServiceId),
        environment.kernel_authority is Some && environment.worker_service_id is Some
            && service_id is Some ==> config is Ok,
{
}

/// The service ID is what `uuid` reads in the whole text that is set for it: taking the
/// configuration from the environment is taking it with that ID.
pub proof fn law_the_service_id_is_read_whole(
    environment: &Environment,
    service_id: Option<u128>,
    with_id: Result<Config, WorkerError>,
    config: Result<Config, WorkerError>,
)
    requires
        environment.worker_service_id matches Some(held) ==> service_id == uuid_of(held@),
        call_ensures(Config::with_service_id, (environment, service_id), with_id),
        call_ensures(Config::from_env, (environment,), config),
    ensures
        error::result_view(config) == error::result_view(with_id),
        config matches Ok(config) ==> (environment.worker_service_id matches Some(held) && uuid_of(
            held@,
        ) == Some(config.service_id)),
{
}

/// Enrolling sets the lease that was granted, and leaves everything else.
pub proof fn law_enrolling_sets_the_lease_only(
    config: Config,
    lease_revision: i64,
    lease_expires_at: i64,
    enrolled: Config,
)
    requires
        call_ensures(Config::enrolled, (config, lease_revision, lease_expires_at), enrolled),
    ensures
        enrolled.instance_lease matches Some(lease) && lease.revision == lease_revision
            && lease.expires_at == lease_expires_at,
        enrolled.authority@ == config.authority@,
        enrolled.service_id == config.service_id,
        enrolled.lease_seconds == config.lease_seconds,
        enrolled.poll_interval_seconds == config.poll_interval_seconds,
        enrolled.work_duration_seconds == config.work_duration_seconds,
        match config.ca_certificate_path {
            Some(path) => enrolled.ca_certificate_path matches Some(held) && held@ == path@,
            None => enrolled.ca_certificate_path is None,
        },
{
    assert(config@.ca_certificate_path == value_view(config.ca_certificate_path));
    assert(enrolled@.ca_certificate_path == value_view(enrolled.ca_certificate_path));
}

/// Enrollment is asked for by a challenge and by nothing else. What is asked for is what
/// the environment says, whole, with the usual place of the token where it says none;
/// and a missing endpoint is reported before a missing Pod UID.
pub proof fn law_a_challenge_asks_for_enrollment(
    environment: &Environment,
    plan: Result<Option<EnrollmentPlan>, WorkerError>,
)
    requires
        call_ensures(Environment::enrollment_plan, (environment,), plan),
    ensures
        match environment.enrollment_challenge {
            None => plan matches Ok(None),
            Some(challenge) => if environment.service_endpoint is None {
                plan matches Err(WorkerError::MissingEnv(name)) && name@ == "SERVICE_ENDPOINT"@
            } else if environment.pod_uid is None {
                plan matches Err(WorkerError::MissingEnv(name)) && name@ == "POD_UID"@
            } else {
                &&& plan matches Ok(Some(plan))
                &&& plan.challenge@ == challenge@
                &&& plan.endpoint@ == environment.service_endpoint->Some_0@
                &&& plan.pod_uid@ == environment.pod_uid->Some_0@
                &&& plan.token_path@ == (match environment.workload_token_path {
                    Some(path) => path@,
                    None => "/var/run/secrets/infernal-law-enrollment/token"@,
                })
            },
        },
{
}

}
