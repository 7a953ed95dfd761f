//! How the process starts: it takes its configuration from the environment, connects
//! to the kernel, and enrolls itself where the environment asks for that. Whatever
//! fails on the way ends it.

use crate::config;
use crate::config::{Config, ConfigView, Environment};
use crate::enrollment;
use crate::enrollment::{Enrollment, EnrollmentPlan, EnrollmentPlanView, EnrollmentView};
use crate::error;
use crate::error::{WorkerError, WorkerErrorView};
use crate::instance_lease::{InstanceLease, RenewedLease};
use crate::text;
use vstd::prelude::*;
use vstd::string::*;

verus! {

/// A process that starts.
#[derive(Debug)]
pub enum Startup {
    /// Waiting for the certificate authority to trust besides the public ones.
    ReadingCertificate { config: Config, environment: Environment, path: String },
    /// Waiting for its client.
    Connecting { config: Config, environment: Environment, extra_root: Option<Vec<u8>> },
    /// Waiting for its workload token.
    ReadingToken { config: Config, plan: EnrollmentPlan },
    /// Waiting for its enrollment.
    Enrolling { config: Config, enrollment: Enrollment },
    /// Done.
    Ready { config: Config },
}

/// A [`Startup`] by its views. What the environment says of enrollment is looked at
/// once the client is there, and is kept until then.
pub enum StartupView {
    ReadingCertificate {
        config: ConfigView,
        plan: Result<Option<EnrollmentPlanView>, WorkerErrorView>,
        path: Seq<char>,
    },
    Connecting {
        config: ConfigView,
        plan: Result<Option<EnrollmentPlanView>, WorkerErrorView>,
        extra_root: Option<Seq<u8>>,
    },
    ReadingToken { config: ConfigView, plan: EnrollmentPlanView },
    Enrolling { config: ConfigView, enrollment: EnrollmentView },
    Ready { config: ConfigView },
}

/// Bytes that may be missing, as a sequence.
pub open spec fn bytes_view(bytes: Option<Vec<u8>>) -> Option<Seq<u8>> {
    match bytes {
        Some(bytes) => Some(bytes@),
        None => None,
    }
}

impl View for Startup {
    type V = StartupView;

    open spec fn view(&self) -> StartupView {
        match self {
            Startup::ReadingCertificate { config, environment, path } => {
                StartupView::ReadingCertificate {
                    config: config@,
                    plan: config::enrollment_plan_of(*environment),
                    path: path@,
                }
            },
            Startup::Connecting { config, environment, extra_root } => StartupView::Connecting {
                config: config@,
                plan: config::enrollment_plan_of(*environment),
                extra_root: bytes_view(*extra_root),
            },
            Startup::ReadingToken { config, plan } => StartupView::ReadingToken {
                config: config@,
                plan: plan@,
            },
            Startup::Enrolling { config, enrollment } => StartupView::Enrolling {
                config: config@,
                enrollment: enrollment@,
            },
            Startup::Ready { config } => StartupView::Ready { config: config@ },
        }
    }
}

/// What is to be done next.
#[derive(Debug, Eq, PartialEq)]
pub enum StartupTask {
    /// Read the certificate authority to trust besides the public ones.
    ReadCertificate { path: String },
    /// Make a client for the kernel, with a fresh instance key.
    Connect { service_id: u128, authority: String, extra_root: Option<Vec<u8>> },
    /// Read the workload token.
    ReadToken { path: String },
    /// Enroll.
    Enroll(Enrollment),
    /// Start to work.
    Work,
}

/// A [`StartupTask`] by its views.
pub enum StartupTaskView {
    ReadCertificate { path: Seq<char> },
    Connect { service_id: u128, authority: Seq<char>, extra_root: Option<Seq<u8>> },
    ReadToken { path: Seq<char> },
    Enroll(EnrollmentView),
    Work,
}

impl View for StartupTask {
    type V = StartupTaskView;

    open spec fn view(&self) -> StartupTaskView {
        match self {
            StartupTask::ReadCertificate { path } => StartupTaskView::ReadCertificate {
                path: path@,
            },
            StartupTask::Connect { service_id, authority, extra_root } => {
                StartupTaskView::Connect {
                    service_id: *service_id,
                    authority: authority@,
                    extra_root: bytes_view(*extra_root),
                }
            },
            StartupTask::ReadToken { path } => StartupTaskView::ReadToken { path: path@ },
            StartupTask::Enroll(enrollment) => StartupTaskView::Enroll(enrollment@),
            StartupTask::Work => StartupTaskView::Work,
        }
    }
}

/// How a task went.
#[derive(Debug)]
pub enum StartupEvent {
    /// What the certificate file holds, or what the system said.
    CertificateRead(Result<Vec<u8>, String>),
    /// The client was made, or failed to be.
    Connected(Result<(), WorkerError>),
    /// What the token file holds, or what the system said.
    TokenRead(Result<String, String>),
    /// The lease that enrolling was granted, or how it failed.
    Enrolled(Result<RenewedLease, WorkerError>),
}

/// A [`StartupEvent`] by its views.
pub enum StartupEventView {
    CertificateRead(Result<Seq<u8>, Seq<char>>),
    Connected(Result<(), WorkerErrorView>),
    TokenRead(Result<Seq<char>, Seq<char>>),
    Enrolled(Result<RenewedLease, WorkerErrorView>),
}

impl View for StartupEvent {
    type V = StartupEventView;

    open spec fn view(&self) -> StartupEventView {
        match self {
            StartupEvent::CertificateRead(read) => StartupEventView::CertificateRead(
                match read {
                    Ok(pem) => Ok(pem@),
                    Err(message) => Err(message@),
                },
            ),
            StartupEvent::Connected(connected) => StartupEventView::Connected(
                match connected {
                    Ok(_) => Ok(()),
                    Err(error) => Err(error@),
                },
            ),
            StartupEvent::TokenRead(read) => StartupEventView::TokenRead(
                match read {
                    Ok(token) => Ok(token@),
                    Err(message) => Err(message@),
                },
            ),
            StartupEvent::Enrolled(enrolled) => StartupEventView::Enrolled(
                error::result_view(*enrolled),
            ),
        }
    }
}

/// A configuration with the lease that was granted.
pub open spec fn with_lease(config: ConfigView, granted: RenewedLease) -> ConfigView {
    ConfigView {
        instance_lease: Some(
            InstanceLease {
                revision: granted.lease_revision,
                expires_at: granted.lease_expires_at,
            },
        ),
        ..config
    }
}

/// How a process starts in an environment: with its certificate, if there is one to
/// read, and otherwise with its client; or what is wrong with the configuration.
pub open spec fn startup_in(environment: Environment) -> Result<StartupView, WorkerErrorView> {
    match config::config_of(environment, config::service_id_of(environment)) {
        Err(error) => Err(error),
        Ok(config) => {
            let plan = config::enrollment_plan_of(environment);
            match config.ca_certificate_path {
                Some(path) => Ok(StartupView::ReadingCertificate { config, plan, path }),
                None => Ok(StartupView::Connecting { config, plan, extra_root: None }),
            }
        },
    }
}

impl StartupView {
    /// The configuration so far.
    pub open spec fn config(self) -> ConfigView {
        match self {
            StartupView::ReadingCertificate { config, .. } => config,
            StartupView::Connecting { config, .. } => config,
            StartupView::ReadingToken { config, .. } => config,
            StartupView::Enrolling { config, .. } => config,
            StartupView::Ready { config } => config,
        }
    }

    /// How far the process has come.
    pub open spec fn stage(self) -> nat {
        match self {
            StartupView::ReadingCertificate { .. } => 0,
            StartupView::Connecting { .. } => 1,
            StartupView::ReadingToken { .. } => 2,
            StartupView::Enrolling { .. } => 3,
            StartupView::Ready { .. } => 4,
        }
    }

    /// What is to be done next.
    pub open spec fn task(self) -> StartupTaskView {
        match self {
            StartupView::ReadingCertificate { path, .. } => StartupTaskView::ReadCertificate {
                path,
            },
            StartupView::Connecting { config, extra_root, .. } => StartupTaskView::Connect {
                service_id: config.service_id,
                authority: config.authority,
                extra_root,
            },
            StartupView::ReadingToken { plan, .. } => StartupTaskView::ReadToken {
                path: plan.token_path,
            },
            StartupView::Enrolling { enrollment, .. } => StartupTaskView::Enroll(enrollment),
            StartupView::Ready { .. } => StartupTaskView::Work,
        }
    }

    /// What becomes of the process with an event. An event that belongs to another
    /// task changes nothing.
    pub open spec fn with_event(self, event: StartupEventView) -> Result<
        StartupView,
        WorkerErrorView,
    > {
        match (self, event) {
            (
                StartupView::ReadingCertificate { config, plan, .. },
                StartupEventView::CertificateRead(read),
            ) => match read {
                Ok(pem) => Ok(StartupView::Connecting { config, plan, extra_root: Some(pem) }),
                Err(message) => Err(WorkerErrorView::CaCertificateUnreadable(message)),
            },
            (StartupView::Connecting { config, plan, .. }, StartupEventView::Connected(connected))
            => match connected {
                Ok(_) => match plan {
                    Ok(Some(plan)) => Ok(StartupView::ReadingToken { config, plan }),
                    Ok(None) => Ok(StartupView::Ready { config }),
                    Err(error) => Err(error),
                },
                Err(error) => Err(error),
            },
            (StartupView::ReadingToken { config, plan }, StartupEventView::TokenRead(read)) => {
                match read {
                    Ok(token) => match plan.submission(token) {
                        Ok(enrollment) => Ok(StartupView::Enrolling { config, enrollment }),
                        Err(error) => Err(error),
                    },
                    Err(message) => Err(WorkerErrorView::EnrollmentTokenUnreadable(message)),
                }
            },
            (StartupView::Enrolling { config, .. }, StartupEventView::Enrolled(enrolled)) => {
                match enrolled {
                    Ok(granted) => Ok(StartupView::Ready { config: with_lease(config, granted) }),
                    Err(error) => Err(error),
                }
            },
            _ => Ok(self),
        }
    }
}

/// A copy of bytes that may be missing.
fn copy_bytes(bytes: &Option<Vec<u8>>) -> (copy: Option<Vec<u8>>)
    ensures
        bytes_view(copy) == bytes_view(*bytes),
{
    match bytes {
        Some(bytes) => {
            let copy: Vec<u8> = bytes.clone();
            assert(copy@ =~= bytes@);
            Some(copy)
        },
        None => None,
    }
}

impl Startup {
    /// Starts in an environment.
    pub fn begin(environment: Environment) -> (startup: Result<Startup, WorkerError>)
        ensures
            error::result_view(startup) == startup_in(environment),
    {
        let config: Config = match Config::from_env(&environment) {
            Ok(config) => config,
            Err(error) => {
                return Err(error);
            },
        };
        let path: Option<String> = match &config.ca_certificate_path {
            Some(path) => Some(path.clone()),
            None => None,
        };
        match path {
            Some(path) => Ok(Startup::ReadingCertificate { config, environment, path }),
            None => Ok(Startup::Connecting { config, environment, extra_root: None }),
        }
    }

    /// Tells what is to be done next.
    pub fn task(&self) -> (task: StartupTask)
        ensures
            task@ == self@.task(),
    {
        match self {
            Startup::ReadingCertificate { path, .. } => StartupTask::ReadCertificate {
                path: path.clone(),
            },
            Startup::Connecting { config, extra_root, .. } => StartupTask::Connect {
                service_id: config.service_id,
                authority: config.authority.clone(),
                extra_root: copy_bytes(extra_root),
            },
            Startup::ReadingToken { plan, .. } => StartupTask::ReadToken {
                path: plan.token_path.clone(),
            },
            Startup::Enrolling { enrollment, .. } => StartupTask::Enroll(
                Enrollment {
                    challenge: enrollment.challenge,
                    endpoint: enrollment.endpoint.clone(),
                    pod_uid: enrollment.pod_uid.clone(),
                    workload_token: enrollment.workload_token.clone(),
                },
            ),
            Startup::Ready { .. } => StartupTask::Work,
        }
    }

    /// Takes how the task went.
    pub fn step(self, event: StartupEvent) -> (startup: Result<Startup, WorkerError>)
        ensures
            error::result_view(startup) == self@.with_event(event@),
    {
        match (self, event) {
            (
                Startup::ReadingCertificate { config, environment, .. },
                StartupEvent::CertificateRead(read),
            ) => match read {
                Ok(pem) => Ok(Startup::Connecting { config, environment, extra_root: Some(pem) }),
                Err(message) => Err(WorkerError::CaCertificateUnreadable(message)),
            },
            (Startup::Connecting { config, environment, .. }, StartupEvent::Connected(connected))
            => match connected {
                Ok(_) => match environment.enrollment_plan() {
                    Ok(Some(plan)) => Ok(Startup::ReadingToken { config, plan }),
                    Ok(None) => Ok(Startup::Ready { config }),
                    Err(error) => Err(error),
                },
                Err(error) => Err(error),
            },
            (Startup::ReadingToken { config, plan }, StartupEvent::TokenRead(read)) => {
                match read {
                    Ok(token) => match plan.submission(token.as_str()) {
                        Ok(enrollment) => Ok(Startup::Enrolling { config, enrollment }),
                        Err(error) => Err(error),
                    },
                    Err(message) => Err(WorkerError::EnrollmentTokenUnreadable(message)),
                }
            },
            (Startup::Enrolling { config, .. }, StartupEvent::Enrolled(enrolled)) => {
                match enrolled {
                    Ok(granted) => Ok(
                        Startup::Ready {
                            config: config.enrolled(
                                granted.lease_revision,
                                granted.lease_expires_at,
                            ),
                        },
                    ),
                    Err(error) => Err(error),
                }
            },
            (startup, _) => Ok(startup),
        }
    }

    /// Hands out the configuration, once nothing is left to be done.
    pub fn ready(self) -> (ready: Result<Config, Startup>)
        ensures
            match ready {
                Ok(config) => self@ == (StartupView::Ready { config: config@ }),
                Err(startup) => startup@ == self@ && !(self@ is Ready),
            },
    {
        match self {
            Startup::Ready { config } => Ok(config),
            startup => Err(startup),
        }
    }
}

/// How far a process has come after several events, or what it failed with.
pub open spec fn startup_after(
    environment: Environment,
    events: Seq<StartupEventView>,
) -> Result<StartupView, WorkerErrorView>
    decreases events.len(),
{
    if events.len() == 0 {
        startup_in(environment)
    } else {
        match startup_after(environment, events.drop_last()) {
            Ok(startup) => startup.with_event(events.last()),
            Err(error) => Err(error),
        }
    }
}

/// Whether the event `i` is the answer to an enrollment that was asked for.
pub open spec fn answers_enrollment(
    environment: Environment,
    events: Seq<StartupEventView>,
    i: int,
) -> bool {
    &&& 0 <= i < events.len()
    &&& events[i] is Enrolled
    &&& startup_after(environment, events.take(i)) matches Ok(startup)
    &&& startup is Enrolling
}

/// What holds at every stage: whatever the stage says of enrollment comes from the
/// environment, and no lease is held before enrolling.
spec fn is_sound(environment: Environment, startup: StartupView) -> bool {
    let config = config::config_of(environment, config::service_id_of(environment));
    match startup {
        StartupView::ReadingCertificate { config: held, plan, .. } => {
            &&& config == Ok::<_, WorkerErrorView>(held)
            &&& plan == config::enrollment_plan_of(environment)
        },
        StartupView::Connecting { config: held, plan, .. } => {
            &&& config == Ok::<_, WorkerErrorView>(held)
            &&& plan == config::enrollment_plan_of(environment)
        },
        StartupView::ReadingToken { config: held, .. } => {
            &&& config == Ok::<_, WorkerErrorView>(held)
            &&& environment.enrollment_challenge is Some
        },
        StartupView::Enrolling { config: held, .. } => {
            &&& config == Ok::<_, WorkerErrorView>(held)
            &&& environment.enrollment_challenge is Some
        },
        StartupView::Ready { config: held } => {
            &&& config matches Ok(bare)
            &&& held == (ConfigView { instance_lease: held.instance_lease, ..bare })
            &&& held.instance_lease is Some <==> environment.enrollment_challenge is Some
        },
    }
}

/// Every stage that is reached is sound.
proof fn lemma_sound(environment: Environment, events: Seq<StartupEventView>)
    ensures
        startup_after(environment, events) matches Ok(startup) ==> is_sound(environment, startup),
    decreases events.len(),
{
    if events.len() > 0 {
        lemma_sound(environment, events.drop_last());
    }
}

/// The process only goes forward: with further events it never comes back to an
/// earlier stage, and once it failed, it stays so.
pub proof fn law_startup_only_goes_forward(
    environment: Environment,
    events: Seq<StartupEventView>,
    i: int,
)
    requires
        0 <= i <= events.len(),
    ensures
        match startup_after(environment, events.take(i)) {
            Ok(earlier) => startup_after(environment, events) matches Ok(startup)
                ==> earlier.stage() <= startup.stage(),
            Err(error) => startup_after(environment, events) == Err::<StartupView, _>(error),
        },
    decreases events.len() - i,
{
    if i == events.len() {
        assert(events.take(i) =~= events);
    } else {
        assert(events.take(i + 1).drop_last() =~= events.take(i));
        law_startup_only_goes_forward(environment, events, i + 1);
    }
}

/// An event that belongs to the task at hand takes the process to a later stage, or
/// ends it with an error: no task is done twice.
pub proof fn law_a_task_is_done_once(startup: StartupView, event: StartupEventView)
    requires
        match startup {
            StartupView::ReadingCertificate { .. } => event is CertificateRead,
            StartupView::Connecting { .. } => event is Connected,
            StartupView::ReadingToken { .. } => event is TokenRead,
            StartupView::Enrolling { .. } => event is Enrolled,
            StartupView::Ready { .. } => false,
        },
    ensures
        startup.with_event(event) matches Ok(next) ==> startup.stage() < next.stage(),
{
}

/// The answer to an enrollment with which a process that holds a lease got it.
proof fn lemma_answer_of_lease(
    environment: Environment,
    events: Seq<StartupEventView>,
    config: ConfigView,
    lease: InstanceLease,
) -> (i: int)
    requires
        startup_after(environment, events) == Ok::<_, WorkerErrorView>(
            StartupView::Ready { config },
        ),
        config.instance_lease == Some(lease),
    ensures
        answers_enrollment(environment, events, i),
        events[i] matches StartupEventView::Enrolled(Ok(granted)) && lease.revision
            == granted.lease_revision && lease.expires_at == granted.lease_expires_at,
    decreases events.len(),
{
    lemma_sound(environment, events);
    let before = events.drop_last();
    if events.len() == 0 {
        0
    } else {
        lemma_sound(environment, before);
        let last = events.len() - 1;
        assert(events.take(last) =~= before);
        match startup_after(environment, before) {
            Ok(StartupView::Ready { config: held }) => {
                let i = lemma_answer_of_lease(environment, before, config, lease);
                assert(before.take(i) =~= events.take(i));
                i
            },
            _ => last,
        }
    }
}

/// A process that is ready holds a lease if and only if a challenge was set. Where it
/// does, it asked to be enrolled and was answered exactly once, and the lease is the
/// one that this answer granted. Where it does not, it never asked. In all else the
/// configuration is the one that the environment asks for.
pub proof fn law_a_lease_is_held_where_a_challenge_is_set(
    environment: Environment,
    events: Seq<StartupEventView>,
    config: ConfigView,
)
    requires
        startup_after(environment, events) == Ok::<_, WorkerErrorView>(
            StartupView::Ready { config },
        ),
    ensures
        config.instance_lease is Some <==> environment.enrollment_challenge is Some,
        config::config_of(environment, config::service_id_of(environment)) == Ok::<
            _,
            WorkerErrorView,
        >(ConfigView { instance_lease: None, ..config }),
        config.instance_lease matches Some(lease) ==> exists|i: int|
            {
                &&& #[trigger] answers_enrollment(environment, events, i)
                &&& events[i] matches StartupEventView::Enrolled(Ok(granted))
                &&& lease.revision == granted.lease_revision
                &&& lease.expires_at == granted.lease_expires_at
            },
        forall|i: int, j: int|
            #![trigger answers_enrollment(environment, events, i), answers_enrollment(environment, events, j)]
            answers_enrollment(environment, events, i) && answers_enrollment(environment, events, j)
                ==> i == j,
        config.instance_lease is None ==> forall|i: int|
            0 <= i <= events.len() ==> !(#[trigger] startup_after(
                environment,
                events.take(i),
            ) matches Ok(startup) && startup.task() is Enroll),
{
    lemma_sound(environment, events);
    if let Some(lease) = config.instance_lease {
        let i = lemma_answer_of_lease(environment, events, config, lease);
    } else {
        assert forall|i: int| 0 <= i <= events.len() implies !(#[trigger] startup_after(
            environment,
            events.take(i),
        ) matches Ok(startup) && startup.task() is Enroll) by {
            lemma_sound(environment, events.take(i));
        }
    }
    assert forall|i: int, j: int|
        #![trigger answers_enrollment(environment, events, i), answers_enrollment(environment, events, j)]
        answers_enrollment(environment, events, i) && answers_enrollment(
            environment,
            events,
            j,
        ) implies i == j by {
        lemma_answers_once(environment, events, i, j);
        lemma_answers_once(environment, events, j, i);
    }
}

/// No answer to an enrollment comes after another.
proof fn lemma_answers_once(
    environment: Environment,
    events: Seq<StartupEventView>,
    i: int,
    j: int,
)
    requires
        answers_enrollment(environment, events, i),
        answers_enrollment(environment, events, j),
    ensures
        i >= j,
{
    if i < j {
        let later = events.take(j);
        assert(events.take(i + 1).drop_last() =~= events.take(i));
        assert(later.take(i + 1) =~= events.take(i + 1));
        law_startup_only_goes_forward(environment, later, i + 1);
    }
}

/// A process starts with the configuration of its environment, or fails with what is
/// wrong with that. Where a certificate is named, it is read first, from the path that is
/// named; where none is, the client is made at once, with no extra root.
pub proof fn law_a_process_starts_from_its_configuration(
    environment: Environment,
    config: Result<Config, WorkerError>,
    startup: Result<Startup, WorkerError>,
)
    requires
        call_ensures(Config::from_env, (&environment,), config),
        call_ensures(Startup::begin, (environment,), startup),
    ensures
        match config {
            Err(failure) => startup matches Err(told) && told@ == failure@,
            Ok(config) => match environment.kernel_ca_cert_path {
                Some(path) => {
                    &&& startup matches Ok(
                        Startup::ReadingCertificate { config: held, path: told, .. },
                    )
                    &&& held@ == config@
                    &&& told@ == path@
                },
                None => {
                    &&& startup matches Ok(
                        Startup::Connecting { config: held, extra_root, .. },
                    )
                    &&& held@ == config@
                    &&& extra_root is None
                },
            },
        },
{
    assert(startup matches Ok(startup) ==> error::result_view(Ok::<Startup, WorkerError>(startup))
        == Ok::<StartupView, WorkerErrorView>(startup@));
}

/// The task at hand is what the process waits for, whole: the certificate to read, the
/// client to make for the configured service and kernel with the extra root that was read,
/// the token to read, and what is to be submitted.
pub proof fn law_the_task_is_what_is_waited_for(startup: &Startup, task: StartupTask)
    requires
        call_ensures(Startup::task, (startup,), task),
    ensures
        match startup {
            Startup::ReadingCertificate { path, .. } => {
                task matches StartupTask::ReadCertificate { path: told } && told@ == path@
            },
            Startup::Connecting { config, extra_root, .. } => {
                &&& task matches StartupTask::Connect { service_id, authority, extra_root: told }
                &&& service_id == config.service_id
                &&& authority@ == config.authority@
                &&& match extra_root {
                    Some(pem) => told matches Some(told) && told@ == pem@,
                    None => told is None,
                }
            },
            Startup::ReadingToken { plan, .. } => {
                task matches StartupTask::ReadToken { path: told } && told@ == plan.token_path@
            },
            Startup::Enrolling { enrollment, .. } => {
                &&& task matches StartupTask::Enroll(told)
                &&& told.challenge@ == enrollment.challenge@
                &&& told.endpoint@ == enrollment.endpoint@
                &&& told.pod_uid@ == enrollment.pod_uid@
                &&& told.workload_token@ == enrollment.workload_token@
            },
            Startup::Ready { .. } => task is Work,
        },
{
    match startup {
        Startup::Connecting { config, extra_root, .. } => {
            assert(task@ matches StartupTaskView::Connect { extra_root: told, .. } && told
                == bytes_view(*extra_root));
        },
        Startup::Enrolling { enrollment, .. } => {
            assert(task@ == StartupTaskView::Enroll(enrollment@));
        },
        _ => {},
    }
}

/// Whatever fails on the way ends the process, with that failure: the certificate or the
/// token that could not be read, and what the client or the kernel said.
pub proof fn law_a_failure_ends_the_start(
    startup: Startup,
    event: StartupEvent,
    next: Result<Startup, WorkerError>,
)
    requires
        call_ensures(Startup::step, (startup, event), next),
    ensures
        match (startup, event) {
            (Startup::ReadingCertificate { .. }, StartupEvent::CertificateRead(Err(message))) => {
                next matches Err(WorkerError::CaCertificateUnreadable(told)) && told@ == message@
            },
            (Startup::Connecting { .. }, StartupEvent::Connected(Err(failure))) => {
                next matches Err(told) && told@ == failure@
            },
            (Startup::ReadingToken { .. }, StartupEvent::TokenRead(Err(message))) => {
                next matches Err(WorkerError::EnrollmentTokenUnreadable(told)) && told@ == message@
            },
            (Startup::Enrolling { .. }, StartupEvent::Enrolled(Err(failure))) => {
                next matches Err(told) && told@ == failure@
            },
            _ => true,
        },
{
    assert(next matches Err(told) ==> error::result_view(next) == Err::<
        StartupView,
        WorkerErrorView,
    >(told@));
}

/// What goes well takes the process to its next task, with the configuration as it was:
/// from the certificate to the client, with what was read for an extra root; from the
/// client to the token where enrollment is asked for, and to work where it is not; from
/// the token to what is submitted; and from that to work, with the lease that was granted.
pub proof fn law_a_success_goes_on_with_the_start(
    startup: Startup,
    event: StartupEvent,
    next: Result<Startup, WorkerError>,
)
    requires
        call_ensures(Startup::step, (startup, event), next),
    ensures
        match (startup, event) {
            (
                Startup::ReadingCertificate { config, .. },
                StartupEvent::CertificateRead(Ok(pem)),
            ) => {
                &&& next matches Ok(
                    Startup::Connecting { config: held, extra_root: Some(told), .. },
                )
                &&& held@ == config@
                &&& told@ == pem@
            },
            (
                Startup::Connecting { config, environment, .. },
                StartupEvent::Connected(Ok(_)),
            ) => match environment.enrollment_challenge {
                None => next matches Ok(Startup::Ready { config: held }) && held@ == config@,
                Some(challenge) => match next {
                    Ok(Startup::ReadingToken { config: held, plan }) => {
                        &&& held@ == config@
                        &&& plan.challenge@ == challenge@
                        &&& environment.service_endpoint matches Some(endpoint) && plan.endpoint@
                            == endpoint@
                        &&& environment.pod_uid matches Some(pod_uid) && plan.pod_uid@ == pod_uid@
                    },
                    Ok(_) => false,
                    Err(failure) => failure is MissingEnv && (environment.service_endpoint is None
                        || environment.pod_uid is None),
                },
            },
            (Startup::ReadingToken { config, plan }, StartupEvent::TokenRead(Ok(token))) => {
                match next {
                    Ok(Startup::Enrolling { config: held, enrollment }) => {
                        &&& held@ == config@
                        &&& plan.challenge@ == enrollment::base64url(enrollment.challenge@)
                        &&& enrollment.endpoint@ == plan.endpoint@
                        &&& enrollment.pod_uid@ == plan.pod_uid@
                        &&& enrollment.workload_token@ == text::trimmed(token@)
                    },
                    Ok(_) => false,
                    Err(failure) => failure is InvalidEnrollmentChallenge,
                }
            },
            (Startup::Enrolling { config, .. }, StartupEvent::Enrolled(Ok(granted))) => {
                &&& next matches Ok(Startup::Ready { config: held })
                &&& held.instance_lease matches Some(lease)
                &&& lease.revision == granted.lease_revision
                &&& lease.expires_at == granted.lease_expires_at
                &&& held.authority@ == config.authority@
                &&& held.service_id == config.service_id
                &&& held.lease_seconds == config.lease_seconds
                &&& held.poll_interval_seconds == config.poll_interval_seconds
                &&& held.work_duration_seconds == config.work_duration_seconds
            },
            _ => true,
        },
{
    if let Ok(held) = next {
        assert(startup@.with_event(event@) == Ok::<StartupView, WorkerErrorView>(held@));
    }
    match (startup, event) {
        (Startup::ReadingToken { plan, .. }, StartupEvent::TokenRead(Ok(token))) => {
            if let Ok(Startup::Enrolling { enrollment, .. }) = next {
                enrollment::law_a_text_holds_one_challenge(
                    plan.challenge@,
                    enrollment.challenge@,
                );
            }
        },
        _ => {},
    }
}

/// An event that belongs to another task changes nothing.
pub proof fn law_an_event_out_of_turn_changes_nothing(
    startup: StartupView,
    event: StartupEventView,
)
    ensures
        !(match startup.task() {
            StartupTaskView::ReadCertificate { .. } => event is CertificateRead,
            StartupTaskView::Connect { .. } => event is Connected,
            StartupTaskView::ReadToken { .. } => event is TokenRead,
            StartupTaskView::Enroll(_) => event is Enrolled,
            StartupTaskView::Work => false,
        }) ==> startup.with_event(event) == Ok::<_, WorkerErrorView>(startup),
{
}

/// The configuration is handed out as it is, and only where nothing is left to be done.
pub proof fn law_the_configuration_is_handed_out_when_ready(
    startup: Startup,
    ready: Result<Config, Startup>,
)
    requires
        call_ensures(Startup::ready, (startup,), ready),
    ensures
        ready is Ok <==> startup is Ready,
        ready matches Ok(config) ==> (startup matches Startup::Ready { config: held } && config@
            == held@),
        ready matches Err(left) ==> left@ == startup@,
{
}

}
