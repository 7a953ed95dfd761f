//! What the process does for as long as it lives: renew its own lease where that is
//! due, make a pass, rest, and again. A pass or a renewal that fails is not the end:
//! it is made again in the next round.

use crate::config::Config;
use crate::error;
use crate::error::{WorkerError, WorkerErrorView};
use crate::instance_lease;
use crate::instance_lease::{InstanceLease, RenewedLease};
use crate::kernel_client;
use crate::kernel_client::{KernelCall, KernelCallView, KernelReply, KernelReplyView};
use crate::worker;
use crate::worker::{Pass, PassView, Progress, ProgressView, WorkOutcome, WorkOutcomeView};
use vstd::prelude::*;

verus! {

/// What the loop is at.
#[derive(Debug)]
pub enum Stage {
    /// Waiting for the renewal of its lease.
    Renewing { revision: i64 },
    /// In the middle of a pass.
    Working(Pass),
    /// Between two rounds.
    Resting,
}

/// A [`Stage`] by its views.
pub enum StageView {
    Renewing { revision: i64 },
    Working(PassView),
    Resting,
}

impl View for Stage {
    type V = StageView;

    open spec fn view(&self) -> StageView {
        match self {
            Stage::Renewing { revision } => StageView::Renewing { revision: *revision },
            Stage::Working(pass) => StageView::Working(pass@),
            Stage::Resting => StageView::Resting,
        }
    }
}

/// The loop, with its settings and its lease.
#[derive(Debug)]
pub struct WorkLoop {
    /// The lease to propose with each claim.
    pub lease_seconds: i64,
    /// How long to rest between two rounds.
    pub poll_interval_seconds: u64,
    /// How long to hold work before it is completed.
    pub work_duration_seconds: u64,
    /// This process's own lease, where it enrolled itself.
    pub instance_lease: Option<InstanceLease>,
    /// What the loop is at.
    pub stage: Stage,
}

/// A [`WorkLoop`] by its views.
pub struct WorkLoopView {
    pub lease_seconds: i64,
    pub poll_interval_seconds: u64,
    pub work_duration_seconds: u64,
    pub instance_lease: Option<InstanceLease>,
    pub stage: StageView,
}

impl View for WorkLoop {
    type V = WorkLoopView;

    open spec fn view(&self) -> WorkLoopView {
        WorkLoopView {
            lease_seconds: self.lease_seconds,
            poll_interval_seconds: self.poll_interval_seconds,
            work_duration_seconds: self.work_duration_seconds,
            instance_lease: self.instance_lease,
            stage: self.stage@,
        }
    }
}

/// What is to be done next.
#[derive(Debug, Eq, PartialEq)]
pub enum Task {
    /// Renew this process's own lease, which has the given revision.
    Renew { revision: i64 },
    /// Rest for some seconds, and make a call then.
    Call { rest_seconds: u64, call: KernelCall },
    /// Rest until the next round.
    Rest { seconds: u64 },
}

/// A [`Task`] with its call by its view.
pub enum TaskView {
    Renew { revision: i64 },
    Call { rest_seconds: u64, call: KernelCallView },
    Rest { seconds: u64 },
}

impl View for Task {
    type V = TaskView;

    open spec fn view(&self) -> TaskView {
        match self {
            Task::Renew { revision } => TaskView::Renew { revision: *revision },
            Task::Call { rest_seconds, call } => TaskView::Call {
                rest_seconds: *rest_seconds,
                call: call@,
            },
            Task::Rest { seconds } => TaskView::Rest { seconds: *seconds },
        }
    }
}

/// How a task went.
#[derive(Debug)]
pub enum Event {
    /// The renewal was answered, or failed.
    Renewed(Result<RenewedLease, WorkerError>),
    /// The call was answered, or failed.
    Replied(KernelReply),
    /// The rest is over, and it is `now`.
    Rested { now: i64 },
}

/// An [`Event`] by its views.
pub enum EventView {
    Renewed(Result<RenewedLease, WorkerErrorView>),
    Replied(KernelReplyView),
    Rested { now: int },
}

impl View for Event {
    type V = EventView;

    open spec fn view(&self) -> EventView {
        match self {
            Event::Renewed(renewed) => EventView::Renewed(error::result_view(*renewed)),
            Event::Replied(reply) => EventView::Replied(reply@),
            Event::Rested { now } => EventView::Rested { now: *now as int },
        }
    }
}

/// Whether the time at which a lease falls due is one that can be told.
pub open spec fn has_due_time(lease: Option<InstanceLease>) -> bool {
    lease matches Some(lease) ==> lease.expires_at - instance_lease::RENEWAL_MARGIN_SECONDS
        >= i64::MIN
}

/// A pass that ended, or none, by its view.
pub open spec fn ended_view(ended: Option<Result<WorkOutcome, WorkerError>>) -> Option<
    Result<WorkOutcomeView, WorkerErrorView>,
> {
    match ended {
        Some(result) => Some(error::result_view(result)),
        None => None,
    }
}

/// How a round starts at the time `now`: with a renewal where the lease is due, and
/// with a pass where it is not, or where there is none.
pub open spec fn first_stage(
    lease_seconds: i64,
    lease: Option<InstanceLease>,
    now: int,
) -> StageView {
    match instance_lease::revision_due(lease, now) {
        Some(revision) => StageView::Renewing { revision },
        None => StageView::Working(PassView::Listing { lease_seconds }),
    }
}

impl WorkLoopView {
    /// What is to be done next.
    pub open spec fn task(self) -> TaskView {
        match self.stage {
            StageView::Renewing { revision } => TaskView::Renew { revision },
            StageView::Working(pass) => TaskView::Call {
                rest_seconds: if pass is Completing {
                    self.work_duration_seconds
                } else {
                    0
                },
                call: pass.call(),
            },
            StageView::Resting => TaskView::Rest { seconds: self.poll_interval_seconds },
        }
    }

    /// The loop at another stage.
    pub open spec fn at(self, stage: StageView) -> WorkLoopView {
        WorkLoopView { stage, ..self }
    }

    /// What becomes of the loop with an event, and the result of the pass that the
    /// event ended, if it did. An event that belongs to another task changes nothing.
    pub open spec fn with_event(self, event: EventView) -> (
        WorkLoopView,
        Option<Result<WorkOutcomeView, WorkerErrorView>>,
    ) {
        match (self.stage, event) {
            (StageView::Renewing { .. }, EventView::Renewed(renewed)) => (
                WorkLoopView {
                    instance_lease: match self.instance_lease {
                        Some(lease) => Some(lease.after_renewal(renewed)),
                        None => None,
                    },
                    stage: StageView::Working(
                        PassView::Listing { lease_seconds: self.lease_seconds },
                    ),
                    ..self
                },
                None,
            ),
            (StageView::Working(pass), EventView::Replied(reply)) => match pass.with_reply(reply) {
                ProgressView::Waiting(next) => (self.at(StageView::Working(next)), None),
                ProgressView::Finished(result) => (self.at(StageView::Resting), Some(result)),
            },
            (StageView::Resting, EventView::Rested { now }) => (
                self.at(first_stage(self.lease_seconds, self.instance_lease, now)),
                None,
            ),
            _ => (self, None),
        }
    }
}

/// Starts a round.
fn start_round(lease_seconds: i64, lease: &Option<InstanceLease>, now: i64) -> (stage: Stage)
    requires
        has_due_time(*lease),
    ensures
        stage@ == first_stage(lease_seconds, *lease, now as int),
{
    match instance_lease::renewal_to_make(lease, now) {
        Some(revision) => Stage::Renewing { revision },
        None => Stage::Working(Pass::begin(lease_seconds)),
    }
}

impl WorkLoop {
    /// The loop as it starts at the time `now`.
    pub fn start(config: &Config, now: i64) -> (work_loop: WorkLoop)
        requires
            has_due_time(config.instance_lease),
        ensures
            work_loop@ == (WorkLoopView {
                lease_seconds: config.lease_seconds,
                poll_interval_seconds: config.poll_interval_seconds,
                work_duration_seconds: config.work_duration_seconds,
                instance_lease: config.instance_lease,
                stage: first_stage(config.lease_seconds, config.instance_lease, now as int),
            }),
    {
        WorkLoop {
            lease_seconds: config.lease_seconds,
            poll_interval_seconds: config.poll_interval_seconds,
            work_duration_seconds: config.work_duration_seconds,
            instance_lease: config.instance_lease,
            stage: start_round(config.lease_seconds, &config.instance_lease, now),
        }
    }

    /// Tells what is to be done next.
    pub fn task(&self) -> (task: Task)
        ensures
            task@ == self@.task(),
    {
        match &self.stage {
            Stage::Renewing { revision } => Task::Renew { revision: *revision },
            Stage::Working(pass) => Task::Call {
                rest_seconds: pass.rest_seconds(self.work_duration_seconds),
                call: pass.call(),
            },
            Stage::Resting => Task::Rest { seconds: self.poll_interval_seconds },
        }
    }

    /// Takes how the task went. Hands out the result of the pass that this ended.
    pub fn step(self, event: Event) -> (stepped: (
        WorkLoop,
        Option<Result<WorkOutcome, WorkerError>>,
    ))
        requires
            event is Rested && self.stage is Resting ==> has_due_time(self.instance_lease),
        ensures
            (stepped.0@, ended_view(stepped.1)) == self@.with_event(event@),
    {
        let WorkLoop {
            lease_seconds,
            poll_interval_seconds,
            work_duration_seconds,
            mut instance_lease,
            stage,
        } = self;
        let mut ended: Option<Result<WorkOutcome, WorkerError>> = None;
        let stage: Stage = match (stage, event) {
            (Stage::Renewing { .. }, Event::Renewed(renewed)) => {
                if let Some(lease) = instance_lease {
                    let mut lease: InstanceLease = lease;
                    lease.take_renewal(&renewed);
                    instance_lease = Some(lease);
                }
                Stage::Working(Pass::begin(lease_seconds))
            },
            (Stage::Working(pass), Event::Replied(reply)) => match pass.advance(reply) {
                Progress::Waiting(next) => Stage::Working(next),
                Progress::Finished(result) => {
                    ended = Some(result);
                    Stage::Resting
                },
            },
            (Stage::Resting, Event::Rested { now }) => start_round(
                lease_seconds,
                &instance_lease,
                now,
            ),
            (stage, _) => stage,
        };
        (
            WorkLoop {
                lease_seconds,
                poll_interval_seconds,
                work_duration_seconds,
                instance_lease,
                stage,
            },
            ended,
        )
    }
}

/// A pass follows every renewal, whether it went well or not: a failed renewal does
/// not keep the worker from its work.
pub proof fn law_work_follows_every_renewal(
    work_loop: WorkLoopView,
    renewed: Result<RenewedLease, WorkerErrorView>,
)
    requires
        work_loop.task() is Renew,
    ensures
        work_loop.with_event(EventView::Renewed(renewed)).0.task() == (TaskView::Call {
            rest_seconds: 0,
            call: KernelCallView::EligibleRoutes,
        }),
{
}

/// A rest follows every pass, whether it went well or not: a failed pass does not
/// stop the loop, and is not made again at once.
pub proof fn law_a_rest_follows_every_pass(work_loop: WorkLoopView, event: EventView)
    requires
        work_loop.with_event(event).1 is Some,
    ensures
        work_loop.with_event(event).0.task() == (TaskView::Rest {
            seconds: work_loop.poll_interval_seconds,
        }),
{
}

/// After every rest there is a renewal, with the revision that the kernel gave last,
/// where the lease is due by then, and otherwise a pass.
pub proof fn law_a_round_follows_every_rest(work_loop: WorkLoopView, now: int)
    requires
        work_loop.task() is Rest,
    ensures
        work_loop.with_event(EventView::Rested { now }).0.task() == (match work_loop.instance_lease {
            Some(lease) if lease.is_due(now) => TaskView::Renew { revision: lease.revision },
            _ => TaskView::Call { rest_seconds: 0, call: KernelCallView::EligibleRoutes },
        }),
{
}

/// The settings stay what they are, and the lease changes with the answer to a
/// renewal only: a failed renewal leaves it, and one that was granted sets it.
pub proof fn law_only_a_renewal_changes_the_lease(work_loop: WorkLoopView, event: EventView)
    ensures
        ({
            let next = work_loop.with_event(event).0;
            &&& next.lease_seconds == work_loop.lease_seconds
            &&& next.poll_interval_seconds == work_loop.poll_interval_seconds
            &&& next.work_duration_seconds == work_loop.work_duration_seconds
            &&& next.instance_lease != work_loop.instance_lease ==> {
                &&& work_loop.task() is Renew
                &&& event matches EventView::Renewed(Ok(renewed))
                &&& next.instance_lease == Some(
                    InstanceLease {
                        revision: renewed.lease_revision,
                        expires_at: renewed.lease_expires_at,
                    },
                )
            }
        }),
{
}

/// Work is held before it is completed, for as long as the settings say, and
/// nothing else is waited for in a pass.
pub proof fn law_only_a_completion_is_held(work_loop: WorkLoopView)
    requires
        work_loop.task() is Call,
    ensures
        work_loop.task()->rest_seconds == (if work_loop.task()->call is CompleteClaim {
            work_loop.work_duration_seconds
        } else {
            0
        }),
{
}

/// The loop after several replies of the kernel.
pub open spec fn after_replies(
    work_loop: WorkLoopView,
    replies: Seq<KernelReplyView>,
) -> WorkLoopView
    decreases replies.len(),
{
    if replies.len() == 0 {
        work_loop
    } else {
        after_replies(work_loop, replies.drop_last()).with_event(
            EventView::Replied(replies.last()),
        ).0
    }
}

/// The loop makes the same pass that is made through a port: with the same replies
/// it comes equally far, and it hands out the same result.
pub proof fn law_the_loop_makes_the_pass(
    work_loop: WorkLoopView,
    replies: Seq<KernelReplyView>,
)
    requires
        work_loop.stage == StageView::Working(
            PassView::Listing { lease_seconds: work_loop.lease_seconds },
        ),
    ensures
        after_replies(work_loop, replies) == work_loop.at(
            match worker::progress_after(work_loop.lease_seconds, replies) {
                ProgressView::Waiting(pass) => StageView::Working(pass),
                ProgressView::Finished(_) => StageView::Resting,
            },
        ),
        replies.len() > 0 && worker::progress_after(
            work_loop.lease_seconds,
            replies.drop_last(),
        ) is Waiting ==> after_replies(work_loop, replies.drop_last()).with_event(
            EventView::Replied(replies.last()),
        ).1 == (match worker::progress_after(work_loop.lease_seconds, replies) {
            ProgressView::Waiting(_) => None,
            ProgressView::Finished(result) => Some(result),
        }),
    decreases replies.len(),
{
    if replies.len() > 0 {
        law_the_loop_makes_the_pass(work_loop, replies.drop_last());
    }
}

/// What happens in one round: when the rest before it is over, what comes of the
/// renewal if one is made, and what the kernel replies to the calls of the pass.
pub struct Round {
    pub now: int,
    pub renewed: Result<RenewedLease, WorkerErrorView>,
    pub replies: Seq<KernelReplyView>,
}

/// The loop when the pass of a round begins: after the renewal, if one is made.
pub open spec fn at_work(work_loop: WorkLoopView, round: Round) -> WorkLoopView {
    let woken = work_loop.with_event(EventView::Rested { now: round.now }).0;
    if woken.task() is Renew {
        woken.with_event(EventView::Renewed(round.renewed)).0
    } else {
        woken
    }
}

/// The loop after a round.
pub open spec fn after_round(work_loop: WorkLoopView, round: Round) -> WorkLoopView {
    after_replies(at_work(work_loop, round), round.replies)
}

/// The loop after several rounds.
pub open spec fn after_rounds(work_loop: WorkLoopView, rounds: Seq<Round>) -> WorkLoopView
    decreases rounds.len(),
{
    if rounds.len() == 0 {
        work_loop
    } else {
        after_round(after_rounds(work_loop, rounds.drop_last()), rounds.last())
    }
}

/// A round is a renewal if one is due, one pass with the configured lease, and a rest
/// of the configured length, in that order, and it makes no difference whether the
/// renewal or the pass fails. `result` is what the pass comes to with the replies.
pub proof fn law_a_round_renews_works_and_rests(
    work_loop: WorkLoopView,
    round: Round,
    result: Result<WorkOutcomeView, WorkerErrorView>,
)
    requires
        work_loop.task() is Rest,
        worker::progress_after(work_loop.lease_seconds, round.replies) == ProgressView::Finished(
            result,
        ),
    ensures
        work_loop.with_event(EventView::Rested { now: round.now }).0.task() == (
        match instance_lease::revision_due(work_loop.instance_lease, round.now) {
            Some(revision) => TaskView::Renew { revision },
            None => TaskView::Call { rest_seconds: 0, call: KernelCallView::EligibleRoutes },
        }),
        at_work(work_loop, round) == (WorkLoopView {
            instance_lease: match work_loop.instance_lease {
                Some(lease) if lease.is_due(round.now) => Some(lease.after_renewal(round.renewed)),
                lease => lease,
            },
            stage: StageView::Working(
                PassView::Listing { lease_seconds: work_loop.lease_seconds },
            ),
            ..work_loop
        }),
        after_round(work_loop, round) == at_work(work_loop, round).at(StageView::Resting),
        after_round(work_loop, round).task() == (TaskView::Rest {
            seconds: work_loop.poll_interval_seconds,
        }),
{
    law_the_loop_makes_the_pass(at_work(work_loop, round), round.replies);
}

/// The loop goes on for ever: after any number of rounds, whether their renewals and
/// passes failed or not, it rests before the next one, with the same settings.
pub proof fn law_the_loop_goes_on(work_loop: WorkLoopView, rounds: Seq<Round>)
    requires
        work_loop.task() is Rest,
        forall|i: int|
            0 <= i < rounds.len() ==> worker::progress_after(
                work_loop.lease_seconds,
                (#[trigger] rounds[i]).replies,
            ) is Finished,
    ensures
        ({
            let after = after_rounds(work_loop, rounds);
            &&& after.task() == (TaskView::Rest { seconds: work_loop.poll_interval_seconds })
            &&& after.lease_seconds == work_loop.lease_seconds
            &&& after.poll_interval_seconds == work_loop.poll_interval_seconds
            &&& after.work_duration_seconds == work_loop.work_duration_seconds
        }),
    decreases rounds.len(),
{
    if rounds.len() > 0 {
        let before = rounds.drop_last();
        assert forall|i: int| 0 <= i < before.len() implies worker::progress_after(
            work_loop.lease_seconds,
            (#[trigger] before[i]).replies,
        ) is Finished by {
            assert(before[i] == rounds[i]);
        }
        law_the_loop_goes_on(work_loop, before);
        let rested = after_rounds(work_loop, before);
        let round = rounds[rounds.len() - 1];
        if let ProgressView::Finished(result) = worker::progress_after(
            work_loop.lease_seconds,
            round.replies,
        ) {
            law_a_round_renews_works_and_rests(rested, round, result);
        }
    }
}

/// The loop starts as if a rest were just over.
pub proof fn law_the_loop_starts_with_a_round(work_loop: WorkLoopView, now: int)
    requires
        work_loop.stage == first_stage(work_loop.lease_seconds, work_loop.instance_lease, now),
    ensures
        work_loop.at(StageView::Resting).with_event(EventView::Rested { now }).0 == work_loop,
{
}

/// The loop starts as it is configured: with the settings and the lease of the
/// configuration, and with a renewal of that lease where it expires within twenty
/// seconds, or otherwise with a pass that asks for the configured lease.
pub proof fn law_the_loop_starts_as_configured(config: &Config, now: i64, work_loop: WorkLoop)
    requires
        has_due_time(config.instance_lease),
        call_ensures(WorkLoop::start, (config, now), work_loop),
    ensures
        work_loop.lease_seconds == config.lease_seconds,
        work_loop.poll_interval_seconds == config.poll_interval_seconds,
        work_loop.work_duration_seconds == config.work_duration_seconds,
        work_loop.instance_lease == config.instance_lease,
        match config.instance_lease {
            Some(lease) if lease.expires_at - now <= 20 => {
                work_loop.stage matches Stage::Renewing { revision } && revision == lease.revision
            },
            _ => work_loop.stage matches Stage::Working(Pass::Listing { lease_seconds })
                && lease_seconds == config.lease_seconds,
        },
{
    assert(work_loop@.stage == work_loop.stage@);
}

/// What is to be done next is what the loop is at: renew with the revision that it was
/// at, make the call of the pass, held for the configured time where it is a completion,
/// or rest for the configured time.
pub proof fn law_the_task_is_that_of_the_stage(work_loop: &WorkLoop, task: Task)
    requires
        call_ensures(WorkLoop::task, (work_loop,), task),
    ensures
        match work_loop.stage {
            Stage::Renewing { revision } => task matches Task::Renew { revision: told } && told
                == revision,
            Stage::Working(pass) => {
                &&& task matches Task::Call { rest_seconds, call }
                &&& call@ == pass@.call()
                &&& rest_seconds == (if call is CompleteClaim {
                    work_loop.work_duration_seconds
                } else {
                    0
                })
            },
            Stage::Resting => task matches Task::Rest { seconds } && seconds
                == work_loop.poll_interval_seconds,
        },
{
}

/// An event that belongs to another task changes nothing and ends no pass, and a process
/// that holds no lease does not come to hold one.
pub proof fn law_an_event_out_of_turn_changes_nothing(work_loop: WorkLoopView, event: EventView)
    ensures
        !(match work_loop.task() {
            TaskView::Renew { .. } => event is Renewed,
            TaskView::Call { call, .. } => event matches EventView::Replied(reply)
                && kernel_client::reply_fits(call, reply),
            TaskView::Rest { .. } => event is Rested,
        }) ==> work_loop.with_event(event) == (work_loop, None::<
            Result<WorkOutcomeView, WorkerErrorView>,
        >),
        work_loop.instance_lease is None ==> work_loop.with_event(event).0.instance_lease is None,
{
}

/// The lease of the loop is what was granted last, and a renewal that failed leaves it.
pub proof fn law_a_renewal_is_taken_over(
    work_loop: WorkLoopView,
    lease: InstanceLease,
    granted: RenewedLease,
    failure: WorkerErrorView,
)
    requires
        work_loop.task() is Renew,
        work_loop.instance_lease == Some(lease),
    ensures
        work_loop.with_event(EventView::Renewed(Ok(granted))).0.instance_lease == Some(
            InstanceLease {
                revision: granted.lease_revision,
                expires_at: granted.lease_expires_at,
            },
        ),
        work_loop.with_event(EventView::Renewed(Err(failure))).0.instance_lease == Some(lease),
        work_loop.with_event(EventView::Renewed(Ok(granted))).1 is None,
        work_loop.with_event(EventView::Renewed(Err(failure))).1 is None,
{
}

}
