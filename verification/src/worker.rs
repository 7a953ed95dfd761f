//! One pass of the worker: receive work from the kernel, execute it, and complete
//! it. The worker claims its own eligible work, oldest first, because the kernel
//! ties a claim to whoever signs it: what claims a route must also complete it.

use crate::claims::{ClaimOutcome, ClaimOutcomeView, CompleteOutcome, CompleteOutcomeView};
use crate::error;
use crate::error::{WorkerError, WorkerErrorView};
use crate::kernel_client;
use crate::kernel_client::{
    KernelCall, KernelCallView, KernelPort, KernelReply, KernelReplyView,
};
use crate::routed_request::{
    RoutedRequest, RoutedRequestOutcome, RoutedRequestOutcomeView, RoutedRequestView,
};
use crate::session;
use crate::session::{Access, Session};
use vstd::prelude::*;
use vstd::string::*;

verus! {

/// What one pass did. None of the variants is a failure of this worker: each but
/// the last is the kernel enforcing an invariant that the worker has to accept.
#[derive(Debug)]
pub enum WorkOutcome {
    /// No eligible route existed to claim.
    NothingEligible,
    /// The oldest eligible route was claimed or gone by the time this worker tried.
    ClaimLost { route_id: String },
    /// The route was claimed, but the request behind it could not be had. The claim
    /// is left to expire rather than completed blind.
    RequestUnavailable { route_id: String },
    /// The claim was superseded or disappeared between claiming and completing.
    LostBeforeCompletion { route_id: String, claim_id: String },
    /// Claimed, read, executed and completed.
    Completed { route_id: String, action: String, claim_id: String },
}

/// A [`WorkOutcome`] with its texts as character sequences.
pub enum WorkOutcomeView {
    NothingEligible,
    ClaimLost { route_id: Seq<char> },
    RequestUnavailable { route_id: Seq<char> },
    LostBeforeCompletion { route_id: Seq<char>, claim_id: Seq<char> },
    Completed { route_id: Seq<char>, action: Seq<char>, claim_id: Seq<char> },
}

impl View for WorkOutcome {
    type V = WorkOutcomeView;

    open spec fn view(&self) -> WorkOutcomeView {
        match self {
            WorkOutcome::NothingEligible => WorkOutcomeView::NothingEligible,
            WorkOutcome::ClaimLost { route_id } => WorkOutcomeView::ClaimLost {
                route_id: route_id@,
            },
            WorkOutcome::RequestUnavailable { route_id } => WorkOutcomeView::RequestUnavailable {
                route_id: route_id@,
            },
            WorkOutcome::LostBeforeCompletion { route_id, claim_id } => {
                WorkOutcomeView::LostBeforeCompletion { route_id: route_id@, claim_id: claim_id@ }
            },
            WorkOutcome::Completed { route_id, action, claim_id } => WorkOutcomeView::Completed {
                route_id: route_id@,
                action: action@,
                claim_id: claim_id@,
            },
        }
    }
}

/// What executing a request says: which action was acknowledged, in which scope,
/// and who asked for it.
pub open spec fn acknowledgement(request: RoutedRequestView) -> Seq<char> {
    "acknowledged action `"@ + request.action + "` (scope `"@ + request.scope
        + "`) from source "@ + request.source_service_id
}

/// Executes a request. What the action means is not this worker's to know, so it
/// is acknowledged and nothing more.
pub fn execute(request: &RoutedRequest) -> (action: String)
    ensures
        action@ == acknowledgement(request@),
{
    "acknowledged action `".to_owned().concat(request.action.as_str()).concat("` (scope `").concat(
        request.scope.as_str(),
    ).concat("`) from source ").concat(request.source_service_id.as_str())
}

/// A pass that waits for the kernel.
#[derive(Debug)]
pub enum Pass {
    /// For the listing of eligible routes.
    Listing { lease_seconds: i64 },
    /// For the outcome of its claim.
    Claiming { route_id: String, lease_seconds: i64 },
    /// For the request behind the route that it claimed.
    Reading { route_id: String, claim_id: String, fencing_token: i64 },
    /// For the completion of what it executed.
    Completing { route_id: String, claim_id: String, fencing_token: i64, action: String },
}

/// A [`Pass`] with its texts as character sequences.
pub enum PassView {
    Listing { lease_seconds: i64 },
    Claiming { route_id: Seq<char>, lease_seconds: i64 },
    Reading { route_id: Seq<char>, claim_id: Seq<char>, fencing_token: i64 },
    Completing {
        route_id: Seq<char>,
        claim_id: Seq<char>,
        fencing_token: i64,
        action: Seq<char>,
    },
}

impl View for Pass {
    type V = PassView;

    open spec fn view(&self) -> PassView {
        match self {
            Pass::Listing { lease_seconds } => PassView::Listing { lease_seconds: *lease_seconds },
            Pass::Claiming { route_id, lease_seconds } => PassView::Claiming {
                route_id: route_id@,
                lease_seconds: *lease_seconds,
            },
            Pass::Reading { route_id, claim_id, fencing_token } => PassView::Reading {
                route_id: route_id@,
                claim_id: claim_id@,
                fencing_token: *fencing_token,
            },
            Pass::Completing { route_id, claim_id, fencing_token, action } => {
                PassView::Completing {
                    route_id: route_id@,
                    claim_id: claim_id@,
                    fencing_token: *fencing_token,
                    action: action@,
                }
            },
        }
    }
}

/// How far a pass has come.
#[derive(Debug)]
pub enum Progress {
    Waiting(Pass),
    Finished(Result<WorkOutcome, WorkerError>),
}

/// A [`Progress`] by its views.
pub enum ProgressView {
    Waiting(PassView),
    Finished(Result<WorkOutcomeView, WorkerErrorView>),
}

impl View for Progress {
    type V = ProgressView;

    open spec fn view(&self) -> ProgressView {
        match self {
            Progress::Waiting(pass) => ProgressView::Waiting(pass@),
            Progress::Finished(result) => ProgressView::Finished(error::result_view(*result)),
        }
    }
}

impl PassView {
    /// The call whose outcome the pass waits for.
    pub open spec fn call(self) -> KernelCallView {
        match self {
            PassView::Listing { .. } => KernelCallView::EligibleRoutes,
            PassView::Claiming { route_id, lease_seconds } => KernelCallView::ProposeClaim {
                route_id,
                lease_seconds,
            },
            PassView::Reading { route_id, .. } => KernelCallView::RoutedRequest { route_id },
            PassView::Completing { claim_id, fencing_token, .. } => {
                KernelCallView::CompleteClaim { claim_id, fencing_token }
            },
        }
    }

    /// How many calls the pass may still make.
    pub open spec fn calls_left(self) -> nat {
        match self {
            PassView::Listing { .. } => 4,
            PassView::Claiming { .. } => 3,
            PassView::Reading { .. } => 2,
            PassView::Completing { .. } => 1,
        }
    }

    /// What becomes of the pass with the kernel's reply. A failed call ends it, and
    /// a reply to another call leaves it waiting.
    pub open spec fn with_reply(self, reply: KernelReplyView) -> ProgressView {
        match (self, reply) {
            (PassView::Listing { lease_seconds }, KernelReplyView::EligibleRoutes(result)) => {
                match result {
                    Ok(routes) => if routes.len() == 0 {
                        ProgressView::Finished(Ok(WorkOutcomeView::NothingEligible))
                    } else {
                        ProgressView::Waiting(
                            PassView::Claiming { route_id: routes[0].route_id, lease_seconds },
                        )
                    },
                    Err(error) => ProgressView::Finished(Err(error)),
                }
            },
            (PassView::Claiming { route_id, .. }, KernelReplyView::ProposeClaim(result)) => {
                match result {
                    Ok(ClaimOutcomeView::Claimed(claim)) => ProgressView::Waiting(
                        PassView::Reading {
                            route_id,
                            claim_id: claim.claim_id,
                            fencing_token: claim.fencing_token,
                        },
                    ),
                    Ok(_) => ProgressView::Finished(Ok(WorkOutcomeView::ClaimLost { route_id })),
                    Err(error) => ProgressView::Finished(Err(error)),
                }
            },
            (
                PassView::Reading { route_id, claim_id, fencing_token },
                KernelReplyView::RoutedRequest(result),
            ) => {
                match result {
                    Ok(RoutedRequestOutcomeView::Found(request)) => ProgressView::Waiting(
                        PassView::Completing {
                            route_id,
                            claim_id,
                            fencing_token,
                            action: acknowledgement(request),
                        },
                    ),
                    Ok(RoutedRequestOutcomeView::NotFound) => ProgressView::Finished(
                        Ok(WorkOutcomeView::RequestUnavailable { route_id }),
                    ),
                    Err(error) => ProgressView::Finished(Err(error)),
                }
            },
            (
                PassView::Completing { route_id, claim_id, action, .. },
                KernelReplyView::CompleteClaim(result),
            ) => {
                match result {
                    Ok(CompleteOutcomeView::Completed(_)) => ProgressView::Finished(
                        Ok(WorkOutcomeView::Completed { route_id, action, claim_id }),
                    ),
                    Ok(_) => ProgressView::Finished(
                        Ok(WorkOutcomeView::LostBeforeCompletion { route_id, claim_id }),
                    ),
                    Err(error) => ProgressView::Finished(Err(error)),
                }
            },
            _ => ProgressView::Waiting(self),
        }
    }
}

impl Pass {
    /// Starts a pass whose claim is to last `lease_seconds`.
    pub fn begin(lease_seconds: i64) -> (pass: Pass)
        ensures
            pass@ == (PassView::Listing { lease_seconds }),
    {
        Pass::Listing { lease_seconds }
    }

    /// The call to make next.
    pub fn call(&self) -> (call: KernelCall)
        ensures
            call@ == self@.call(),
    {
        match self {
            Pass::Listing { .. } => KernelCall::EligibleRoutes,
            Pass::Claiming { route_id, lease_seconds } => KernelCall::ProposeClaim {
                route_id: route_id.clone(),
                lease_seconds: *lease_seconds,
            },
            Pass::Reading { route_id, .. } => KernelCall::RoutedRequest {
                route_id: route_id.clone(),
            },
            Pass::Completing { claim_id, fencing_token, .. } => KernelCall::CompleteClaim {
                claim_id: claim_id.clone(),
                fencing_token: *fencing_token,
            },
        }
    }

    /// How long to rest before the next call: work that has been executed is held
    /// for `work_seconds` before it is completed.
    pub fn rest_seconds(&self, work_seconds: u64) -> (seconds: u64)
        ensures
            seconds == (if self@ is Completing {
                work_seconds
            } else {
                0
            }),
    {
        match self {
            Pass::Completing { .. } => work_seconds,
            _ => 0,
        }
    }

    /// Takes the kernel's reply to the call.
    pub fn advance(self, reply: KernelReply) -> (progress: Progress)
        ensures
            progress@ == self@.with_reply(reply@),
    {
        match (self, reply) {
            (Pass::Listing { lease_seconds }, KernelReply::EligibleRoutes(result)) => {
                match result {
                    Ok(routes) => if routes.len() == 0 {
                        Progress::Finished(Ok(WorkOutcome::NothingEligible))
                    } else {
                        Progress::Waiting(
                            Pass::Claiming { route_id: routes[0].route_id.clone(), lease_seconds },
                        )
                    },
                    Err(error) => Progress::Finished(Err(error)),
                }
            },
            (Pass::Claiming { route_id, .. }, KernelReply::ProposeClaim(result)) => {
                match result {
                    Ok(ClaimOutcome::Claimed(claim)) => Progress::Waiting(
                        Pass::Reading {
                            route_id,
                            claim_id: claim.claim_id,
                            fencing_token: claim.fencing_token,
                        },
                    ),
                    Ok(_) => Progress::Finished(Ok(WorkOutcome::ClaimLost { route_id })),
                    Err(error) => Progress::Finished(Err(error)),
                }
            },
            (
                Pass::Reading { route_id, claim_id, fencing_token },
                KernelReply::RoutedRequest(result),
            ) => {
                match result {
                    Ok(RoutedRequestOutcome::Found(request)) => {
                        let action = execute(&request);
                        Progress::Waiting(
                            Pass::Completing { route_id, claim_id, fencing_token, action },
                        )
                    },
                    Ok(RoutedRequestOutcome::NotFound) => Progress::Finished(
                        Ok(WorkOutcome::RequestUnavailable { route_id }),
                    ),
                    Err(error) => Progress::Finished(Err(error)),
                }
            },
            (
                Pass::Completing { route_id, claim_id, action, .. },
                KernelReply::CompleteClaim(result),
            ) => {
                match result {
                    Ok(CompleteOutcome::Completed(_)) => Progress::Finished(
                        Ok(WorkOutcome::Completed { route_id, action, claim_id }),
                    ),
                    Ok(_) => Progress::Finished(
                        Ok(WorkOutcome::LostBeforeCompletion { route_id, claim_id }),
                    ),
                    Err(error) => Progress::Finished(Err(error)),
                }
            },
            (pass, _) => Progress::Waiting(pass),
        }
    }
}

/// How far a pass has come after the kernel's replies. Replies after its end do
/// not matter.
pub open spec fn progress_after(
    lease_seconds: i64,
    replies: Seq<KernelReplyView>,
) -> ProgressView
    decreases replies.len(),
{
    if replies.len() == 0 {
        ProgressView::Waiting(PassView::Listing { lease_seconds })
    } else {
        match progress_after(lease_seconds, replies.drop_last()) {
            ProgressView::Waiting(pass) => pass.with_reply(replies.last()),
            finished => finished,
        }
    }
}

/// Whether `replies` are what the port may give in a pass: each to the call that
/// the pass makes after the replies before it.
pub open spec fn port_replies<P: KernelPort>(
    port: &P,
    lease_seconds: i64,
    replies: Seq<KernelReplyView>,
) -> bool {
    forall|i: int|
        0 <= i < replies.len() ==> (#[trigger] progress_after(
            lease_seconds,
            replies.take(i),
        ) matches ProgressView::Waiting(pass) && kernel_client::port_gives(
            port,
            pass.call(),
            replies[i],
        ))
}

/// The calls of a pass with the replies to them, in order: before each reply stands
/// the call that the pass makes after the replies before it.
pub open spec fn conversation(
    lease_seconds: i64,
    replies: Seq<KernelReplyView>,
) -> Seq<(KernelCallView, KernelReplyView)> {
    Seq::new(
        replies.len(),
        |i: int|
            (progress_after(lease_seconds, replies.take(i))->Waiting_0.call(), replies[i]),
    )
}

/// Makes the pass of a session: lists the eligible routes, claims the first, reads the
/// request behind it, executes that, and completes the claim. The calls that were made by
/// then are those of the pass, each once, with the replies that were made use of.
pub fn make_pass<'a, P: KernelPort>(session: &mut Session<'a, P>) -> (result: Result<
    WorkOutcome,
    WorkerError,
>)
    requires
        old(session).history().len() == 0,
    ensures
        final(session).port() == old(session).port(),
        final(session).lease_seconds() == old(session).lease_seconds(),
        ({
            let lease_seconds = old(session).lease_seconds();
            let replies = session::replies_in(final(session).history());
            &&& port_replies(old(session).port(), lease_seconds, replies)
            &&& progress_after(lease_seconds, replies) == ProgressView::Finished(
                error::result_view(result),
            )
            &&& final(session).history() == conversation(lease_seconds, replies)
        }),
{
    let lease_seconds: i64 = session.lease();
    let mut pass = Pass::begin(lease_seconds);
    let ghost mut replies: Seq<KernelReplyView> = Seq::empty();
    let ghost port = session.port();
    assert(session.history() =~= conversation(lease_seconds, replies));
    loop
        invariant
            port_replies(port, lease_seconds, replies),
            progress_after(lease_seconds, replies) == ProgressView::Waiting(pass@),
            session.port() == port,
            session.lease_seconds() == lease_seconds,
            session.history() == conversation(lease_seconds, replies),
            port == old(session).port(),
            lease_seconds == old(session).lease_seconds(),
        decreases pass@.calls_left(),
    {
        let call = pass.call();
        assert(session::replies_in(session.history()) =~= replies);
        let reply = session.call(&call);
        let ghost before = replies;
        proof {
            replies = before.push(reply@);
            assert(replies.drop_last() =~= before);
            assert forall|i: int| 0 <= i < replies.len() implies (#[trigger] progress_after(
                lease_seconds,
                replies.take(i),
            ) matches ProgressView::Waiting(pass) && kernel_client::port_gives(
                port,
                pass.call(),
                replies[i],
            )) by {
                if i < before.len() {
                    assert(replies.take(i) =~= before.take(i));
                } else {
                    assert(replies.take(i) =~= before);
                }
            }
            assert(conversation(lease_seconds, replies) =~= conversation(
                lease_seconds,
                before,
            ).push((call@, reply@))) by {
                assert forall|i: int| 0 <= i < before.len() implies #[trigger] replies.take(i)
                    == before.take(i) by {
                    assert(replies.take(i) =~= before.take(i));
                }
                assert(replies.take(before.len() as int) =~= before);
            }
            assert(session::replies_in(session.history()) =~= replies);
        }
        match pass.advance(reply) {
            Progress::Waiting(next) => {
                pass = next;
            },
            Progress::Finished(result) => {
                return result;
            },
        }
    }
}

/// Makes one pass through a port. The access to the port is good for one session, so no
/// call is made but those of the pass, and each of them is made once.
pub fn work_once<'a, A: Access<'a>>(port: A, lease_seconds: i64) -> (result: Result<
    WorkOutcome,
    WorkerError,
>)
    ensures
        exists|replies: Seq<KernelReplyView>|
            {
                &&& port_replies(port.accessed(), lease_seconds, replies)
                &&& #[trigger] progress_after(lease_seconds, replies) == ProgressView::Finished(
                    error::result_view(result),
                )
            },
{
    let mut session = port.open(lease_seconds);
    make_pass(&mut session)
}

/// Whether `replies` are the replies to the calls of one pass: each fits the call
/// that the pass makes after the replies before it.
pub open spec fn is_conversation(lease_seconds: i64, replies: Seq<KernelReplyView>) -> bool {
    forall|i: int|
        0 <= i < replies.len() ==> (#[trigger] progress_after(
            lease_seconds,
            replies.take(i),
        ) matches ProgressView::Waiting(pass) && kernel_client::reply_fits(
            pass.call(),
            replies[i],
        ))
}

/// What a port gives in a pass are replies to the calls of the pass, so all that
/// holds of conversations holds of every pass through every port.
pub proof fn law_port_replies_are_a_conversation<P: KernelPort>(
    port: &P,
    lease_seconds: i64,
    replies: Seq<KernelReplyView>,
)
    requires
        port_replies(port, lease_seconds, replies),
    ensures
        is_conversation(lease_seconds, replies),
{
}

/// One more reply takes the pass one step further.
proof fn lemma_next_reply(lease_seconds: i64, replies: Seq<KernelReplyView>, i: int)
    requires
        0 <= i < replies.len(),
        is_conversation(lease_seconds, replies),
    ensures
        progress_after(lease_seconds, replies.take(i)) matches ProgressView::Waiting(pass) && {
            &&& kernel_client::reply_fits(pass.call(), replies[i])
            &&& progress_after(lease_seconds, replies.take(i + 1)) == pass.with_reply(replies[i])
        },
{
    assert(replies.take(i + 1).drop_last() =~= replies.take(i));
    assert(replies.take(i + 1).last() == replies[i]);
}

/// Whether the pass, when it got the reply `i`, was one call further than before,
/// waited for that reply, and went on with it.
spec fn took_reply(lease_seconds: i64, replies: Seq<KernelReplyView>, i: int) -> bool {
    progress_after(lease_seconds, replies.take(i)) matches ProgressView::Waiting(pass) && {
        &&& pass.calls_left() == 4 - i
        &&& kernel_client::reply_fits(pass.call(), replies[i])
        &&& progress_after(lease_seconds, replies.take(i + 1)) == pass.with_reply(replies[i])
    }
}

/// Follows a conversation from its first reply to its last.
proof fn lemma_follow(lease_seconds: i64, replies: Seq<KernelReplyView>)
    requires
        is_conversation(lease_seconds, replies),
    ensures
        replies.len() <= 4,
        progress_after(lease_seconds, replies.take(0)) == ProgressView::Waiting(
            PassView::Listing { lease_seconds },
        ),
        replies.take(replies.len() as int) == replies,
        replies.len() > 0 ==> took_reply(lease_seconds, replies, 0),
        replies.len() > 1 ==> took_reply(lease_seconds, replies, 1),
        replies.len() > 2 ==> took_reply(lease_seconds, replies, 2),
        replies.len() > 3 ==> took_reply(lease_seconds, replies, 3),
        progress_after(lease_seconds, replies) matches ProgressView::Waiting(pass)
            ==> pass.calls_left() == 4 - replies.len(),
{
    assert(replies.take(0) =~= Seq::empty());
    assert(replies.take(replies.len() as int) =~= replies);
    if replies.len() > 0 {
        lemma_next_reply(lease_seconds, replies, 0);
    }
    if replies.len() > 1 {
        lemma_next_reply(lease_seconds, replies, 1);
    }
    if replies.len() > 2 {
        lemma_next_reply(lease_seconds, replies, 2);
    }
    if replies.len() > 3 {
        lemma_next_reply(lease_seconds, replies, 3);
    }
    if replies.len() > 4 {
        lemma_next_reply(lease_seconds, replies, 4);
    }
}

/// A pass ends: it makes at most four calls.
pub proof fn law_a_pass_makes_at_most_four_calls(
    lease_seconds: i64,
    replies: Seq<KernelReplyView>,
)
    requires
        is_conversation(lease_seconds, replies),
    ensures
        replies.len() <= 4,
        replies.len() == 4 ==> progress_after(lease_seconds, replies) is Finished,
{
    lemma_follow(lease_seconds, replies);
}

/// The worker claims the first of the eligible routes, which is the oldest, with
/// the lease that it was told to ask for.
pub proof fn law_the_oldest_route_is_claimed(
    lease_seconds: i64,
    replies: Seq<KernelReplyView>,
    pass: PassView,
)
    requires
        is_conversation(lease_seconds, replies),
        progress_after(lease_seconds, replies) == ProgressView::Waiting(pass),
        pass.call() is ProposeClaim,
    ensures
        replies.len() == 1,
        replies[0] matches KernelReplyView::EligibleRoutes(Ok(routes)) && routes.len() > 0
            && pass.call() == (KernelCallView::ProposeClaim {
            route_id: routes[0].route_id,
            lease_seconds,
        }),
{
    lemma_follow(lease_seconds, replies);
}

/// Nothing is completed blind: a completion is only ever asked for after this pass
/// claimed the oldest route and read the request behind it, and it presents the
/// claim and the fencing token that the kernel granted for that route.
pub proof fn law_nothing_is_completed_blind(
    lease_seconds: i64,
    replies: Seq<KernelReplyView>,
    pass: PassView,
)
    requires
        is_conversation(lease_seconds, replies),
        progress_after(lease_seconds, replies) == ProgressView::Waiting(pass),
        pass.call() is CompleteClaim,
    ensures
        replies.len() == 3,
        replies[0] matches KernelReplyView::EligibleRoutes(Ok(routes)) && routes.len() > 0 && {
            &&& replies[1] matches KernelReplyView::ProposeClaim(
                Ok(ClaimOutcomeView::Claimed(claim)),
            )
            &&& replies[2] matches KernelReplyView::RoutedRequest(
                Ok(RoutedRequestOutcomeView::Found(request)),
            )
            &&& progress_after(lease_seconds, replies.take(1)) == ProgressView::Waiting(
                PassView::Claiming { route_id: routes[0].route_id, lease_seconds },
            )
            &&& progress_after(lease_seconds, replies.take(2)) matches ProgressView::Waiting(
                reading,
            ) && reading.call() == (KernelCallView::RoutedRequest { route_id: routes[0].route_id })
            &&& pass == (PassView::Completing {
                route_id: routes[0].route_id,
                claim_id: claim.claim_id,
                fencing_token: claim.fencing_token,
                action: acknowledgement(request),
            })
            &&& pass.call() == (KernelCallView::CompleteClaim {
                claim_id: claim.claim_id,
                fencing_token: claim.fencing_token,
            })
        },
{
    lemma_follow(lease_seconds, replies);
}

/// The error that a reply reports, where its call failed.
pub open spec fn failure_of(reply: KernelReplyView) -> Option<WorkerErrorView> {
    match reply {
        KernelReplyView::EligibleRoutes(Err(error)) => Some(error),
        KernelReplyView::ProposeClaim(Err(error)) => Some(error),
        KernelReplyView::RoutedRequest(Err(error)) => Some(error),
        KernelReplyView::CompleteClaim(Err(error)) => Some(error),
        _ => None,
    }
}

/// A pass fails only where a call fails, and then with that call's error: losing a
/// race, a claim or a route is no failure.
pub proof fn law_only_a_failed_call_fails_a_pass(
    lease_seconds: i64,
    replies: Seq<KernelReplyView>,
    result: Result<WorkOutcomeView, WorkerErrorView>,
)
    requires
        is_conversation(lease_seconds, replies),
        progress_after(lease_seconds, replies) == ProgressView::Finished(result),
    ensures
        replies.len() > 0,
        match result {
            Ok(_) => failure_of(replies.last()) is None,
            Err(error) => failure_of(replies.last()) == Some(error),
        },
        forall|i: int|
            0 <= i < replies.len() - 1 ==> failure_of(#[trigger] replies[i]) is None,
{
    lemma_follow(lease_seconds, replies);
    assert forall|i: int| 0 <= i < replies.len() - 1 implies failure_of(
        #[trigger] replies[i],
    ) is None by {
        assert(i == 0 || i == 1 || i == 2);
    }
}

/// What each outcome of a pass says of the replies: how far the pass came, and
/// with which reply it ended.
pub open spec fn outcome_tells(
    outcome: WorkOutcomeView,
    replies: Seq<KernelReplyView>,
) -> bool {
    match outcome {
        WorkOutcomeView::NothingEligible => {
            &&& replies.len() == 1
            &&& replies[0] matches KernelReplyView::EligibleRoutes(Ok(routes))
            &&& routes.len() == 0
        },
        WorkOutcomeView::ClaimLost { route_id } => {
            &&& replies.len() == 2
            &&& replies[0] matches KernelReplyView::EligibleRoutes(Ok(routes))
            &&& routes.len() > 0
            &&& routes[0].route_id == route_id
            &&& replies[1] matches KernelReplyView::ProposeClaim(Ok(lost))
            &&& lost is AlreadyClaimed || lost is RouteNotFound
        },
        WorkOutcomeView::RequestUnavailable { route_id } => {
            &&& replies.len() == 3
            &&& replies[0] matches KernelReplyView::EligibleRoutes(Ok(routes))
            &&& routes.len() > 0
            &&& routes[0].route_id == route_id
            &&& replies[1] matches KernelReplyView::ProposeClaim(Ok(ClaimOutcomeView::Claimed(_)))
            &&& replies[2] matches KernelReplyView::RoutedRequest(
                Ok(RoutedRequestOutcomeView::NotFound),
            )
        },
        WorkOutcomeView::LostBeforeCompletion { route_id, claim_id } => {
            &&& replies.len() == 4
            &&& replies[0] matches KernelReplyView::EligibleRoutes(Ok(routes))
            &&& routes.len() > 0
            &&& routes[0].route_id == route_id
            &&& replies[1] matches KernelReplyView::ProposeClaim(
                Ok(ClaimOutcomeView::Claimed(claim)),
            )
            &&& claim.claim_id == claim_id
            &&& replies[2] matches KernelReplyView::RoutedRequest(
                Ok(RoutedRequestOutcomeView::Found(_)),
            )
            &&& replies[3] matches KernelReplyView::CompleteClaim(Ok(lost))
            &&& lost is Fenced || lost is NotFound
        },
        WorkOutcomeView::Completed { route_id, action, claim_id } => {
            &&& replies.len() == 4
            &&& replies[0] matches KernelReplyView::EligibleRoutes(Ok(routes))
            &&& routes.len() > 0
            &&& routes[0].route_id == route_id
            &&& replies[1] matches KernelReplyView::ProposeClaim(
                Ok(ClaimOutcomeView::Claimed(claim)),
            )
            &&& claim.claim_id == claim_id
            &&& replies[2] matches KernelReplyView::RoutedRequest(
                Ok(RoutedRequestOutcomeView::Found(request)),
            )
            &&& action == acknowledgement(request)
            &&& replies[3] matches KernelReplyView::CompleteClaim(
                Ok(CompleteOutcomeView::Completed(_)),
            )
        },
    }
}

/// A pass reports exactly what happened: it ends with an outcome if and only if the
/// kernel replied as that outcome tells.
pub proof fn law_the_outcome_tells_what_happened(
    lease_seconds: i64,
    replies: Seq<KernelReplyView>,
    outcome: WorkOutcomeView,
)
    requires
        is_conversation(lease_seconds, replies),
    ensures
        progress_after(lease_seconds, replies) == ProgressView::Finished(Ok(outcome))
            <==> outcome_tells(outcome, replies),
{
    lemma_follow(lease_seconds, replies);
}

/// Executing a request acknowledges it: the text names the action, the scope and who
/// asked, each whole.
pub proof fn law_a_request_is_acknowledged_whole(request: &RoutedRequest, action: String)
    requires
        call_ensures(execute, (request,), action),
    ensures
        action@ == "acknowledged action `"@ + request.action@ + "` (scope `"@ + request.scope@
            + "`) from source "@ + request.source_service_id@,
{
}

/// Whether a list of calls with their replies is how a pass goes: it lists the eligible
/// routes, claims the first with the lease that it was told to ask for, reads the request
/// behind that route, and completes the claim that it was granted. Each call is made once,
/// and only after the kernel replied to the one before as the call needs.
pub open spec fn goes_as_a_pass(
    lease_seconds: i64,
    history: Seq<(KernelCallView, KernelReplyView)>,
) -> bool {
    &&& 1 <= history.len() <= 4
    &&& history[0].0 is EligibleRoutes
    &&& history.len() > 1 ==> {
        &&& history[0].1 matches KernelReplyView::EligibleRoutes(Ok(routes))
        &&& routes.len() > 0
        &&& history[1].0 == (KernelCallView::ProposeClaim {
            route_id: routes[0].route_id,
            lease_seconds,
        })
        &&& history.len() > 2 ==> {
            &&& history[1].1 matches KernelReplyView::ProposeClaim(
                Ok(ClaimOutcomeView::Claimed(claim)),
            )
            &&& history[2].0 == (KernelCallView::RoutedRequest { route_id: routes[0].route_id })
            &&& history.len() > 3 ==> {
                &&& history[2].1 matches KernelReplyView::RoutedRequest(
                    Ok(RoutedRequestOutcomeView::Found(_)),
                )
                &&& history[3].0 == (KernelCallView::CompleteClaim {
                    claim_id: claim.claim_id,
                    fencing_token: claim.fencing_token,
                })
            }
        }
    }
}

/// The calls that a pass makes are those of a pass, each once and in order, with the
/// replies that were given: no call is made twice, and none but these.
pub proof fn law_a_pass_makes_each_call_once(lease_seconds: i64, replies: Seq<KernelReplyView>)
    requires
        is_conversation(lease_seconds, replies),
        replies.len() > 0,
    ensures
        goes_as_a_pass(lease_seconds, conversation(lease_seconds, replies)),
        session::replies_in(conversation(lease_seconds, replies)) == replies,
        ({
            let history = conversation(lease_seconds, replies);
            &&& forall|i: int, j: int|
                #![trigger history[i], history[j]]
                0 <= i < j < history.len() ==> history[i].0 != history[j].0
            &&& forall|i: int|
                0 <= i < history.len() && (#[trigger] history[i]).0 is CompleteClaim ==> i == 3
        }),
{
    lemma_follow(lease_seconds, replies);
    let history = conversation(lease_seconds, replies);
    assert(session::replies_in(history) =~= replies);
    assert forall|i: int, j: int|
        #![trigger history[i], history[j]]
        0 <= i < j < history.len() implies history[i].0 != history[j].0 by {
        assert(i == 0 || i == 1 || i == 2);
        assert(j == 1 || j == 2 || j == 3);
    }
    assert forall|i: int|
        0 <= i < history.len() && (#[trigger] history[i]).0 is CompleteClaim implies i == 3 by {
        assert(i == 0 || i == 1 || i == 2 || i == 3);
    }
}

/// What one pass through a port comes to is told by calls of that port, which are those
/// of a pass, and by what the port gave in reply to each: the outcome is the one that the
/// replies tell, and a failure is that of the last call.
pub proof fn law_a_pass_tells_what_the_port_gave<'a, A: Access<'a>>(
    port: A,
    lease_seconds: i64,
    result: Result<WorkOutcome, WorkerError>,
)
    requires
        call_ensures(work_once::<A>, (port, lease_seconds), result),
    ensures
        exists|history: Seq<(KernelCallView, KernelReplyView)>|
            {
                &&& #[trigger] goes_as_a_pass(lease_seconds, history)
                &&& forall|i: int|
                    0 <= i < history.len() ==> kernel_client::port_gives(
                        port.accessed(),
                        (#[trigger] history[i]).0,
                        history[i].1,
                    )
                &&& match result {
                    Ok(outcome) => outcome_tells(outcome@, session::replies_in(history)),
                    Err(failure) => failure_of(history[history.len() - 1].1) == Some(failure@),
                }
            },
{
    let replies = choose|replies: Seq<KernelReplyView>|
        {
            &&& port_replies(port.accessed(), lease_seconds, replies)
            &&& #[trigger] progress_after(lease_seconds, replies) == ProgressView::Finished(
                error::result_view(result),
            )
        };
    law_port_replies_are_a_conversation(port.accessed(), lease_seconds, replies);
    law_only_a_failed_call_fails_a_pass(lease_seconds, replies, error::result_view(result));
    law_a_pass_makes_each_call_once(lease_seconds, replies);
    let history = conversation(lease_seconds, replies);
    assert forall|i: int| 0 <= i < history.len() implies kernel_client::port_gives(
        port.accessed(),
        (#[trigger] history[i]).0,
        history[i].1,
    ) by {
        assert(progress_after(lease_seconds, replies.take(i)) is Waiting);
    }
    if let Ok(outcome) = result {
        law_the_outcome_tells_what_happened(lease_seconds, replies, outcome@);
    }
    assert(goes_as_a_pass(lease_seconds, history));
}

/// A pass begins with the listing, holds nothing but a completion, for as long as it is
/// told, and is left as it is by a reply to another call than its own.
pub proof fn law_a_pass_waits_for_its_own_reply(
    lease_seconds: i64,
    begun: Pass,
    first: KernelCall,
    pass: Pass,
    call: KernelCall,
    work_seconds: u64,
    seconds: u64,
    reply: KernelReply,
    progress: Progress,
)
    requires
        call_ensures(Pass::begin, (lease_seconds,), begun),
        call_ensures(Pass::call, (&begun,), first),
        call_ensures(Pass::call, (&pass,), call),
        call_ensures(Pass::rest_seconds, (&pass, work_seconds), seconds),
        call_ensures(Pass::advance, (pass, reply), progress),
    ensures
        begun matches Pass::Listing { lease_seconds: told } && told == lease_seconds,
        first is EligibleRoutes,
        call is CompleteClaim ==> seconds == work_seconds,
        !(call is CompleteClaim) ==> seconds == 0,
        !kernel_client::reply_fits(call@, reply@) ==> (progress matches Progress::Waiting(next)
            && next@ == pass@),
{
}

/// The calls that are made in the session of a pass, all of them and in order, are those
/// of a pass, each made once; each was answered by the port; and what the pass comes to is
/// what these answers tell.
pub proof fn law_a_pass_makes_its_calls_and_no_others<'a, P: KernelPort>(
    session: &mut Session<'a, P>,
    result: Result<WorkOutcome, WorkerError>,
)
    requires
        old(session).history().len() == 0,
        call_ensures(make_pass::<P>, (session,), result),
    ensures
        ({
            let history = final(session).history();
            &&& goes_as_a_pass(old(session).lease_seconds(), history)
            &&& forall|i: int, j: int|
                #![trigger history[i], history[j]]
                0 <= i < j < history.len() ==> history[i].0 != history[j].0
            &&& forall|i: int|
                0 <= i < history.len() && (#[trigger] history[i]).0 is CompleteClaim ==> i == 3
            &&& forall|i: int|
                0 <= i < history.len() ==> kernel_client::port_gives(
                    old(session).port(),
                    (#[trigger] history[i]).0,
                    history[i].1,
                )
            &&& match result {
                Ok(outcome) => outcome_tells(outcome@, session::replies_in(history)),
                Err(failure) => failure_of(history[history.len() - 1].1) == Some(failure@),
            }
        }),
{
    let lease_seconds = old(session).lease_seconds();
    let port = old(session).port();
    let history = final(session).history();
    let replies = session::replies_in(history);
    law_port_replies_are_a_conversation(port, lease_seconds, replies);
    law_only_a_failed_call_fails_a_pass(lease_seconds, replies, error::result_view(result));
    law_a_pass_makes_each_call_once(lease_seconds, replies);
    assert forall|i: int| 0 <= i < history.len() implies kernel_client::port_gives(
        port,
        (#[trigger] history[i]).0,
        history[i].1,
    ) by {
        assert(progress_after(lease_seconds, replies.take(i)) is Waiting);
    }
    if let Ok(outcome) = result {
        law_the_outcome_tells_what_happened(lease_seconds, replies, outcome@);
    }
}

}
