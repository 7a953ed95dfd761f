//! The calls of one pass, and nothing besides: a session lets its holder make the call
//! that the pass makes next, and no other, and notes each.

use crate::kernel_client;
use crate::kernel_client::{
    KernelCall, KernelCallView, KernelPort, KernelReply, KernelReplyView,
};
use crate::worker;
use crate::worker::ProgressView;
use vstd::prelude::*;

verus! {

/// The replies in a list of calls with their replies.
pub open spec fn replies_in(history: Seq<(KernelCallView, KernelReplyView)>) -> Seq<
    KernelReplyView,
> {
    Seq::new(history.len(), |i: int| history[i].1)
}

/// The kernel behind a port, in the course of one pass. Its holder cannot get at the
/// port, so every call that is made of it is one of the pass, and is noted.
pub struct Session<'a, P: KernelPort> {
    port: &'a P,
    lease_seconds: i64,
    history: Ghost<Seq<(KernelCallView, KernelReplyView)>>,
}

impl<'a, P: KernelPort> Session<'a, P> {
    /// The port that is asked.
    pub closed spec fn port(&self) -> &'a P {
        self.port
    }

    /// The lease that the pass asks for with its claim.
    pub closed spec fn lease_seconds(&self) -> i64 {
        self.lease_seconds
    }

    /// Every call that was made, with its reply, in the order in which they were made.
    pub closed spec fn history(&self) -> Seq<(KernelCallView, KernelReplyView)> {
        self.history@
    }

    /// Whether the pass makes the call `call` next.
    pub open spec fn makes_next(&self, call: KernelCallView) -> bool {
        worker::progress_after(self.lease_seconds(), replies_in(self.history()))
            matches ProgressView::Waiting(pass) && pass.call() == call
    }

    /// The lease that the pass asks for with its claim.
    pub fn lease(&self) -> (lease_seconds: i64)
        ensures
            lease_seconds == self.lease_seconds(),
    {
        self.lease_seconds
    }

    /// Makes the call that the pass makes next, and notes it. No other call can be made,
    /// and none once the pass is over.
    pub fn call(&mut self, call: &KernelCall) -> (reply: KernelReply)
        requires
            old(self).makes_next(call@),
        ensures
            kernel_client::port_gives(old(self).port(), call@, reply@),
            kernel_client::reply_fits(call@, reply@),
            final(self).port() == old(self).port(),
            final(self).lease_seconds() == old(self).lease_seconds(),
            final(self).history() == old(self).history().push((call@, reply@)),
    {
        let reply = kernel_client::perform(self.port, call);
        self.history = Ghost(self.history@.push((call@, reply@)));
        reply
    }
}

/// Access to a kernel that is good for one session: opening it uses the access up. A
/// reference to a port is such access, to whoever takes it as no more than that.
pub trait Access<'a>: Sized {
    /// The port that is accessed.
    type Port: KernelPort + 'a;

    /// The port that is accessed.
    spec fn accessed(&self) -> &'a Self::Port;

    /// Opens a session in which nothing was asked yet, for a pass whose claim is to last
    /// `lease_seconds`.
    fn open(self, lease_seconds: i64) -> (session: Session<'a, Self::Port>)
        ensures
            session.port() == self.accessed(),
            session.lease_seconds() == lease_seconds,
            session.history().len() == 0,
    ;
}

impl<'a, P: KernelPort> Access<'a> for &'a P {
    type Port = P;

    open spec fn accessed(&self) -> &'a P {
        *self
    }

    fn open(self, lease_seconds: i64) -> (session: Session<'a, P>) {
        Session { port: self, lease_seconds, history: Ghost(Seq::empty()) }
    }
}

/// A session notes the call that was made, with the reply that was given, after all that
/// it noted before, and goes on with the same port and the same lease.
pub proof fn law_a_session_notes_its_calls<'a, P: KernelPort>(
    session: &mut Session<'a, P>,
    call: &KernelCall,
    reply: KernelReply,
)
    requires
        call_ensures(Session::<'a, P>::call, (session, call), reply),
    ensures
        final(session).history().len() == old(session).history().len() + 1,
        forall|i: int|
            0 <= i < old(session).history().len() ==> #[trigger] final(session).history()[i]
                == old(session).history()[i],
        final(session).history()[old(session).history().len() as int] == (call@, reply@),
        final(session).port() == old(session).port(),
        final(session).lease_seconds() == old(session).lease_seconds(),
        kernel_client::port_gives(old(session).port(), call@, reply@),
{
}

/// Once a pass is over, no further call can be made in its session.
pub proof fn law_no_call_after_the_pass<'a, P: KernelPort>(
    session: Session<'a, P>,
    call: KernelCallView,
)
    requires
        worker::progress_after(session.lease_seconds(), replies_in(session.history())) is Finished,
    ensures
        !session.makes_next(call),
{
}

}
