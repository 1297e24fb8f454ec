use vstd::prelude::*;

use crate::address::{copy_addrs, PeerAddr};
use crate::message::{Message, MessageView};

verus! {

/// What the program around a fan-out does next.
#[derive(Clone, Copy, Debug, PartialEq, Eq, Structural)]
pub enum FanoutStep {
    /// Send the message to this peer, then report with [`Fanout::record`] whether that worked.
    Send(PeerAddr),
    /// Every target received the message.
    Complete,
    /// A send failed; the fan-out stopped there and the rest of the targets were not tried.
    Aborted,
}

/// The mathematical state of a [`Fanout`].
pub struct FanoutState {
    pub message: MessageView,
    pub targets: Seq<PeerAddr>,
    /// How many targets, from the front, have received the message.
    pub delivered: nat,
    /// Whether the send to `targets[delivered]` failed.
    pub failed: bool,
}

impl FanoutState {
    /// The state a fan-out starts in.
    pub open spec fn start(message: MessageView, targets: Seq<PeerAddr>) -> FanoutState {
        FanoutState { message, targets, delivered: 0, failed: false }
    }

    /// What every reachable state satisfies.
    pub open spec fn wf(self) -> bool {
        &&& self.delivered <= self.targets.len()
        &&& self.failed ==> self.delivered < self.targets.len()
    }

    /// Whether a send is still to be made.
    pub open spec fn in_progress(self) -> bool {
        !self.failed && self.delivered < self.targets.len()
    }

    /// The step that the state asks for.
    pub open spec fn next(self) -> FanoutStep {
        if self.failed {
            FanoutStep::Aborted
        } else if self.delivered < self.targets.len() {
            FanoutStep::Send(self.targets[self.delivered as int])
        } else {
            FanoutStep::Complete
        }
    }

    /// The state after the outcome of the pending send is known; a finished
    /// fan-out ignores outcomes.
    pub open spec fn record(self, sent: bool) -> FanoutState {
        if self.in_progress() {
            if sent {
                FanoutState { delivered: self.delivered + 1, ..self }
            } else {
                FanoutState { failed: true, ..self }
            }
        } else {
            self
        }
    }

    /// The state after a series of outcomes, the first one first.
    pub open spec fn run(self, outcomes: Seq<bool>) -> FanoutState
        decreases outcomes.len(),
    {
        if outcomes.len() == 0 {
            self
        } else {
            self.record(outcomes[0]).run(outcomes.drop_first())
        }
    }
}

/// One message on its way to a list of peers, one send at a time and in order,
/// stopping at the first send that fails.
pub struct Fanout {
    message: Message,
    targets: Vec<PeerAddr>,
    delivered: usize,
    failed: bool,
}

impl View for Fanout {
    type V = FanoutState;

    closed spec fn view(&self) -> FanoutState {
        FanoutState {
            message: self.message@,
            targets: self.targets@,
            delivered: self.delivered as nat,
            failed: self.failed,
        }
    }
}

impl Fanout {
    #[verifier::type_invariant]
    closed spec fn inv(self) -> bool {
        self@.wf()
    }

    /// A fan-out of `message` to `targets`, with nothing sent yet.
    pub fn new(message: Message, targets: Vec<PeerAddr>) -> (fanout: Fanout)
        ensures
            fanout@ == FanoutState::start(message@, targets@),
            fanout@.message == message@,
            fanout@.targets == targets@,
            fanout@.delivered == 0,
            !fanout@.failed,
    {
        Fanout { message, targets, delivered: 0, failed: false }
    }

    /// The message being sent.
    pub fn message(&self) -> (message: &Message)
        ensures
            message@ == self@.message,
    {
        &self.message
    }

    /// The peers to send to, in the order in which they are tried.
    pub fn targets(&self) -> (targets: Vec<PeerAddr>)
        ensures
            targets@ == self@.targets,
    {
        copy_addrs(&self.targets)
    }

    /// How many targets have received the message so far.
    pub fn delivered(&self) -> (count: usize)
        ensures
            count == self@.delivered,
    {
        self.delivered
    }

    /// What to do next.
    pub fn next_step(&self) -> (step: FanoutStep)
        ensures
            step == self@.next(),
            self@.failed ==> step == FanoutStep::Aborted,
            !self@.failed && self@.delivered < self@.targets.len() ==> step == FanoutStep::Send(
                self@.targets[self@.delivered as int],
            ),
            !self@.failed && self@.delivered >= self@.targets.len() ==> step == FanoutStep::Complete,
    {
        proof {
            use_type_invariant(self);
        }
        if self.failed {
            FanoutStep::Aborted
        } else if self.delivered < self.targets.len() {
            FanoutStep::Send(self.targets[self.delivered])
        } else {
            FanoutStep::Complete
        }
    }

    /// Reports whether the send that [`Fanout::next_step`] asked for went through.
    pub fn record(&mut self, sent: bool)
        ensures
            final(self)@ == old(self)@.record(sent),
            final(self)@.message == old(self)@.message,
            final(self)@.targets == old(self)@.targets,
            old(self)@.in_progress() && sent ==> final(self)@.delivered == old(self)@.delivered + 1
                && !final(self)@.failed,
            old(self)@.in_progress() && !sent ==> final(self)@.delivered == old(self)@.delivered
                && final(self)@.failed,
            !old(self)@.in_progress() ==> final(self)@ == old(self)@,
    {
        proof {
            use_type_invariant(&*self);
        }
        if !self.failed && self.delivered < self.targets.len() {
            if sent {
                self.delivered = self.delivered + 1;
            } else {
                self.failed = true;
            }
        }
    }
}

/// A fan-out starts with exactly the message and the targets it was made for, in
/// that order, with nothing delivered and nothing failed; its first step is a send
/// to the first target, or completion when there is none.
pub proof fn lemma_start_keeps_message_and_targets(message: MessageView, targets: Seq<PeerAddr>)
    ensures
        FanoutState::start(message, targets).message == message,
        FanoutState::start(message, targets).targets == targets,
        FanoutState::start(message, targets).delivered == 0,
        !FanoutState::start(message, targets).failed,
        FanoutState::start(message, targets).wf(),
        targets.len() > 0 ==> FanoutState::start(message, targets).next() == FanoutStep::Send(targets[0]),
        targets.len() == 0 ==> FanoutState::start(message, targets).next() == FanoutStep::Complete,
{
}

/// Recording an outcome never changes the message or the targets; a successful send
/// moves on by exactly one target, a failed one stops the fan-out where it is, and a
/// finished fan-out ignores outcomes. A fan-out asks for a send exactly while it is
/// in progress, and then to the first target not yet delivered to.
pub proof fn lemma_record_and_next(s: FanoutState, sent: bool)
    requires
        s.wf(),
    ensures
        s.record(sent).message == s.message,
        s.record(sent).targets == s.targets,
        s.record(sent).wf(),
        s.in_progress() && sent ==> s.record(sent).delivered == s.delivered + 1 && !s.record(sent).failed,
        s.in_progress() && !sent ==> s.record(sent).delivered == s.delivered && s.record(sent).failed
            && s.record(sent).next() == FanoutStep::Aborted,
        !s.in_progress() ==> s.record(sent) == s,
        s.in_progress() <==> s.next() is Send,
        s.in_progress() ==> s.next() == FanoutStep::Send(s.targets[s.delivered as int]),
        !s.failed && s.delivered == s.targets.len() ==> s.next() == FanoutStep::Complete,
{
}

/// A fan-out that has received `outcomes`, all of them successful, is still
/// sending to the next target in order, or has completed once every target
/// received the message.
pub proof fn lemma_successes_advance_in_order(start: FanoutState, outcomes: Seq<bool>)
    requires
        start.delivered == 0,
        !start.failed,
        outcomes.len() <= start.targets.len(),
        forall|i: int| 0 <= i < outcomes.len() ==> outcomes[i],
    ensures
        start.run(outcomes).delivered == outcomes.len(),
        !start.run(outcomes).failed,
        outcomes.len() < start.targets.len() ==> start.run(outcomes).next()
            == FanoutStep::Send(start.targets[outcomes.len() as int]),
        outcomes.len() == start.targets.len() ==> start.run(outcomes).next()
            == FanoutStep::Complete,
{
    lemma_run_successes(start, outcomes);
}

proof fn lemma_run_successes(s: FanoutState, outcomes: Seq<bool>)
    requires
        !s.failed,
        s.delivered + outcomes.len() <= s.targets.len(),
        forall|i: int| 0 <= i < outcomes.len() ==> outcomes[i],
    ensures
        s.run(outcomes) == (FanoutState { delivered: s.delivered + outcomes.len(), ..s }),
    decreases outcomes.len(),
{
    if outcomes.len() > 0 {
        let rest = outcomes.drop_first();
        assert forall|i: int| 0 <= i < rest.len() implies rest[i] by {
            assert(rest[i] == outcomes[i + 1]);
        }
        lemma_run_successes(s.record(outcomes[0]), rest);
    }
}

/// A fan-out stops at the first failed send: after `k` successful sends and one
/// failure it has delivered to exactly the first `k` targets and is aborted,
/// whatever outcomes are reported after that.
pub proof fn lemma_stops_at_first_failure(start: FanoutState, outcomes: Seq<bool>, k: int)
    requires
        start.delivered == 0,
        !start.failed,
        0 <= k < outcomes.len(),
        k < start.targets.len(),
        forall|i: int| 0 <= i < k ==> outcomes[i],
        !outcomes[k],
    ensures
        start.run(outcomes).delivered == k,
        start.run(outcomes).failed,
        start.run(outcomes).next() == FanoutStep::Aborted,
{
    lemma_run_split(start, outcomes.take(k + 1), outcomes.skip(k + 1));
    assert(outcomes.take(k + 1) + outcomes.skip(k + 1) =~= outcomes);
    let prefix = outcomes.take(k);
    assert forall|i: int| 0 <= i < prefix.len() implies prefix[i] by {
        assert(prefix[i] == outcomes[i]);
    }
    lemma_run_successes(start, prefix);
    lemma_run_split(start, prefix, seq![false]);
    assert(prefix + seq![false] =~= outcomes.take(k + 1));
    let before = start.run(prefix);
    assert(seq![false].drop_first() =~= Seq::<bool>::empty());
    assert(before.run(seq![false]) == before.record(false).run(Seq::<bool>::empty()));
    let stopped = start.run(outcomes.take(k + 1));
    assert(stopped == before.record(false));
    lemma_aborted_stays(stopped, outcomes.skip(k + 1));
}

proof fn lemma_run_split(s: FanoutState, a: Seq<bool>, b: Seq<bool>)
    ensures
        s.run(a + b) == s.run(a).run(b),
    decreases a.len(),
{
    if a.len() > 0 {
        assert((a + b).drop_first() =~= a.drop_first() + b);
        lemma_run_split(s.record(a[0]), a.drop_first(), b);
    } else {
        assert(a + b =~= b);
    }
}

proof fn lemma_aborted_stays(s: FanoutState, outcomes: Seq<bool>)
    requires
        s.failed,
    ensures
        s.run(outcomes) == s,
    decreases outcomes.len(),
{
    if outcomes.len() > 0 {
        lemma_aborted_stays(s.record(outcomes[0]), outcomes.drop_first());
    }
}

} // verus!
