//! The distribution gate: one queue of messages, many consumers.
//!
//! This is a competing-consumers queue, not a broadcast. Each message that
//! the source offers is handed to exactly one caller of
//! [`DistributionGate::receive_next`], whichever asks first. A connection
//! sees a subsequence of what the source emitted, never a copy of what
//! another connection saw, and has no promise of seeing any particular
//! message.
//!
//! This queue itself never blocks. A consumer that gets
//! [`Received::Pending`] waits outside, under the lock that serialises
//! access to it, until the source has offered or finished.

use vstd::prelude::*;
use std::collections::VecDeque;

verus! {

/// What a consumer gets on asking for the next message.
#[derive(Debug, PartialEq, Eq)]
pub enum Received {
    /// The oldest message that was waiting, now consumed.
    Message(Vec<u8>),
    /// Nothing is waiting, but the source may still offer.
    Pending,
    /// Nothing is waiting and nothing will come.
    Closed,
}

/// A [`Received`] with its bytes as a sequence.
pub enum ReceivedView {
    Message(Seq<u8>),
    Pending,
    Closed,
}

impl View for Received {
    type V = ReceivedView;

    open spec fn view(&self) -> ReceivedView {
        match *self {
            Received::Message(payload) => ReceivedView::Message(payload@),
            Received::Pending => ReceivedView::Pending,
            Received::Closed => ReceivedView::Closed,
        }
    }
}

/// The distribution gate as a mathematical value.
pub struct GateModel {
    /// The messages offered and not yet consumed, oldest first.
    pub pending: Seq<Seq<u8>>,
    /// The source has finished: no further message is accepted.
    pub finished: bool,
    /// Every consumer is gone: no message is accepted or kept.
    pub abandoned: bool,
}

impl GateModel {
    /// An empty gate with a live source and live consumers.
    pub open spec fn fresh() -> GateModel {
        GateModel { pending: Seq::empty(), finished: false, abandoned: false }
    }

    /// Whether an offer is taken in.
    pub open spec fn accepts(self) -> bool {
        !self.finished && !self.abandoned
    }

    /// The state after the source offered `message`.
    pub open spec fn offer(self, message: Seq<u8>) -> GateModel {
        if self.accepts() {
            GateModel { pending: self.pending.push(message), ..self }
        } else {
            self
        }
    }

    /// The state after the source finished.
    pub open spec fn finish(self) -> GateModel {
        GateModel { finished: true, ..self }
    }

    /// The state after the last consumer left.
    pub open spec fn abandon(self) -> GateModel {
        GateModel { pending: Seq::empty(), abandoned: true, ..self }
    }

    /// What one receive hands out.
    pub open spec fn received(self) -> ReceivedView {
        if self.pending.len() > 0 {
            ReceivedView::Message(self.pending[0])
        } else if self.finished || self.abandoned {
            ReceivedView::Closed
        } else {
            ReceivedView::Pending
        }
    }

    /// The state after one receive.
    pub open spec fn receive(self) -> GateModel {
        if self.pending.len() > 0 {
            GateModel { pending: self.pending.skip(1), ..self }
        } else {
            self
        }
    }
}

/// The single consumption point over the source's messages.
pub struct DistributionGate {
    pending: VecDeque<Vec<u8>>,
    finished: bool,
    abandoned: bool,
}

impl View for DistributionGate {
    type V = GateModel;

    closed spec fn view(&self) -> GateModel {
        GateModel {
            pending: self.pending@.map_values(|m: Vec<u8>| m@),
            finished: self.finished,
            abandoned: self.abandoned,
        }
    }
}

impl DistributionGate {
    /// An empty gate with a live source and live consumers.
    pub fn new() -> (gate: DistributionGate)
        ensures
            gate@ == GateModel::fresh(),
    {
        let gate = DistributionGate { pending: VecDeque::new(), finished: false, abandoned: false };
        assert(gate@.pending =~= Seq::empty());
        gate
    }

    /// The source offers a message. It is refused, and nothing changes,
    /// once the source has finished or every consumer is gone; a source that
    /// is refused stops producing.
    pub fn offer(&mut self, message: Vec<u8>) -> (accepted: bool)
        ensures
            accepted == old(self)@.accepts(),
            final(self)@ == old(self)@.offer(message@),
    {
        if self.finished || self.abandoned {
            false
        } else {
            self.pending.push_back(message);
            assert(self@.pending =~= old(self)@.pending.push(message@));
            true
        }
    }

    /// The source has no more messages.
    pub fn finish(&mut self)
        ensures
            final(self)@ == old(self)@.finish(),
    {
        self.finished = true;
    }

    /// The last consumer is gone: what was waiting is dropped.
    pub fn abandon(&mut self)
        ensures
            final(self)@ == old(self)@.abandon(),
    {
        self.pending = VecDeque::new();
        self.abandoned = true;
        assert(self@.pending =~= Seq::empty());
    }

    /// Hands the oldest waiting message to the caller and removes it, so
    /// that no other caller can get it.
    pub fn receive_next(&mut self) -> (got: Received)
        ensures
            got@ == old(self)@.received(),
            final(self)@ == old(self)@.receive(),
    {
        match self.pending.pop_front() {
            Some(message) => {
                assert(self@.pending =~= old(self)@.pending.skip(1));
                Received::Message(message)
            },
            None => {
                if self.finished || self.abandoned {
                    Received::Closed
                } else {
                    Received::Pending
                }
            },
        }
    }

    /// How many messages wait.
    pub fn waiting(&self) -> (n: usize)
        ensures
            n == self@.pending.len(),
    {
        self.pending.len()
    }
}

/// One use of a distribution gate, as seen from outside.
pub enum GateOp {
    /// The source offers a message.
    Offer(Seq<u8>),
    /// The source finishes.
    Finish,
    /// The named consumer asks for the next message.
    Receive(nat),
}

/// The state after `ops`, starting fresh.
pub open spec fn gate_after(ops: Seq<GateOp>) -> GateModel
    decreases ops.len(),
{
    if ops.len() == 0 {
        GateModel::fresh()
    } else {
        let before = gate_after(ops.drop_last());
        match ops.last() {
            GateOp::Offer(message) => before.offer(message),
            GateOp::Finish => before.finish(),
            GateOp::Receive(_) => before.receive(),
        }
    }
}

/// The messages taken in during `ops`, in order.
pub open spec fn emitted(ops: Seq<GateOp>) -> Seq<Seq<u8>>
    decreases ops.len(),
{
    if ops.len() == 0 {
        Seq::empty()
    } else {
        let before = gate_after(ops.drop_last());
        match ops.last() {
            GateOp::Offer(message) if before.accepts() => emitted(ops.drop_last()).push(message),
            _ => emitted(ops.drop_last()),
        }
    }
}

/// The messages handed out during `ops`, in order.
pub open spec fn delivered(ops: Seq<GateOp>) -> Seq<Seq<u8>>
    decreases ops.len(),
{
    if ops.len() == 0 {
        Seq::empty()
    } else {
        let before = gate_after(ops.drop_last());
        match ops.last() {
            GateOp::Receive(_) if before.pending.len() > 0 => delivered(ops.drop_last()).push(
                before.pending[0],
            ),
            _ => delivered(ops.drop_last()),
        }
    }
}

/// For each delivery during `ops`, in order, the consumer that got it.
pub open spec fn receivers(ops: Seq<GateOp>) -> Seq<nat>
    decreases ops.len(),
{
    if ops.len() == 0 {
        Seq::empty()
    } else {
        let before = gate_after(ops.drop_last());
        match ops.last() {
            GateOp::Receive(consumer) if before.pending.len() > 0 => receivers(
                ops.drop_last(),
            ).push(consumer),
            _ => receivers(ops.drop_last()),
        }
    }
}

/// Of `messages`, those whose position `owners` gives to `consumer`, in
/// order.
pub open spec fn share(messages: Seq<Seq<u8>>, owners: Seq<nat>, consumer: nat) -> Seq<Seq<u8>>
    decreases messages.len(),
{
    if messages.len() == 0 || owners.len() == 0 {
        Seq::empty()
    } else {
        let rest = share(messages.drop_last(), owners.drop_last(), consumer);
        if owners.last() == consumer {
            rest.push(messages.last())
        } else {
            rest
        }
    }
}

/// What `consumer` observed during `ops`.
pub open spec fn observed_by(ops: Seq<GateOp>, consumer: nat) -> Seq<Seq<u8>> {
    share(delivered(ops), receivers(ops), consumer)
}

/// Nothing is lost, duplicated or reordered: what was handed out, followed
/// by what still waits, is what the source emitted. Each delivery has one
/// receiver.
pub proof fn law_conservation(ops: Seq<GateOp>)
    ensures
        delivered(ops) + gate_after(ops).pending == emitted(ops),
        receivers(ops).len() == delivered(ops).len(),
        !gate_after(ops).abandoned,
    decreases ops.len(),
{
    if ops.len() > 0 {
        law_conservation(ops.drop_last());
        let before = gate_after(ops.drop_last());
        let d = delivered(ops.drop_last());
        match ops.last() {
            GateOp::Offer(message) => {
                if before.accepts() {
                    assert(d + before.pending.push(message) =~= (d + before.pending).push(
                        message,
                    ));
                }
            },
            GateOp::Finish => {},
            GateOp::Receive(_) => {
                if before.pending.len() > 0 {
                    assert(d.push(before.pending[0]) + before.pending.skip(1) =~= d
                        + before.pending);
                }
            },
        }
    } else {
        assert(delivered(ops) + gate_after(ops).pending =~= emitted(ops));
    }
}

/// The k-th message handed out is the k-th message emitted.
pub proof fn law_delivery_order(ops: Seq<GateOp>, k: int)
    requires
        0 <= k < delivered(ops).len(),
    ensures
        k < emitted(ops).len(),
        delivered(ops)[k] == emitted(ops)[k],
{
    law_conservation(ops);
    assert((delivered(ops) + gate_after(ops).pending)[k] == delivered(ops)[k]);
}

/// With a single consumer, that consumer observes every delivery, in the
/// order of emission: its observations followed by what still waits are
/// exactly the emitted messages.
pub proof fn law_single_consumer(ops: Seq<GateOp>, consumer: nat)
    requires
        forall|i: int|
            0 <= i < ops.len() && #[trigger] ops[i] is Receive ==> ops[i]->Receive_0 == consumer,
    ensures
        observed_by(ops, consumer) == delivered(ops),
        observed_by(ops, consumer) + gate_after(ops).pending == emitted(ops),
    decreases ops.len(),
{
    law_conservation(ops);
    if ops.len() > 0 {
        let prev = ops.drop_last();
        assert forall|i: int| 0 <= i < prev.len() && #[trigger] prev[i] is Receive implies prev[i]
            ->Receive_0 == consumer by {
            assert(prev[i] == ops[i]);
        }
        law_single_consumer(prev, consumer);
        law_conservation(prev);
        let before = gate_after(prev);
        match ops.last() {
            GateOp::Receive(who) => {
                if before.pending.len() > 0 {
                    assert(ops[ops.len() - 1] is Receive);
                    assert(who == consumer);
                    assert(delivered(ops).drop_last() =~= delivered(prev));
                    assert(receivers(ops).drop_last() =~= receivers(prev));
                }
            },
            _ => {},
        }
    }
}

/// The shares of two consumers are no more, together, than the messages
/// they were taken from.
proof fn lemma_shares_bounded(messages: Seq<Seq<u8>>, owners: Seq<nat>, a: nat, b: nat)
    requires
        a != b,
    ensures
        share(messages, owners, a).len() + share(messages, owners, b).len() <= messages.len(),
    decreases messages.len(),
{
    if messages.len() > 0 && owners.len() > 0 {
        lemma_shares_bounded(messages.drop_last(), owners.drop_last(), a, b);
    }
}

/// Two consumers never observe more than was emitted between them.
pub proof fn law_exclusive_total(ops: Seq<GateOp>, a: nat, b: nat)
    requires
        a != b,
    ensures
        observed_by(ops, a).len() + observed_by(ops, b).len() <= delivered(ops).len(),
        delivered(ops).len() <= emitted(ops).len(),
{
    law_conservation(ops);
    lemma_shares_bounded(delivered(ops), receivers(ops), a, b);
    assert((delivered(ops) + gate_after(ops).pending).len() == emitted(ops).len());
}

/// The positions of `owners` that belong to `consumer`.
pub open spec fn positions_of(owners: Seq<nat>, consumer: nat) -> Set<int> {
    Set::new(|k: int| 0 <= k < owners.len() && owners[k] == consumer)
}

/// No message is observed by more than one consumer: every delivery has one
/// receiver, so the deliveries of two consumers never share a position.
pub proof fn law_exclusive_positions(ops: Seq<GateOp>, a: nat, b: nat)
    requires
        a != b,
    ensures
        positions_of(receivers(ops), a).disjoint(positions_of(receivers(ops), b)),
        receivers(ops).len() == delivered(ops).len(),
{
    law_conservation(ops);
}

/// One delivery changes what one consumer observed, and nobody else's
/// observations.
pub proof fn law_receive_is_private(ops: Seq<GateOp>, consumer: nat, other: nat)
    requires
        consumer != other,
    ensures
        observed_by(ops.push(GateOp::Receive(consumer)), other) == observed_by(ops, other),
        gate_after(ops).pending.len() > 0 ==> observed_by(
            ops.push(GateOp::Receive(consumer)),
            consumer,
        ) == observed_by(ops, consumer).push(gate_after(ops).pending[0]),
{
    let next = ops.push(GateOp::Receive(consumer));
    assert(next.drop_last() =~= ops);
    law_conservation(ops);
    if gate_after(ops).pending.len() > 0 {
        assert(delivered(next).drop_last() =~= delivered(ops));
        assert(receivers(next).drop_last() =~= receivers(ops));
    }
}

} // verus!
