//! The message source: a counter that emits `1`, `2`, `3`, ... as decimal
//! text, one message per tick, until its bound is reached or nobody
//! listens any more.
//!
//! The source keeps no clock. The caller waits one period between two
//! calls of [`MessageSource::emit`] for as long as it is told to continue.

use vstd::prelude::*;
use crate::gate::DistributionGate;

verus! {

/// The decimal numeral of `n`, most significant digit first, without
/// leading zeros (`0` for zero).
pub open spec fn decimal_numeral(n: nat) -> Seq<u8>
    decreases n,
{
    if n < 10 {
        seq![(48 + n) as u8]
    } else {
        decimal_numeral(n / 10).push((48 + n % 10) as u8)
    }
}

/// Appends the decimal numeral of `n` to `out`.
fn append_decimal(out: &mut Vec<u8>, n: u64)
    ensures
        final(out)@ == old(out)@ + decimal_numeral(n as nat),
    decreases n,
{
    let ghost before = out@;
    if n >= 10 {
        append_decimal(out, n / 10);
    }
    let d: u64 = n % 10;
    out.push(48u8 + (d as u8));
    assert(out@ =~= before + decimal_numeral(n as nat));
}

/// The text of the counter value `n`.
pub fn message_text(n: u64) -> (text: Vec<u8>)
    ensures
        text@ == decimal_numeral(n as nat),
{
    let mut text: Vec<u8> = Vec::new();
    append_decimal(&mut text, n);
    assert(text@ =~= decimal_numeral(n as nat));
    text
}

/// What the source does after a tick.
#[derive(Clone, Copy, Debug, PartialEq, Eq, Structural)]
pub enum SourceStep {
    /// The message was taken in: wait one period, then emit again.
    Continue,
    /// The source ends: its bound is reached or nobody listens.
    Stop,
}

/// A counting source with a bound.
#[derive(Clone, Copy, Debug, PartialEq, Eq)]
pub struct MessageSource {
    /// How many messages were emitted.
    pub emitted: u64,
    /// How many messages the source emits at most.
    pub limit: u64,
}

impl MessageSource {
    /// A source that runs for as long as the counter lasts.
    pub fn new() -> (source: MessageSource)
        ensures
            source.emitted == 0,
            source.limit == u64::MAX,
    {
        MessageSource { emitted: 0, limit: u64::MAX }
    }

    /// A source that emits `1` to `limit` and then finishes.
    pub fn bounded(limit: u64) -> (source: MessageSource)
        ensures
            source.emitted == 0,
            source.limit == limit,
    {
        MessageSource { emitted: 0, limit }
    }

    /// Whether the source still has a message to emit.
    pub open spec fn has_next(self) -> bool {
        self.emitted < self.limit
    }

    /// One tick. A source with a message left offers the next counter value;
    /// it counts the message and continues if the offer was taken, and
    /// stops, with nothing changed, if it was refused. A source at its bound
    /// declares itself finished, and stops.
    pub fn emit(&mut self, gate: &mut DistributionGate) -> (step: SourceStep)
        ensures
            final(self).limit == old(self).limit,
            step == (if old(self).has_next() && old(gate)@.accepts() {
                SourceStep::Continue
            } else {
                SourceStep::Stop
            }),
            final(self).emitted == (if old(self).has_next() && old(gate)@.accepts() {
                old(self).emitted + 1
            } else {
                old(self).emitted as int
            }),
            final(gate)@ == (if old(self).has_next() {
                old(gate)@.offer(decimal_numeral((old(self).emitted + 1) as nat))
            } else {
                old(gate)@.finish()
            }),
    {
        if self.emitted < self.limit {
            let accepted = gate.offer(message_text(self.emitted + 1));
            if accepted {
                self.emitted = self.emitted + 1;
                SourceStep::Continue
            } else {
                SourceStep::Stop
            }
        } else {
            gate.finish();
            SourceStep::Stop
        }
    }
}

} // verus!
