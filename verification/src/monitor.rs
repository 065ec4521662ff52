//! The failover monitor: a dead-man's-switch over the producer's liveness
//! signals. The monitor is a pure state machine; each entry point returns
//! the promotion it decided on, if any, as the counter value the standby
//! producer must start from. The surrounding process receives datagrams,
//! runs the periodic sweep on its timer, and performs the promotion.
use vstd::prelude::*;

use crate::signal::Signal;
use crate::signal::fail_wire;
use crate::signal::lemma_parse_fail_wire;
use crate::signal::lemma_parse_success_wire;
use crate::signal::parse_signal;
use crate::signal::parse_signal_spec;
use crate::signal::success_wire;

verus! {

/// How far the counter is advanced on a sweep-detected death, to cover the
/// cycles presumed lost while suspicion was armed.
pub const GAP_OFFSET: u64 = 2;

/// The monitor's liveness judgement of the producer. `Armed` means no
/// success signal has arrived since suspicion was last armed; a second
/// sweep finding it still armed treats the producer as dead.
#[derive(Clone, Copy, Debug, PartialEq, Eq, Structural)]
pub enum Liveness {
    /// A success signal arrived since the last sweep.
    Healthy,
    /// The dead-man's-switch is armed; one more silent sweep is death.
    Armed,
}

/// The monitor's whole state: the liveness judgement and the last counter
/// value the producer reported.
#[derive(Clone, Copy, Debug, PartialEq, Eq, Structural)]
pub struct Monitor {
    /// The current liveness judgement.
    pub state: Liveness,
    /// The sequence counter as last reported, used to seed a promotion.
    pub count: u64,
}

/// Addition on the counter with the wrap-around of the machine word.
pub open spec fn wrap_add(c: u64, d: u64) -> u64 {
    if c + d <= u64::MAX {
        (c + d) as u64
    } else {
        (c + d - u64::MAX - 1) as u64
    }
}

/// What one decoded signal does to the monitor: the reported count is
/// adopted unconditionally (last writer wins, no ordering guard); a
/// success returns the judgement to `Healthy`; a failure demands an
/// immediate promotion seeded with the reported count.
pub open spec fn signal_step(m: Monitor, sig: Signal) -> (Monitor, Option<u64>) {
    match sig {
        Signal::Success(c) => (Monitor { state: Liveness::Healthy, count: c }, None),
        Signal::Fail(c) => (Monitor { state: m.state, count: c }, Some(c)),
    }
}

/// What one raw message does to the monitor: a malformed message is
/// discarded and changes nothing; anything else acts as the signal it
/// decodes to.
pub open spec fn message_step(m: Monitor, msg: Seq<u8>) -> (Monitor, Option<u64>) {
    match parse_signal_spec(msg) {
        Some(sig) => signal_step(m, sig),
        None => (m, None),
    }
}

/// What one periodic sweep does to the monitor: a healthy monitor merely
/// arms suspicion; an armed one treats the producer as dead, advances the
/// counter by the gap offset and demands a promotion seeded with it.
pub open spec fn sweep_step(m: Monitor) -> (Monitor, Option<u64>) {
    match m.state {
        Liveness::Healthy => (Monitor { state: Liveness::Armed, count: m.count }, None),
        Liveness::Armed => {
            let c = wrap_add(m.count, GAP_OFFSET);
            (Monitor { state: Liveness::Armed, count: c }, Some(c))
        },
    }
}

impl Monitor {
    /// A fresh monitor: healthy, counter at zero.
    pub fn new() -> (m: Monitor)
        ensures
            m == (Monitor { state: Liveness::Healthy, count: 0 }),
    {
        Monitor { state: Liveness::Healthy, count: 0 }
    }

    /// Apply one decoded liveness signal.
    pub fn on_signal(&mut self, sig: Signal) -> (promote: Option<u64>)
        ensures
            (*final(self), promote) == signal_step(*old(self), sig),
    {
        match sig {
            Signal::Success(c) => {
                self.count = c;
                self.state = Liveness::Healthy;
                None
            },
            Signal::Fail(c) => {
                self.count = c;
                Some(c)
            },
        }
    }

    /// Apply one raw message from the signal channel. A malformed message
    /// never disturbs the monitor.
    pub fn on_message(&mut self, msg: &[u8]) -> (promote: Option<u64>)
        ensures
            (*final(self), promote) == message_step(*old(self), msg@),
    {
        match parse_signal(msg) {
            Some(sig) => self.on_signal(sig),
            None => None,
        }
    }

    /// Run one periodic dead-man's-switch sweep.
    pub fn on_sweep(&mut self) -> (promote: Option<u64>)
        ensures
            (*final(self), promote) == sweep_step(*old(self)),
    {
        match self.state {
            Liveness::Healthy => {
                self.state = Liveness::Armed;
                None
            },
            Liveness::Armed => {
                let c: u64 = if self.count <= u64::MAX - GAP_OFFSET {
                    self.count + GAP_OFFSET
                } else {
                    self.count - (u64::MAX - GAP_OFFSET) - 1
                };
                self.count = c;
                Some(c)
            },
        }
    }
}

/// A success signal always returns the monitor to `Healthy` and sets the
/// counter to the reported count, whatever state it was in, and never
/// asks for a promotion.
pub proof fn lemma_liveness_reset(m: Monitor, c: u64)
    ensures
        signal_step(m, Signal::Success(c)) == (
            Monitor { state: Liveness::Healthy, count: c },
            None::<u64>,
        ),
{
}

/// A failure signal asks for a promotion at once, seeded with the
/// reported count, whatever state the monitor was in: no sweep has to
/// pass first.
pub proof fn lemma_fail_promotes(m: Monitor, c: u64)
    ensures
        signal_step(m, Signal::Fail(c)).1 == Some(c),
        signal_step(m, Signal::Fail(c)).0.count == c,
{
}

/// The dead-man's-switch latency: once a success signal has been heard
/// and then nothing more arrives, the first sweep only arms suspicion and
/// the second one detects death, promoting at the reported count advanced
/// by the gap offset — exactly two sweeps after the last success.
pub proof fn lemma_deadman_latency(m: Monitor, c: u64)
    ensures
        ({
            let after = signal_step(m, Signal::Success(c)).0;
            sweep_step(after).1 is None
        }),
        ({
            let after = signal_step(m, Signal::Success(c)).0;
            let armed = sweep_step(after).0;
            sweep_step(armed).1 == Some(wrap_add(c, GAP_OFFSET))
        }),
{
}

/// End to end over the wire: the success message the producer emits for
/// count `c` always returns the monitor to `Healthy` with counter `c`,
/// whatever state it was in, and asks for no promotion.
pub proof fn lemma_success_wire_resets(m: Monitor, c: u64)
    ensures
        message_step(m, success_wire(c)) == (
            Monitor { state: Liveness::Healthy, count: c },
            None::<u64>,
        ),
{
    lemma_parse_success_wire(c);
}

/// End to end over the wire: the failure message the producer emits on
/// shutdown for count `c` always asks for an immediate promotion seeded
/// with `c`, whatever state the monitor was in.
pub proof fn lemma_fail_wire_promotes(m: Monitor, c: u64)
    ensures
        message_step(m, fail_wire(c)).1 == Some(c),
        message_step(m, fail_wire(c)).0.count == c,
{
    lemma_parse_fail_wire(c);
}

/// A malformed message — no colon, more than one colon, or a count that
/// is not a number a counter can hold — leaves the monitor exactly as it
/// was and asks for nothing.
pub proof fn lemma_malformed_ignored(m: Monitor, msg: Seq<u8>)
    requires
        parse_signal_spec(msg) is None,
    ensures
        message_step(m, msg) == (m, None::<u64>),
{
}

} // verus!
