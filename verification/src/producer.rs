//! The producer's cycle logic: each cycle emits one sequenced record for
//! the sink together with a success signal for the monitor, then advances
//! the counter by one. On shutdown the producer's last word is a failure
//! signal carrying the current counter, so that the monitor can promote a
//! standby at once instead of waiting out the dead-man's-switch.
//!
//! The surrounding process owns the sockets: it encodes and sends the
//! record, sends the signal bytes as one datagram, and sleeps out the
//! cadence between cycles.
use vstd::prelude::*;

use crate::signal::Signal;
use crate::signal::dec_digits;
use crate::signal::fail_message;
use crate::signal::fail_wire;
use crate::signal::parse_signal_spec;
use crate::signal::success_message;
use crate::signal::success_wire;

verus! {

/// One sequenced record, constructed immediately before each send and
/// never mutated afterwards.
pub struct Payload {
    /// The sequence number of this record.
    pub count: u64,
    /// The sending application, always `Sender`.
    pub app_id: String,
    /// The role of the node that produced the record.
    pub node_id: String,
}

/// The counter after one cycle: one more, with the wrap-around of the
/// machine word.
pub open spec fn wrap_inc(c: u64) -> u64 {
    if c < u64::MAX {
        (c + 1) as u64
    } else {
        0
    }
}

/// The counter after `i` cycles from `c0`.
pub open spec fn count_after(c0: u64, i: nat) -> u64
    decreases i,
{
    if i == 0 {
        c0
    } else {
        wrap_inc(count_after(c0, (i - 1) as nat))
    }
}

/// The producer's own state: the sequence counter it owns while active,
/// and the role name it stamps on every record.
pub struct Producer {
    /// The next record's sequence number.
    pub count: u64,
    /// The role this producer runs as, `Master` or `Slave`.
    pub node_id: String,
}

impl Producer {
    /// A producer starting at counter `start` — zero for the primary, the
    /// monitor's seed for a promoted standby.
    pub fn new(start: u64, node_id: String) -> (p: Producer)
        ensures
            p.count == start,
            p.node_id == node_id,
    {
        Producer { count: start, node_id }
    }

    /// Run one production cycle: the record to send, the success signal
    /// reporting the record's sequence number, and the counter advanced
    /// by one.
    pub fn cycle(&mut self) -> (out: (Payload, Vec<u8>))
        ensures
            out.0.count == old(self).count,
            out.0.app_id@ == "Sender"@,
            out.0.node_id == old(self).node_id,
            out.1@ == success_wire(old(self).count),
            parse_signal_spec(out.1@) == Some(Signal::Success(old(self).count)),
            final(self).count == wrap_inc(old(self).count),
            final(self).node_id == old(self).node_id,
    {
        let payload = Payload {
            count: self.count,
            app_id: "Sender".to_owned(),
            node_id: self.node_id.clone(),
        };
        let beat = success_message(self.count);
        self.count = if self.count < u64::MAX {
            self.count + 1
        } else {
            0
        };
        (payload, beat)
    }

    /// The producer's last word before exiting: a failure signal carrying
    /// the current counter, for the interrupt path.
    pub fn shutdown_message(&self) -> (m: Vec<u8>)
        ensures
            m@ == fail_wire(self.count),
            parse_signal_spec(m@) == Some(Signal::Fail(self.count)),
    {
        fail_message(self.count)
    }
}

/// Counter monotonicity under normal operation: as long as the counter
/// does not exhaust the machine word, every cycle's emitted sequence
/// number is exactly one more than the last, so the numbers of `n`
/// consecutive cycles strictly increase.
pub proof fn lemma_counter_monotonic(c0: u64, n: nat)
    requires
        c0 + n <= u64::MAX,
    ensures
        forall|i: nat| i < n ==> #[trigger] count_after(c0, (i + 1) as nat) == count_after(c0, i)
            + 1,
        forall|i: nat, j: nat| i < j <= n ==> count_after(c0, i) < count_after(c0, j),
{
    assert forall|i: nat| i <= n implies count_after(c0, i) == c0 + i by {
        lemma_count_after_no_wrap(c0, i, n);
    }
}

/// Below the wrap, `i` cycles advance the counter by exactly `i`.
proof fn lemma_count_after_no_wrap(c0: u64, i: nat, n: nat)
    requires
        i <= n,
        c0 + n <= u64::MAX,
    ensures
        count_after(c0, i) == c0 + i,
    decreases i,
{
    if i > 0 {
        lemma_count_after_no_wrap(c0, (i - 1) as nat, n);
    }
}

} // verus!
