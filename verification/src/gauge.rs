//! The active-connection gauge: incremented when a connection is
//! accepted, decremented when its task exits, on success and error paths
//! alike.

use vstd::prelude::*;

verus! {

/// Count of connections currently alive. As an unsigned count it can
/// never be observed below zero.
#[derive(Debug, PartialEq, Eq, Structural, Clone, Copy)]
pub struct ConnectionGauge {
    pub count: u64,
}

/// The count after an accept: one more, wrapping at the limit.
pub open spec fn spec_gauge_inc(c: u64) -> u64 {
    if c == u64::MAX {
        0u64
    } else {
        (c + 1) as u64
    }
}

/// The count after a connection ends: one less, wrapping at zero.
pub open spec fn spec_gauge_dec(c: u64) -> u64 {
    if c == 0 {
        u64::MAX
    } else {
        (c - 1) as u64
    }
}

impl ConnectionGauge {
    /// A fresh gauge counts zero connections.
    pub fn new() -> (r: ConnectionGauge)
        ensures
            r.count == 0,
    {
        ConnectionGauge { count: 0 }
    }

    /// Records an accepted connection.
    pub fn on_accept(&mut self)
        ensures
            final(self).count == spec_gauge_inc(old(self).count),
    {
        self.count = if self.count == u64::MAX {
            0
        } else {
            self.count + 1
        };
    }

    /// Records a finished connection, whatever way it ended.
    pub fn on_close(&mut self)
        ensures
            final(self).count == spec_gauge_dec(old(self).count),
    {
        self.count = if self.count == 0 {
            u64::MAX
        } else {
            self.count - 1
        };
    }

    /// The instantaneous count, as reported in heartbeats.
    pub fn current(&self) -> (r: u64)
        ensures
            r == self.count,
    {
        self.count
    }
}

/// Counter conservation: a connection that is accepted and later closed
/// leaves the gauge exactly where it stood, on every path.
pub proof fn lemma_gauge_conservation(c: u64)
    ensures
        spec_gauge_dec(spec_gauge_inc(c)) == c,
{
}

} // verus!
