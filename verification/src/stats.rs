//! Per-connection channel statistics.
//!
//! A connection accepts three kinds of channels: bidirectional streams,
//! unidirectional streams, and datagrams.  The dispatcher increments the
//! matching counter exactly once per accepted channel, at acceptance time,
//! so a snapshot reports how many channels of each kind were opened.

use vstd::prelude::*;

verus! {

/// The three channel kinds a connection can accept.
#[derive(Clone, Copy, PartialEq, Eq, Structural, Debug)]
pub enum ChannelKind {
    Bidirectional,
    Unidirectional,
    Datagram,
}

/// Three monotonically increasing counters, scoped to one connection.
pub struct ChannelStats {
    pub bi_streams: u64,
    pub uni_streams: u64,
    pub datagrams: u64,
}

/// The counter triple `(bi, uni, dgram)` after one accepted channel of
/// kind `k`, starting from `s`.
pub open spec fn spec_step(s: (int, int, int), k: ChannelKind) -> (int, int, int) {
    match k {
        ChannelKind::Bidirectional => (s.0 + 1, s.1, s.2),
        ChannelKind::Unidirectional => (s.0, s.1 + 1, s.2),
        ChannelKind::Datagram => (s.0, s.1, s.2 + 1),
    }
}

/// The counter triple after a whole sequence of accepted channels.
pub open spec fn spec_run(s: (int, int, int), evs: Seq<ChannelKind>) -> (int, int, int)
    decreases evs.len(),
{
    if evs.len() == 0 {
        s
    } else {
        spec_step(spec_run(s, evs.drop_last()), evs.last())
    }
}

/// How many events of kind `k` the sequence holds.
pub open spec fn count_kind(evs: Seq<ChannelKind>, k: ChannelKind) -> int
    decreases evs.len(),
{
    if evs.len() == 0 {
        0
    } else {
        count_kind(evs.drop_last(), k) + if evs.last() == k {
            1int
        } else {
            0int
        }
    }
}

impl ChannelStats {
    /// The counter triple this recorder currently holds.
    pub open spec fn view(self) -> (int, int, int) {
        (self.bi_streams as int, self.uni_streams as int, self.datagrams as int)
    }

    /// A fresh recorder with every counter at zero.
    pub fn new() -> (r: ChannelStats)
        ensures
            r.view() == (0int, 0int, 0int),
    {
        ChannelStats { bi_streams: 0, uni_streams: 0, datagrams: 0 }
    }

    /// Records one accepted channel of kind `kind`: the matching counter
    /// grows by one and the two others keep their values.
    pub fn increment(&mut self, kind: ChannelKind)
        requires
            match kind {
                ChannelKind::Bidirectional => old(self).bi_streams < u64::MAX,
                ChannelKind::Unidirectional => old(self).uni_streams < u64::MAX,
                ChannelKind::Datagram => old(self).datagrams < u64::MAX,
            },
        ensures
            final(self).view() == spec_step(old(self).view(), kind),
    {
        match kind {
            ChannelKind::Bidirectional => {
                self.bi_streams = self.bi_streams + 1;
            },
            ChannelKind::Unidirectional => {
                self.uni_streams = self.uni_streams + 1;
            },
            ChannelKind::Datagram => {
                self.datagrams = self.datagrams + 1;
            },
        }
    }

    /// Reports the counters as `(bi, uni, dgram)`.
    pub fn snapshot(&self) -> (r: (u64, u64, u64))
        ensures
            (r.0 as int, r.1 as int, r.2 as int) == self.view(),
    {
        (self.bi_streams, self.uni_streams, self.datagrams)
    }
}

/// After `N` bidirectional-stream events, `M` unidirectional-stream events
/// and `K` datagram events on one connection, in any interleaving order, a
/// recorder that started at zero reports exactly `(N, M, K)`: running a
/// sequence of events leaves each counter at the number of events of its
/// kind.
pub proof fn lemma_run_counts_kinds(evs: Seq<ChannelKind>)
    ensures
        spec_run((0int, 0int, 0int), evs) == (
            count_kind(evs, ChannelKind::Bidirectional),
            count_kind(evs, ChannelKind::Unidirectional),
            count_kind(evs, ChannelKind::Datagram),
        ),
    decreases evs.len(),
{
    if evs.len() > 0 {
        lemma_run_counts_kinds(evs.drop_last());
    }
}

} // verus!
