//! A thin wrapper around the connection-level state, as the shell sees it.

use vstd::prelude::*;
use crate::assoc::KeySet;
use crate::mempool::{addr_key, PeerAddress};

verus! {

/// Counters the connection layer reports.
#[derive(Clone, Copy, PartialEq, Eq, Structural, Debug)]
pub struct TezedgeStats {
    pub newest_time_seen: u64,
    pub connected_peers: usize,
}

/// The connection-level state: the latest time observed and which peers are
/// connected.
pub struct TezedgeState {
    pub newest_time_seen: u64,
    pub connected: KeySet,
}

impl TezedgeState {
    pub open spec fn wf(&self) -> bool {
        self.connected.wf()
    }

    pub fn new(now: u64) -> (r: TezedgeState)
        ensures
            r.wf(),
            r.newest_time_seen == now,
            r.connected@ == Set::<Seq<u8>>::empty(),
    {
        TezedgeState { newest_time_seen: now, connected: KeySet::new() }
    }
}

/// The state behind a stable facade.
pub struct TezedgeStateWrapper(TezedgeState);

impl TezedgeStateWrapper {
    pub closed spec fn wf(&self) -> bool {
        self.0.wf()
    }

    pub closed spec fn connected_view(&self) -> Set<Seq<u8>> {
        self.0.connected@
    }

    pub closed spec fn time_view(&self) -> u64 {
        self.0.newest_time_seen
    }

    pub fn from_state(state: TezedgeState) -> (r: TezedgeStateWrapper)
        ensures
            r.wf() == state.wf(),
            r.connected_view() == state.connected@,
            r.time_view() == state.newest_time_seen,
    {
        TezedgeStateWrapper(state)
    }

    /// The latest time the state has seen.
    pub fn newest_time_seen(&self) -> (r: u64)
        ensures
            r == self.time_view(),
    {
        self.0.newest_time_seen
    }

    /// Whether the peer is connected.
    pub fn is_peer_connected(&mut self, peer: &PeerAddress) -> (r: bool)
        requires
            old(self).wf(),
        ensures
            final(self).wf(),
            *final(self) == *old(self),
            r == old(self).connected_view().contains(addr_key(*peer)),
    {
        let k = peer.key_bytes();
        self.0.connected.contains(&k)
    }

    /// Marks a peer connected.
    pub fn peer_connected(&mut self, peer: &PeerAddress, now: u64)
        requires
            old(self).wf(),
        ensures
            final(self).wf(),
            final(self).connected_view() == old(self).connected_view().insert(addr_key(*peer)),
            final(self).time_view() == now,
    {
        self.0.connected.insert(peer.key_bytes());
        self.0.newest_time_seen = now;
    }

    /// The current counters.
    pub fn stats(&self) -> (r: TezedgeStats)
        requires
            self.wf(),
        ensures
            r.newest_time_seen == self.time_view(),
            r.connected_peers == self.connected_view().len(),
    {
        TezedgeStats {
            newest_time_seen: self.0.newest_time_seen,
            connected_peers: self.0.connected.len(),
        }
    }
}

} // verus!
