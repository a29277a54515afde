//! Bootstrap: agreeing with peers on the main chain's tip, then downloading
//! block headers over per-peer interval windows and the operations of every
//! downloaded block.

use vstd::prelude::*;
use std::collections::VecDeque;
use crate::assoc::{KeyMap, KeySet};
use crate::hash::blake2b_digest;
use crate::mempool::{addr_key, ActionMeta, PeerAddress};
use crate::messages::{copy_bytes, BlockHeader, OperationsForBlocksMessage};
use crate::wire::val_u16;

verus! {

/// A candidate block some peers vouch for: its level, and the peers whose
/// branch tip or predecessor-of-tip it is.
pub struct BlockSupport {
    pub level: i32,
    pub supporters: KeySet,
}

/// A block whose header was downloaded, and from whom.
pub struct BlockWithDownloadedHeader {
    pub peer: PeerAddress,
    pub block_hash: Vec<u8>,
    pub validation_pass: u8,
    pub operations_hash: Vec<u8>,
}

/// One header-download window: headers downloaded so far (tip first), and the
/// level and hash expected next, `None` once the window is complete.
pub struct PeerIntervalState {
    pub peer: PeerAddress,
    /// Level, block hash, validation pass, operations hash; descending levels.
    pub downloaded: Vec<(i32, Vec<u8>, u8, Vec<u8>)>,
    pub current: Option<(i32, Vec<u8>)>,
}

/// The per-peer progress of one block's operations download.
pub enum PeerBlockOperationsGetState {
    Pending { time: u64, operations: Vec<Option<OperationsForBlocksMessage>> },
    Success { time: u64, operations: Vec<OperationsForBlocksMessage> },
}

/// The tracker of one block's operations download.
pub struct BootstrapBlockOperationGetState {
    pub block_level: i32,
    pub validation_pass: u8,
    pub operations_hash: Vec<u8>,
    /// Keyed by encoded peer address.
    pub peers: KeyMap<PeerBlockOperationsGetState>,
}

/// The bootstrap pipeline, phase by phase.
pub enum BootstrapState {
    Init { time: u64 },
    PeersConnectPending { time: u64 },
    PeersConnectSuccess { time: u64 },
    PeersMainBranchFindPending {
        time: u64,
        /// Tip level and hash per peer, keyed by encoded address.
        peer_branches: KeyMap<(i32, Vec<u8>)>,
        /// Support per candidate block, keyed by block hash.
        block_supporters: KeyMap<BlockSupport>,
    },
    PeersMainBranchFindSuccess { time: u64, main_block_level: i32, main_block_hash: Vec<u8> },
    PeersBlockHeadersGetPending {
        time: u64,
        main_chain_last_level: i32,
        main_chain: VecDeque<BlockWithDownloadedHeader>,
        peer_intervals: Vec<PeerIntervalState>,
        /// Peers caught contradicting each other at a window seam.
        graylist: Vec<PeerAddress>,
    },
    PeersBlockHeadersGetSuccess {
        time: u64,
        chain_last_level: i32,
        chain: VecDeque<BlockWithDownloadedHeader>,
    },
    PeersBlockOperationsGetPending {
        time: u64,
        last_level: i32,
        queue: VecDeque<BlockWithDownloadedHeader>,
        /// Keyed by block hash.
        pending: KeyMap<BootstrapBlockOperationGetState>,
        /// Peers to graylist for a predecessor-hash mismatch.
        graylist: Vec<PeerAddress>,
    },
    Finished { time: u64 },
}

impl BootstrapState {
    pub open spec fn wf(&self) -> bool {
        match self {
            BootstrapState::PeersMainBranchFindPending { peer_branches, block_supporters, .. } => {
                &&& peer_branches.wf()
                &&& block_supporters.wf()
                &&& forall|k: Seq<u8>| block_supporters@.dom().contains(k)
                    ==> (#[trigger] block_supporters@[k]).supporters.wf()
            },
            BootstrapState::PeersBlockOperationsGetPending { pending, .. } => {
                &&& pending.wf()
                &&& forall|k: Seq<u8>| pending@.dom().contains(k) ==> (
                #[trigger] pending@[k]).peers.wf()
            },
            _ => true,
        }
    }
}

/// Whether byte string `a` is lexicographically no greater than `b`, shorter
/// strings first.
pub open spec fn lex_le(a: Seq<u8>, b: Seq<u8>) -> bool
    decreases a.len(),
{
    if a.len() == 0 {
        true
    } else if b.len() == 0 {
        false
    } else if a[0] < b[0] {
        true
    } else if a[0] > b[0] {
        false
    } else {
        lex_le(a.drop_first(), b.drop_first())
    }
}

fn lex_le_exec(a: &Vec<u8>, b: &Vec<u8>) -> (r: bool)
    ensures
        r == lex_le(a@, b@),
    decreases a@.len(),
{
    let mut i: usize = 0;
    proof {
        assert(a@.skip(0) =~= a@);
        assert(b@.skip(0) =~= b@);
    }
    loop
        invariant
            i <= a@.len(),
            i <= b@.len(),
            forall|j: int| 0 <= j < i ==> a@[j] == b@[j],
            lex_le(a@, b@) == lex_le(a@.skip(i as int), b@.skip(i as int)),
        decreases a@.len() - i,
    {
        if i == a.len() {
            proof {
                assert(lex_le(a@.skip(i as int), b@.skip(i as int)));
            }
            return true;
        }
        if i == b.len() {
            proof {
                assert(!lex_le(a@.skip(i as int), b@.skip(i as int)));
            }
            return false;
        }
        if a[i] < b[i] {
            proof {
                assert(a@.skip(i as int)[0] == a@[i as int] && b@.skip(i as int)[0] == b@[i as int]);
            }
            return true;
        }
        if a[i] > b[i] {
            proof {
                assert(a@.skip(i as int)[0] == a@[i as int] && b@.skip(i as int)[0] == b@[i as int]);
            }
            return false;
        }
        proof {
            assert(a@.skip(i as int)[0] == a@[i as int] && b@.skip(i as int)[0] == b@[i as int]);
            assert(a@.skip(i as int).drop_first() =~= a@.skip(i as int + 1));
            assert(b@.skip(i as int).drop_first() =~= b@.skip(i as int + 1));
        }
        i = i + 1;
    }
}

/// Whether candidate `k` qualifies with at least `min` supporters.
pub open spec fn qualifies(supporters: Map<Seq<u8>, BlockSupport>, k: Seq<u8>, min: int) -> bool {
    supporters.dom().contains(k) && supporters[k].supporters@.len() >= min
}

/// Whether candidate `k` beats candidate `j`: higher level, or the same
/// level and a lexicographically smaller hash.
pub open spec fn beats(supporters: Map<Seq<u8>, BlockSupport>, k: Seq<u8>, j: Seq<u8>) -> bool {
    supporters[k].level > supporters[j].level || (supporters[k].level == supporters[j].level
        && lex_le(k, j))
}

/// Selects the main block: the highest-level candidate vouched for by at
/// least `min` peers, ties broken by the lexicographically smallest hash.
/// Returns nothing exactly when no candidate qualifies.
pub fn main_block(supporters: &KeyMap<BlockSupport>, min: usize) -> (r: Option<(i32, Vec<u8>)>)
    requires
        supporters.wf(),
        forall|k: Seq<u8>| supporters@.dom().contains(k) ==> (
        #[trigger] supporters@[k]).supporters.wf(),
    ensures
        match r {
            Some((level, hash)) => qualifies(supporters@, hash@, min as int)
                && supporters@[hash@].level == level && forall|k: Seq<u8>|
                qualifies(supporters@, k, min as int) ==> beats(supporters@, hash@, k),
            None => forall|k: Seq<u8>| !qualifies(supporters@, k, min as int),
        },
{
    let keys = supporters.keys();
    proof {
        supporters.lemma_finite_dom();
        assert forall|k: Seq<u8>| supporters@.dom().contains(k) implies exists|j: int|
            0 <= j < keys@.len() && #[trigger] keys@[j]@ == k by {
            crate::assoc::lemma_elements_complete(keys@, supporters@.dom(), k);
        }
    }
    let mut best: Option<(i32, Vec<u8>)> = None;
    let mut i: usize = 0;
    while i < keys.len()
        invariant
            i <= keys@.len(),
            supporters.wf(),
            forall|k: Seq<u8>| supporters@.dom().contains(k) ==> (
            #[trigger] supporters@[k]).supporters.wf(),
            forall|j: int| 0 <= j < keys@.len() ==> supporters@.dom().contains(
                #[trigger] keys@[j]@,
            ),
            match best {
                Some((level, ref hash)) => qualifies(supporters@, hash@, min as int)
                    && supporters@[hash@].level == level && forall|j: int|
                    0 <= j < i && qualifies(supporters@, #[trigger] keys@[j]@, min as int)
                        ==> beats(supporters@, hash@, keys@[j]@),
                None => forall|j: int| 0 <= j < i ==> !qualifies(
                    supporters@,
                    #[trigger] keys@[j]@,
                    min as int,
                ),
            },
        decreases keys@.len() - i,
    {
        let k = &keys[i];
        let entry = match supporters.get(k) {
            Some(e) => e,
            None => {
                proof {
                    assert(false);
                }
                unreached()
            },
        };
        proof {
            entry.supporters.lemma_finite();
        }
        let count = entry.supporters.len();
        if count >= min {
            let replace = match &best {
                Some((level, hash)) => entry.level > *level || (entry.level == *level
                    && lex_le_exec(k, hash)),
                None => true,
            };
            let ghost prev = best;
            if replace {
                best = Some((entry.level, copy_bytes(k)));
                proof {
                    lemma_lex_le_refl(k@);
                    assert forall|j: int|
                        0 <= j < i + 1 && qualifies(
                            supporters@,
                            #[trigger] keys@[j]@,
                            min as int,
                        ) implies beats(supporters@, k@, keys@[j]@) by {
                        if j < i {
                            let bh = prev->Some_0.1@;
                            assert(beats(supporters@, bh, keys@[j]@));
                            if supporters@[k@].level == supporters@[bh].level
                                && supporters@[bh].level == supporters@[keys@[j]@].level {
                                lemma_lex_le_trans(k@, bh, keys@[j]@);
                            }
                        }
                    }
                }
            } else {
                proof {
                    let bh = prev->Some_0.1@;
                    lemma_lex_le_total(k@, bh);
                    assert(beats(supporters@, bh, k@));
                    assert forall|j: int|
                        0 <= j < i + 1 && qualifies(
                            supporters@,
                            #[trigger] keys@[j]@,
                            min as int,
                        ) implies beats(supporters@, bh, keys@[j]@) by {
                    }
                }
            }
        }
        i = i + 1;
    }
    proof {
        if best is Some {
            assert forall|k: Seq<u8>| qualifies(supporters@, k, min as int) implies beats(
                supporters@,
                best->Some_0.1@,
                k,
            ) by {
                let j = choose|j: int| 0 <= j < keys@.len() && #[trigger] keys@[j]@ == k;
            }
        } else {
            assert forall|k: Seq<u8>| !qualifies(supporters@, k, min as int) by {
                if supporters@.dom().contains(k) {
                    let j = choose|j: int| 0 <= j < keys@.len() && #[trigger] keys@[j]@ == k;
                }
            }
        }
    }
    best
}


pub proof fn lemma_lex_le_refl(a: Seq<u8>)
    ensures
        lex_le(a, a),
    decreases a.len(),
{
    if a.len() > 0 {
        lemma_lex_le_refl(a.drop_first());
    }
}

pub proof fn lemma_lex_le_total(a: Seq<u8>, b: Seq<u8>)
    ensures
        lex_le(a, b) || lex_le(b, a),
    decreases a.len(),
{
    if a.len() > 0 && b.len() > 0 && a[0] == b[0] {
        lemma_lex_le_total(a.drop_first(), b.drop_first());
    }
}

pub proof fn lemma_lex_le_trans(a: Seq<u8>, b: Seq<u8>, c: Seq<u8>)
    requires
        lex_le(a, b),
        lex_le(b, c),
    ensures
        lex_le(a, c),
    decreases a.len(),
{
    if a.len() > 0 && b.len() > 0 && c.len() > 0 && a[0] == b[0] && b[0] == c[0] {
        lemma_lex_le_trans(a.drop_first(), b.drop_first(), c.drop_first());
    }
}

/// One step of the protocol's seeded walk down a branch history: the digest
/// of the running state names the step size, and the state advances by
/// hashing itself.
pub struct SeededStep {
    pub state: Vec<u8>,
}

/// The step size a digest state denotes: between 1 and 4096.
pub open spec fn step_of(digest: Seq<u8>) -> int {
    if digest.len() >= 2 {
        (val_u16(digest[0], digest[1]) as int % 4096) + 1
    } else {
        1
    }
}

impl SeededStep {
    /// Seeds the walk from the two peers' identities and the branch tip.
    pub fn init(peer_pkh: &Vec<u8>, own_pkh: &Vec<u8>, tip_hash: &Vec<u8>) -> (r: SeededStep)
        ensures
            r.state@ == blake2b_digest(peer_pkh@ + own_pkh@ + tip_hash@),
    {
        let mut seed: Vec<u8> = Vec::new();
        crate::wire::put_bytes(&mut seed, peer_pkh);
        crate::wire::put_bytes(&mut seed, own_pkh);
        crate::wire::put_bytes(&mut seed, tip_hash);
        proof {
            assert(seed@ =~= peer_pkh@ + own_pkh@ + tip_hash@);
        }
        SeededStep { state: crate::hash::blake2b_256(&seed) }
    }

    /// Yields the next step size and advances the walk.
    pub fn next_step(&mut self) -> (r: u16)
        ensures
            r as int == step_of(old(self).state@),
            final(self).state@ == blake2b_digest(old(self).state@),
            1 <= r <= 4096,
    {
        let v = if self.state.len() >= 2 {
            crate::wire::read_u16_be(&self.state, 0)
        } else {
            0
        };
        let step = (v % 4096) + 1;
        self.state = crate::hash::blake2b_256(&self.state);
        step
    }
}

/// Appends an interval in level order, keeping `intervals` strictly
/// increasing by expected level and dropping duplicates of a level.
pub fn insert_interval(intervals: &mut Vec<PeerIntervalState>, item: PeerIntervalState)
    requires
        item.current is Some,
        strictly_ordered(old(intervals)@),
    ensures
        strictly_ordered(final(intervals)@),
        forall|i: int| 0 <= i < old(intervals)@.len() ==> exists|j: int|
            0 <= j < final(intervals)@.len() && final(intervals)@[j] == #[trigger] old(intervals)@[i],
        exists|j: int|
            0 <= j < final(intervals)@.len() && ((#[trigger] final(intervals)@[j]).current
                matches Some((l, _)) && l == item.current->Some_0.0),
        final(intervals)@.len() <= old(intervals)@.len() + 1,
        forall|j: int| 0 <= j < final(intervals)@.len() ==> #[trigger] final(intervals)@[j]
            == item || exists|i: int|
            0 <= i < old(intervals)@.len() && final(intervals)@[j] == old(intervals)@[i],
{
    let level = match &item.current {
        Some((l, _)) => *l,
        None => {
            proof {
                assert(false);
            }
            unreached()
        },
    };
    let mut i: usize = 0;
    while i < intervals.len() && interval_level(&intervals[i]) < level as i64
        invariant
            i <= intervals@.len(),
            intervals@ == old(intervals)@,
            strictly_ordered(intervals@),
            forall|j: int| 0 <= j < i ==> spec_interval_level(#[trigger] intervals@[j]) < level,
        decreases intervals@.len() - i,
    {
        i = i + 1;
    }
    if i < intervals.len() && interval_level(&intervals[i]) == level as i64 {
        proof {
            assert(intervals@ =~= old(intervals)@);
            assert(spec_interval_level(intervals@[i as int]) == level);
            assert forall|j: int| 0 <= j < intervals@.len() implies #[trigger] intervals@[j]
                == item || exists|i2: int|
                0 <= i2 < old(intervals)@.len() && intervals@[j] == old(intervals)@[i2] by {
                assert(intervals@[j] == old(intervals)@[j]);
            }
        }
        return;
    }
    intervals.insert(i, item);
    proof {
        assert(final(intervals)@[i as int] == item);
        assert(strictly_ordered(final(intervals)@)) by {
            assert forall|a: int, b: int|
                0 <= a < b < final(intervals)@.len() implies spec_interval_level(
                #[trigger] final(intervals)@[a],
            ) < spec_interval_level(#[trigger] final(intervals)@[b]) by {
                let n = i as int;
                if a < n && b == n {
                } else if a == n && b > n {
                    assert(final(intervals)@[b] == old(intervals)@[b - 1]);
                    if i < old(intervals)@.len() {
                        assert(spec_interval_level(old(intervals)@[i as int]) > level);
                    }
                } else if a < n && b > n {
                    assert(final(intervals)@[a] == old(intervals)@[a]);
                    assert(final(intervals)@[b] == old(intervals)@[b - 1]);
                } else if a > n && b > n {
                    assert(final(intervals)@[a] == old(intervals)@[a - 1]);
                    assert(final(intervals)@[b] == old(intervals)@[b - 1]);
                } else if a < n && b < n {
                    assert(final(intervals)@[a] == old(intervals)@[a]);
                    assert(final(intervals)@[b] == old(intervals)@[b]);
                }
            }
        }
        assert forall|x: int| 0 <= x < old(intervals)@.len() implies exists|j: int|
            0 <= j < final(intervals)@.len() && final(intervals)@[j] == #[trigger] old(intervals)@[x] by {
            if x < i as int {
                assert(final(intervals)@[x] == old(intervals)@[x]);
            } else {
                assert(final(intervals)@[x + 1] == old(intervals)@[x]);
            }
        }
        assert forall|j: int| 0 <= j < intervals@.len() implies #[trigger] intervals@[j] == item
            || exists|i2: int|
            0 <= i2 < old(intervals)@.len() && intervals@[j] == old(intervals)@[i2] by {
            if j < i as int {
                assert(intervals@[j] == old(intervals)@[j]);
            } else if j > i as int {
                assert(intervals@[j] == old(intervals)@[j - 1]);
            }
        }
    }
}

/// The level an interval expects next; complete intervals sort last.
pub open spec fn spec_interval_level(iv: PeerIntervalState) -> int {
    match iv.current {
        Some((l, _)) => l as int,
        None => 0x8000_0000,
    }
}

fn interval_level(iv: &PeerIntervalState) -> (r: i64)
    ensures
        r as int == spec_interval_level(*iv),
{
    match &iv.current {
        Some((l, _)) => *l as i64,
        None => 0x8000_0000i64,
    }
}

/// Two intervals that agree in content: same peer, same downloads, same
/// expectation.
pub open spec fn eqv_interval(a: PeerIntervalState, b: PeerIntervalState) -> bool {
    &&& a.peer == b.peer
    &&& a.downloaded@.len() == b.downloaded@.len()
    &&& forall|j: int| 0 <= j < a.downloaded@.len() ==> {
        let x = #[trigger] a.downloaded@[j];
        let y = b.downloaded@[j];
        x.0 == y.0 && x.1@ == y.1@ && x.2 == y.2 && x.3@ == y.3@
    }
    &&& (match (a.current, b.current) {
        (Some((la, ha)), Some((lb, hb))) => la == lb && ha@ == hb@,
        (None, None) => true,
        _ => false,
    })
}

/// Expected levels strictly increase across the intervals.
pub open spec fn strictly_ordered(ivs: Seq<PeerIntervalState>) -> bool {
    forall|a: int, b: int| 0 <= a < b < ivs.len() ==> spec_interval_level(#[trigger] ivs[a])
        < spec_interval_level(#[trigger] ivs[b])
}

/// Expected levels strictly increase across the intervals still expecting a
/// header; completed windows are unconstrained.
pub open spec fn sorted_intervals(ivs: Seq<PeerIntervalState>) -> bool {
    forall|a: int, b: int|
        0 <= a < b < ivs.len() && (#[trigger] ivs[a]).current is Some && (
        #[trigger] ivs[b]).current is Some ==> ivs[a].current->Some_0.0
            < ivs[b].current->Some_0.0
}

/// The strict full order implies the order over expecting windows.
pub proof fn lemma_strict_implies_sorted(ivs: Seq<PeerIntervalState>)
    requires
        strictly_ordered(ivs),
    ensures
        sorted_intervals(ivs),
{
    assert forall|a: int, b: int|
        0 <= a < b < ivs.len() && (#[trigger] ivs[a]).current is Some && (
        #[trigger] ivs[b]).current is Some implies ivs[a].current->Some_0.0
        < ivs[b].current->Some_0.0 by {
        assert(spec_interval_level(ivs[a]) < spec_interval_level(ivs[b]));
    }
}


/// Builds the header-download windows from the peers' branches: walks each
/// branch's sampled history with the protocol's seeded step, keeps the
/// entries above the current head and at or below the agreed main block, and
/// merges everything level-sorted and deduplicated. Every window expects a
/// level above the current head and at most the main block's.
pub fn build_intervals(
    branches: &Vec<(PeerAddress, i32, Vec<u8>, Vec<Vec<u8>>)>,
    peer_pkhs: &KeyMap<Vec<u8>>,
    own_pkh: &Vec<u8>,
    current_head_level: i32,
    main_block_level: i32,
    main_block_hash: &Vec<u8>,
) -> (r: Vec<PeerIntervalState>)
    requires
        peer_pkhs.wf(),
    ensures
        strictly_ordered(r@),
        forall|j: int| 0 <= j < r@.len() ==> ((#[trigger] r@[j]).current matches Some((l, _)) && l
            > current_head_level && l <= main_block_level) && r@[j].downloaded@.len() == 0,
{
    let mut intervals: Vec<PeerIntervalState> = Vec::new();
    let mut b: usize = 0;
    while b < branches.len()
        invariant
            b <= branches@.len(),
            peer_pkhs.wf(),
            strictly_ordered(intervals@),
            forall|j: int| 0 <= j < intervals@.len() ==> ((#[trigger] intervals@[j]).current
                matches Some((l, _)) && l > current_head_level && l <= main_block_level) && (
            #[trigger] intervals@[j]).downloaded@.len() == 0,
        decreases branches@.len() - b,
    {
        let (peer, tip_level, tip_hash, history) = &branches[b];
        let k = peer.key_bytes();
        let pkh = match peer_pkhs.get(&k) {
            Some(p) => p,
            None => {
                b = b + 1;
                continue;
            },
        };
        let mut step = SeededStep::init(pkh, own_pkh, tip_hash);
        let mut level: i64 = *tip_level as i64;
        if *tip_level == main_block_level && *tip_level > current_head_level {
            let item = PeerIntervalState {
                peer: *peer,
                downloaded: Vec::new(),
                current: Some((*tip_level, crate::messages::copy_bytes(main_block_hash))),
            };
            insert_one(&mut intervals, item, current_head_level, main_block_level);
        }
        let mut h: usize = 0;
        let mut done = false;
        while h < history.len() && !done
            invariant
                h <= history@.len(),
                peer_pkhs.wf(),
                strictly_ordered(intervals@),
                level <= i32::MAX,
                level >= i32::MIN,
                forall|j: int| 0 <= j < intervals@.len() ==> ((#[trigger] intervals@[j]).current
                    matches Some((l, _)) && l > current_head_level && l <= main_block_level) && (
                #[trigger] intervals@[j]).downloaded@.len() == 0,
            decreases history@.len() - h,
        {
            let s = step.next_step();
            let next_level = level - s as i64;
            if next_level <= current_head_level as i64 {
                done = true;
            } else if next_level > main_block_level as i64 {
                level = next_level;
            } else {
                level = next_level;
                let item = PeerIntervalState {
                    peer: *peer,
                    downloaded: Vec::new(),
                    current: Some((
                        #[verifier::truncate] (level as i32),
                        crate::messages::copy_bytes(&history[h]),
                    )),
                };
                proof {
                    assert(level as i32 > current_head_level);
                    assert(level as i32 <= main_block_level);
                }
                insert_one(&mut intervals, item, current_head_level, main_block_level);
            }
            h = h + 1;
        }
        b = b + 1;
    }
    intervals
}

/// Inserts one fresh window, keeping the order and the level bounds.
fn insert_one(
    intervals: &mut Vec<PeerIntervalState>,
    item: PeerIntervalState,
    head_level: i32,
    main_level: i32,
)
    requires
        strictly_ordered(old(intervals)@),
        item.current matches Some((l, _)) && l > head_level && l <= main_level,
        item.downloaded@.len() == 0,
        forall|j: int| 0 <= j < old(intervals)@.len() ==> ((#[trigger] old(intervals)@[j]).current
            matches Some((l, _)) && l > head_level && l <= main_level) && (#[trigger] old(intervals)@[j]).downloaded@.len() == 0,
    ensures
        strictly_ordered(final(intervals)@),
        forall|j: int| 0 <= j < final(intervals)@.len() ==> ((#[trigger] final(intervals)@[j]).current matches Some((l, _)) && l > head_level && l <= main_level) && (#[trigger] final(intervals)@[j]).downloaded@.len() == 0,
{
    insert_interval(intervals, item);
    proof {
        assert forall|j: int| 0 <= j < final(intervals)@.len() implies ((#[trigger] final(intervals)@[j]).current matches Some((l, _)) && l > head_level && l <= main_level) && (#[trigger] final(intervals)@[j]).downloaded@.len() == 0 by {
            if final(intervals)@[j] == item {
            } else {
                let i2 = choose|i2: int|
                    0 <= i2 < old(intervals)@.len() && final(intervals)@[j] == old(intervals)@[i2];
            }
        }
    }
}

/// The ghost value of one download entry: level, block hash, validation
/// pass, operations hash.
#[verifier::ext_equal]
pub struct IntervalV {
    pub peer: PeerAddress,
    pub downloaded: Seq<(i32, Seq<u8>, u8, Seq<u8>)>,
    pub current: Option<(i32, Seq<u8>)>,
}

/// The ghost value of a block waiting for its operations.
#[verifier::ext_equal]
pub struct BlockV {
    pub peer: PeerAddress,
    pub block_hash: Seq<u8>,
    pub validation_pass: u8,
    pub operations_hash: Seq<u8>,
}

pub open spec fn dl_view(ds: Seq<(i32, Vec<u8>, u8, Vec<u8>)>) -> Seq<(i32, Seq<u8>, u8, Seq<u8>)> {
    Seq::new(ds.len(), |i: int| (ds[i].0, ds[i].1@, ds[i].2, ds[i].3@))
}

pub open spec fn iv_view(iv: PeerIntervalState) -> IntervalV {
    IntervalV {
        peer: iv.peer,
        downloaded: dl_view(iv.downloaded@),
        current: match iv.current {
            Some((l, h)) => Some((l, h@)),
            None => None,
        },
    }
}

pub open spec fn ivs_view(ivs: Seq<PeerIntervalState>) -> Seq<IntervalV> {
    Seq::new(ivs.len(), |i: int| iv_view(ivs[i]))
}

pub open spec fn block_v(b: BlockWithDownloadedHeader) -> BlockV {
    BlockV {
        peer: b.peer,
        block_hash: b.block_hash@,
        validation_pass: b.validation_pass,
        operations_hash: b.operations_hash@,
    }
}

pub open spec fn chain_view(c: Seq<BlockWithDownloadedHeader>) -> Seq<BlockV> {
    Seq::new(c.len(), |i: int| block_v(c[i]))
}

/// Whether a window expects exactly this header from this peer.
pub open spec fn iv_matches(iv: IntervalV, peer: PeerAddress, level: i32, hash: Seq<u8>) -> bool {
    &&& iv.peer == peer
    &&& iv.current matches Some((l, h)) && l == level && h == hash
}

/// The first window expecting this header, if any.
pub open spec fn match_index(
    ivs: Seq<IntervalV>,
    peer: PeerAddress,
    level: i32,
    hash: Seq<u8>,
) -> Option<int>
    decreases ivs.len(),
{
    if ivs.len() == 0 {
        None
    } else if iv_matches(ivs[0], peer, level, hash) {
        Some(0int)
    } else {
        match match_index(ivs.drop_first(), peer, level, hash) {
            Some(i) => Some(i + 1),
            None => None,
        }
    }
}

/// A first match at `i` pins `match_index`; no match anywhere pins it to
/// nothing.
pub proof fn lemma_match_index(
    ivs: Seq<IntervalV>,
    peer: PeerAddress,
    level: i32,
    hash: Seq<u8>,
    i: int,
)
    ensures
        (0 <= i < ivs.len() && iv_matches(ivs[i], peer, level, hash) && (forall|j: int|
            0 <= j < i ==> !iv_matches(#[trigger] ivs[j], peer, level, hash))) ==> match_index(
            ivs,
            peer,
            level,
            hash,
        ) == Some(i),
        (forall|j: int| 0 <= j < ivs.len() ==> !iv_matches(#[trigger] ivs[j], peer, level, hash))
            ==> match_index(ivs, peer, level, hash) is None,
    decreases ivs.len(),
{
    if ivs.len() > 0 && !iv_matches(ivs[0], peer, level, hash) {
        lemma_match_index(ivs.drop_first(), peer, level, hash, i - 1);
        assert(forall|j: int| 0 <= j < ivs.len() - 1 ==> #[trigger] ivs.drop_first()[j] == ivs[j
            + 1]);
    }
}

/// The level and hash the window below meets a stitch at: its topmost
/// downloaded header if it has one, else its expectation.
pub open spec fn seam_ref(iv: IntervalV) -> Option<(int, Seq<u8>)> {
    if iv.downloaded.len() > 0 {
        Some((iv.downloaded[0].0 as int, iv.downloaded[0].1))
    } else {
        match iv.current {
            Some((l, h)) => Some((l as int, h)),
            None => None,
        }
    }
}

/// Whether some window other than `except` expects level `lvl`.
pub open spec fn expects_elsewhere(ivs: Seq<IntervalV>, lvl: int, except: int) -> bool {
    exists|j: int|
        0 <= j < ivs.len() && j != except && ((#[trigger] ivs[j]).current matches Some((l, _)) && l
            == lvl)
}

/// The window grown by this header: the download recorded at the end, the
/// expectation one level down, or closed when the seam below was met.
pub open spec fn advanced_window(
    iv: IntervalV,
    level: i32,
    block_hash: Seq<u8>,
    predecessor: Seq<u8>,
    validation_pass: u8,
    operations_hash: Seq<u8>,
    complete: bool,
) -> IntervalV {
    IntervalV {
        peer: iv.peer,
        downloaded: iv.downloaded.push((level, block_hash, validation_pass, operations_hash)),
        current: if complete {
            None
        } else {
            Some((((level - 1)) as i32, predecessor))
        },
    }
}

/// What one received header does to the windows: nothing when no window
/// expects it or the advance would collide; the download recorded and the
/// expectation moved down otherwise; at a seam, the window closes on a
/// predecessor match, and on a mismatch both windows are dropped and both
/// peers are named for graylisting.
pub open spec fn header_step(
    ivs: Seq<IntervalV>,
    peer: PeerAddress,
    level: i32,
    block_hash: Seq<u8>,
    predecessor: Seq<u8>,
    validation_pass: u8,
    operations_hash: Seq<u8>,
) -> (Seq<IntervalV>, Seq<PeerAddress>) {
    match match_index(ivs, peer, level, block_hash) {
        None => (ivs, Seq::empty()),
        Some(fi) => {
            if level == i32::MIN {
                (ivs, Seq::empty())
            } else {
                let seam = if fi > 0 {
                    seam_ref(ivs[fi - 1])
                } else {
                    None
                };
                match seam {
                    Some((rl, rh)) if rl + 1 == level => {
                        if rh == predecessor {
                            (
                                ivs.update(
                                    fi,
                                    advanced_window(
                                        ivs[fi],
                                        level,
                                        block_hash,
                                        predecessor,
                                        validation_pass,
                                        operations_hash,
                                        true,
                                    ),
                                ),
                                Seq::empty(),
                            )
                        } else {
                            (
                                ivs.remove(fi).remove(fi - 1),
                                seq![ivs[fi].peer, ivs[fi - 1].peer],
                            )
                        }
                    },
                    _ => {
                        if fi > 0 && seam is None {
                            (ivs, Seq::empty())
                        } else if expects_elsewhere(ivs, level - 1, fi) {
                            (ivs, Seq::empty())
                        } else {
                            (
                                ivs.update(
                                    fi,
                                    advanced_window(
                                        ivs[fi],
                                        level,
                                        block_hash,
                                        predecessor,
                                        validation_pass,
                                        operations_hash,
                                        false,
                                    ),
                                ),
                                Seq::empty(),
                            )
                        }
                    },
                }
            }
        },
    }
}

/// The block a window's download at `j` stands for.
pub open spec fn blk(iv: IntervalV, j: int) -> BlockV {
    BlockV {
        peer: iv.peer,
        block_hash: iv.downloaded[j].1,
        validation_pass: iv.downloaded[j].2,
        operations_hash: iv.downloaded[j].3,
    }
}

/// The blocks a window's downloads stand for, front-pushed in order: the
/// last download ends up first.
pub open spec fn rev_blocks_of(iv: IntervalV) -> Seq<BlockV> {
    Seq::new(iv.downloaded.len(), |i: int| blk(iv, iv.downloaded.len() - 1 - i))
}

/// Chain assembly: while the topmost window's first downloaded level is the
/// next level the chain needs, its downloads are pushed onto the chain front
/// in order; a completed window is then removed, a window still expecting
/// keeps its place with its downloads drained.
pub open spec fn drain_spec(
    chain: Seq<BlockV>,
    ivs: Seq<IntervalV>,
    last_level: int,
) -> (Seq<BlockV>, Seq<IntervalV>)
    decreases ivs.len(),
{
    if ivs.len() == 0 {
        (chain, ivs)
    } else {
        let iv = ivs.last();
        if iv.downloaded.len() > 0 && iv.downloaded[0].0 as int == last_level - chain.len() {
            let chain2 = rev_blocks_of(iv) + chain;
            if iv.current is None {
                drain_spec(chain2, ivs.drop_last(), last_level)
            } else {
                (
                    chain2,
                    ivs.drop_last().push(
                        IntervalV { peer: iv.peer, downloaded: Seq::empty(), current: iv.current },
                    ),
                )
            }
        } else {
            (chain, ivs)
        }
    }
}

/// Every slot of a per-peer download holds its operations message.
pub open spec fn slots_complete(ops: Seq<Option<OperationsForBlocksMessage>>) -> bool {
    forall|i: int| 0 <= i < ops.len() ==> (#[trigger] ops[i]) is Some
}

/// One bootstrap action. As with the mempool, batch events are expanded by
/// the effect layer into single-subject actions.
pub enum BootstrapAction {
    Init,
    PeersConnectPending,
    PeersConnectSuccess,
    PeersMainBranchFindPending,
    /// A peer's current branch arrived: remember its tip.
    PeerBranchReceived { peer: PeerAddress, level: i32, tip_hash: Vec<u8> },
    /// A peer vouches for one candidate block (its tip, or the tip's
    /// predecessor).
    BlockSupporterSeen { peer: PeerAddress, block_hash: Vec<u8>, level: i32 },
    /// Try to settle on the main block with the configured quorum.
    PeersMainBranchFindSuccess { peers_bootstrapped_min: usize },
    /// Start downloading headers over the given interval windows.
    PeersBlockHeadersGetPending {
        main_chain_last_level: i32,
        peer_intervals: Vec<PeerIntervalState>,
    },
    /// A header arrived for the interval expecting it.
    PeerBlockHeaderReceived {
        peer: PeerAddress,
        level: i32,
        block_hash: Vec<u8>,
        predecessor: Vec<u8>,
        validation_pass: u8,
        operations_hash: Vec<u8>,
    },
    PeersBlockHeadersGetSuccess,
    PeersBlockOperationsGetPending,
    /// Take the next block off the queue and open its per-peer tracker.
    PeerBlockOperationsGetPending,
    /// One peer filled every slot of the block: settle its download.
    PeerBlockOperationsGetSuccess { block_hash: Vec<u8> },
    /// A peer delivered the operations of one validation pass of one block.
    PeerBlockOperationsReceived {
        peer: PeerAddress,
        block_hash: Vec<u8>,
        validation_pass: u8,
        message: OperationsForBlocksMessage,
    },
    /// The block's operations are complete; hand it to the applier.
    ScheduleBlockForApply { block_hash: Vec<u8> },
}

/// Expands one received current branch into the actions that record it: the
/// branch itself, then one supporter vote for the tip's predecessor at the
/// level below, and one for the tip itself once its hash can be derived from
/// the header. The branch is named by the tip's hash when that hash can be
/// derived, and by the tip's predecessor otherwise. The predecessor vote is
/// omitted when no level lies below the tip's.
pub fn expand_branch_received(peer: &PeerAddress, head: &BlockHeader) -> (r: Vec<BootstrapAction>)
    ensures
        ({
            let derivable = crate::codec::wf_fitness(head@.fitness) && crate::codec::wf_dyn(
                crate::codec::enc_fitness(head@.fitness),
            );
            let tip = blake2b_digest(crate::codec::enc_header(head@));
            let named = if derivable {
                tip
            } else {
                head@.predecessor
            };
            &&& r@.len() == 1 + (if head@.level > i32::MIN {
                1int
            } else {
                0int
            }) + (if derivable {
                1int
            } else {
                0int
            })
            &&& (r@[0] matches BootstrapAction::PeerBranchReceived { peer: p, level, tip_hash }
                && p == *peer && level == head@.level && tip_hash@ == named)
            &&& head@.level > i32::MIN ==> (r@[1]
                matches BootstrapAction::BlockSupporterSeen { peer: p, block_hash, level } && p
                == *peer && block_hash@ == head@.predecessor && level == head@.level - 1)
            &&& derivable ==> (r@[r@.len() - 1]
                matches BootstrapAction::BlockSupporterSeen { peer: p, block_hash, level } && p
                == *peer && block_hash@ == tip && level == head@.level)
        }),
{
    let mut out: Vec<BootstrapAction> = Vec::new();
    let tip_hash = crate::hash::block_header_hash(head);
    let named = match &tip_hash {
        Some(h) => copy_bytes(h),
        None => copy_bytes(head.predecessor()),
    };
    out.push(
        BootstrapAction::PeerBranchReceived { peer: *peer, level: head.level(), tip_hash: named },
    );
    if head.level() > i32::MIN {
        out.push(
            BootstrapAction::BlockSupporterSeen {
                peer: *peer,
                block_hash: copy_bytes(head.predecessor()),
                level: head.level() - 1,
            },
        );
    }
    match tip_hash {
        Some(h) => {
            out.push(
                BootstrapAction::BlockSupporterSeen {
                    peer: *peer,
                    block_hash: h,
                    level: head.level(),
                },
            );
        },
        None => {},
    }
    out
}

/// Applies one bootstrap action. Phase-setting actions replace the state;
/// in-phase actions update the phase's payload; an action outside its phase
/// leaves the state unchanged by design.
pub fn bootstrap_reducer(state: &mut BootstrapState, action: &BootstrapAction, meta: &ActionMeta)
    requires
        old(state).wf(),
    ensures
        final(state).wf(),
        match *action {
            BootstrapAction::Init => *final(state) == (BootstrapState::Init {
                time: meta.time_ns,
            }),
            BootstrapAction::PeersConnectPending => *final(state)
                == (BootstrapState::PeersConnectPending { time: meta.time_ns }),
            BootstrapAction::PeersConnectSuccess => *final(state)
                == (BootstrapState::PeersConnectSuccess { time: meta.time_ns }),
            BootstrapAction::PeersMainBranchFindPending => {
                &&& *final(state) matches BootstrapState::PeersMainBranchFindPending {
                    time,
                    peer_branches,
                    block_supporters,
                } && time == meta.time_ns && peer_branches@ == Map::<Seq<u8>, (i32, Vec<u8>)>::empty()
                    && block_supporters@ == Map::<Seq<u8>, BlockSupport>::empty()
            },
            BootstrapAction::PeerBranchReceived { peer, level, ref tip_hash } => {
                if *old(state) matches BootstrapState::PeersMainBranchFindPending { .. } {
                    let b0 = old(state)->PeersMainBranchFindPending_peer_branches;
                    let b1 = final(state)->PeersMainBranchFindPending_peer_branches;
                    &&& *final(state) is PeersMainBranchFindPending
                    &&& final(state)->PeersMainBranchFindPending_time == old(
                        state,
                    )->PeersMainBranchFindPending_time
                    &&& final(state)->PeersMainBranchFindPending_block_supporters == old(
                        state,
                    )->PeersMainBranchFindPending_block_supporters
                    &&& b1@.dom() == b0@.dom().insert(addr_key(peer))
                    &&& b1@[addr_key(peer)].0 == level
                    &&& b1@[addr_key(peer)].1@ == tip_hash@
                    &&& forall|k: Seq<u8>| b0@.dom().contains(k) && k != addr_key(peer)
                        ==> b1@[k] == b0@[k]
                } else {
                    *final(state) == *old(state)
                }
            },
            BootstrapAction::BlockSupporterSeen { peer, ref block_hash, level } => {
                if *old(state) matches BootstrapState::PeersMainBranchFindPending { .. } {
                    let s0 = old(state)->PeersMainBranchFindPending_block_supporters;
                    let s1 = final(state)->PeersMainBranchFindPending_block_supporters;
                    let prev = if s0@.dom().contains(block_hash@) {
                        s0@[block_hash@].supporters@
                    } else {
                        Set::<Seq<u8>>::empty()
                    };
                    &&& *final(state) is PeersMainBranchFindPending
                    &&& final(state)->PeersMainBranchFindPending_time == old(
                        state,
                    )->PeersMainBranchFindPending_time
                    &&& final(state)->PeersMainBranchFindPending_peer_branches == old(
                        state,
                    )->PeersMainBranchFindPending_peer_branches
                    &&& s1@.dom() == s0@.dom().insert(block_hash@)
                    &&& s1@[block_hash@].supporters@ == prev.insert(addr_key(peer))
                    &&& (if s0@.dom().contains(block_hash@) {
                        s1@[block_hash@].level == s0@[block_hash@].level
                    } else {
                        s1@[block_hash@].level == level
                    })
                    &&& forall|k: Seq<u8>| s0@.dom().contains(k) && k != block_hash@ ==> s1@[k]
                        == s0@[k]
                } else {
                    *final(state) == *old(state)
                }
            },
            BootstrapAction::PeersMainBranchFindSuccess { peers_bootstrapped_min } => {
                if *old(state) matches BootstrapState::PeersMainBranchFindPending { .. } {
                    let s0 = old(state)->PeersMainBranchFindPending_block_supporters;
                    if exists|k: Seq<u8>| qualifies(s0@, k, peers_bootstrapped_min as int) {
                        &&& *final(state) matches BootstrapState::PeersMainBranchFindSuccess {
                            time,
                            main_block_level,
                            main_block_hash,
                        }
                        &&& time == meta.time_ns
                        &&& qualifies(s0@, main_block_hash@, peers_bootstrapped_min as int)
                        &&& s0@[main_block_hash@].level == main_block_level
                        &&& forall|k: Seq<u8>| qualifies(s0@, k, peers_bootstrapped_min as int)
                            ==> beats(s0@, main_block_hash@, k)
                    } else {
                        *final(state) == *old(state)
                    }
                } else {
                    *final(state) == *old(state)
                }
            },
            BootstrapAction::PeersBlockHeadersGetPending {
                main_chain_last_level,
                ref peer_intervals,
            } => {
                if (*old(state) matches BootstrapState::PeersMainBranchFindSuccess { .. })
                    && strictly_ordered(peer_intervals@) && bounded_by(
                    peer_intervals@,
                    main_chain_last_level,
                ) {
                    &&& *final(state) matches BootstrapState::PeersBlockHeadersGetPending {
                        time,
                        main_chain_last_level: lvl,
                        main_chain,
                        peer_intervals: ivs,
                        graylist,
                    }
                    &&& time == meta.time_ns
                    &&& lvl == main_chain_last_level
                    &&& main_chain@.len() == 0
                    &&& graylist@.len() == 0
                    &&& ivs@.len() == peer_intervals@.len()
                    &&& forall|j: int| 0 <= j < peer_intervals@.len() ==> eqv_interval(
                        #[trigger] ivs@[j],
                        peer_intervals@[j],
                    )
                    &&& strictly_ordered(ivs@) && sorted_intervals(ivs@)
                    &&& bounded_by(ivs@, main_chain_last_level)
                } else {
                    *final(state) == *old(state)
                }
            },
            BootstrapAction::PeerBlockHeaderReceived {
                peer,
                level,
                ref block_hash,
                ref predecessor,
                validation_pass,
                ref operations_hash,
            } => {
                if *old(state) matches BootstrapState::PeersBlockHeadersGetPending { .. } {
                    let last_level = old(state)->PeersBlockHeadersGetPending_main_chain_last_level;
                    let stepped = header_step(
                        ivs_view(old(state)->PeersBlockHeadersGetPending_peer_intervals@),
                        peer,
                        level,
                        block_hash@,
                        predecessor@,
                        validation_pass,
                        operations_hash@,
                    );
                    let drained = drain_spec(
                        chain_view(old(state)->PeersBlockHeadersGetPending_main_chain@),
                        stepped.0,
                        last_level as int,
                    );
                    &&& *final(state) is PeersBlockHeadersGetPending
                    &&& ivs_view(final(state)->PeersBlockHeadersGetPending_peer_intervals@)
                        == drained.1
                    &&& chain_view(final(state)->PeersBlockHeadersGetPending_main_chain@)
                        == drained.0
                    &&& final(state)->PeersBlockHeadersGetPending_graylist@ == old(
                        state,
                    )->PeersBlockHeadersGetPending_graylist@ + stepped.1
                    &&& final(state)->PeersBlockHeadersGetPending_main_chain_last_level
                        == last_level
                    &&& final(state)->PeersBlockHeadersGetPending_time == old(
                        state,
                    )->PeersBlockHeadersGetPending_time
                    &&& sorted_intervals(
                        old(state)->PeersBlockHeadersGetPending_peer_intervals@,
                    ) ==> sorted_intervals(
                        final(state)->PeersBlockHeadersGetPending_peer_intervals@,
                    )
                } else {
                    *final(state) == *old(state)
                }
            },
            BootstrapAction::PeersBlockHeadersGetSuccess => {
                if *old(state) matches BootstrapState::PeersBlockHeadersGetPending { .. } {
                    &&& *final(state) matches BootstrapState::PeersBlockHeadersGetSuccess {
                        time,
                        chain_last_level,
                        chain,
                    }
                    &&& time == meta.time_ns
                    &&& chain_last_level == old(
                        state,
                    )->PeersBlockHeadersGetPending_main_chain_last_level
                    &&& chain@ == old(state)->PeersBlockHeadersGetPending_main_chain@
                } else {
                    *final(state) == *old(state)
                }
            },
            BootstrapAction::PeersBlockOperationsGetPending => {
                if *old(state) matches BootstrapState::PeersBlockHeadersGetSuccess { .. } {
                    &&& *final(state) matches BootstrapState::PeersBlockOperationsGetPending {
                        time,
                        last_level,
                        queue,
                        pending,
                        graylist,
                    }
                    &&& time == meta.time_ns
                    &&& last_level == old(state)->PeersBlockHeadersGetSuccess_chain_last_level
                    &&& queue@ == old(state)->PeersBlockHeadersGetSuccess_chain@
                    &&& pending@ == Map::<Seq<u8>, BootstrapBlockOperationGetState>::empty()
                    &&& graylist@.len() == 0
                } else {
                    *final(state) == *old(state)
                }
            },
            BootstrapAction::PeerBlockOperationsGetPending => {
                if (*old(state) matches BootstrapState::PeersBlockOperationsGetPending { .. })
                    && old(state)->PeersBlockOperationsGetPending_queue@.len() > 0 {
                    let q0 = old(state)->PeersBlockOperationsGetPending_queue@;
                    let next = q0[0];
                    let p1 = final(state)->PeersBlockOperationsGetPending_pending;
                    &&& *final(state) is PeersBlockOperationsGetPending
                    &&& final(state)->PeersBlockOperationsGetPending_queue@ == q0.drop_first()
                    &&& p1@.dom() == old(
                        state,
                    )->PeersBlockOperationsGetPending_pending@.dom().insert(next.block_hash@)
                    &&& p1@[next.block_hash@].validation_pass == next.validation_pass
                    &&& p1@[next.block_hash@].peers@.dom().contains(addr_key(next.peer))
                    &&& (p1@[next.block_hash@].peers@[addr_key(next.peer)]
                        matches PeerBlockOperationsGetState::Pending { time, operations } && time
                        == meta.time_ns && operations@.len() == next.validation_pass as int && (
                    forall|i: int| 0 <= i < operations@.len() ==> (#[trigger] operations@[i]) is None))
                    &&& {
                        let lvl = old(state)->PeersBlockOperationsGetPending_last_level as int
                            - q0.drop_first().len();
                        i32::MIN <= lvl <= i32::MAX ==> p1@[next.block_hash@].block_level as int
                            == lvl
                    }
                    &&& final(state)->PeersBlockOperationsGetPending_last_level == old(
                        state,
                    )->PeersBlockOperationsGetPending_last_level
                } else {
                    *final(state) == *old(state)
                }
            },
            BootstrapAction::PeerBlockOperationsGetSuccess { ref block_hash } => {
                if (*old(state) matches BootstrapState::PeersBlockOperationsGetPending { .. })
                    && old(state)->PeersBlockOperationsGetPending_pending@.dom().contains(
                    block_hash@,
                ) {
                    let t0 = old(state)->PeersBlockOperationsGetPending_pending@[block_hash@];
                    let p1 = final(state)->PeersBlockOperationsGetPending_pending;
                    &&& *final(state) is PeersBlockOperationsGetPending
                    &&& final(state)->PeersBlockOperationsGetPending_queue@ == old(
                        state,
                    )->PeersBlockOperationsGetPending_queue@
                    &&& final(state)->PeersBlockOperationsGetPending_last_level == old(
                        state,
                    )->PeersBlockOperationsGetPending_last_level
                    &&& (if exists|k: Seq<u8>|
                        t0.peers@.dom().contains(k) && ((#[trigger] t0.peers@[k])
                            matches PeerBlockOperationsGetState::Pending { operations, .. }
                            && slots_complete(operations@)) {
                        exists|k: Seq<u8>|
                            {
                                &&& #[trigger] t0.peers@.dom().contains(k)
                                &&& t0.peers@[k] matches PeerBlockOperationsGetState::Pending {
                                    operations: slots,
                                    ..
                                } && slots_complete(slots@) && {
                                    let t1 = p1@[block_hash@];
                                    &&& p1@ == old(
                                        state,
                                    )->PeersBlockOperationsGetPending_pending@.insert(
                                        block_hash@,
                                        t1,
                                    )
                                    &&& t1.validation_pass == t0.validation_pass
                                    &&& t1.block_level == t0.block_level
                                    &&& t1.peers@ == t0.peers@.insert(k, t1.peers@[k])
                                    &&& t1.peers@[k]
                                        matches PeerBlockOperationsGetState::Success {
                                        time,
                                        operations: done,
                                    } && time == meta.time_ns && done@.len() == slots@.len() && (
                                    forall|i: int|
                                        0 <= i < slots@.len() ==> (#[trigger] done@[i])@
                                            == slots@[i]->Some_0@)
                                }
                            }
                    } else {
                        let t1 = p1@[block_hash@];
                        &&& p1@ == old(state)->PeersBlockOperationsGetPending_pending@.insert(
                            block_hash@,
                            t1,
                        )
                        &&& t1.peers@ == t0.peers@
                        &&& t1.validation_pass == t0.validation_pass
                        &&& t1.block_level == t0.block_level
                        &&& t1.operations_hash@ == t0.operations_hash@
                    })
                } else {
                    *final(state) == *old(state)
                }
            },
            BootstrapAction::PeerBlockOperationsReceived {
                peer,
                ref block_hash,
                validation_pass,
                ..
            } => {
                if *old(state) matches BootstrapState::PeersBlockOperationsGetPending { .. } {
                    &&& *final(state) is PeersBlockOperationsGetPending
                    &&& final(state)->PeersBlockOperationsGetPending_queue@ == old(
                        state,
                    )->PeersBlockOperationsGetPending_queue@
                    &&& final(state)->PeersBlockOperationsGetPending_pending@.dom() == old(
                        state,
                    )->PeersBlockOperationsGetPending_pending@.dom()
                } else {
                    *final(state) == *old(state)
                }
            },
            BootstrapAction::ScheduleBlockForApply { ref block_hash } => {
                if *old(state) matches BootstrapState::PeersBlockOperationsGetPending { .. } {
                    &&& *final(state) is PeersBlockOperationsGetPending
                    &&& final(state)->PeersBlockOperationsGetPending_pending@ == old(
                        state,
                    )->PeersBlockOperationsGetPending_pending@.remove(block_hash@)
                    &&& final(state)->PeersBlockOperationsGetPending_queue@ == old(
                        state,
                    )->PeersBlockOperationsGetPending_queue@
                } else {
                    *final(state) == *old(state)
                }
            },
        },
{
    match action {
        BootstrapAction::Init => {
            *state = BootstrapState::Init { time: meta.time_ns };
        },
        BootstrapAction::PeersConnectPending => {
            *state = BootstrapState::PeersConnectPending { time: meta.time_ns };
        },
        BootstrapAction::PeersConnectSuccess => {
            *state = BootstrapState::PeersConnectSuccess { time: meta.time_ns };
        },
        BootstrapAction::PeersMainBranchFindPending => {
            *state = BootstrapState::PeersMainBranchFindPending {
                time: meta.time_ns,
                peer_branches: KeyMap::new(),
                block_supporters: KeyMap::new(),
            };
        },
        BootstrapAction::PeerBranchReceived { peer, level, tip_hash } => {
            match state {
                BootstrapState::PeersMainBranchFindPending { peer_branches, .. } => {
                    peer_branches.insert(peer.key_bytes(), (*level, copy_bytes(tip_hash)));
                    proof {
                        assert(peer_branches@.dom() =~= old(
                            state,
                        )->PeersMainBranchFindPending_peer_branches@.dom().insert(addr_key(*peer)));
                    }
                },
                _ => {},
            }
        },
        BootstrapAction::BlockSupporterSeen { peer, block_hash, level } => {
            match state {
                BootstrapState::PeersMainBranchFindPending { block_supporters, .. } => {
                    let mut entry = match block_supporters.remove(block_hash) {
                        Some(e) => e,
                        None => BlockSupport { level: *level, supporters: KeySet::new() },
                    };
                    entry.supporters.insert(peer.key_bytes());
                    let ghost h0 = block_hash@;
                    block_supporters.insert(copy_bytes(block_hash), entry);
                    proof {
                        assert(block_supporters@.dom() =~= old(
                            state,
                        )->PeersMainBranchFindPending_block_supporters@.dom().insert(h0));
                    }
                },
                _ => {},
            }
        },
        BootstrapAction::PeersMainBranchFindSuccess { peers_bootstrapped_min } => {
            let chosen = match state {
                BootstrapState::PeersMainBranchFindPending { block_supporters, .. } => {
                    main_block(block_supporters, *peers_bootstrapped_min)
                },
                _ => None,
            };
            match chosen {
                Some((main_block_level, main_block_hash)) => {
                    *state = BootstrapState::PeersMainBranchFindSuccess {
                        time: meta.time_ns,
                        main_block_level,
                        main_block_hash,
                    };
                },
                None => {
                    proof {
                        if *old(state) matches BootstrapState::PeersMainBranchFindPending { .. } {
                            let s0 = old(state)->PeersMainBranchFindPending_block_supporters;
                            assert(forall|k: Seq<u8>|
                                !qualifies(s0@, k, *peers_bootstrapped_min as int));
                        }
                    }
                },
            }
        },
        BootstrapAction::PeersBlockHeadersGetPending { main_chain_last_level, peer_intervals } => {
            let in_phase = matches!(state, BootstrapState::PeersMainBranchFindSuccess { .. });
            if in_phase && check_sorted(peer_intervals) && check_bounded(
                peer_intervals,
                *main_chain_last_level,
            ) {
                let copied = copy_intervals(peer_intervals);
                proof {
                    assert forall|a: int, b: int|
                        0 <= a < b < copied@.len() implies spec_interval_level(
                        #[trigger] copied@[a],
                    ) < spec_interval_level(#[trigger] copied@[b]) by {
                        assert(eqv_interval(copied@[a], peer_intervals@[a]));
                        assert(eqv_interval(copied@[b], peer_intervals@[b]));
                        assert(spec_interval_level(peer_intervals@[a]) < spec_interval_level(
                            peer_intervals@[b],
                        ));
                    }
                    lemma_strict_implies_sorted(copied@);
                    assert forall|j: int| 0 <= j < copied@.len() implies spec_interval_level(
                        #[trigger] copied@[j],
                    ) <= *main_chain_last_level as int by {
                        assert(eqv_interval(copied@[j], peer_intervals@[j]));
                        assert(spec_interval_level(peer_intervals@[j])
                            <= *main_chain_last_level as int);
                    }
                }
                *state = BootstrapState::PeersBlockHeadersGetPending {
                    time: meta.time_ns,
                    main_chain_last_level: *main_chain_last_level,
                    main_chain: VecDeque::new(),
                    peer_intervals: copied,
                    graylist: Vec::new(),
                };
            }
        },
        BootstrapAction::PeerBlockHeaderReceived {
            peer,
            level,
            block_hash,
            predecessor,
            validation_pass,
            operations_hash,
        } => {
            match state {
                BootstrapState::PeersBlockHeadersGetPending {
                    main_chain_last_level,
                    main_chain,
                    peer_intervals,
                    graylist,
                    ..
                } => {
                    let mut gray = apply_header(
                        peer_intervals,
                        peer,
                        *level,
                        block_hash,
                        predecessor,
                        *validation_pass,
                        operations_hash,
                    );
                    graylist.append(&mut gray);
                    drain_chain(main_chain, peer_intervals, *main_chain_last_level);
                },
                _ => {},
            }
        },
        BootstrapAction::PeersBlockHeadersGetSuccess => {
            let take = match state {
                BootstrapState::PeersBlockHeadersGetPending {
                    main_chain_last_level,
                    main_chain,
                    ..
                } => {
                    let lvl = *main_chain_last_level;
                    let mut chain: VecDeque<BlockWithDownloadedHeader> = VecDeque::new();
                    core::mem::swap(main_chain, &mut chain);
                    Some((lvl, chain))
                },
                _ => None,
            };
            match take {
                Some((chain_last_level, chain)) => {
                    *state = BootstrapState::PeersBlockHeadersGetSuccess {
                        time: meta.time_ns,
                        chain_last_level,
                        chain,
                    };
                },
                None => {},
            }
        },
        BootstrapAction::PeersBlockOperationsGetPending => {
            let take = match state {
                BootstrapState::PeersBlockHeadersGetSuccess { chain_last_level, chain, .. } => {
                    let lvl = *chain_last_level;
                    let mut q: VecDeque<BlockWithDownloadedHeader> = VecDeque::new();
                    core::mem::swap(chain, &mut q);
                    Some((lvl, q))
                },
                _ => None,
            };
            match take {
                Some((last_level, queue)) => {
                    *state = BootstrapState::PeersBlockOperationsGetPending {
                        time: meta.time_ns,
                        last_level,
                        queue,
                        pending: KeyMap::new(),
                        graylist: Vec::new(),
                    };
                },
                None => {},
            }
        },
        BootstrapAction::PeerBlockOperationsGetPending => {
            match state {
                BootstrapState::PeersBlockOperationsGetPending {
                    last_level,
                    queue,
                    pending,
                    ..
                } => {
                    if queue.len() == 0 {
                        return;
                    }
                    match queue.pop_front() {
                        Some(next) => {
                            let mut ops: Vec<Option<OperationsForBlocksMessage>> = Vec::new();
                            let mut j: usize = 0;
                            let passes = next.validation_pass as usize;
                            while j < passes
                                invariant
                                    j <= passes,
                                    ops@.len() == j,
                                    forall|i: int| 0 <= i < j ==> (#[trigger] ops@[i]) is None,
                                decreases passes - j,
                            {
                                ops.push(None);
                                j = j + 1;
                            }
                            let mut peers: KeyMap<PeerBlockOperationsGetState> = KeyMap::new();
                            peers.insert(
                                next.peer.key_bytes(),
                                PeerBlockOperationsGetState::Pending {
                                    time: meta.time_ns,
                                    operations: ops,
                                },
                            );
                            let lvl_wide: i128 = *last_level as i128 - queue.len() as i128;
                            let block_level = if lvl_wide >= i32::MIN as i128 && lvl_wide
                                <= i32::MAX as i128 {
                                #[verifier::truncate] (lvl_wide as i32)
                            } else {
                                0
                            };
                            let tracker = BootstrapBlockOperationGetState {
                                block_level,
                                validation_pass: next.validation_pass,
                                operations_hash: next.operations_hash,
                                peers,
                            };
                            let ghost h0 = next.block_hash@;
                            pending.insert(next.block_hash, tracker);
                            proof {
                                assert(pending@.dom() =~= old(
                                    state,
                                )->PeersBlockOperationsGetPending_pending@.dom().insert(h0));
                            }
                        },
                        None => {},
                    }
                },
                _ => {},
            }
        },
        BootstrapAction::PeerBlockOperationsGetSuccess { block_hash } => {
            match state {
                BootstrapState::PeersBlockOperationsGetPending { pending, .. } => {
                    if !pending.contains_key(block_hash) {
                        return;
                    }
                    let taken = pending.remove(block_hash);
                    match taken {
                        Some(mut tracker) => {
                            settle_complete_peer(&mut tracker, meta);
                            let ghost t1 = tracker;
                            let ghost h0 = block_hash@;
                            pending.insert(copy_bytes(block_hash), tracker);
                            proof {
                                assert(pending@ =~= old(
                                    state,
                                )->PeersBlockOperationsGetPending_pending@.insert(h0, t1));
                            }
                        },
                        None => {
                            proof {
                                assert(false);
                            }
                        },
                    }
                },
                _ => {},
            }
        },
        BootstrapAction::PeerBlockOperationsReceived {
            peer,
            block_hash,
            validation_pass,
            message,
        } => {
            match state {
                BootstrapState::PeersBlockOperationsGetPending { pending, .. } => {
                    let taken = pending.remove(block_hash);
                    match taken {
                        Some(mut tracker) => {
                            let k = peer.key_bytes();
                            let slot = *validation_pass as usize;
                            let taken_peer = tracker.peers.remove(&k);
                            match taken_peer {
                                Some(PeerBlockOperationsGetState::Pending {
                                    time,
                                    mut operations,
                                }) => {
                                    if slot < operations.len() {
                                        operations.set(slot, Some(message.duplicate()));
                                    }
                                    tracker.peers.insert(
                                        k,
                                        PeerBlockOperationsGetState::Pending { time, operations },
                                    );
                                },
                                Some(other) => {
                                    tracker.peers.insert(k, other);
                                },
                                None => {},
                            }
                            let ghost h0 = block_hash@;
                            pending.insert(copy_bytes(block_hash), tracker);
                            proof {
                                assert(pending@.dom() =~= old(
                                    state,
                                )->PeersBlockOperationsGetPending_pending@.dom());
                            }
                        },
                        None => {
                            proof {
                                assert(pending@.dom() =~= old(
                                    state,
                                )->PeersBlockOperationsGetPending_pending@.dom());
                            }
                        },
                    }
                },
                _ => {},
            }
        },
        BootstrapAction::ScheduleBlockForApply { block_hash } => {
            match state {
                BootstrapState::PeersBlockOperationsGetPending { pending, .. } => {
                    let _ = pending.remove(block_hash);
                },
                _ => {},
            }
        },
    }
}

/// Whether the intervals are strictly increasing by expected level.
/// Whether every slot holds its message.
pub fn slots_all_some(ops: &Vec<Option<OperationsForBlocksMessage>>) -> (r: bool)
    ensures
        r == slots_complete(ops@),
{
    let mut i: usize = 0;
    while i < ops.len()
        invariant
            i <= ops@.len(),
            forall|j: int| 0 <= j < i ==> (#[trigger] ops@[j]) is Some,
        decreases ops@.len() - i,
    {
        if ops[i].is_none() {
            return false;
        }
        i = i + 1;
    }
    true
}

/// Moves the first peer whose slots are all filled to its success record,
/// its messages unwrapped in slot order; without such a peer the tracker is
/// unchanged.
fn settle_complete_peer(tracker: &mut BootstrapBlockOperationGetState, meta: &ActionMeta)
    requires
        old(tracker).peers.wf(),
    ensures
        final(tracker).peers.wf(),
        final(tracker).validation_pass == old(tracker).validation_pass,
        final(tracker).block_level == old(tracker).block_level,
        final(tracker).operations_hash == old(tracker).operations_hash,
        (if exists|k: Seq<u8>|
            old(tracker).peers@.dom().contains(k) && ((#[trigger] old(tracker).peers@[k])
                matches PeerBlockOperationsGetState::Pending { operations, .. } && slots_complete(
                operations@,
            )) {
            exists|k: Seq<u8>|
                {
                    &&& #[trigger] old(tracker).peers@.dom().contains(k)
                    &&& old(tracker).peers@[k] matches PeerBlockOperationsGetState::Pending {
                        operations: slots,
                        ..
                    } && slots_complete(slots@) && {
                        &&& final(tracker).peers@ == old(tracker).peers@.insert(
                            k,
                            final(tracker).peers@[k],
                        )
                        &&& final(tracker).peers@[k]
                            matches PeerBlockOperationsGetState::Success {
                            time,
                            operations: done,
                        } && time == meta.time_ns && done@.len() == slots@.len() && (forall|i: int|
                            0 <= i < slots@.len() ==> (#[trigger] done@[i])@ == slots@[i]->Some_0@)
                    }
                }
        } else {
            final(tracker).peers@ == old(tracker).peers@
        }),
{
    proof {
        tracker.peers.lemma_finite_dom();
    }
    let keys = tracker.peers.keys();
    let ghost peers0 = tracker.peers@;
    proof {
        assert forall|k: Seq<u8>| peers0.dom().contains(k) implies exists|j: int|
            0 <= j < keys@.len() && #[trigger] keys@[j]@ == k by {
            crate::assoc::lemma_elements_complete(keys@, peers0.dom(), k);
        }
    }
    let mut i: usize = 0;
    while i < keys.len()
        invariant
            i <= keys@.len(),
            tracker.peers.wf(),
            tracker.peers@ == peers0,
            tracker.validation_pass == old(tracker).validation_pass,
            tracker.block_level == old(tracker).block_level,
            tracker.operations_hash == old(tracker).operations_hash,
            peers0 == old(tracker).peers@,
            forall|j: int| 0 <= j < keys@.len() ==> peers0.dom().contains(#[trigger] keys@[j]@),
            forall|j: int| 0 <= j < i ==> !((#[trigger] peers0[keys@[j]@])
                matches PeerBlockOperationsGetState::Pending { operations, .. }
                && slots_complete(operations@)),
        decreases keys@.len() - i,
    {
        let complete_here = match tracker.peers.get(&keys[i]) {
            Some(PeerBlockOperationsGetState::Pending { operations, .. }) => slots_all_some(
                operations,
            ),
            _ => false,
        };
        if complete_here {
            let taken = tracker.peers.remove(&keys[i]);
            match taken {
                Some(PeerBlockOperationsGetState::Pending { operations, .. }) => {
                    let mut done: Vec<OperationsForBlocksMessage> = Vec::new();
                    let mut j: usize = 0;
                    while j < operations.len()
                        invariant
                            j <= operations@.len(),
                            slots_complete(operations@),
                            done@.len() == j,
                            forall|x: int| 0 <= x < j ==> (#[trigger] done@[x])@
                                == operations@[x]->Some_0@,
                        decreases operations@.len() - j,
                    {
                        match &operations[j] {
                            Some(m) => {
                                done.push(m.duplicate());
                            },
                            None => {
                                proof {
                                    assert(false);
                                }
                            },
                        }
                        j = j + 1;
                    }
                    let ghost kk = keys@[i as int]@;
                    tracker.peers.insert(
                        crate::messages::copy_bytes(&keys[i]),
                        PeerBlockOperationsGetState::Success {
                            time: meta.time_ns,
                            operations: done,
                        },
                    );
                    proof {
                        assert(tracker.peers@ =~= peers0.insert(kk, tracker.peers@[kk]));
                    }
                    return;
                },
                _ => {
                    proof {
                        assert(false);
                    }
                },
            }
        }
        i = i + 1;
    }
    proof {
        assert forall|k: Seq<u8>|
            peers0.dom().contains(k) implies !((#[trigger] peers0[k])
            matches PeerBlockOperationsGetState::Pending { operations, .. } && slots_complete(
            operations@,
        )) by {
            let j = choose|j: int| 0 <= j < keys@.len() && #[trigger] keys@[j]@ == k;
        }
    }
}

/// Every window expects a level at or below the chain's agreed last level.
pub open spec fn bounded_by(ivs: Seq<PeerIntervalState>, last_level: i32) -> bool {
    forall|j: int| 0 <= j < ivs.len() ==> spec_interval_level(#[trigger] ivs[j]) <= last_level as int
}

pub fn check_bounded(ivs: &Vec<PeerIntervalState>, last_level: i32) -> (r: bool)
    ensures
        r == bounded_by(ivs@, last_level),
{
    let mut i: usize = 0;
    while i < ivs.len()
        invariant
            i <= ivs@.len(),
            forall|j: int| 0 <= j < i ==> spec_interval_level(#[trigger] ivs@[j])
                <= last_level as int,
        decreases ivs@.len() - i,
    {
        if interval_level(&ivs[i]) > last_level as i64 {
            return false;
        }
        i = i + 1;
    }
    true
}

pub fn check_sorted(ivs: &Vec<PeerIntervalState>) -> (r: bool)
    ensures
        r == strictly_ordered(ivs@),
{
    let n = ivs.len();
    if n == 0 {
        return true;
    }
    let mut i: usize = 0;
    while i + 1 < n
        invariant
            n == ivs@.len(),
            n > 0,
            i < n,
            forall|a: int, b: int| 0 <= a < b < ivs@.len() && b <= i ==> spec_interval_level(
                #[trigger] ivs@[a],
            ) < spec_interval_level(#[trigger] ivs@[b]),
        decreases ivs@.len() - i,
    {
        if interval_level(&ivs[i]) >= interval_level(&ivs[i + 1]) {
            return false;
        }
        proof {
            assert forall|a: int, b: int|
                0 <= a < b < ivs@.len() && b <= i + 1 implies spec_interval_level(
                #[trigger] ivs@[a],
            ) < spec_interval_level(#[trigger] ivs@[b]) by {
                if b == i + 1 {
                    assert(spec_interval_level(ivs@[a]) <= spec_interval_level(ivs@[i as int]));
                }
            }
        }
        i = i + 1;
    }
    true
}

fn copy_intervals(ivs: &Vec<PeerIntervalState>) -> (r: Vec<PeerIntervalState>)
    ensures
        r@.len() == ivs@.len(),
        forall|j: int| 0 <= j < ivs@.len() ==> eqv_interval(#[trigger] r@[j], ivs@[j]),
{
    let mut out: Vec<PeerIntervalState> = Vec::new();
    let mut i: usize = 0;
    while i < ivs.len()
        invariant
            i <= ivs@.len(),
            out@.len() == i,
            forall|j: int| 0 <= j < i ==> eqv_interval(#[trigger] out@[j], ivs@[j]),
        decreases ivs@.len() - i,
    {
        out.push(copy_interval(&ivs[i]));
        i = i + 1;
    }
    out
}

fn copy_interval(iv: &PeerIntervalState) -> (r: PeerIntervalState)
    ensures
        eqv_interval(r, *iv),
{
    PeerIntervalState {
        peer: iv.peer,
        downloaded: copy_downloads(&iv.downloaded),
        current: match &iv.current {
            Some((l, h)) => Some((*l, copy_bytes(h))),
            None => None,
        },
    }
}

fn copy_downloads(ds: &Vec<(i32, Vec<u8>, u8, Vec<u8>)>) -> (r: Vec<(i32, Vec<u8>, u8, Vec<u8>)>)
    ensures
        r@.len() == ds@.len(),
        forall|j: int| 0 <= j < ds@.len() ==> {
            let x = #[trigger] r@[j];
            let y = ds@[j];
            x.0 == y.0 && x.1@ == y.1@ && x.2 == y.2 && x.3@ == y.3@
        },
{
    let mut out: Vec<(i32, Vec<u8>, u8, Vec<u8>)> = Vec::new();
    let mut i: usize = 0;
    while i < ds.len()
        invariant
            i <= ds@.len(),
            out@.len() == i,
            forall|j: int| 0 <= j < i ==> {
                let x = #[trigger] out@[j];
                let y = ds@[j];
                x.0 == y.0 && x.1@ == y.1@ && x.2 == y.2 && x.3@ == y.3@
            },
        decreases ds@.len() - i,
    {
        let (l, h, v, o) = &ds[i];
        out.push((*l, copy_bytes(h), *v, copy_bytes(o)));
        i = i + 1;
    }
    out
}

/// Advances the window expecting this header, exactly as `header_step`
/// says: the download is recorded and the expectation moves one level down;
/// at a seam with the window below, a predecessor match closes the window
/// and a mismatch drops both windows and returns both peers for
/// graylisting. A header no window expects, or whose advance would collide
/// with another window, is tolerated and changes nothing.
fn apply_header(
    intervals: &mut Vec<PeerIntervalState>,
    peer: &PeerAddress,
    level: i32,
    block_hash: &Vec<u8>,
    predecessor: &Vec<u8>,
    validation_pass: u8,
    operations_hash: &Vec<u8>,
) -> (gray: Vec<PeerAddress>)
    ensures
        ivs_view(final(intervals)@) == header_step(
            ivs_view(old(intervals)@),
            *peer,
            level,
            block_hash@,
            predecessor@,
            validation_pass,
            operations_hash@,
        ).0,
        gray@ == header_step(
            ivs_view(old(intervals)@),
            *peer,
            level,
            block_hash@,
            predecessor@,
            validation_pass,
            operations_hash@,
        ).1,
        sorted_intervals(old(intervals)@) ==> sorted_intervals(final(intervals)@),
{
    let ghost ivs0 = ivs_view(intervals@);
    let n = intervals.len();
    let mut found: Option<usize> = None;
    let mut i: usize = 0;
    while i < n
        invariant
            i <= n,
            n == intervals@.len(),
            intervals@ == old(intervals)@,
            ivs0 == ivs_view(intervals@),
            match found {
                Some(fi) => fi < n && iv_matches(ivs0[fi as int], *peer, level, block_hash@) && (
                forall|j: int|
                    0 <= j < fi ==> !iv_matches(#[trigger] ivs0[j], *peer, level, block_hash@)),
                None => forall|j: int|
                    0 <= j < i ==> !iv_matches(#[trigger] ivs0[j], *peer, level, block_hash@),
            },
        decreases n - i,
    {
        if found.is_none() {
            let matches_here = match &intervals[i].current {
                Some((l, h)) => *l == level && intervals[i].peer == *peer && crate::wire::bytes_eq(
                    h,
                    block_hash,
                ),
                None => false,
            };
            proof {
                assert(ivs0[i as int] == iv_view(intervals@[i as int]));
            }
            if matches_here {
                found = Some(i);
            }
        }
        i = i + 1;
    }
    let fi = match found {
        Some(fi) => fi,
        None => {
            proof {
                lemma_match_index(ivs0, *peer, level, block_hash@, 0);
            }
            return Vec::new();
        },
    };
    proof {
        lemma_match_index(ivs0, *peer, level, block_hash@, fi as int);
        assert(match_index(ivs0, *peer, level, block_hash@) == Some(fi as int));
    }
    if level == i32::MIN {
        return Vec::new();
    }
    // The seam with the window below: its topmost downloaded header, or its
    // expectation.
    let mut seam: Option<(i64, bool)> = None;
    if fi > 0 {
        let below = &intervals[fi - 1];
        if below.downloaded.len() > 0 {
            seam = Some((below.downloaded[0].0 as i64, true));
        } else {
            match &below.current {
                Some((l2, _)) => {
                    seam = Some((*l2 as i64, false));
                },
                None => {},
            }
        }
        proof {
            assert(ivs0[fi as int - 1] == iv_view(intervals@[fi as int - 1]));
        }
    }
    if fi > 0 && seam.is_none() {
        proof {
            assert(seam_ref(ivs0[fi as int - 1]) is None);
        }
        return Vec::new();
    }
    let at_seam = match seam {
        Some((rl, _)) => rl + 1 == level as i64,
        None => false,
    };
    if at_seam {
        let seam_hash_matches = match seam {
            Some((_, true)) => crate::wire::bytes_eq(&intervals[fi - 1].downloaded[0].1, predecessor),
            _ => {
                match &intervals[fi - 1].current {
                    Some((_, h2)) => crate::wire::bytes_eq(h2, predecessor),
                    None => false,
                }
            },
        };
        proof {
            assert(ivs0[fi as int - 1] == iv_view(intervals@[fi as int - 1]));
            assert(seam_ref(ivs0[fi as int - 1]) matches Some((rl, _)) && rl + 1 == level as int);
        }
        if seam_hash_matches {
            let updated = grow_window(
                &intervals[fi],
                level,
                block_hash,
                predecessor,
                validation_pass,
                operations_hash,
                true,
            );
            let ghost upd = iv_view(updated);
            let ghost pre = intervals@;
            intervals.set(fi, updated);
            proof {
                assert(seam_ref(ivs0[fi as int - 1])->Some_0.1 == predecessor@);
                assert(ivs0[fi as int] == iv_view(pre[fi as int]));
                assert(ivs_view(intervals@) =~= ivs0.update(fi as int, upd));
                lemma_sorted_after_update(pre, intervals@, fi as int, level, true);
            }
            return Vec::new();
        }
        let ghost pre = intervals@;
        let removed_hi = intervals.remove(fi);
        let removed_lo = intervals.remove(fi - 1);
        let mut gray: Vec<PeerAddress> = Vec::new();
        gray.push(removed_hi.peer);
        gray.push(removed_lo.peer);
        proof {
            assert(seam_ref(ivs0[fi as int - 1])->Some_0.1 != predecessor@);
            assert(ivs0[fi as int] == iv_view(pre[fi as int]));
            assert(ivs_view(intervals@) =~= ivs0.remove(fi as int).remove(fi as int - 1));
            assert(gray@ =~= seq![ivs0[fi as int].peer, ivs0[fi as int - 1].peer]);
            if sorted_intervals(pre) {
                assert forall|a: int, b: int|
                    0 <= a < b < intervals@.len() && (#[trigger] intervals@[a]).current is Some
                        && (#[trigger] intervals@[b]).current is Some implies intervals@[
                    a
                ].current->Some_0.0 < intervals@[b].current->Some_0.0 by {
                    let a0 = if a < fi - 1 {
                        a
                    } else {
                        a + 2
                    };
                    let b0 = if b < fi - 1 {
                        b
                    } else {
                        b + 2
                    };
                    assert(intervals@[a] == pre[a0] && intervals@[b] == pre[b0]);
                }
            }
        }
        return gray;
    }
    // No seam: a plain advance, unless it would collide with another window
    // already expecting the next level.
    if scan_expects(intervals, level, fi) {
        return Vec::new();
    }
    let updated = grow_window(
        &intervals[fi],
        level,
        block_hash,
        predecessor,
        validation_pass,
        operations_hash,
        false,
    );
    let ghost upd = iv_view(updated);
    let ghost pre = intervals@;
    intervals.set(fi, updated);
    proof {
        assert(ivs0[fi as int] == iv_view(pre[fi as int]));
        assert(ivs_view(intervals@) =~= ivs0.update(fi as int, upd));
        lemma_sorted_after_update(pre, intervals@, fi as int, level, false);
    }
    Vec::new()
}

/// Whether a window other than `except` expects level `level - 1`.
fn scan_expects(intervals: &Vec<PeerIntervalState>, level: i32, except: usize) -> (r: bool)
    requires
        level > i32::MIN,
    ensures
        r == expects_elsewhere(ivs_view(intervals@), level - 1, except as int),
{
    let ghost ivs0 = ivs_view(intervals@);
    let mut j: usize = 0;
    while j < intervals.len()
        invariant
            j <= intervals@.len(),
            level > i32::MIN,
            ivs0 == ivs_view(intervals@),
            forall|k: int|
                0 <= k < j && k != except as int ==> !((#[trigger] ivs0[k]).current matches Some(
                    (l, _),
                ) && l == level - 1),
        decreases intervals@.len() - j,
    {
        proof {
            assert(ivs0[j as int] == iv_view(intervals@[j as int]));
        }
        if j != except {
            match &intervals[j].current {
                Some((l, _)) => {
                    if *l == level - 1 {
                        proof {
                            assert(expects_elsewhere(ivs0, level - 1, except as int));
                        }
                        return true;
                    }
                },
                None => {},
            }
        }
        j = j + 1;
    }
    false
}

/// Builds the grown window value of `advanced_window`.
fn grow_window(
    iv: &PeerIntervalState,
    level: i32,
    block_hash: &Vec<u8>,
    predecessor: &Vec<u8>,
    validation_pass: u8,
    operations_hash: &Vec<u8>,
    complete: bool,
) -> (r: PeerIntervalState)
    requires
        level > i32::MIN,
    ensures
        iv_view(r) == advanced_window(
            iv_view(*iv),
            level,
            block_hash@,
            predecessor@,
            validation_pass,
            operations_hash@,
            complete,
        ),
{
    let mut d = copy_downloads(&iv.downloaded);
    d.push((level, copy_bytes(block_hash), validation_pass, copy_bytes(operations_hash)));
    let r = PeerIntervalState {
        peer: iv.peer,
        downloaded: d,
        current: if complete {
            None
        } else {
            Some((level - 1, copy_bytes(predecessor)))
        },
    };
    proof {
        assert(dl_view(r.downloaded@) =~= iv_view(*iv).downloaded.push(
            (level, block_hash@, validation_pass, operations_hash@),
        ));
        assert(iv_view(r) =~= advanced_window(
            iv_view(*iv),
            level,
            block_hash@,
            predecessor@,
            validation_pass,
            operations_hash@,
            complete,
        ));
    }
    r
}

/// Assembles the chain, exactly as `drain_spec` says: while the topmost
/// window's first downloaded level is the next level the chain needs, its
/// downloads are pushed onto the chain front in order; completed windows are
/// removed, and a window still expecting keeps its place, drained.
fn drain_chain(
    chain: &mut VecDeque<BlockWithDownloadedHeader>,
    intervals: &mut Vec<PeerIntervalState>,
    last_level: i32,
)
    ensures
        chain_view(final(chain)@) == drain_spec(
            chain_view(old(chain)@),
            ivs_view(old(intervals)@),
            last_level as int,
        ).0,
        ivs_view(final(intervals)@) == drain_spec(
            chain_view(old(chain)@),
            ivs_view(old(intervals)@),
            last_level as int,
        ).1,
        sorted_intervals(old(intervals)@) ==> sorted_intervals(final(intervals)@),
{
    let ghost target = drain_spec(
        chain_view(old(chain)@),
        ivs_view(old(intervals)@),
        last_level as int,
    );
    loop
        invariant
            target == drain_spec(
                chain_view(old(chain)@),
                ivs_view(old(intervals)@),
                last_level as int,
            ),
            drain_spec(chain_view(chain@), ivs_view(intervals@), last_level as int) == target,
            sorted_intervals(old(intervals)@) ==> sorted_intervals(intervals@),
        decreases intervals@.len(),
    {
        let n = intervals.len();
        if n == 0 {
            proof {
                assert(drain_spec(chain_view(chain@), ivs_view(intervals@), last_level as int)
                    == (chain_view(chain@), ivs_view(intervals@)));
            }
            return;
        }
        let ghost pre_c = chain_view(chain@);
        let ghost pre_i = ivs_view(intervals@);
        let ghost prev_ivs = intervals@;
        let ready = {
            let top = &intervals[n - 1];
            if top.downloaded.len() == 0 {
                false
            } else {
                let next: i128 = last_level as i128 - chain.len() as i128;
                top.downloaded[0].0 as i128 == next
            }
        };
        proof {
            assert(pre_i[n - 1] == iv_view(intervals@[n - 1]));
            assert(pre_i.last() == iv_view(intervals@[n - 1]));
        }
        if !ready {
            proof {
                assert(drain_spec(pre_c, pre_i, last_level as int) == (pre_c, pre_i));
            }
            return;
        }
        let top = match intervals.pop() {
            Some(iv) => iv,
            None => {
                proof {
                    assert(false);
                }
                unreached()
            },
        };
        proof {
            assert(ivs_view(intervals@) =~= pre_i.drop_last());
        }
        let ghost top_v = iv_view(top);
        // Push the downloads onto the chain front, in order.
        let mut k: usize = 0;
        let m = top.downloaded.len();
        proof {
            assert(Seq::new(0nat, |i: int| blk(top_v, 0 - 1 - i)) + pre_c =~= pre_c);
        }
        while k < m
            invariant
                k <= m,
                m == top.downloaded@.len(),
                top_v == iv_view(top),
                chain_view(chain@) == Seq::new(k as nat, |i: int| blk(top_v, k as int - 1 - i))
                    + pre_c,
            decreases m - k,
        {
            let (_, h, vp, oh) = &top.downloaded[k];
            let nb = BlockWithDownloadedHeader {
                peer: top.peer,
                block_hash: copy_bytes(h),
                validation_pass: *vp,
                operations_hash: copy_bytes(oh),
            };
            proof {
                assert(block_v(nb) =~= blk(top_v, k as int));
            }
            let ghost nbv = block_v(nb);
            chain.push_front(nb);
            proof {
                assert(chain_view(chain@) =~= seq![nbv] + (Seq::new(
                    k as nat,
                    |i: int| blk(top_v, k as int - 1 - i),
                ) + pre_c));
                assert(chain_view(chain@) =~= Seq::new(
                    (k + 1) as nat,
                    |i: int| blk(top_v, k as int + 1 - 1 - i),
                ) + pre_c);
            }
            k = k + 1;
        }
        proof {
            assert(Seq::new(m as nat, |i: int| blk(top_v, m as int - 1 - i)) =~= rev_blocks_of(
                top_v,
            ));
            assert(chain_view(chain@) =~= rev_blocks_of(top_v) + pre_c);
        }
        let keep = match &top.current {
            Some((l, h)) => Some((*l, copy_bytes(h))),
            None => None,
        };
        match keep {
            Some(cur) => {
                let cleared = PeerIntervalState {
                    peer: top.peer,
                    downloaded: Vec::new(),
                    current: Some(cur),
                };
                proof {
                    assert(dl_view(cleared.downloaded@) =~= Seq::<(i32, Seq<u8>, u8, Seq<u8>)>::empty());
                    assert(iv_view(cleared).downloaded =~= Seq::<(i32, Seq<u8>, u8, Seq<u8>)>::empty());
                    assert(iv_view(cleared).current matches Some((l, hh)) && top_v.current
                        matches Some((l2, hh2)) && l == l2 && hh =~= hh2);
                    assert(iv_view(cleared) =~~= (IntervalV {
                        peer: top_v.peer,
                        downloaded: Seq::empty(),
                        current: top_v.current,
                    }));
                }
                let ghost cleared_v = cleared;
                intervals.push(cleared);
                proof {
                    assert(ivs_view(intervals@) =~= pre_i.drop_last().push(iv_view(cleared_v)));
                    assert(drain_spec(pre_c, pre_i, last_level as int) == (
                        chain_view(chain@),
                        ivs_view(intervals@),
                    ));
                    if sorted_intervals(prev_ivs) {
                        assert forall|a: int, b: int|
                            0 <= a < b < intervals@.len() && (
                            #[trigger] intervals@[a]).current is Some && (
                            #[trigger] intervals@[b]).current is Some implies intervals@[
                            a
                        ].current->Some_0.0 < intervals@[b].current->Some_0.0 by {
                            if b == intervals@.len() - 1 {
                                assert(intervals@[a] == prev_ivs[a]);
                                assert(intervals@[b].current->Some_0.0 == prev_ivs[prev_ivs.len()
                                    - 1].current->Some_0.0);
                                assert(prev_ivs[prev_ivs.len() - 1].current is Some);
                                assert(prev_ivs[a].current->Some_0.0 < prev_ivs[prev_ivs.len()
                                    - 1].current->Some_0.0);
                            } else {
                                assert(intervals@[a] == prev_ivs[a]);
                                assert(intervals@[b] == prev_ivs[b]);
                            }
                        }
                    }
                }
                return;
            },
            None => {
                proof {
                    assert(drain_spec(pre_c, pre_i, last_level as int) == drain_spec(
                        chain_view(chain@),
                        ivs_view(intervals@),
                        last_level as int,
                    ));
                }
            },
        }
    }
}

/// Updating one window to its advance keeps the order over expecting
/// windows: a closed window drops out of the order, and a moved expectation
/// stays between its neighbours because no other window expects that level.
proof fn lemma_sorted_after_update(
    pre: Seq<PeerIntervalState>,
    post: Seq<PeerIntervalState>,
    fi: int,
    level: i32,
    complete: bool,
)
    requires
        0 <= fi < pre.len(),
        post.len() == pre.len(),
        forall|j: int| 0 <= j < pre.len() && j != fi ==> #[trigger] post[j] == pre[j],
        pre[fi].current matches Some((l, _)) && l == level,
        level > i32::MIN,
        complete ==> post[fi].current is None,
        !complete ==> (post[fi].current matches Some((l, _)) && l == level - 1),
        !complete ==> !expects_elsewhere(ivs_view(pre), level - 1, fi),
    ensures
        sorted_intervals(pre) ==> sorted_intervals(post),
{
    if sorted_intervals(pre) {
        assert forall|a: int, b: int|
            0 <= a < b < post.len() && (#[trigger] post[a]).current is Some && (
            #[trigger] post[b]).current is Some implies post[a].current->Some_0.0 < post[
            b
        ].current->Some_0.0 by {
            if a == fi {
                assert(post[b] == pre[b]);
                assert(pre[a].current->Some_0.0 < pre[b].current->Some_0.0);
            } else if b == fi {
                assert(post[a] == pre[a]);
                assert(pre[a].current->Some_0.0 < pre[b].current->Some_0.0);
                if !complete {
                    assert(ivs_view(pre)[a] == iv_view(pre[a]));
                    assert(!((ivs_view(pre)[a]).current matches Some((l, _)) && l == level - 1));
                }
            } else {
                assert(post[a] == pre[a]);
                assert(post[b] == pre[b]);
            }
        }
    }
}


} // verus!
