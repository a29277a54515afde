//! The decisions the effect handlers make, as pure functions: what a protocol
//! verdict dispatches, what a peer message dispatches, what a broadcast sends
//! to one peer, and what an injection call answers. The surrounding I/O
//! performs these decisions and feeds the results back as actions.

use vstd::prelude::*;
use crate::assoc::KeySet;
use crate::mempool::{MempoolAction, OperationValidationResult, PeerAddress};
use crate::mempool::{Applied, Errored, ValidateResult};
use crate::messages::{copy_bytes, BlockHeader, CurrentHeadMessage, Mempool, PeerMessage, PeerMessageResponse};

verus! {

/// The action that applies one protocol-applied operation.
pub open spec fn is_applied_action(a: MempoolAction, src: Applied) -> bool {
    a matches MempoolAction::OperationApplied { applied } && applied.hash@ == src.hash@
        && applied.protocol_data_json@ == src.protocol_data_json@
}

/// The action that settles one turned-down operation under the verdict `v`.
pub open spec fn is_errored_action(
    a: MempoolAction,
    src: Errored,
    v: OperationValidationResult,
) -> bool {
    a matches MempoolAction::OperationErrored { errored, result } && errored.hash@ == src.hash@
        && errored.error_json@ == src.error_json@ && result == v
}

/// Expands a protocol verdict over a batch into one action per operation:
/// first the applied ones, then the refused, branch-refused and
/// branch-delayed ones, each in the protocol's order.
pub fn expand_validate_result(result: &ValidateResult) -> (r: Vec<MempoolAction>)
    ensures
        r@.len() == 1 + result.applied@.len() + result.refused@.len()
            + result.branch_refused@.len() + result.branch_delayed@.len(),
        (r@[0] matches MempoolAction::PrevalidatorReady(pv) && pv.chain_id@
            == result.prevalidator.chain_id@ && pv.predecessor@
            == result.prevalidator.predecessor@),
        forall|i: int| 0 <= i < result.applied@.len() ==> is_applied_action(
            #[trigger] r@[1 + i],
            result.applied@[i],
        ),
        forall|i: int| 0 <= i < result.refused@.len() ==> is_errored_action(
            #[trigger] r@[1 + result.applied@.len() + i],
            result.refused@[i],
            OperationValidationResult::Refused,
        ),
        forall|i: int| 0 <= i < result.branch_refused@.len() ==> is_errored_action(
            #[trigger] r@[1 + result.applied@.len() + result.refused@.len() + i],
            result.branch_refused@[i],
            OperationValidationResult::BranchRefused,
        ),
        forall|i: int| 0 <= i < result.branch_delayed@.len() ==> is_errored_action(
            #[trigger] r@[1 + result.applied@.len() + result.refused@.len()
                + result.branch_refused@.len() + i],
            result.branch_delayed@[i],
            OperationValidationResult::BranchDelayed,
        ),
{
    let mut out: Vec<MempoolAction> = Vec::new();
    out.push(MempoolAction::PrevalidatorReady(result.prevalidator.duplicate()));
    let mut i: usize = 0;
    while i < result.applied.len()
        invariant
            i <= result.applied@.len(),
            out@.len() == 1 + i,
            (out@[0] matches MempoolAction::PrevalidatorReady(pv) && pv.chain_id@
                == result.prevalidator.chain_id@ && pv.predecessor@
                == result.prevalidator.predecessor@),
            forall|j: int| 0 <= j < i ==> is_applied_action(
                #[trigger] out@[1 + j],
                result.applied@[j],
            ),
        decreases result.applied@.len() - i,
    {
        out.push(MempoolAction::OperationApplied { applied: result.applied[i].duplicate() });
        i = i + 1;
    }
    let base1 = out.len();
    let mut i2: usize = 0;
    while i2 < result.refused.len()
        invariant
            i2 <= result.refused@.len(),
            out@.len() == base1 + i2,
            base1 == 1 + result.applied@.len(),
            (out@[0] matches MempoolAction::PrevalidatorReady(pv) && pv.chain_id@
                == result.prevalidator.chain_id@ && pv.predecessor@
                == result.prevalidator.predecessor@),
            forall|j: int| 0 <= j < result.applied@.len() ==> is_applied_action(
                #[trigger] out@[1 + j],
                result.applied@[j],
            ),
            forall|j: int| 0 <= j < i2 ==> is_errored_action(
                #[trigger] out@[base1 + j],
                result.refused@[j],
                OperationValidationResult::Refused,
            ),
        decreases result.refused@.len() - i2,
    {
        out.push(
            MempoolAction::OperationErrored {
                errored: result.refused[i2].duplicate(),
                result: OperationValidationResult::Refused,
            },
        );
        i2 = i2 + 1;
    }
    let base2 = out.len();
    let mut i3: usize = 0;
    while i3 < result.branch_refused.len()
        invariant
            i3 <= result.branch_refused@.len(),
            out@.len() == base2 + i3,
            base1 == 1 + result.applied@.len(),
            (out@[0] matches MempoolAction::PrevalidatorReady(pv) && pv.chain_id@
                == result.prevalidator.chain_id@ && pv.predecessor@
                == result.prevalidator.predecessor@),
            base2 == base1 + result.refused@.len(),
            forall|j: int| 0 <= j < result.applied@.len() ==> is_applied_action(
                #[trigger] out@[1 + j],
                result.applied@[j],
            ),
            forall|j: int| 0 <= j < result.refused@.len() ==> is_errored_action(
                #[trigger] out@[base1 + j],
                result.refused@[j],
                OperationValidationResult::Refused,
            ),
            forall|j: int| 0 <= j < i3 ==> is_errored_action(
                #[trigger] out@[base2 + j],
                result.branch_refused@[j],
                OperationValidationResult::BranchRefused,
            ),
        decreases result.branch_refused@.len() - i3,
    {
        out.push(
            MempoolAction::OperationErrored {
                errored: result.branch_refused[i3].duplicate(),
                result: OperationValidationResult::BranchRefused,
            },
        );
        i3 = i3 + 1;
    }
    let base3 = out.len();
    let mut i4: usize = 0;
    while i4 < result.branch_delayed.len()
        invariant
            i4 <= result.branch_delayed@.len(),
            out@.len() == base3 + i4,
            base1 == 1 + result.applied@.len(),
            (out@[0] matches MempoolAction::PrevalidatorReady(pv) && pv.chain_id@
                == result.prevalidator.chain_id@ && pv.predecessor@
                == result.prevalidator.predecessor@),
            base2 == base1 + result.refused@.len(),
            base3 == base2 + result.branch_refused@.len(),
            forall|j: int| 0 <= j < result.applied@.len() ==> is_applied_action(
                #[trigger] out@[1 + j],
                result.applied@[j],
            ),
            forall|j: int| 0 <= j < result.refused@.len() ==> is_errored_action(
                #[trigger] out@[base1 + j],
                result.refused@[j],
                OperationValidationResult::Refused,
            ),
            forall|j: int| 0 <= j < result.branch_refused@.len() ==> is_errored_action(
                #[trigger] out@[base2 + j],
                result.branch_refused@[j],
                OperationValidationResult::BranchRefused,
            ),
            forall|j: int| 0 <= j < i4 ==> is_errored_action(
                #[trigger] out@[base3 + j],
                result.branch_delayed@[j],
                OperationValidationResult::BranchDelayed,
            ),
        decreases result.branch_delayed@.len() - i4,
    {
        out.push(
            MempoolAction::OperationErrored {
                errored: result.branch_delayed[i4].duplicate(),
                result: OperationValidationResult::BranchDelayed,
            },
        );
        i4 = i4 + 1;
    }
    out
}

/// The members of `hs` outside `seen`, in order.
pub open spec fn unseen_of(hs: Seq<Seq<u8>>, seen: Set<Seq<u8>>) -> Seq<Seq<u8>>
    decreases hs.len(),
{
    if hs.len() == 0 {
        Seq::empty()
    } else {
        let rest = unseen_of(hs.drop_last(), seen);
        if !seen.contains(hs.last()) {
            rest.push(hs.last())
        } else {
            rest
        }
    }
}

/// The hashes of `hashes` the peer has not seen yet, in order. Broadcasting
/// only these keeps the per-peer duplicate suppression monotone: a hash sent
/// once lands in the peer's seen set and is never offered to it again.
pub fn filter_unseen(hashes: &Vec<Vec<u8>>, seen: &KeySet) -> (r: Vec<Vec<u8>>)
    requires
        seen.wf(),
    ensures
        r.deep_view() == unseen_of(hashes.deep_view(), seen@),
{
    let mut out: Vec<Vec<u8>> = Vec::new();
    let mut i: usize = 0;
    proof {
        assert(hashes.deep_view().take(0) =~~= Seq::<Seq<u8>>::empty());
        assert(out.deep_view() =~~= unseen_of(hashes.deep_view().take(0), seen@));
    }
    while i < hashes.len()
        invariant
            i <= hashes@.len(),
            hashes.deep_view().len() == hashes@.len(),
            forall|j: int| 0 <= j < hashes@.len() ==> #[trigger] hashes.deep_view()[j]
                == hashes@[j]@,
            out.deep_view() == unseen_of(hashes.deep_view().take(i as int), seen@),
        decreases hashes@.len() - i,
    {
        let ghost old_deep = out.deep_view();
        let keep = !seen.contains(&hashes[i]);
        if keep {
            out.push(copy_bytes(&hashes[i]));
        }
        proof {
            let pre = hashes.deep_view().take(i as int);
            let cur = hashes.deep_view().take(i as int + 1);
            assert(cur.drop_last() =~~= pre);
            assert(cur.last() == hashes.deep_view()[i as int]);
            if keep {
                assert(out.deep_view() =~~= old_deep.push(hashes.deep_view()[i as int]));
                assert(out.deep_view() =~~= unseen_of(cur, seen@));
            } else {
                assert(out.deep_view() =~~= unseen_of(cur, seen@));
            }
        }
        i = i + 1;
    }
    proof {
        assert(hashes.deep_view().take(hashes@.len() as int) =~~= hashes.deep_view());
    }
    out
}

/// Expands a peer's mempool advertisement into the head bookkeeping action
/// followed by one hash-seen action per advertised hash, known-valid hashes
/// first, each carrying the head's timestamp.
pub fn expand_mempool_advertisement(
    address: &PeerAddress,
    mempool: &crate::messages::Mempool,
    block_hash: &Vec<u8>,
    level: i32,
    block_time: u64,
) -> (r: Vec<MempoolAction>)
    ensures
        r@.len() == 1 + mempool@.known_valid.len() + mempool@.pending.len(),
        (r@[0] matches MempoolAction::RecvDone { address: a, block_hash: b, level: l } && a
            == *address && b@ == block_hash@ && l == level),
        forall|i: int| 0 <= i < mempool@.known_valid.len() ==> ((#[trigger] r@[1 + i])
            matches MempoolAction::OperationHashSeen { address: a, hash: h, block_time: t } && a
            == *address && h@ == mempool@.known_valid[i] && t == block_time),
        forall|i: int| 0 <= i < mempool@.pending.len() ==> ((#[trigger] r@[
            1 + mempool@.known_valid.len() + i
        ]) matches MempoolAction::OperationHashSeen { address: a, hash: h, block_time: t } && a
            == *address && h@ == mempool@.pending[i] && t == block_time),
{
    let mut out: Vec<MempoolAction> = Vec::new();
    out.push(
        MempoolAction::RecvDone { address: *address, block_hash: copy_bytes(block_hash), level },
    );
    let kv = mempool.known_valid();
    let mut i: usize = 0;
    while i < kv.len()
        invariant
            i <= kv@.len(),
            kv.deep_view() == mempool@.known_valid,
            kv.deep_view().len() == kv@.len(),
            forall|j: int| 0 <= j < kv@.len() ==> #[trigger] kv.deep_view()[j] == kv@[j]@,
            out@.len() == 1 + i,
            (out@[0] matches MempoolAction::RecvDone { address: a, block_hash: b, level: l } && a
                == *address && b@ == block_hash@ && l == level),
            forall|j: int| 0 <= j < i ==> ((#[trigger] out@[1 + j])
                matches MempoolAction::OperationHashSeen { address: a, hash: h, block_time: t }
                && a == *address && h@ == mempool@.known_valid[j] && t == block_time),
        decreases kv@.len() - i,
    {
        out.push(
            MempoolAction::OperationHashSeen {
                address: *address,
                hash: copy_bytes(&kv[i]),
                block_time,
            },
        );
        i = i + 1;
    }
    let p = mempool.pending();
    let base = out.len();
    let mut i2: usize = 0;
    while i2 < p.len()
        invariant
            i2 <= p@.len(),
            p.deep_view() == mempool@.pending,
            p.deep_view().len() == p@.len(),
            forall|j: int| 0 <= j < p@.len() ==> #[trigger] p.deep_view()[j] == p@[j]@,
            base == 1 + mempool@.known_valid.len(),
            out@.len() == base + i2,
            (out@[0] matches MempoolAction::RecvDone { address: a, block_hash: b, level: l } && a
                == *address && b@ == block_hash@ && l == level),
            forall|j: int| 0 <= j < mempool@.known_valid.len() ==> ((#[trigger] out@[1 + j])
                matches MempoolAction::OperationHashSeen { address: a, hash: h, block_time: t }
                && a == *address && h@ == mempool@.known_valid[j] && t == block_time),
            forall|j: int| 0 <= j < i2 ==> ((#[trigger] out@[base + j])
                matches MempoolAction::OperationHashSeen { address: a, hash: h, block_time: t }
                && a == *address && h@ == mempool@.pending[j] && t == block_time),
        decreases p@.len() - i2,
    {
        out.push(
            MempoolAction::OperationHashSeen {
                address: *address,
                hash: copy_bytes(&p[i2]),
                block_time,
            },
        );
        i2 = i2 + 1;
    }
    out
}

/// What broadcasting the head to one peer sends and records: the head message
/// carrying only the hashes this peer has not seen, and one bookkeeping
/// action per sent hash, which marks exactly that hash as seen by the peer.
pub fn broadcast_plan(
    address: &PeerAddress,
    seen: &KeySet,
    chain_id: &Vec<u8>,
    head: &BlockHeader,
    known_valid: &Vec<Vec<u8>>,
    pending: &Vec<Vec<u8>>,
) -> (r: (CurrentHeadMessage, Vec<MempoolAction>))
    requires
        seen.wf(),
    ensures
        r.0@.chain_id == chain_id@,
        r.0@.current_block_header == head@,
        r.0@.current_mempool.known_valid == unseen_of(known_valid.deep_view(), seen@),
        r.0@.current_mempool.pending == unseen_of(pending.deep_view(), seen@),
        r.1@.len() == unseen_of(known_valid.deep_view(), seen@).len() + unseen_of(
            pending.deep_view(),
            seen@,
        ).len(),
        forall|i: int| 0 <= i < unseen_of(known_valid.deep_view(), seen@).len() ==> ((
        #[trigger] r.1@[i]) matches MempoolAction::BroadcastDone { address: a, hash: h } && a
            == *address && h@ == unseen_of(known_valid.deep_view(), seen@)[i]),
        forall|i: int| 0 <= i < unseen_of(pending.deep_view(), seen@).len() ==> ((#[trigger] r.1@[
            unseen_of(known_valid.deep_view(), seen@).len() + i
        ]) matches MempoolAction::BroadcastDone { address: a, hash: h } && a == *address && h@
            == unseen_of(pending.deep_view(), seen@)[i]),
{
    let kv = filter_unseen(known_valid, seen);
    let p = filter_unseen(pending, seen);
    let mut done: Vec<MempoolAction> = Vec::new();
    let mut i: usize = 0;
    while i < kv.len()
        invariant
            i <= kv@.len(),
            kv.deep_view() == unseen_of(known_valid.deep_view(), seen@),
            kv.deep_view().len() == kv@.len(),
            forall|j: int| 0 <= j < kv@.len() ==> #[trigger] kv.deep_view()[j] == kv@[j]@,
            done@.len() == i,
            forall|j: int| 0 <= j < i ==> ((#[trigger] done@[j])
                matches MempoolAction::BroadcastDone { address: a, hash: h } && a == *address
                && h@ == kv.deep_view()[j]),
        decreases kv@.len() - i,
    {
        done.push(MempoolAction::BroadcastDone { address: *address, hash: copy_bytes(&kv[i]) });
        i = i + 1;
    }
    let base = done.len();
    let mut i2: usize = 0;
    while i2 < p.len()
        invariant
            i2 <= p@.len(),
            kv.deep_view() == unseen_of(known_valid.deep_view(), seen@),
            p.deep_view() == unseen_of(pending.deep_view(), seen@),
            p.deep_view().len() == p@.len(),
            forall|j: int| 0 <= j < p@.len() ==> #[trigger] p.deep_view()[j] == p@[j]@,
            base == kv.deep_view().len(),
            done@.len() == base + i2,
            forall|j: int| 0 <= j < base ==> ((#[trigger] done@[j])
                matches MempoolAction::BroadcastDone { address: a, hash: h } && a == *address
                && h@ == kv.deep_view()[j]),
            forall|j: int| 0 <= j < i2 ==> ((#[trigger] done@[base + j])
                matches MempoolAction::BroadcastDone { address: a, hash: h } && a == *address
                && h@ == p.deep_view()[j]),
        decreases p@.len() - i2,
    {
        done.push(MempoolAction::BroadcastDone { address: *address, hash: copy_bytes(&p[i2]) });
        i2 = i2 + 1;
    }
    let message = CurrentHeadMessage::new(copy_bytes(chain_id), head.duplicate(), Mempool::new(kv, p));
    (message, done)
}

/// What an injection call is answered with.
pub enum RpcReply {
    /// The canonical empty reply.
    Null,
    /// An error message.
    Message(&'static str),
}

/// The reply to an operation injection: the empty reply once a local head
/// exists, otherwise the error naming the missing head, with no broadcast.
pub fn inject_reply(head_ready: bool) -> (r: (RpcReply, bool))
    ensures
        head_ready ==> r.0 is Null && r.1,
        !head_ready ==> ((r.0 matches RpcReply::Message(m) && m@ == "head is not ready"@) && !r.1),
{
    if head_ready {
        (RpcReply::Null, true)
    } else {
        (RpcReply::Message("head is not ready"), false)
    }
}

/// Reads one framed run of messages from a peer. Bytes that do not decode as
/// exactly one whole response graylist their sender, as every decode failure
/// does.
pub fn decode_or_graylist(data: &Vec<u8>, address: &PeerAddress) -> (r: Result<
    PeerMessageResponse,
    ReaderDecision,
>)
    ensures
        (r matches Ok(resp) ==> (crate::codec::dec_response(data@) matches Some((ms, n)) && resp@
            == ms && n == data@.len())),
        (r matches Err(d) ==> !(crate::codec::dec_response(data@) matches Some((ms, n)) && n
            == data@.len()) && (d matches ReaderDecision::GraylistPeer { address: a } && a
            == *address)),
{
    match PeerMessageResponse::from_bytes(data) {
        Some(resp) => Ok(resp),
        None => Err(ReaderDecision::GraylistPeer { address: *address }),
    }
}

/// A peer closing its connection is graylisted; the reader decides nothing
/// else there.
pub fn peer_connection_closed_effects(address: &PeerAddress) -> (r: ReaderDecision)
    ensures
        (r matches ReaderDecision::GraylistPeer { address: a } && a == *address),
{
    ReaderDecision::GraylistPeer { address: *address }
}

/// What the reader does with one decoded peer message.
pub enum ReaderDecision {
    /// Nothing to do.
    Ignore,
    /// The message names another chain: drop it silently.
    DropOtherChain,
    /// Answer a bootstrap request with our known peers.
    RespondAdvertise,
    /// Take the advertised addresses into the potential-peer pool.
    AddAdvertisedPeers,
    /// Hand the peer's current head to the mempool.
    MempoolHead { level: i32 },
    /// Hand the peer's branch to bootstrap.
    BootstrapBranch { level: i32 },
    /// Enqueue the peer's header request, bounded by backpressure.
    EnqueueHeaderRequests { count: usize },
    /// Enqueue the peer's operations request, bounded by backpressure.
    EnqueueOperationsRequests { count: usize },
    /// Hand a downloaded header to bootstrap.
    BootstrapHeader { level: i32 },
    /// Hand downloaded operations to bootstrap.
    BootstrapOperations { validation_pass: i8 },
    /// Hand one operation's content to the mempool.
    MempoolOperation,
    /// Serve the requested operations from the mempool pools.
    ServeOperations { count: usize },
    /// Graylist the peer.
    GraylistPeer { address: PeerAddress },
}

/// Decides what one decoded message leads to, enforcing chain-id equality for
/// the chain-scoped messages; messages for other chains are dropped silently.
pub fn read_message_decision(msg: &PeerMessage, our_chain_id: &Vec<u8>) -> (r: ReaderDecision)
    ensures
        match *msg {
            PeerMessage::Bootstrap => r is RespondAdvertise,
            PeerMessage::Advertise(_) => r is AddAdvertisedPeers,
            PeerMessage::CurrentHead(ref m) => {
                if m@.chain_id == our_chain_id@ {
                    (r matches ReaderDecision::MempoolHead { level } && level
                        == m@.current_block_header.level)
                } else {
                    r is DropOtherChain
                }
            },
            PeerMessage::CurrentBranch(ref m) => {
                if m@.chain_id == our_chain_id@ {
                    (r matches ReaderDecision::BootstrapBranch { level } && level
                        == m@.current_head.level)
                } else {
                    r is DropOtherChain
                }
            },
            PeerMessage::GetCurrentBranch(ref m) => {
                if m@ == our_chain_id@ {
                    r is Ignore
                } else {
                    r is DropOtherChain
                }
            },
            PeerMessage::GetBlockHeaders(ref m) => (r
                matches ReaderDecision::EnqueueHeaderRequests { count } && count == m@.len()),
            PeerMessage::GetOperationsForBlocks(ref m) => (r
                matches ReaderDecision::EnqueueOperationsRequests { count } && count == m@.len()),
            PeerMessage::BlockHeader(ref m) => (r matches ReaderDecision::BootstrapHeader { level }
                && level == m@.level),
            PeerMessage::OperationsForBlocks(ref m) => (r
                matches ReaderDecision::BootstrapOperations { validation_pass } && validation_pass
                == m@.operations_for_block.validation_pass),
            PeerMessage::Operation(_) => r is MempoolOperation,
            PeerMessage::GetOperations(ref m) => (r matches ReaderDecision::ServeOperations { count }
                && count == m@.len()),
            _ => r is Ignore,
        },
{
    match msg {
        PeerMessage::Bootstrap => ReaderDecision::RespondAdvertise,
        PeerMessage::Advertise(_) => ReaderDecision::AddAdvertisedPeers,
        PeerMessage::CurrentHead(m) => {
            if crate::wire::bytes_eq(m.chain_id(), our_chain_id) {
                ReaderDecision::MempoolHead { level: m.current_block_header().level() }
            } else {
                ReaderDecision::DropOtherChain
            }
        },
        PeerMessage::CurrentBranch(m) => {
            if crate::wire::bytes_eq(m.chain_id(), our_chain_id) {
                ReaderDecision::BootstrapBranch { level: m.current_head().level() }
            } else {
                ReaderDecision::DropOtherChain
            }
        },
        PeerMessage::GetCurrentBranch(m) => {
            if crate::wire::bytes_eq(m.chain_id(), our_chain_id) {
                ReaderDecision::Ignore
            } else {
                ReaderDecision::DropOtherChain
            }
        },
        PeerMessage::GetBlockHeaders(m) => ReaderDecision::EnqueueHeaderRequests {
            count: m.get_block_headers().len(),
        },
        PeerMessage::GetOperationsForBlocks(m) => ReaderDecision::EnqueueOperationsRequests {
            count: m.get_operations_for_blocks().len(),
        },
        PeerMessage::BlockHeader(m) => ReaderDecision::BootstrapHeader {
            level: m.block_header().level(),
        },
        PeerMessage::OperationsForBlocks(m) => ReaderDecision::BootstrapOperations {
            validation_pass: m.operations_for_block().validation_pass(),
        },
        PeerMessage::Operation(_) => ReaderDecision::MempoolOperation,
        PeerMessage::GetOperations(m) => ReaderDecision::ServeOperations {
            count: m.get_operations().len(),
        },
        _ => ReaderDecision::Ignore,
    }
}

} // verus!
