//! The mempool: pending and validated operations, per-peer knowledge, the
//! local head, and the reducer that applies mempool actions to this state.

use vstd::prelude::*;
use crate::assoc::{KeyMap, KeySet};
use crate::codec::HASH_SIZE;
use crate::hash::{blake2b_digest, block_header_hash};
use crate::messages::{BlockHeader, Mempool, Operation};
use crate::wire::{be_u16, be_u32};

verus! {

/// A peer's network address, as plain values.
#[derive(Clone, Copy, PartialEq, Eq, Structural, Debug)]
pub struct PeerAddress {
    pub ip: u32,
    pub port: u16,
}

/// The bytes that key a peer in per-peer tables.
pub open spec fn addr_key(a: PeerAddress) -> Seq<u8> {
    be_u32(a.ip) + be_u16(a.port)
}

impl PeerAddress {
    pub fn new(ip: u32, port: u16) -> (r: PeerAddress)
        ensures
            r == (PeerAddress { ip, port }),
    {
        PeerAddress { ip, port }
    }

    pub fn key_bytes(&self) -> (r: Vec<u8>)
        ensures
            r@ == addr_key(*self),
    {
        let mut out: Vec<u8> = Vec::new();
        crate::wire::put_u32_be(&mut out, self.ip);
        crate::wire::put_u16_be(&mut out, self.port);
        proof {
            assert(out@ =~= addr_key(*self));
        }
        out
    }
}

/// Two addresses with the same key bytes are the same address.
pub proof fn lemma_addr_key_injective(a: PeerAddress, b: PeerAddress)
    ensures
        addr_key(a) == addr_key(b) ==> a == b,
{
    if addr_key(a) == addr_key(b) {
        crate::wire::lemma_be_u32_round(a.ip);
        crate::wire::lemma_be_u32_round(b.ip);
        crate::wire::lemma_be_u16_round(a.port);
        crate::wire::lemma_be_u16_round(b.port);
        assert(addr_key(a)[0] == addr_key(b)[0] && addr_key(a)[1] == addr_key(b)[1] && addr_key(a)[2] == addr_key(b)[2] && addr_key(a)[3] == addr_key(b)[3] && addr_key(a)[4] == addr_key(b)[4] && addr_key(a)[5] == addr_key(b)[5]);
    }
}

/// A correlation id for a pending remote procedure call.
pub type RpcId = u64;

/// The handle the protocol runner returns once a prevalidator is built for a
/// predecessor block.
pub struct PrevalidatorWrapper {
    pub chain_id: Vec<u8>,
    pub predecessor: Vec<u8>,
}

impl PrevalidatorWrapper {
    pub fn duplicate(&self) -> (r: PrevalidatorWrapper)
        ensures
            r.chain_id@ == self.chain_id@ && r.predecessor@ == self.predecessor@,
    {
        PrevalidatorWrapper {
            chain_id: crate::messages::copy_bytes(&self.chain_id),
            predecessor: crate::messages::copy_bytes(&self.predecessor),
        }
    }
}

/// One operation the protocol classified as applicable.
pub struct Applied {
    pub hash: Vec<u8>,
    pub protocol_data_json: String,
}

impl Applied {
    pub fn duplicate(&self) -> (r: Applied)
        ensures
            r.hash@ == self.hash@,
            r.protocol_data_json@ == self.protocol_data_json@,
    {
        Applied {
            hash: crate::messages::copy_bytes(&self.hash),
            protocol_data_json: self.protocol_data_json.clone(),
        }
    }
}

/// One operation the protocol turned down, with the error it reported.
pub struct Errored {
    pub hash: Vec<u8>,
    pub error_json: String,
}

impl Errored {
    pub fn duplicate(&self) -> (r: Errored)
        ensures
            r.hash@ == self.hash@,
            r.error_json@ == self.error_json@,
    {
        Errored {
            hash: crate::messages::copy_bytes(&self.hash),
            error_json: self.error_json.clone(),
        }
    }
}

/// The protocol runner's verdict over a batch of operations.
pub struct ValidateResult {
    pub prevalidator: PrevalidatorWrapper,
    pub applied: Vec<Applied>,
    pub refused: Vec<Errored>,
    pub branch_refused: Vec<Errored>,
    pub branch_delayed: Vec<Errored>,
}

/// The locally applied head.
pub struct HeadState {
    pub chain_id: Vec<u8>,
    pub header: BlockHeader,
    pub hash: Vec<u8>,
    pub ops_removed: bool,
    pub prevalidator_ready: bool,
}

impl HeadState {
    /// Builds the head record for an applied block, hashing its header.
    /// Fails exactly when the header's fitness cannot be framed.
    pub fn new(chain_id: Vec<u8>, header: BlockHeader) -> (r: Option<HeadState>)
        ensures
            r matches Some(h) ==> h.chain_id@ == chain_id@ && h.header@ == header@ && h.hash@
                == blake2b_digest(crate::codec::enc_header(header@)) && !h.ops_removed
                && !h.prevalidator_ready,
            r is Some <==> crate::codec::wf_fitness(header@.fitness) && crate::codec::wf_dyn(
                crate::codec::enc_fitness(header@.fitness),
            ),
    {
        match block_header_hash(&header) {
            Some(hash) => Some(
                HeadState { chain_id, header, hash, ops_removed: false, prevalidator_ready: false },
            ),
            None => None,
        }
    }
}

/// A baker's subscription to classified-operation updates.
pub struct OperationStream {
    pub rpc_id: RpcId,
    pub applied: bool,
    pub refused: bool,
    pub branch_delayed: bool,
    pub branch_refused: bool,
}

/// Operations that went through the protocol or the prechecker, by verdict.
pub struct ValidatedOperations {
    /// Applied, branch-refused and branch-delayed operations by hash.
    pub ops: KeyMap<Operation>,
    /// Refused operations by hash.
    pub refused_ops: KeyMap<Operation>,
    pub applied: Vec<Applied>,
    pub branch_delayed: Vec<Errored>,
    pub branch_refused: Vec<Errored>,
    pub refused: Vec<Errored>,
}

impl ValidatedOperations {
    pub open spec fn wf(&self) -> bool {
        self.ops.wf() && self.refused_ops.wf()
    }

    pub fn new() -> (r: ValidatedOperations)
        ensures
            r.wf(),
            r.ops@ == Map::<Seq<u8>, Operation>::empty(),
            r.refused_ops@ == Map::<Seq<u8>, Operation>::empty(),
            r.applied@.len() == 0 && r.branch_delayed@.len() == 0 && r.branch_refused@.len() == 0
                && r.refused@.len() == 0,
    {
        ValidatedOperations {
            ops: KeyMap::new(),
            refused_ops: KeyMap::new(),
            applied: Vec::new(),
            branch_delayed: Vec::new(),
            branch_refused: Vec::new(),
            refused: Vec::new(),
        }
    }
}

/// What the mempool knows about one peer.
pub struct PeerState {
    /// Hashes this peer advertised that we are about to request.
    pub requesting_full_content: KeySet,
    /// Hashes we asked this peer for and still await.
    pub pending_full_content: KeySet,
    /// Hashes this peer is known to have seen; never rebroadcast to it.
    pub seen_operations: KeySet,
}

impl PeerState {
    pub open spec fn wf(&self) -> bool {
        self.requesting_full_content.wf() && self.pending_full_content.wf()
            && self.seen_operations.wf()
    }

    pub fn new() -> (r: PeerState)
        ensures
            r.wf(),
            r.requesting_full_content@ == Set::<Seq<u8>>::empty(),
            r.pending_full_content@ == Set::<Seq<u8>>::empty(),
            r.seen_operations@ == Set::<Seq<u8>>::empty(),
    {
        PeerState {
            requesting_full_content: KeySet::new(),
            pending_full_content: KeySet::new(),
            seen_operations: KeySet::new(),
        }
    }
}

/// The verdict recorded for an operation.
#[derive(Clone, Copy, PartialEq, Eq, Structural, Debug)]
pub enum OperationValidationResult {
    Applied,
    Refused,
    BranchRefused,
    BranchDelayed,
}

/// Where an operation stands in its lifecycle.
#[derive(Clone, Copy, PartialEq, Eq, Structural, Debug)]
pub enum OperationState {
    ReceivedHash,
    ReceivedContents,
    Decoded,
    Prechecked,
    Applied,
    PrecheckRefused,
    Refused,
    BranchRefused,
    BranchDelayed,
}

impl OperationState {
    /// The name under which this state's transition time is recorded.
    pub fn time_name(&self) -> (r: &'static str)
        ensures
            r@ == time_name_of(*self),
    {
        match self {
            OperationState::ReceivedHash => "received_hash_time",
            OperationState::ReceivedContents => "received_contents_time",
            OperationState::Decoded => "decoded_time",
            OperationState::Prechecked => "prechecked_time",
            OperationState::Applied => "applied_time",
            OperationState::PrecheckRefused => "precheck_refused_time",
            OperationState::Refused => "refused_time",
            OperationState::BranchRefused => "branch_refused_time",
            OperationState::BranchDelayed => "branch_delayed_time",
        }
    }
}

pub open spec fn time_name_of(s: OperationState) -> Seq<char> {
    match s {
        OperationState::ReceivedHash => "received_hash_time"@,
        OperationState::ReceivedContents => "received_contents_time"@,
        OperationState::Decoded => "decoded_time"@,
        OperationState::Prechecked => "prechecked_time"@,
        OperationState::Applied => "applied_time"@,
        OperationState::PrecheckRefused => "precheck_refused_time"@,
        OperationState::Refused => "refused_time"@,
        OperationState::BranchRefused => "branch_refused_time"@,
        OperationState::BranchDelayed => "branch_delayed_time"@,
    }
}

/// The audit record of one operation: its lifecycle state and the time of
/// every transition, relative to the block timestamp.
pub struct MempoolOperation {
    pub block_timestamp: u64,
    pub state: OperationState,
    pub broadcast: bool,
    pub protocol_data: Option<String>,
    pub times: Vec<(String, u64)>,
}

/// The clock attached to every action: a monotonic nanosecond timestamp and
/// a monotonically increasing action id.
#[derive(Clone, Copy, PartialEq, Eq, Structural, Debug)]
pub struct ActionMeta {
    pub id: u64,
    pub time_ns: u64,
}

impl MempoolOperation {
    /// The record of a hash first heard of under head timestamp
    /// `block_timestamp` (seconds; stored in nanoseconds).
    pub fn received(block_timestamp: u64, meta: &ActionMeta) -> (r: MempoolOperation)
        requires
            block_timestamp <= 18_446_744_073,
        ensures
            r.block_timestamp == block_timestamp * 1_000_000_000,
            r.state == OperationState::ReceivedHash,
            !r.broadcast,
            r.protocol_data is None,
            r.times@.len() == 1,
            r.times@[0].0@ == time_name_of(OperationState::ReceivedHash),
            r.times@[0].1 == sub_or_zero(meta.time_ns, block_timestamp * 1_000_000_000),
    {
        let bt = block_timestamp * 1_000_000_000;
        let mut times: Vec<(String, u64)> = Vec::new();
        let name = OperationState::ReceivedHash.time_name();
        times.push((name.to_owned(), saturating_sub(meta.time_ns, bt)));
        MempoolOperation {
            block_timestamp: bt,
            state: OperationState::ReceivedHash,
            broadcast: false,
            protocol_data: None,
            times,
        }
    }

    /// The same record advanced to `Decoded`, remembering the decoded
    /// protocol data.
    pub fn decoded(&self, protocol_data: &String, meta: &ActionMeta) -> (r: MempoolOperation)
        ensures
            r.block_timestamp == self.block_timestamp,
            r.state == OperationState::Decoded,
            r.broadcast == self.broadcast,
            r.protocol_data matches Some(p) && p@ == protocol_data@,
            r.times@ == self.times@.push(
                (r.times@.last().0, sub_or_zero(meta.time_ns, self.block_timestamp as int)),
            ),
            r.times@.last().0@ == time_name_of(OperationState::Decoded),
    {
        self.advanced(OperationState::Decoded, Some(protocol_data.clone()), meta)
    }

    /// The same record advanced to `state`.
    pub fn next_state(&self, state: OperationState, meta: &ActionMeta) -> (r: MempoolOperation)
        ensures
            r.block_timestamp == self.block_timestamp,
            r.state == state,
            r.broadcast == self.broadcast,
            r.protocol_data == self.protocol_data,
            r.times@ == self.times@.push(
                (r.times@.last().0, sub_or_zero(meta.time_ns, self.block_timestamp as int)),
            ),
            r.times@.last().0@ == time_name_of(state),
    {
        let pd = match &self.protocol_data {
            Some(p) => Some(p.clone()),
            None => None,
        };
        self.advanced(state, pd, meta)
    }

    fn advanced(&self, state: OperationState, protocol_data: Option<String>, meta: &ActionMeta) -> (r:
        MempoolOperation)
        ensures
            r.block_timestamp == self.block_timestamp,
            r.state == state,
            r.broadcast == self.broadcast,
            r.protocol_data == protocol_data,
            r.times@ == self.times@.push(
                (r.times@.last().0, sub_or_zero(meta.time_ns, self.block_timestamp as int)),
            ),
            r.times@.last().0@ == time_name_of(state),
    {
        let mut times = copy_times(&self.times);
        times.push((state.time_name().to_owned(), saturating_sub(meta.time_ns, self.block_timestamp)));
        let r = MempoolOperation {
            block_timestamp: self.block_timestamp,
            state,
            broadcast: self.broadcast,
            protocol_data,
            times,
        };
        proof {
            assert(r.times@ =~= self.times@.push(
                (r.times@.last().0, sub_or_zero(meta.time_ns, self.block_timestamp as int)),
            ));
        }
        r
    }

    /// The same record marked broadcast; the first broadcast stamps a time.
    pub fn broadcast(&self, meta: &ActionMeta) -> (r: MempoolOperation)
        ensures
            r.block_timestamp == self.block_timestamp,
            r.state == self.state,
            r.broadcast,
            r.protocol_data == self.protocol_data,
            !self.broadcast ==> r.times@ == self.times@.push(
                (r.times@.last().0, sub_or_zero(meta.time_ns, self.block_timestamp as int)),
            ) && r.times@.last().0@ == "broadcast_time"@,
            self.broadcast ==> r.times@ == self.times@,
    {
        let mut times = copy_times(&self.times);
        if !self.broadcast {
            times.push(("broadcast_time".to_owned(), saturating_sub(
                meta.time_ns,
                self.block_timestamp,
            )));
        }
        let pd = match &self.protocol_data {
            Some(p) => Some(p.clone()),
            None => None,
        };
        let r = MempoolOperation {
            block_timestamp: self.block_timestamp,
            state: self.state,
            broadcast: true,
            protocol_data: pd,
            times,
        };
        proof {
            if !self.broadcast {
                assert(r.times@ =~= self.times@.push(
                    (r.times@.last().0, sub_or_zero(meta.time_ns, self.block_timestamp as int)),
                ));
            } else {
                assert(r.times@ =~= self.times@);
            }
        }
        r
    }
}

/// `a - b`, or zero when `b` exceeds `a`.
pub open spec fn sub_or_zero(a: u64, b: int) -> u64 {
    if a >= b {
        (a - b) as u64
    } else {
        0
    }
}

fn saturating_sub(a: u64, b: u64) -> (r: u64)
    ensures
        r == sub_or_zero(a, b as int),
{
    if a >= b {
        a - b
    } else {
        0
    }
}

fn copy_times(times: &Vec<(String, u64)>) -> (r: Vec<(String, u64)>)
    ensures
        r@.len() == times@.len(),
        forall|i: int| 0 <= i < times@.len() ==> #[trigger] r@[i] == times@[i],
{
    let mut out: Vec<(String, u64)> = Vec::new();
    let mut i: usize = 0;
    while i < times.len()
        invariant
            i <= times@.len(),
            out@.len() == i,
            forall|j: int| 0 <= j < i ==> #[trigger] out@[j] == times@[j],
        decreases times@.len() - i,
    {
        let name = times[i].0.clone();
        let t = times[i].1;
        proof {
            assert(name == times@[i as int].0);
        }
        out.push((name, t));
        i = i + 1;
    }
    out
}

/// What kind of protocol operation a payload carries, read off its tag byte.
#[derive(Clone, Copy, PartialEq, Eq, Structural, Debug)]
pub enum OperationKind {
    Endorsement,
    SeedNonceRevelation,
    DoubleEndorsement,
    DoubleBaking,
    Activation,
    Proposals,
    Ballot,
    EndorsementWithSlot,
    FailingNoop,
    Reveal,
    Transaction,
    Origination,
    Delegation,
    RegisterConstant,
    Unknown,
}

pub open spec fn kind_of_tag(tag: u8) -> OperationKind {
    if tag == 0 {
        OperationKind::Endorsement
    } else if tag == 1 {
        OperationKind::SeedNonceRevelation
    } else if tag == 2 {
        OperationKind::DoubleEndorsement
    } else if tag == 3 {
        OperationKind::DoubleBaking
    } else if tag == 4 {
        OperationKind::Activation
    } else if tag == 5 {
        OperationKind::Proposals
    } else if tag == 6 {
        OperationKind::Ballot
    } else if tag == 10 {
        OperationKind::EndorsementWithSlot
    } else if tag == 17 {
        OperationKind::FailingNoop
    } else if tag == 107 {
        OperationKind::Reveal
    } else if tag == 108 {
        OperationKind::Transaction
    } else if tag == 109 {
        OperationKind::Origination
    } else if tag == 110 {
        OperationKind::Delegation
    } else if tag == 111 {
        OperationKind::RegisterConstant
    } else {
        OperationKind::Unknown
    }
}

impl OperationKind {
    pub fn from_tag(tag: u8) -> (r: OperationKind)
        ensures
            r == kind_of_tag(tag),
    {
        match tag {
            0 => OperationKind::Endorsement,
            1 => OperationKind::SeedNonceRevelation,
            2 => OperationKind::DoubleEndorsement,
            3 => OperationKind::DoubleBaking,
            4 => OperationKind::Activation,
            5 => OperationKind::Proposals,
            6 => OperationKind::Ballot,
            10 => OperationKind::EndorsementWithSlot,
            17 => OperationKind::FailingNoop,
            107 => OperationKind::Reveal,
            108 => OperationKind::Transaction,
            109 => OperationKind::Origination,
            110 => OperationKind::Delegation,
            111 => OperationKind::RegisterConstant,
            _ => OperationKind::Unknown,
        }
    }

    /// The kind named by the first byte of an operation's protocol payload;
    /// unknown when the payload is empty.
    pub fn from_operation_content_raw(bytes: &Vec<u8>) -> (r: OperationKind)
        ensures
            bytes@.len() == 0 ==> r == OperationKind::Unknown,
            bytes@.len() > 0 ==> r == kind_of_tag(bytes@[0]),
    {
        if bytes.len() == 0 {
            OperationKind::Unknown
        } else {
            OperationKind::from_tag(bytes[0])
        }
    }
}

/// Per-node observations of one operation.
pub struct OperationNodeStats {
    pub received: Vec<OperationNodeCurrentHeadStats>,
    pub sent: Vec<OperationNodeCurrentHeadStats>,
    /// Times at which we requested the content from the peer.
    pub content_requested: Vec<u64>,
    /// Times at which the peer sent us the content.
    pub content_received: Vec<u64>,
    /// Times at which the peer requested the content from us.
    pub content_requested_remote: Vec<u64>,
    /// Times at which we sent the content to the peer.
    pub content_sent: Vec<u64>,
}

/// One sighting of an operation relative to a head.
#[derive(Clone, Copy, PartialEq, Eq, Structural, Debug)]
pub struct OperationNodeCurrentHeadStats {
    pub time: u64,
    pub block_level: i32,
    pub block_timestamp: i64,
}

/// Observability record of one operation across all peers.
pub struct OperationStats {
    pub kind: Option<OperationKind>,
    pub min_time: Option<u64>,
    pub first_block_timestamp: Option<u64>,
    pub validation_started: Option<u64>,
    pub validation_result: Option<(u64, OperationValidationResult)>,
    pub nodes: KeyMap<OperationNodeStats>,
}

impl OperationStats {
    pub open spec fn wf(&self) -> bool {
        self.nodes.wf()
    }

    pub fn new() -> (r: OperationStats)
        ensures
            r.wf(),
            r.kind is None && r.min_time is None && r.first_block_timestamp is None
                && r.validation_started is None && r.validation_result is None,
            r.nodes@ == Map::<Seq<u8>, OperationNodeStats>::empty(),
    {
        OperationStats {
            kind: None,
            min_time: None,
            first_block_timestamp: None,
            validation_started: None,
            validation_result: None,
            nodes: KeyMap::new(),
        }
    }

    /// Sets the operation kind if not already set.
    pub fn set_kind_with(&mut self, kind: OperationKind)
        ensures
            old(self).kind is Some ==> final(self).kind == old(self).kind,
            old(self).kind is None ==> final(self).kind == Some(kind),
            final(self).min_time == old(self).min_time && final(self).first_block_timestamp == old(self).first_block_timestamp && final(self).validation_started == old(self).validation_started && final(self).validation_result == old(self).validation_result
                && final(self).nodes == old(self).nodes,
    {
        if self.kind.is_none() {
            self.kind = Some(kind);
        }
    }

    pub fn validation_started(&mut self, time: u64)
        ensures
            final(self).validation_started == Some(time),
            final(self).kind == old(self).kind && final(self).min_time == old(self).min_time
                && final(self).first_block_timestamp == old(self).first_block_timestamp && final(self).validation_result == old(self).validation_result && final(self).nodes == old(self).nodes,
    {
        self.validation_started = Some(time);
    }

    /// The lesser of the recorded minimum and `time`.
    fn fold_min_time(&mut self, time: u64)
        ensures
            final(self).min_time == Some(spec_min_time(old(self).min_time, time)),
            final(self).kind == old(self).kind && final(self).first_block_timestamp == old(self).first_block_timestamp && final(self).validation_started == old(self).validation_started && final(self).validation_result == old(self).validation_result
                && final(self).nodes == old(self).nodes,
    {
        self.min_time = match self.min_time {
            Some(t) => if t <= time {
                Some(t)
            } else {
                Some(time)
            },
            None => Some(time),
        };
    }
}

impl OperationNodeStats {
    pub fn new() -> (r: OperationNodeStats)
        ensures
            r.received@.len() == 0 && r.sent@.len() == 0 && r.content_requested@.len() == 0
                && r.content_received@.len() == 0 && r.content_requested_remote@.len() == 0
                && r.content_sent@.len() == 0,
    {
        OperationNodeStats {
            received: Vec::new(),
            sent: Vec::new(),
            content_requested: Vec::new(),
            content_received: Vec::new(),
            content_requested_remote: Vec::new(),
            content_sent: Vec::new(),
        }
    }
}

/// How one per-node record changes when one more observation of the given
/// kind is appended; the other observation lists stay.
pub open spec fn node_observed(
    n0: OperationNodeStats,
    n1: OperationNodeStats,
    kind: NodeStatKind,
    head: OperationNodeCurrentHeadStats,
    time: u64,
) -> bool {
    &&& (n1.received@ == if kind == NodeStatKind::Received {
        n0.received@.push(head)
    } else {
        n0.received@
    })
    &&& (n1.sent@ == if kind == NodeStatKind::Sent {
        n0.sent@.push(head)
    } else {
        n0.sent@
    })
    &&& (n1.content_requested@ == if kind == NodeStatKind::ContentRequested {
        n0.content_requested@.push(time)
    } else {
        n0.content_requested@
    })
    &&& (n1.content_received@ == if kind == NodeStatKind::ContentReceived {
        n0.content_received@.push(time)
    } else {
        n0.content_received@
    })
    &&& (n1.content_requested_remote@ == if kind == NodeStatKind::ContentRequestedRemote {
        n0.content_requested_remote@.push(time)
    } else {
        n0.content_requested_remote@
    })
    &&& (n1.content_sent@ == if kind == NodeStatKind::ContentSent {
        n0.content_sent@.push(time)
    } else {
        n0.content_sent@
    })
}

/// Which observation list an event lands in.
#[derive(Clone, Copy, PartialEq, Eq, Structural, Debug)]
pub enum NodeStatKind {
    Received,
    Sent,
    ContentRequested,
    ContentReceived,
    ContentRequestedRemote,
    ContentSent,
}

/// The record a node's observation starts from: the node's current record,
/// or an empty one.
pub open spec fn node_record_of(
    nodes: Map<Seq<u8>, OperationNodeStats>,
    k: Seq<u8>,
    n: OperationNodeStats,
) -> bool {
    if nodes.dom().contains(k) {
        n.received@ == nodes[k].received@ && n.sent@ == nodes[k].sent@ && n.content_requested@
            == nodes[k].content_requested@ && n.content_received@ == nodes[k].content_received@
            && n.content_requested_remote@ == nodes[k].content_requested_remote@
            && n.content_sent@ == nodes[k].content_sent@
    } else {
        n.received@.len() == 0 && n.sent@.len() == 0 && n.content_requested@.len() == 0
            && n.content_received@.len() == 0 && n.content_requested_remote@.len() == 0
            && n.content_sent@.len() == 0
    }
}

impl OperationStats {
    /// Appends one observation for one node: the minimum time folds in, and
    /// the node's record grows by the event.
    fn observe(
        &mut self,
        node_pkh: &Vec<u8>,
        kind: NodeStatKind,
        head: OperationNodeCurrentHeadStats,
        time: u64,
    )
        requires
            old(self).wf(),
        ensures
            final(self).wf(),
            final(self).min_time == Some(spec_min_time(old(self).min_time, time)),
            final(self).nodes@ == old(self).nodes@.insert(node_pkh@, final(self).nodes@[node_pkh@]),
            exists|n0: OperationNodeStats|
                node_record_of(old(self).nodes@, node_pkh@, n0) && node_observed(
                    n0,
                    #[trigger] final(self).nodes@[node_pkh@],
                    kind,
                    head,
                    time,
                ),
            final(self).kind == old(self).kind,
            final(self).first_block_timestamp == old(self).first_block_timestamp,
            final(self).validation_started == old(self).validation_started,
            final(self).validation_result == old(self).validation_result,
    {
        self.fold_min_time(time);
        let mut node = match self.nodes.remove(node_pkh) {
            Some(n) => n,
            None => OperationNodeStats::new(),
        };
        let ghost n0 = node;
        match kind {
            NodeStatKind::Received => node.received.push(head),
            NodeStatKind::Sent => node.sent.push(head),
            NodeStatKind::ContentRequested => node.content_requested.push(time),
            NodeStatKind::ContentReceived => node.content_received.push(time),
            NodeStatKind::ContentRequestedRemote => node.content_requested_remote.push(time),
            NodeStatKind::ContentSent => node.content_sent.push(time),
        }
        self.nodes.insert(crate::messages::copy_bytes(node_pkh), node);
        proof {
            assert(self.nodes@ =~= old(self).nodes@.insert(node_pkh@, self.nodes@[node_pkh@]));
            assert(node_record_of(old(self).nodes@, node_pkh@, n0));
        }
    }

    /// The node announced the operation in a current head.
    pub fn received_in_current_head(
        &mut self,
        node_pkh: &Vec<u8>,
        stats: OperationNodeCurrentHeadStats,
    )
        requires
            old(self).wf(),
        ensures
            final(self).wf(),
            final(self).min_time == Some(spec_min_time(old(self).min_time, stats.time)),
            old(self).first_block_timestamp is Some ==> final(self).first_block_timestamp == old(self).first_block_timestamp,
            old(self).first_block_timestamp is None && stats.block_timestamp >= 0 ==> final(self).first_block_timestamp == Some(stats.block_timestamp as u64),
            exists|n0: OperationNodeStats|
                node_record_of(old(self).nodes@, node_pkh@, n0) && node_observed(
                    n0,
                    #[trigger] final(self).nodes@[node_pkh@],
                    NodeStatKind::Received,
                    stats,
                    stats.time,
                ),
            final(self).nodes@ == old(self).nodes@.insert(node_pkh@, final(self).nodes@[node_pkh@]),
            final(self).kind == old(self).kind,
            final(self).validation_started == old(self).validation_started,
            final(self).validation_result == old(self).validation_result,
    {
        if self.first_block_timestamp.is_none() && stats.block_timestamp >= 0 {
            self.first_block_timestamp = Some(stats.block_timestamp as u64);
        }
        self.observe(node_pkh, NodeStatKind::Received, stats, stats.time);
    }

    /// The operation went out to the node in a current head.
    pub fn sent_in_current_head(
        &mut self,
        node_pkh: &Vec<u8>,
        stats: OperationNodeCurrentHeadStats,
    )
        requires
            old(self).wf(),
        ensures
            final(self).wf(),
            final(self).min_time == Some(spec_min_time(old(self).min_time, stats.time)),
            exists|n0: OperationNodeStats|
                node_record_of(old(self).nodes@, node_pkh@, n0) && node_observed(
                    n0,
                    #[trigger] final(self).nodes@[node_pkh@],
                    NodeStatKind::Sent,
                    stats,
                    stats.time,
                ),
            final(self).nodes@ == old(self).nodes@.insert(node_pkh@, final(self).nodes@[node_pkh@]),
            final(self).kind == old(self).kind && final(self).first_block_timestamp == old(self).first_block_timestamp && final(self).validation_started == old(self).validation_started && final(self).validation_result == old(self).validation_result,
    {
        self.observe(node_pkh, NodeStatKind::Sent, stats, stats.time);
    }

    /// We asked the node for the operation's content.
    pub fn content_requested(&mut self, node_pkh: &Vec<u8>, time: u64)
        requires
            old(self).wf(),
        ensures
            final(self).wf(),
            final(self).min_time == Some(spec_min_time(old(self).min_time, time)),
            exists|n0: OperationNodeStats|
                node_record_of(old(self).nodes@, node_pkh@, n0) && node_observed(
                    n0,
                    #[trigger] final(self).nodes@[node_pkh@],
                    NodeStatKind::ContentRequested,
                    empty_head_stats(),
                    time,
                ),
            final(self).nodes@ == old(self).nodes@.insert(node_pkh@, final(self).nodes@[node_pkh@]),
            final(self).kind == old(self).kind,
    {
        self.observe(node_pkh, NodeStatKind::ContentRequested, empty_head(), time);
    }

    /// The node delivered the operation's content; the first byte names the
    /// operation's kind.
    pub fn content_received(&mut self, node_pkh: &Vec<u8>, time: u64, op_content: &Vec<u8>)
        requires
            old(self).wf(),
        ensures
            final(self).wf(),
            final(self).min_time == Some(spec_min_time(old(self).min_time, time)),
            old(self).kind is Some ==> final(self).kind == old(self).kind,
            old(self).kind is None && op_content@.len() > 0 ==> final(self).kind == Some(
                kind_of_tag(op_content@[0]),
            ),
            old(self).kind is None && op_content@.len() == 0 ==> final(self).kind == Some(
                OperationKind::Unknown,
            ),
            exists|n0: OperationNodeStats|
                node_record_of(old(self).nodes@, node_pkh@, n0) && node_observed(
                    n0,
                    #[trigger] final(self).nodes@[node_pkh@],
                    NodeStatKind::ContentReceived,
                    empty_head_stats(),
                    time,
                ),
            final(self).nodes@ == old(self).nodes@.insert(node_pkh@, final(self).nodes@[node_pkh@]),
    {
        let k = OperationKind::from_operation_content_raw(op_content);
        self.set_kind_with(k);
        self.observe(node_pkh, NodeStatKind::ContentReceived, empty_head(), time);
    }

    /// The node asked us for the operation's content.
    pub fn content_requested_remote(&mut self, node_pkh: &Vec<u8>, time: u64)
        requires
            old(self).wf(),
        ensures
            final(self).wf(),
            final(self).min_time == Some(spec_min_time(old(self).min_time, time)),
            exists|n0: OperationNodeStats|
                node_record_of(old(self).nodes@, node_pkh@, n0) && node_observed(
                    n0,
                    #[trigger] final(self).nodes@[node_pkh@],
                    NodeStatKind::ContentRequestedRemote,
                    empty_head_stats(),
                    time,
                ),
            final(self).nodes@ == old(self).nodes@.insert(node_pkh@, final(self).nodes@[node_pkh@]),
            final(self).kind == old(self).kind,
    {
        self.observe(node_pkh, NodeStatKind::ContentRequestedRemote, empty_head(), time);
    }

    /// We sent the operation's content to the node.
    pub fn content_sent(&mut self, node_pkh: &Vec<u8>, time: u64)
        requires
            old(self).wf(),
        ensures
            final(self).wf(),
            final(self).min_time == Some(spec_min_time(old(self).min_time, time)),
            exists|n0: OperationNodeStats|
                node_record_of(old(self).nodes@, node_pkh@, n0) && node_observed(
                    n0,
                    #[trigger] final(self).nodes@[node_pkh@],
                    NodeStatKind::ContentSent,
                    empty_head_stats(),
                    time,
                ),
            final(self).nodes@ == old(self).nodes@.insert(node_pkh@, final(self).nodes@[node_pkh@]),
            final(self).kind == old(self).kind,
    {
        self.observe(node_pkh, NodeStatKind::ContentSent, empty_head(), time);
    }
}

/// The placeholder head record for events that carry a bare time.
pub open spec fn empty_head_stats() -> OperationNodeCurrentHeadStats {
    OperationNodeCurrentHeadStats { time: 0, block_level: 0, block_timestamp: 0 }
}

fn empty_head() -> (r: OperationNodeCurrentHeadStats)
    ensures
        r == empty_head_stats(),
{
    OperationNodeCurrentHeadStats { time: 0, block_level: 0, block_timestamp: 0 }
}

pub open spec fn spec_min_time(cur: Option<u64>, time: u64) -> u64 {
    match cur {
        Some(t) => if t <= time {
            t
        } else {
            time
        },
        None => time,
    }
}


// ---------------------------------------------------------------------------
// The mempool state and its reducer.
// ---------------------------------------------------------------------------

/// Everything the mempool tracks.
pub struct MempoolState {
    /// When set, the mempool ignores every action.
    pub disabled: bool,
    /// Set once the mempool starts serving.
    pub running_since: Option<u64>,
    /// The prevalidator handle for the current head, once built.
    pub prevalidator: Option<PrevalidatorWrapper>,
    /// Outstanding injection calls by operation hash.
    pub injecting_rpc_ids: KeyMap<RpcId>,
    /// Injection calls whose operations were classified, awaiting a reply.
    pub injected_rpc_ids: Vec<RpcId>,
    /// Bakers subscribed to classified-operation updates.
    pub operation_streams: Vec<OperationStream>,
    /// The locally applied head.
    pub local_head_state: Option<HeadState>,
    pub branch_changed: bool,
    /// Per-peer knowledge, keyed by encoded peer address.
    pub peer_state: KeyMap<PeerState>,
    /// Hashes whose full content has been requested from some peer.
    pub pending_full_content: KeySet,
    /// Operations past basic checks, awaiting validation, by hash.
    pub pending_operations: KeyMap<Operation>,
    /// Operations held back until a prevalidator exists.
    pub wait_prevalidator_operations: Vec<Operation>,
    pub validated_operations: ValidatedOperations,
    /// Audit record per operation hash.
    pub operations_state: KeyMap<MempoolOperation>,
    /// Observability per operation hash.
    pub operation_stats: KeyMap<OperationStats>,
    /// The most recent head hash any peer announced, with its level.
    pub latest_current_head: Option<(Vec<u8>, i32)>,
    pub new_current_head: bool,
}

/// Whether the hash already went through validation: it sits among the
/// applied/branch pools or among the refused ones.
pub open spec fn classified(s: &MempoolState, h: Seq<u8>) -> bool {
    s.validated_operations.ops@.dom().contains(h)
        || s.validated_operations.refused_ops@.dom().contains(h)
}

/// Every operation hash sits in at most one of the pending pool, the
/// validated pool and the refused pool.
pub open spec fn pools_disjoint(s: &MempoolState) -> bool {
    &&& forall|h: Seq<u8>| #[trigger] s.pending_operations@.dom().contains(h)
        ==> !s.validated_operations.ops@.dom().contains(h)
            && !s.validated_operations.refused_ops@.dom().contains(h)
    &&& forall|h: Seq<u8>| #[trigger] s.validated_operations.ops@.dom().contains(h)
        ==> !s.validated_operations.refused_ops@.dom().contains(h)
}

impl MempoolState {
    pub open spec fn wf(&self) -> bool {
        &&& self.injecting_rpc_ids.wf()
        &&& self.peer_state.wf()
        &&& forall|k: Seq<u8>| self.peer_state@.dom().contains(k)
            ==> (#[trigger] self.peer_state@[k]).wf()
        &&& self.pending_full_content.wf()
        &&& self.pending_operations.wf()
        &&& self.validated_operations.wf()
        &&& self.operations_state.wf()
        &&& self.operation_stats.wf()
        &&& pools_disjoint(self)
    }

    pub fn new() -> (r: MempoolState)
        ensures
            r.wf(),
            !r.disabled,
            r.running_since is None && r.prevalidator is None && r.local_head_state is None
                && r.latest_current_head is None && !r.branch_changed && !r.new_current_head,
            r.injecting_rpc_ids@ == Map::<Seq<u8>, RpcId>::empty(),
            r.injected_rpc_ids@.len() == 0,
            r.operation_streams@.len() == 0,
            r.peer_state@ == Map::<Seq<u8>, PeerState>::empty(),
            r.pending_full_content@ == Set::<Seq<u8>>::empty(),
            r.pending_operations@ == Map::<Seq<u8>, Operation>::empty(),
            r.wait_prevalidator_operations@.len() == 0,
            r.operations_state@ == Map::<Seq<u8>, MempoolOperation>::empty(),
            r.operation_stats@ == Map::<Seq<u8>, OperationStats>::empty(),
    {
        MempoolState {
            disabled: false,
            running_since: None,
            prevalidator: None,
            injecting_rpc_ids: KeyMap::new(),
            injected_rpc_ids: Vec::new(),
            operation_streams: Vec::new(),
            local_head_state: None,
            branch_changed: false,
            peer_state: KeyMap::new(),
            pending_full_content: KeySet::new(),
            pending_operations: KeyMap::new(),
            wait_prevalidator_operations: Vec::new(),
            validated_operations: ValidatedOperations::new(),
            operations_state: KeyMap::new(),
            operation_stats: KeyMap::new(),
            latest_current_head: None,
            new_current_head: false,
        }
    }
}

/// One mempool action. Batch events from outside (a protocol verdict over
/// many operations, a peer's advertised hash list) are expanded by the effect
/// layer into one action per operation, so every transition here is exact.
pub enum MempoolAction {
    /// The protocol runner finished building a prevalidator.
    PrevalidatorReady(PrevalidatorWrapper),
    /// The block applier finished a block; it becomes the local head.
    BlockApplied { chain_id: Vec<u8>, block: BlockHeader },
    /// A peer announced a head; bookkeeping for that peer.
    RecvDone { address: PeerAddress, block_hash: Vec<u8>, level: i32 },
    /// A peer advertised one operation hash we may not know yet.
    OperationHashSeen { address: PeerAddress, hash: Vec<u8>, block_time: u64 },
    /// The requested hashes move from requesting to pending.
    GetOperationsPending { address: PeerAddress },
    /// A peer delivered the content of one operation.
    OperationRecvDone { address: PeerAddress, operation: Operation },
    /// An operation arrived over a local injection call.
    OperationInject { operation: Operation, operation_hash: Vec<u8>, rpc_id: RpcId },
    /// No prevalidator yet: hold the operation back.
    ValidateWaitPrevalidator { operation: Operation },
    /// Drop the held-back operations.
    CleanupWaitPrevalidator,
    /// The protocol classified one operation as applicable.
    OperationApplied { applied: Applied },
    /// The protocol turned one operation down.
    OperationErrored { errored: Errored, result: OperationValidationResult },
    /// The prechecker validated one endorsement.
    PrecheckerApplied { applied: Applied },
    /// The prechecker refused one endorsement.
    PrecheckerRefused { errored: Errored },
    /// The outstanding injection replies were sent.
    RpcRespond,
    /// One hash was sent to one peer in a broadcast.
    BroadcastDone { address: PeerAddress, hash: Vec<u8> },
    /// An operation's contents were decoded.
    OperationDecoded { operation: Vec<u8>, protocol_data: String },
}

/// The views of a run of byte vectors, as a set.
pub open spec fn views_of(elems: Seq<Vec<u8>>) -> Set<Seq<u8>> {
    Set::new(|v: Seq<u8>| exists|i: int| 0 <= i < elems.len() && #[trigger] elems[i]@ == v)
}

/// `b` is `a` with one more applied verdict, equal to `v` in content.
pub open spec fn pushed_applied(a: Seq<Applied>, b: Seq<Applied>, v: Applied) -> bool {
    &&& b.len() == a.len() + 1
    &&& b.last().hash@ == v.hash@
    &&& b.last().protocol_data_json@ == v.protocol_data_json@
    &&& forall|i: int| 0 <= i < a.len() ==> b[i] == a[i]
}

/// `b` is `a` with one more error verdict, equal to `v` in content.
pub open spec fn pushed_errored(a: Seq<Errored>, b: Seq<Errored>, v: Errored) -> bool {
    &&& b.len() == a.len() + 1
    &&& b.last().hash@ == v.hash@
    &&& b.last().error_json@ == v.error_json@
    &&& forall|i: int| 0 <= i < a.len() ==> b[i] == a[i]
}

/// Fields untouched by most transitions.
pub open spec fn same_heads(a: &MempoolState, b: &MempoolState) -> bool {
    &&& a.disabled == b.disabled
    &&& a.running_since == b.running_since
    &&& a.prevalidator == b.prevalidator
    &&& a.local_head_state == b.local_head_state
    &&& a.branch_changed == b.branch_changed
    &&& a.latest_current_head == b.latest_current_head
    &&& a.new_current_head == b.new_current_head
    &&& a.operation_streams@ == b.operation_streams@
}

pub open spec fn same_rpc(a: &MempoolState, b: &MempoolState) -> bool {
    &&& a.injecting_rpc_ids@ == b.injecting_rpc_ids@
    &&& a.injected_rpc_ids@ == b.injected_rpc_ids@
}

pub open spec fn same_peers(a: &MempoolState, b: &MempoolState) -> bool {
    &&& a.peer_state@ == b.peer_state@
    &&& a.pending_full_content@ == b.pending_full_content@
}

pub open spec fn same_pools(a: &MempoolState, b: &MempoolState) -> bool {
    &&& a.pending_operations@ == b.pending_operations@
    &&& a.wait_prevalidator_operations@ == b.wait_prevalidator_operations@
    &&& a.validated_operations.ops@ == b.validated_operations.ops@
    &&& a.validated_operations.refused_ops@ == b.validated_operations.refused_ops@
    &&& a.validated_operations.applied@ == b.validated_operations.applied@
    &&& a.validated_operations.refused@ == b.validated_operations.refused@
    &&& a.validated_operations.branch_refused@ == b.validated_operations.branch_refused@
    &&& a.validated_operations.branch_delayed@ == b.validated_operations.branch_delayed@
}

pub open spec fn same_records(a: &MempoolState, b: &MempoolState) -> bool {
    &&& a.operations_state@ == b.operations_state@
    &&& a.operation_stats@ == b.operation_stats@
}

/// What moving one classified operation out of the pending pool does to the
/// validated pools: the operation lands among `ops` (or `refused_ops` for a
/// refusal) exactly when it was pending.
pub open spec fn moved_to_bucket(
    a: &MempoolState,
    b: &MempoolState,
    h: Seq<u8>,
    refused: bool,
) -> bool {
    &&& b.pending_operations@ == a.pending_operations@.remove(h)
    &&& (if a.pending_operations@.dom().contains(h) {
        if refused {
            b.validated_operations.ops@ == a.validated_operations.ops@
                && b.validated_operations.refused_ops@
                == a.validated_operations.refused_ops@.insert(h, a.pending_operations@[h])
        } else {
            b.validated_operations.ops@ == a.validated_operations.ops@.insert(
                h,
                a.pending_operations@[h],
            ) && b.validated_operations.refused_ops@ == a.validated_operations.refused_ops@
        }
    } else {
        b.validated_operations.ops@ == a.validated_operations.ops@
            && b.validated_operations.refused_ops@ == a.validated_operations.refused_ops@
    })
    &&& b.wait_prevalidator_operations@ == a.wait_prevalidator_operations@
}

/// The injection bookkeeping when a verdict lands: an outstanding injection
/// of `h` moves from injecting to injected.
pub open spec fn rpc_settled(a: &MempoolState, b: &MempoolState, h: Seq<u8>) -> bool {
    &&& b.injecting_rpc_ids@ == a.injecting_rpc_ids@.remove(h)
    &&& (if a.injecting_rpc_ids@.dom().contains(h) {
        b.injected_rpc_ids@ == a.injected_rpc_ids@.push(a.injecting_rpc_ids@[h])
    } else {
        b.injected_rpc_ids@ == a.injected_rpc_ids@
    })
}

/// The audit record advance when a verdict lands: a record in `Decoded`
/// moves to `to`, any other record stays.
pub open spec fn record_advanced(
    a: &MempoolState,
    b: &MempoolState,
    h: Seq<u8>,
    to: OperationState,
    meta: ActionMeta,
) -> bool {
    &&& b.operation_stats@ == a.operation_stats@
    &&& (if a.operations_state@.dom().contains(h) && a.operations_state@[h].state
        == OperationState::Decoded {
        let m0 = a.operations_state@[h];
        let m1 = b.operations_state@[h];
        b.operations_state@ == a.operations_state@.insert(h, m1) && m1.state == to
            && m1.block_timestamp == m0.block_timestamp && m1.broadcast == m0.broadcast
            && m1.protocol_data == m0.protocol_data && m1.times@ == m0.times@.push(
            (m1.times@.last().0, sub_or_zero(meta.time_ns, m0.block_timestamp as int)),
        ) && m1.times@.last().0@ == time_name_of(to)
    } else {
        b.operations_state@ == a.operations_state@
    })
}

/// Applies one classified verdict to the pools, the injection bookkeeping
/// and the audit record.
fn settle_verdict(
    state: &mut MempoolState,
    hash: &Vec<u8>,
    refused: bool,
    record_to: OperationState,
    meta: &ActionMeta,
)
    requires
        old(state).wf(),
    ensures
        final(state).wf(),
        moved_to_bucket(old(state), final(state), hash@, refused),
        rpc_settled(old(state), final(state), hash@),
        record_advanced(old(state), final(state), hash@, record_to, *meta),
        same_heads(old(state), final(state)),
        same_peers(old(state), final(state)),
        final(state).validated_operations.applied@ == old(state).validated_operations.applied@,
        final(state).validated_operations.refused@ == old(state).validated_operations.refused@,
        final(state).validated_operations.branch_refused@ == old(state).validated_operations.branch_refused@,
        final(state).validated_operations.branch_delayed@ == old(state).validated_operations.branch_delayed@,
{
    match state.pending_operations.remove(hash) {
        Some(op) => {
            if refused {
                state.validated_operations.refused_ops.insert(
                    crate::messages::copy_bytes(hash),
                    op,
                );
            } else {
                state.validated_operations.ops.insert(crate::messages::copy_bytes(hash), op);
            }
        },
        None => {},
    }
    match state.injecting_rpc_ids.remove(hash) {
        Some(rpc_id) => {
            state.injected_rpc_ids.push(rpc_id);
        },
        None => {},
    }
    let advance = match state.operations_state.get(hash) {
        Some(record) => {
            if record.state == OperationState::Decoded {
                Some(record.next_state(record_to, meta))
            } else {
                None
            }
        },
        None => None,
    };
    match advance {
        Some(record) => {
            state.operations_state.insert(crate::messages::copy_bytes(hash), record);
        },
        None => {},
    }
}

/// Applies one mempool action to the state. Every change the action causes
/// is stated per case; actions that do not match the current phase leave the
/// state unchanged by design.
pub fn mempool_reducer(state: &mut MempoolState, action: &MempoolAction, meta: &ActionMeta)
    requires
        old(state).wf(),
    ensures
        final(state).wf(),
        old(state).disabled ==> *final(state) == *old(state),
        !old(state).disabled ==> match *action {
            MempoolAction::PrevalidatorReady(ref pv) => {
                &&& final(state).prevalidator matches Some(p) && p.chain_id@ == pv.chain_id@
                    && p.predecessor@ == pv.predecessor@
                &&& final(state).disabled == old(state).disabled
                &&& final(state).running_since == old(state).running_since
                &&& final(state).local_head_state == old(state).local_head_state
                &&& final(state).latest_current_head == old(state).latest_current_head
                &&& final(state).operation_streams@ == old(state).operation_streams@
                &&& same_rpc(old(state), final(state))
                &&& same_peers(old(state), final(state))
                &&& same_pools(old(state), final(state))
                &&& same_records(old(state), final(state))
            },
            MempoolAction::BlockApplied { ref chain_id, ref block } => {
                &&& (if crate::codec::wf_fitness(block@.fitness) && crate::codec::wf_dyn(
                    crate::codec::enc_fitness(block@.fitness),
                ) {
                    final(state).local_head_state matches Some(h) && h.chain_id@ == chain_id@
                        && h.header@ == block@ && h.hash@ == blake2b_digest(
                        crate::codec::enc_header(block@),
                    ) && !h.ops_removed && !h.prevalidator_ready
                } else {
                    final(state).local_head_state == old(state).local_head_state
                })
                &&& final(state).disabled == old(state).disabled
                &&& final(state).prevalidator == old(state).prevalidator
                &&& final(state).running_since == old(state).running_since
                &&& final(state).latest_current_head == old(state).latest_current_head
                &&& final(state).operation_streams@ == old(state).operation_streams@
                &&& same_rpc(old(state), final(state))
                &&& same_peers(old(state), final(state))
                &&& same_pools(old(state), final(state))
                &&& same_records(old(state), final(state))
            },
            MempoolAction::RecvDone { address, ref block_hash, level } => {
                &&& final(state).peer_state@.dom() == old(state).peer_state@.dom().insert(
                    addr_key(address),
                )
                &&& (if old(state).peer_state@.dom().contains(addr_key(address)) {
                    final(state).peer_state@ == old(state).peer_state@
                } else {
                    final(state).peer_state@[addr_key(address)].requesting_full_content@
                        == Set::<Seq<u8>>::empty() && final(state).peer_state@[addr_key(address)].pending_full_content@ == Set::<Seq<u8>>::empty() && final(state).peer_state@[addr_key(address)].seen_operations@
                        == Set::<Seq<u8>>::empty()
                })
                &&& (match old(state).latest_current_head {
                    Some((ref h, l)) => {
                        if level > l {
                            final(state).latest_current_head matches Some((h2, l2)) && h2@
                                == block_hash@ && l2 == level
                        } else {
                            final(state).latest_current_head == old(state).latest_current_head
                        }
                    },
                    None => final(state).latest_current_head matches Some((h2, l2)) && h2@
                        == block_hash@ && l2 == level,
                })
                &&& final(state).pending_full_content@ == old(state).pending_full_content@
                &&& final(state).disabled == old(state).disabled
                &&& final(state).prevalidator == old(state).prevalidator
                &&& final(state).running_since == old(state).running_since
                &&& final(state).local_head_state == old(state).local_head_state
                &&& final(state).operation_streams@ == old(state).operation_streams@
                &&& same_rpc(old(state), final(state))
                &&& same_pools(old(state), final(state))
                &&& same_records(old(state), final(state))
            },
            MempoolAction::OperationHashSeen { address, ref hash, block_time } => {
                let k = addr_key(address);
                let known = old(state).pending_operations@.dom().contains(hash@) || classified(
                    old(state),
                    hash@,
                );
                let had_peer = old(state).peer_state@.dom().contains(k);
                &&& (if known {
                    final(state).peer_state@ == old(state).peer_state@ && final(state).operations_state@ == old(state).operations_state@
                } else {
                    let p0 = final(state).peer_state@[k];
                    &&& final(state).peer_state@ == old(state).peer_state@.insert(k, p0)
                    &&& p0.requesting_full_content@ == (if had_peer {
                        old(state).peer_state@[k].requesting_full_content@
                    } else {
                        Set::<Seq<u8>>::empty()
                    }).insert(hash@)
                    &&& p0.seen_operations@ == (if had_peer {
                        old(state).peer_state@[k].seen_operations@
                    } else {
                        Set::<Seq<u8>>::empty()
                    }).insert(hash@)
                    &&& p0.pending_full_content@ == (if had_peer {
                        old(state).peer_state@[k].pending_full_content@
                    } else {
                        Set::<Seq<u8>>::empty()
                    })
                    &&& (block_time <= 18_446_744_073 ==> {
                        let m1 = final(state).operations_state@[hash@];
                        final(state).operations_state@ == old(state).operations_state@.insert(
                            hash@,
                            m1,
                        ) && m1.state == OperationState::ReceivedHash && !m1.broadcast
                            && m1.block_timestamp == block_time * 1_000_000_000
                            && m1.protocol_data is None
                    })
                    &&& (block_time > 18_446_744_073 ==> final(state).operations_state@ == old(state).operations_state@)
                })
                &&& final(state).pending_full_content@ == old(state).pending_full_content@
                &&& same_heads(old(state), final(state))
                &&& same_rpc(old(state), final(state))
                &&& same_pools(old(state), final(state))
                &&& final(state).operation_stats@ == old(state).operation_stats@
            },
            MempoolAction::GetOperationsPending { address } => {
                let k = addr_key(address);
                &&& (if old(state).peer_state@.dom().contains(k) {
                    let p0 = old(state).peer_state@[k];
                    let p1 = final(state).peer_state@[k];
                    final(state).peer_state@ == old(state).peer_state@.insert(k, p1)
                        && p1.requesting_full_content@ == Set::<Seq<u8>>::empty()
                        && p1.pending_full_content@ == p0.pending_full_content@.union(
                        p0.requesting_full_content@,
                    ) && p1.seen_operations@ == p0.seen_operations@
                } else {
                    final(state).peer_state@ == old(state).peer_state@
                })
                &&& final(state).pending_full_content@ == old(state).pending_full_content@
                &&& same_heads(old(state), final(state))
                &&& same_rpc(old(state), final(state))
                &&& same_pools(old(state), final(state))
                &&& same_records(old(state), final(state))
            },
            MempoolAction::OperationRecvDone { address, ref operation } => {
                let h = blake2b_digest(crate::codec::enc_operation(operation@));
                let k = addr_key(address);
                &&& (if classified(old(state), h) {
                    final(state).pending_operations@ == old(state).pending_operations@
                } else {
                    final(state).pending_operations@ == old(state).pending_operations@.insert(
                        h,
                        final(state).pending_operations@[h],
                    ) && final(state).pending_operations@.dom() == old(state).pending_operations@.dom().insert(h) && final(state).pending_operations@[h]@ == operation@
                })
                &&& (if old(state).peer_state@.dom().contains(k) {
                    let p0 = old(state).peer_state@[k];
                    let p1 = final(state).peer_state@[k];
                    final(state).peer_state@ == old(state).peer_state@.insert(k, p1)
                        && p1.pending_full_content@ == p0.pending_full_content@.remove(h)
                        && p1.requesting_full_content@ == p0.requesting_full_content@
                        && p1.seen_operations@ == p0.seen_operations@
                } else {
                    final(state).peer_state@ == old(state).peer_state@
                })
                &&& final(state).pending_full_content@ == old(state).pending_full_content@
                &&& final(state).wait_prevalidator_operations@ == old(state).wait_prevalidator_operations@
                &&& final(state).validated_operations.ops@ == old(state).validated_operations.ops@
                &&& final(state).validated_operations.refused_ops@ == old(state).validated_operations.refused_ops@
                &&& final(state).validated_operations.applied@ == old(state).validated_operations.applied@
                &&& same_heads(old(state), final(state))
                &&& same_rpc(old(state), final(state))
                &&& same_records(old(state), final(state))
            },
            MempoolAction::OperationInject { ref operation, ref operation_hash, rpc_id } => {
                &&& (if classified(old(state), operation_hash@) {
                    *final(state) == *old(state)
                } else {
                    &&& final(state).pending_operations@.dom() == old(state).pending_operations@.dom().insert(operation_hash@)
                    &&& final(state).pending_operations@ == old(state).pending_operations@.insert(
                        operation_hash@,
                        final(state).pending_operations@[operation_hash@],
                    )
                    &&& final(state).pending_operations@[operation_hash@]@ == operation@
                    &&& final(state).injecting_rpc_ids@ == old(state).injecting_rpc_ids@.insert(
                        operation_hash@,
                        rpc_id,
                    )
                    &&& final(state).injected_rpc_ids@ == old(state).injected_rpc_ids@
                    &&& same_heads(old(state), final(state))
                    &&& same_peers(old(state), final(state))
                    &&& same_records(old(state), final(state))
                    &&& final(state).wait_prevalidator_operations@ == old(state).wait_prevalidator_operations@
                    &&& final(state).validated_operations.ops@ == old(state).validated_operations.ops@
                    &&& final(state).validated_operations.refused_ops@ == old(state).validated_operations.refused_ops@
                })
            },
            MempoolAction::ValidateWaitPrevalidator { ref operation } => {
                &&& final(state).wait_prevalidator_operations@.len() == old(state).wait_prevalidator_operations@.len() + 1
                &&& final(state).wait_prevalidator_operations@.last()@ == operation@
                &&& forall|i: int| 0 <= i < old(state).wait_prevalidator_operations@.len()
                    ==> final(state).wait_prevalidator_operations@[i] == old(state).wait_prevalidator_operations@[i]
                &&& final(state).pending_operations@ == old(state).pending_operations@
                &&& same_heads(old(state), final(state))
                &&& same_peers(old(state), final(state))
                &&& same_rpc(old(state), final(state))
                &&& same_records(old(state), final(state))
            },
            MempoolAction::CleanupWaitPrevalidator => {
                &&& final(state).wait_prevalidator_operations@.len() == 0
                &&& final(state).pending_operations@ == old(state).pending_operations@
                &&& same_heads(old(state), final(state))
                &&& same_peers(old(state), final(state))
                &&& same_rpc(old(state), final(state))
                &&& same_records(old(state), final(state))
            },
            MempoolAction::OperationApplied { ref applied } => {
                &&& moved_to_bucket(old(state), final(state), applied.hash@, false)
                &&& rpc_settled(old(state), final(state), applied.hash@)
                &&& record_advanced(
                    old(state),
                    final(state),
                    applied.hash@,
                    OperationState::Applied,
                    *meta,
                )
                &&& pushed_applied(
                    old(state).validated_operations.applied@,
                    final(state).validated_operations.applied@,
                    *applied,
                )
                &&& final(state).validated_operations.refused@ == old(state).validated_operations.refused@
                &&& final(state).validated_operations.branch_refused@ == old(state).validated_operations.branch_refused@
                &&& final(state).validated_operations.branch_delayed@ == old(state).validated_operations.branch_delayed@
                &&& same_heads(old(state), final(state))
                &&& same_peers(old(state), final(state))
            },
            MempoolAction::OperationErrored { ref errored, result } => {
                let refused = result == OperationValidationResult::Refused;
                let to = match result {
                    OperationValidationResult::Refused => OperationState::Refused,
                    OperationValidationResult::BranchRefused => OperationState::BranchRefused,
                    OperationValidationResult::BranchDelayed => OperationState::BranchDelayed,
                    OperationValidationResult::Applied => OperationState::Applied,
                };
                &&& result != OperationValidationResult::Applied ==> {
                    &&& moved_to_bucket(old(state), final(state), errored.hash@, refused)
                    &&& rpc_settled(old(state), final(state), errored.hash@)
                    &&& record_advanced(old(state), final(state), errored.hash@, to, *meta)
                    &&& final(state).validated_operations.applied@ == old(state).validated_operations.applied@
                    &&& (if result == OperationValidationResult::Refused {
                        pushed_errored(
                            old(state).validated_operations.refused@,
                            final(state).validated_operations.refused@,
                            *errored,
                        )
                    } else {
                        final(state).validated_operations.refused@ == old(state).validated_operations.refused@
                    })
                    &&& (if result == OperationValidationResult::BranchRefused {
                        pushed_errored(
                            old(state).validated_operations.branch_refused@,
                            final(state).validated_operations.branch_refused@,
                            *errored,
                        )
                    } else {
                        final(state).validated_operations.branch_refused@ == old(state).validated_operations.branch_refused@
                    })
                    &&& (if result == OperationValidationResult::BranchDelayed {
                        pushed_errored(
                            old(state).validated_operations.branch_delayed@,
                            final(state).validated_operations.branch_delayed@,
                            *errored,
                        )
                    } else {
                        final(state).validated_operations.branch_delayed@ == old(state).validated_operations.branch_delayed@
                    })
                    &&& same_heads(old(state), final(state))
                    &&& same_peers(old(state), final(state))
                }
                &&& result == OperationValidationResult::Applied ==> *final(state) == *old(state)
            },
            MempoolAction::PrecheckerApplied { ref applied } => {
                &&& moved_to_bucket(old(state), final(state), applied.hash@, false)
                &&& rpc_settled(old(state), final(state), applied.hash@)
                &&& record_advanced(
                    old(state),
                    final(state),
                    applied.hash@,
                    OperationState::Prechecked,
                    *meta,
                )
                &&& pushed_applied(
                    old(state).validated_operations.applied@,
                    final(state).validated_operations.applied@,
                    *applied,
                )
                &&& final(state).validated_operations.refused@ == old(state).validated_operations.refused@
                &&& final(state).validated_operations.branch_refused@ == old(state).validated_operations.branch_refused@
                &&& final(state).validated_operations.branch_delayed@ == old(state).validated_operations.branch_delayed@
                &&& same_heads(old(state), final(state))
                &&& same_peers(old(state), final(state))
            },
            MempoolAction::PrecheckerRefused { ref errored } => {
                &&& moved_to_bucket(old(state), final(state), errored.hash@, true)
                &&& rpc_settled(old(state), final(state), errored.hash@)
                &&& record_advanced(
                    old(state),
                    final(state),
                    errored.hash@,
                    OperationState::PrecheckRefused,
                    *meta,
                )
                &&& pushed_errored(
                    old(state).validated_operations.refused@,
                    final(state).validated_operations.refused@,
                    *errored,
                )
                &&& final(state).validated_operations.applied@ == old(state).validated_operations.applied@
                &&& final(state).validated_operations.branch_refused@ == old(state).validated_operations.branch_refused@
                &&& final(state).validated_operations.branch_delayed@ == old(state).validated_operations.branch_delayed@
                &&& same_heads(old(state), final(state))
                &&& same_peers(old(state), final(state))
            },
            MempoolAction::RpcRespond => {
                &&& final(state).injected_rpc_ids@.len() == 0
                &&& final(state).injecting_rpc_ids@ == old(state).injecting_rpc_ids@
                &&& same_heads(old(state), final(state))
                &&& same_peers(old(state), final(state))
                &&& same_pools(old(state), final(state))
                &&& same_records(old(state), final(state))
            },
            MempoolAction::BroadcastDone { address, ref hash } => {
                let k = addr_key(address);
                &&& (if old(state).peer_state@.dom().contains(k) {
                    let p0 = old(state).peer_state@[k];
                    let p1 = final(state).peer_state@[k];
                    final(state).peer_state@ == old(state).peer_state@.insert(k, p1)
                        && p1.seen_operations@ == p0.seen_operations@.insert(hash@)
                        && p1.requesting_full_content@ == p0.requesting_full_content@
                        && p1.pending_full_content@ == p0.pending_full_content@
                } else {
                    final(state).peer_state@ == old(state).peer_state@
                })
                &&& (if old(state).operations_state@.dom().contains(hash@) && (old(state).operations_state@[hash@].state == OperationState::Prechecked || old(state).operations_state@[hash@].state == OperationState::Applied) {
                    let m0 = old(state).operations_state@[hash@];
                    let m1 = final(state).operations_state@[hash@];
                    final(state).operations_state@ == old(state).operations_state@.insert(
                        hash@,
                        m1,
                    ) && m1.broadcast && m1.state == m0.state && m1.block_timestamp
                        == m0.block_timestamp && (!m0.broadcast ==> m1.times@
                        == m0.times@.push(
                        (m1.times@.last().0, sub_or_zero(meta.time_ns, m0.block_timestamp as int)),
                    )) && (m0.broadcast ==> m1.times@ == m0.times@)
                } else {
                    final(state).operations_state@ == old(state).operations_state@
                })
                &&& final(state).pending_full_content@ == old(state).pending_full_content@
                &&& final(state).operation_stats@ == old(state).operation_stats@
                &&& same_heads(old(state), final(state))
                &&& same_rpc(old(state), final(state))
                &&& same_pools(old(state), final(state))
            },
            MempoolAction::OperationDecoded { ref operation, ref protocol_data } => {
                &&& (if old(state).operations_state@.dom().contains(operation@) && old(state).operations_state@[operation@].state == OperationState::ReceivedHash {
                    let m0 = old(state).operations_state@[operation@];
                    let m1 = final(state).operations_state@[operation@];
                    final(state).operations_state@ == old(state).operations_state@.insert(
                        operation@,
                        m1,
                    ) && m1.state == OperationState::Decoded && (m1.protocol_data matches Some(p)
                        && p@ == protocol_data@) && m1.block_timestamp == m0.block_timestamp
                        && m1.broadcast == m0.broadcast
                } else {
                    final(state).operations_state@ == old(state).operations_state@
                })
                &&& final(state).operation_stats@ == old(state).operation_stats@
                &&& same_heads(old(state), final(state))
                &&& same_peers(old(state), final(state))
                &&& same_rpc(old(state), final(state))
                &&& same_pools(old(state), final(state))
            },
        },
{
    if state.disabled {
        return;
    }
    match action {
        MempoolAction::PrevalidatorReady(pv) => {
            state.prevalidator = Some(pv.duplicate());
        },
        MempoolAction::BlockApplied { chain_id, block } => {
            match HeadState::new(crate::messages::copy_bytes(chain_id), block.duplicate()) {
                Some(head) => {
                    state.local_head_state = Some(head);
                },
                None => {},
            }
        },
        MempoolAction::RecvDone { address, block_hash, level } => {
            let k = address.key_bytes();
            if !state.peer_state.contains_key(&k) {
                state.peer_state.insert(k, PeerState::new());
            } else {
                proof {
                    assert(state.peer_state@.dom().insert(addr_key(*address)) =~= state.peer_state@.dom());
                }
            }
            let update = match &state.latest_current_head {
                Some((_, l)) => *level > *l,
                None => true,
            };
            if update {
                state.latest_current_head = Some(
                    (crate::messages::copy_bytes(block_hash), *level),
                );
            }
        },
        MempoolAction::OperationHashSeen { address, hash, block_time } => {
            let known = state.pending_operations.contains_key(hash)
                || state.validated_operations.ops.contains_key(hash)
                || state.validated_operations.refused_ops.contains_key(hash);
            if !known {
                let k = address.key_bytes();
                let mut peer = match state.peer_state.remove(&k) {
                    Some(p) => p,
                    None => PeerState::new(),
                };
                let ghost k0 = k@;
                peer.requesting_full_content.insert(crate::messages::copy_bytes(hash));
                peer.seen_operations.insert(crate::messages::copy_bytes(hash));
                state.peer_state.insert(k, peer);
                proof {
                    assert(state.peer_state@ =~= old(state).peer_state@.insert(
                        k0,
                        state.peer_state@[k0],
                    ));
                }
                if *block_time <= 18_446_744_073 {
                    let record = MempoolOperation::received(*block_time, meta);
                    state.operations_state.insert(crate::messages::copy_bytes(hash), record);
                }
            }
        },
        MempoolAction::GetOperationsPending { address } => {
            drain_requested(state, address);
        },
        MempoolAction::OperationRecvDone { address, operation } => {
            let h = crate::hash::operation_hash(operation);
            let k = address.key_bytes();
            match state.peer_state.remove(&k) {
                Some(mut peer) => {
                    let ghost k0 = k@;
                    peer.pending_full_content.remove(&h);
                    state.peer_state.insert(k, peer);
                    proof {
                        assert(state.peer_state@ =~= old(state).peer_state@.insert(
                            k0,
                            state.peer_state@[k0],
                        ));
                    }
                },
                None => {
                    proof {
                        assert(old(state).peer_state@.remove(k@) =~= old(state).peer_state@);
                    }
                },
            }
            if !state.validated_operations.ops.contains_key(&h)
                && !state.validated_operations.refused_ops.contains_key(&h) {
                state.pending_operations.insert(h, operation.duplicate());
            }
        },
        MempoolAction::OperationInject { operation, operation_hash, rpc_id } => {
            if !state.validated_operations.ops.contains_key(operation_hash)
                && !state.validated_operations.refused_ops.contains_key(operation_hash) {
                state.injecting_rpc_ids.insert(
                    crate::messages::copy_bytes(operation_hash),
                    *rpc_id,
                );
                state.pending_operations.insert(
                    crate::messages::copy_bytes(operation_hash),
                    operation.duplicate(),
                );
            }
        },
        MempoolAction::ValidateWaitPrevalidator { operation } => {
            state.wait_prevalidator_operations.push(operation.duplicate());
        },
        MempoolAction::CleanupWaitPrevalidator => {
            state.wait_prevalidator_operations.clear();
        },
        MempoolAction::OperationApplied { applied } => {
            settle_verdict(state, &applied.hash, false, OperationState::Applied, meta);
            state.validated_operations.applied.push(applied.duplicate());
        },
        MempoolAction::OperationErrored { errored, result } => {
            match result {
                OperationValidationResult::Refused => {
                    settle_verdict(state, &errored.hash, true, OperationState::Refused, meta);
                    state.validated_operations.refused.push(errored.duplicate());
                },
                OperationValidationResult::BranchRefused => {
                    settle_verdict(
                        state,
                        &errored.hash,
                        false,
                        OperationState::BranchRefused,
                        meta,
                    );
                    state.validated_operations.branch_refused.push(errored.duplicate());
                },
                OperationValidationResult::BranchDelayed => {
                    settle_verdict(
                        state,
                        &errored.hash,
                        false,
                        OperationState::BranchDelayed,
                        meta,
                    );
                    state.validated_operations.branch_delayed.push(errored.duplicate());
                },
                OperationValidationResult::Applied => {},
            }
        },
        MempoolAction::PrecheckerApplied { applied } => {
            settle_verdict(state, &applied.hash, false, OperationState::Prechecked, meta);
            state.validated_operations.applied.push(applied.duplicate());
        },
        MempoolAction::PrecheckerRefused { errored } => {
            settle_verdict(state, &errored.hash, true, OperationState::PrecheckRefused, meta);
            state.validated_operations.refused.push(errored.duplicate());
        },
        MempoolAction::RpcRespond => {
            state.injected_rpc_ids.clear();
        },
        MempoolAction::BroadcastDone { address, hash } => {
            let k = address.key_bytes();
            match state.peer_state.remove(&k) {
                Some(mut peer) => {
                    let ghost k0 = k@;
                    peer.seen_operations.insert(crate::messages::copy_bytes(hash));
                    state.peer_state.insert(k, peer);
                    proof {
                        assert(state.peer_state@ =~= old(state).peer_state@.insert(
                            k0,
                            state.peer_state@[k0],
                        ));
                    }
                },
                None => {
                    proof {
                        assert(old(state).peer_state@.remove(k@) =~= old(state).peer_state@);
                    }
                },
            }
            let advance = match state.operations_state.get(hash) {
                Some(record) => {
                    if record.state == OperationState::Prechecked || record.state
                        == OperationState::Applied {
                        Some(record.broadcast(meta))
                    } else {
                        None
                    }
                },
                None => None,
            };
            match advance {
                Some(record) => {
                    state.operations_state.insert(crate::messages::copy_bytes(hash), record);
                },
                None => {},
            }
        },
        MempoolAction::OperationDecoded { operation, protocol_data } => {
            let advance = match state.operations_state.get(operation) {
                Some(record) => {
                    if record.state == OperationState::ReceivedHash {
                        Some(record.decoded(protocol_data, meta))
                    } else {
                        None
                    }
                },
                None => None,
            };
            match advance {
                Some(record) => {
                    state.operations_state.insert(
                        crate::messages::copy_bytes(operation),
                        record,
                    );
                },
                None => {},
            }
        },
    }
}

/// Moves a peer's requested hashes into its awaiting set and empties the
/// request set, for the peer we are about to send a content request to.
fn drain_requested(state: &mut MempoolState, address: &PeerAddress)
    requires
        old(state).wf(),
    ensures
        final(state).wf(),
        (if old(state).peer_state@.dom().contains(addr_key(*address)) {
            let p0 = old(state).peer_state@[addr_key(*address)];
            let p1 = final(state).peer_state@[addr_key(*address)];
            final(state).peer_state@ == old(state).peer_state@.insert(addr_key(*address), p1)
                && p1.requesting_full_content@ == Set::<Seq<u8>>::empty()
                && p1.pending_full_content@ == p0.pending_full_content@.union(
                p0.requesting_full_content@,
            ) && p1.seen_operations@ == p0.seen_operations@
        } else {
            final(state).peer_state@ == old(state).peer_state@
        }),
        final(state).pending_full_content@ == old(state).pending_full_content@,
        same_heads(old(state), final(state)),
        same_rpc(old(state), final(state)),
        same_pools(old(state), final(state)),
        same_records(old(state), final(state)),
{
    let k = address.key_bytes();
    let taken = state.peer_state.remove(&k);
    match taken {
        Some(mut peer) => {
            let ghost k0 = k@;
            proof {
                peer.requesting_full_content.lemma_finite();
            }
            let moved = peer.requesting_full_content.elements();
            let mut i: usize = 0;
            let ghost peer_init = peer;
            let ghost req0 = peer.requesting_full_content@;
            let ghost pend0 = peer.pending_full_content@;
            proof {
                assert(views_of(moved@.take(0)) =~= Set::<Seq<u8>>::empty());
                assert(pend0.union(views_of(moved@.take(0))) =~= pend0);
            }
            while i < moved.len()
                invariant
                    i <= moved@.len(),
                    peer.pending_full_content.wf(),
                    peer.pending_full_content@ == pend0.union(views_of(moved@.take(i as int))),
                    peer.requesting_full_content == peer_init.requesting_full_content,
                    peer.seen_operations == peer_init.seen_operations,
                decreases moved@.len() - i,
            {
                peer.pending_full_content.insert(crate::messages::copy_bytes(&moved[i]));
                proof {
                    lemma_views_of_take(moved@, i as int);
                    assert(peer.pending_full_content@ =~= pend0.union(
                        views_of(moved@.take(i as int + 1)),
                    ));
                }
                i = i + 1;
            }
            proof {
                assert(moved@.take(moved@.len() as int) =~= moved@);
                assert(views_of(moved@) =~= req0) by {
                    assert forall|x: Seq<u8>| views_of(moved@).contains(x) implies req0.contains(
                        x,
                    ) by {
                        let j = choose|j: int| 0 <= j < moved@.len() && #[trigger] moved@[j]@ == x;
                    }
                    assert forall|x: Seq<u8>| req0.contains(x) implies views_of(moved@).contains(
                        x,
                    ) by {
                        crate::assoc::lemma_elements_complete(moved@, req0, x);
                    }
                }
            }
            let mut fresh = KeySet::new();
            core::mem::swap(&mut peer.requesting_full_content, &mut fresh);
            let ghost peer_v = peer;
            state.peer_state.insert(k, peer);
            proof {
                assert(old(state).peer_state@[k0].wf());
                assert(state.peer_state@[k0] == peer_v);
                assert(peer_v.wf());
                assert(state.peer_state@ =~= old(state).peer_state@.insert(
                    k0,
                    state.peer_state@[k0],
                ));
                assert forall|kk: Seq<u8>| state.peer_state@.dom().contains(kk) implies (
                #[trigger] state.peer_state@[kk]).wf() by {
                    if kk != k0 {
                        assert(state.peer_state@[kk] == old(state).peer_state@[kk]);
                    }
                }
            }
        },
        None => {
            proof {
                assert(old(state).peer_state@.remove(k@) =~= old(state).peer_state@);
                assert(state.peer_state@ =~= old(state).peer_state@);
            }
        },
    }
}

/// Taking one more element extends the set of views by that element.
proof fn lemma_views_of_take(elems: Seq<Vec<u8>>, i: int)
    requires
        0 <= i < elems.len(),
    ensures
        views_of(elems.take(i + 1)) == views_of(elems.take(i)).insert(elems[i]@),
{
    assert forall|x: Seq<u8>| views_of(elems.take(i + 1)).contains(x) implies views_of(
        elems.take(i),
    ).insert(elems[i]@).contains(x) by {
        let j = choose|j: int| 0 <= j < elems.take(i + 1).len() && #[trigger] elems.take(i + 1)[j]@
            == x;
        if j < i {
            assert(elems.take(i)[j]@ == x);
        }
    }
    assert forall|x: Seq<u8>| views_of(elems.take(i)).insert(elems[i]@).contains(x) implies views_of(
        elems.take(i + 1),
    ).contains(x) by {
        if views_of(elems.take(i)).contains(x) {
            let j = choose|j: int| 0 <= j < elems.take(i).len() && #[trigger] elems.take(i)[j]@
                == x;
            assert(elems.take(i + 1)[j]@ == x);
        } else {
            assert(elems.take(i + 1)[i]@ == x);
        }
    }
    assert(views_of(elems.take(i + 1)) =~= views_of(elems.take(i)).insert(elems[i]@));
}

} // verus!
