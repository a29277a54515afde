//! The prechecker: fast validation of endorsements at the current head
//! against cached endorsing rights, without calling the protocol runner.

use vstd::prelude::*;
use crate::assoc::KeyMap;
use crate::codec::HASH_SIZE;
use crate::mempool::ActionMeta;
use crate::messages::{copy_bytes, Operation};
use crate::wire::{val_u16, val_u32};

verus! {

/// The identity of a prechecker entry: the operation's hash, the digest of
/// its binary encoding.
pub struct Key {
    pub operation: Vec<u8>,
}

/// Size in bytes of an ed25519 signature.
pub const SIGNATURE_SIZE: usize = 64;

/// Size in bytes of an ed25519 public key.
pub const PUBLIC_KEY_SIZE: usize = 32;

/// The decoded contents of an operation, as far as the prechecker reads them:
/// whether it is an endorsement, and if so for which level and slot.
pub struct OperationDecodedContents {
    pub branch: Vec<u8>,
    pub is_endorsement: bool,
    pub level: i32,
    pub slot: u16,
}

/// What the binary encoding of an endorsement holds after the branch hash:
/// a zero tag, the four-byte level, the two-byte slot, and the signature at
/// the very end.
pub open spec fn endorsement_layout(data: Seq<u8>) -> bool {
    &&& data.len() >= 7 + SIGNATURE_SIZE
    &&& data[0] == 0u8
}

impl OperationDecodedContents {
    /// Reads what the prechecker needs from an operation's binary encoding:
    /// branch hash, then the payload whose first byte names the kind. Fails
    /// exactly when the encoding is too short to carry any payload tag.
    pub fn parse(encoding: &Vec<u8>) -> (r: Option<OperationDecodedContents>)
        ensures
            r is Some <==> encoding@.len() > HASH_SIZE,
            r matches Some(c) ==> {
                &&& c.branch@ == encoding@.take(HASH_SIZE as int)
                &&& c.is_endorsement <==> endorsement_layout(encoding@.skip(HASH_SIZE as int))
                &&& c.is_endorsement ==> c.level == val_u32(
                    encoding@[HASH_SIZE + 1],
                    encoding@[HASH_SIZE + 2],
                    encoding@[HASH_SIZE + 3],
                    encoding@[HASH_SIZE + 4],
                ) as i32 && c.slot == val_u16(encoding@[HASH_SIZE + 5], encoding@[HASH_SIZE + 6])
            },
    {
        let n = encoding.len();
        if n <= HASH_SIZE {
            return None;
        }
        let branch = crate::wire::read_bytes(encoding, 0, HASH_SIZE);
        let tag = crate::wire::read_u8(encoding, HASH_SIZE);
        let is_endorsement = tag == 0 && n - HASH_SIZE >= 7 + SIGNATURE_SIZE;
        if is_endorsement {
            let level = crate::wire::read_u32_be(encoding, HASH_SIZE + 1);
            let slot = crate::wire::read_u16_be(encoding, HASH_SIZE + 5);
            proof {
                assert(encoding@.skip(HASH_SIZE as int)[0] == encoding@[HASH_SIZE as int]);
                assert(encoding@.skip(HASH_SIZE as int).len() == encoding@.len() - HASH_SIZE);
            }
            Some(
                OperationDecodedContents {
                    branch,
                    is_endorsement: true,
                    level: #[verifier::truncate] (level as i32),
                    slot,
                },
            )
        } else {
            proof {
                assert(encoding@.skip(HASH_SIZE as int)[0] == encoding@[HASH_SIZE as int]);
                assert(encoding@.skip(HASH_SIZE as int).len() == encoding@.len() - HASH_SIZE);
            }
            Some(OperationDecodedContents { branch, is_endorsement: false, level: 0, slot: 0 })
        }
    }

    pub fn duplicate(&self) -> (r: OperationDecodedContents)
        ensures
            r.branch@ == self.branch@,
            r.is_endorsement == self.is_endorsement,
            r.level == self.level,
            r.slot == self.slot,
    {
        OperationDecodedContents {
            branch: copy_bytes(&self.branch),
            is_endorsement: self.is_endorsement,
            level: self.level,
            slot: self.slot,
        }
    }
}

/// The cached endorsing rights for one level: which delegate's public key
/// owns each slot.
pub struct EndorsingRights {
    pub level: i32,
    /// Slot, and the tagged public key of its owner; a zero tag marks an
    /// ed25519 key, any other tag a scheme the fast path does not support.
    pub slots: Vec<(u16, Vec<u8>)>,
}

/// The index of the first entry for `slot`, if any.
pub open spec fn slot_index(slots: Seq<(u16, Vec<u8>)>, slot: u16) -> Option<int>
    decreases slots.len(),
{
    if slots.len() == 0 {
        None
    } else if slots[0].0 == slot {
        Some(0int)
    } else {
        match slot_index(slots.drop_first(), slot) {
            Some(i) => Some(i + 1),
            None => None,
        }
    }
}

/// A first match at index `i` pins `slot_index` to `i`; no match anywhere
/// pins it to nothing.
pub proof fn lemma_slot_index(slots: Seq<(u16, Vec<u8>)>, slot: u16, i: int)
    ensures
        (0 <= i < slots.len() && slots[i].0 == slot && (forall|j: int|
            0 <= j < i ==> (#[trigger] slots[j]).0 != slot)) ==> slot_index(slots, slot) == Some(
            i,
        ),
        (forall|j: int| 0 <= j < slots.len() ==> (#[trigger] slots[j]).0 != slot) ==> slot_index(
            slots,
            slot,
        ) is None,
    decreases slots.len(),
{
    if slots.len() > 0 && slots[0].0 != slot {
        lemma_slot_index(slots.drop_first(), slot, i - 1);
        assert(forall|j: int| 0 <= j < slots.len() - 1 ==> (#[trigger] slots.drop_first()[j])
            == slots[j + 1]);
    }
}

impl EndorsingRights {
    /// The first entry for `slot`, if any.
    pub fn slot_owner(&self, slot: u16) -> (r: Option<&Vec<u8>>)
        ensures
            match r {
                Some(pk) => slot_index(self.slots@, slot) matches Some(i) && self.slots@[i].1@
                    == pk@,
                None => slot_index(self.slots@, slot) is None,
            },
    {
        let mut i: usize = 0;
        while i < self.slots.len()
            invariant
                i <= self.slots@.len(),
                forall|j: int| 0 <= j < i ==> (#[trigger] self.slots@[j]).0 != slot,
            decreases self.slots@.len() - i,
        {
            if self.slots[i].0 == slot {
                proof {
                    lemma_slot_index(self.slots@, slot, i as int);
                }
                return Some(&self.slots[i].1);
            }
            i = i + 1;
        }
        proof {
            lemma_slot_index(self.slots@, slot, 0);
        }
        None
    }
}

/// Whether an ed25519 signature over a message verifies under a public key;
/// it is a function of the three byte strings alone.
pub uninterp spec fn ed25519_verifies(pk: Seq<u8>, sig: Seq<u8>, msg: Seq<u8>) -> bool;

/// Relies on `ed25519_dalek::VerifyingKey::verify`: signature verification
/// depends only on the key, signature and message bytes. A byte string that
/// is no valid key or signature verifies nothing.
#[verifier::external_body]
fn ed25519_verify(pk: &Vec<u8>, sig: &Vec<u8>, msg: &Vec<u8>) -> (r: bool)
    requires
        pk@.len() == PUBLIC_KEY_SIZE,
        sig@.len() == SIGNATURE_SIZE,
    ensures
        r == ed25519_verifies(pk@, sig@, msg@),
{
    let mut pk_bytes = [0u8; 32];
    pk_bytes.copy_from_slice(pk.as_slice());
    let mut sig_bytes = [0u8; 64];
    sig_bytes.copy_from_slice(sig.as_slice());
    match ed25519_dalek::VerifyingKey::from_bytes(&pk_bytes) {
        Ok(key) => {
            let sig = ed25519_dalek::Signature::from_bytes(&sig_bytes);
            ed25519_dalek::Verifier::verify(&key, msg.as_slice(), &sig).is_ok()
        },
        Err(_) => false,
    }
}

/// The bytes an endorsement signature covers: the endorsement watermark,
/// the chain id, and the encoding up to the signature.
pub open spec fn watermarked_payload(chain_id: Seq<u8>, encoding: Seq<u8>) -> Seq<u8> {
    seq![2u8] + chain_id + encoding.take(encoding.len() - SIGNATURE_SIZE)
}

/// The outcome of the endorsement fast path.
pub enum PrecheckResult {
    /// The signature verifies under the slot owner's key.
    Applied,
    /// The endorsement is malformed, signed by the wrong key, or the slot
    /// has no owner.
    Refused,
    /// The slot owner's key uses a scheme the fast path does not support:
    /// defer to the protocol runner.
    ProtocolNeeded,
}

/// Why an endorsement was refused.
#[derive(Clone, Copy, PartialEq, Eq, Structural, Debug)]
pub enum EndorsementValidationError {
    InvalidContents,
    WrongLevel,
    NoSlotOwner,
    InvalidSignature,
}

/// Validates an endorsement against cached endorsing rights: looks up the
/// slot owner, and verifies the signature over the watermarked payload under
/// the owner's key. An owner key of an unsupported scheme defers to the
/// protocol.
pub fn validate_endorsement(
    binary_encoding: &Vec<u8>,
    chain_id: &Vec<u8>,
    contents: &OperationDecodedContents,
    rights: &EndorsingRights,
) -> (r: (PrecheckResult, Option<EndorsementValidationError>))
    ensures
        !contents.is_endorsement || binary_encoding@.len() < SIGNATURE_SIZE ==> r.0
            == PrecheckResult::Refused && r.1 == Some(EndorsementValidationError::InvalidContents),
        contents.is_endorsement && binary_encoding@.len() >= SIGNATURE_SIZE && contents.level
            != rights.level ==> r.0 == PrecheckResult::Refused && r.1 == Some(
            EndorsementValidationError::WrongLevel,
        ),
        contents.is_endorsement && binary_encoding@.len() >= SIGNATURE_SIZE && contents.level
            == rights.level ==> match slot_index(rights.slots@, contents.slot) {
            None => r.0 == PrecheckResult::Refused && r.1 == Some(
                EndorsementValidationError::NoSlotOwner,
            ),
            Some(i) => {
                let owner = rights.slots@[i].1@;
                if owner.len() == 1 + PUBLIC_KEY_SIZE && owner[0] == 0 {
                    let verified = ed25519_verifies(
                        owner.skip(1),
                        binary_encoding@.skip(binary_encoding@.len() - SIGNATURE_SIZE),
                        watermarked_payload(chain_id@, binary_encoding@),
                    );
                    &&& (verified ==> r.0 == PrecheckResult::Applied && r.1 is None)
                    &&& (!verified ==> r.0 == PrecheckResult::Refused && r.1 == Some(
                        EndorsementValidationError::InvalidSignature,
                    ))
                } else {
                    r.0 == PrecheckResult::ProtocolNeeded && r.1 is None
                }
            },
        },
{
    if !contents.is_endorsement || binary_encoding.len() < SIGNATURE_SIZE {
        return (PrecheckResult::Refused, Some(EndorsementValidationError::InvalidContents));
    }
    if contents.level != rights.level {
        return (PrecheckResult::Refused, Some(EndorsementValidationError::WrongLevel));
    }
    match rights.slot_owner(contents.slot) {
        None => (PrecheckResult::Refused, Some(EndorsementValidationError::NoSlotOwner)),
        Some(tagged_pk) => {
            if tagged_pk.len() != 1 + PUBLIC_KEY_SIZE || tagged_pk[0] != 0 {
                return (PrecheckResult::ProtocolNeeded, None);
            }
            let pk = crate::wire::read_bytes(tagged_pk, 1, PUBLIC_KEY_SIZE);
            let n = binary_encoding.len();
            let sig = crate::wire::read_bytes(binary_encoding, n - SIGNATURE_SIZE, SIGNATURE_SIZE);
            let mut msg: Vec<u8> = Vec::new();
            crate::wire::put_u8(&mut msg, 2);
            crate::wire::put_bytes(&mut msg, chain_id);
            let body = crate::wire::read_bytes(binary_encoding, 0, n - SIGNATURE_SIZE);
            crate::wire::put_bytes(&mut msg, &body);
            proof {
                assert(msg@ =~= watermarked_payload(chain_id@, binary_encoding@));
                assert(sig@ =~= binary_encoding@.skip(
                    binary_encoding@.len() - SIGNATURE_SIZE,
                ));
            }
            if ed25519_verify(&pk, &sig, &msg) {
                (PrecheckResult::Applied, None)
            } else {
                (PrecheckResult::Refused, Some(EndorsementValidationError::InvalidSignature))
            }
        },
    }
}

/// Where a prechecker entry stands.
pub enum PrecheckerOperationState {
    Init,
    PendingContentDecoding,
    DecodedContentReady { operation_decoded_contents: OperationDecodedContents },
    PendingEndorsingRights { operation_decoded_contents: OperationDecodedContents },
    EndorsingRightsReady {
        operation_decoded_contents: OperationDecodedContents,
        endorsing_rights_level: i32,
    },
    PendingOperationPrechecking {
        operation_decoded_contents: OperationDecodedContents,
        endorsing_rights_level: i32,
    },
    Applied { protocol_data: String },
    Refused { protocol_data: String, error: EndorsementValidationError },
    ProtocolNeeded,
    Error { error: String },
}

/// One operation the prechecker tracks.
pub struct PrecheckerOperation {
    pub start: u64,
    pub operation: Operation,
    pub operation_binary_encoding: Vec<u8>,
    pub state: PrecheckerOperationState,
}

/// The prechecker's state: its entries, and the head its rights refer to.
pub struct PrecheckerState {
    pub operations: KeyMap<PrecheckerOperation>,
    pub latest_block_hash: Option<Vec<u8>>,
}

impl PrecheckerState {
    pub open spec fn wf(&self) -> bool {
        self.operations.wf()
    }

    pub fn new() -> (r: PrecheckerState)
        ensures
            r.wf(),
            r.operations@ == Map::<Seq<u8>, PrecheckerOperation>::empty(),
            r.latest_block_hash is None,
    {
        PrecheckerState { operations: KeyMap::new(), latest_block_hash: None }
    }
}

/// One prechecker action.
pub enum PrecheckerAction {
    /// Track a new operation, keyed by the digest of its encoding.
    PrecheckOperationInit { key: Key, operation: Operation, operation_binary_encoding: Vec<u8> },
    /// Begin decoding the tracked operation's contents.
    DecodeOperation { key: Key },
    /// The contents were decoded.
    OperationDecoded { key: Key, contents: OperationDecodedContents },
    /// Ask the rights cache for the endorsing rights the entry needs.
    GetEndorsingRights { key: Key },
    /// The rights arrived.
    EndorsingRightsReady { key: Key, endorsing_rights_level: i32 },
    /// Run the signature check.
    ValidateEndorsement { key: Key },
    /// The check succeeded.
    EndorsementValidationApplied { key: Key, protocol_data: String },
    /// The check failed.
    EndorsementValidationRefused {
        key: Key,
        protocol_data: String,
        error: EndorsementValidationError,
    },
    /// The entry must go to the protocol runner instead.
    ProtocolNeeded { key: Key },
    /// Something failed on the way.
    Error { key: Key, error: String },
}

/// Applies one prechecker action. Every transition guards on the entry's
/// current state, as the lifecycle prescribes; a mismatched action leaves
/// the state unchanged.
pub fn prechecker_reducer(state: &mut PrecheckerState, action: &PrecheckerAction, meta: &ActionMeta)
    requires
        old(state).wf(),
    ensures
        final(state).wf(),
        final(state).latest_block_hash == old(state).latest_block_hash,
        match *action {
            PrecheckerAction::PrecheckOperationInit {
                ref key,
                ref operation,
                ref operation_binary_encoding,
            } => {
                if old(state).operations@.dom().contains(key.operation@) {
                    final(state).operations@ == old(state).operations@
                } else {
                    let e = final(state).operations@[key.operation@];
                    final(state).operations@ == old(state).operations@.insert(key.operation@, e)
                        && e.start == meta.id && e.operation@ == operation@
                        && e.operation_binary_encoding@ == operation_binary_encoding@
                        && e.state is Init
                }
            },
            PrecheckerAction::DecodeOperation { ref key } => advanced_if(
                old(state).operations@,
                final(state).operations@,
                key.operation@,
                |s0: PrecheckerOperationState| s0 is Init,
                |s1: PrecheckerOperationState| s1 is PendingContentDecoding,
            ),
            PrecheckerAction::OperationDecoded { ref key, ref contents } => advanced_if(
                old(state).operations@,
                final(state).operations@,
                key.operation@,
                |s0: PrecheckerOperationState| s0 is PendingContentDecoding,
                |s1: PrecheckerOperationState|
                    s1 matches PrecheckerOperationState::DecodedContentReady {
                        operation_decoded_contents: c,
                    } && c.branch@ == contents.branch@ && c.is_endorsement
                        == contents.is_endorsement && c.level == contents.level && c.slot
                        == contents.slot,
            ),
            PrecheckerAction::GetEndorsingRights { ref key } => advanced_if(
                old(state).operations@,
                final(state).operations@,
                key.operation@,
                |s0: PrecheckerOperationState| s0 is DecodedContentReady,
                |s1: PrecheckerOperationState| s1 is PendingEndorsingRights,
            ),
            PrecheckerAction::EndorsingRightsReady { ref key, endorsing_rights_level } => advanced_if(
                old(state).operations@,
                final(state).operations@,
                key.operation@,
                |s0: PrecheckerOperationState| s0 is PendingEndorsingRights,
                |s1: PrecheckerOperationState|
                    s1 matches PrecheckerOperationState::EndorsingRightsReady {
                        endorsing_rights_level: l,
                        ..
                    } && l == endorsing_rights_level,
            ),
            PrecheckerAction::ValidateEndorsement { ref key } => advanced_if(
                old(state).operations@,
                final(state).operations@,
                key.operation@,
                |s0: PrecheckerOperationState| s0 is EndorsingRightsReady,
                |s1: PrecheckerOperationState| s1 is PendingOperationPrechecking,
            ),
            PrecheckerAction::EndorsementValidationApplied { ref key, ref protocol_data } => advanced_if(
                old(state).operations@,
                final(state).operations@,
                key.operation@,
                |s0: PrecheckerOperationState| s0 is PendingOperationPrechecking,
                |s1: PrecheckerOperationState|
                    s1 matches PrecheckerOperationState::Applied { protocol_data: p } && p@
                        == protocol_data@,
            ),
            PrecheckerAction::EndorsementValidationRefused {
                ref key,
                ref protocol_data,
                error,
            } => advanced_if(
                old(state).operations@,
                final(state).operations@,
                key.operation@,
                |s0: PrecheckerOperationState| s0 is PendingOperationPrechecking,
                |s1: PrecheckerOperationState|
                    s1 matches PrecheckerOperationState::Refused { protocol_data: p, error: e }
                        && p@ == protocol_data@ && e == error,
            ),
            PrecheckerAction::ProtocolNeeded { ref key } => advanced_if(
                old(state).operations@,
                final(state).operations@,
                key.operation@,
                |s0: PrecheckerOperationState| s0 is DecodedContentReady
                    || s0 is PendingOperationPrechecking,
                |s1: PrecheckerOperationState| s1 is ProtocolNeeded,
            ),
            PrecheckerAction::Error { ref key, ref error } => advanced_if(
                old(state).operations@,
                final(state).operations@,
                key.operation@,
                |s0: PrecheckerOperationState| !(s0 is Error),
                |s1: PrecheckerOperationState|
                    s1 matches PrecheckerOperationState::Error { error: e } && e@ == error@,
            ),
        },
{
    match action {
        PrecheckerAction::PrecheckOperationInit { key, operation, operation_binary_encoding } => {
            if !state.operations.contains_key(&key.operation) {
                let entry = PrecheckerOperation {
                    start: meta.id,
                    operation: operation.duplicate(),
                    operation_binary_encoding: copy_bytes(operation_binary_encoding),
                    state: PrecheckerOperationState::Init,
                };
                state.operations.insert(copy_bytes(&key.operation), entry);
            }
        },
        PrecheckerAction::DecodeOperation { key } => {
            let next = match state.operations.get(&key.operation) {
                Some(e) => {
                    if matches!(e.state, PrecheckerOperationState::Init) {
                        Some(e.with_state(PrecheckerOperationState::PendingContentDecoding))
                    } else {
                        None
                    }
                },
                None => None,
            };
            put_back(state, &key.operation, next);
        },
        PrecheckerAction::OperationDecoded { key, contents } => {
            let next = match state.operations.get(&key.operation) {
                Some(e) => {
                    if matches!(e.state, PrecheckerOperationState::PendingContentDecoding) {
                        Some(
                            e.with_state(
                                PrecheckerOperationState::DecodedContentReady {
                                    operation_decoded_contents: contents.duplicate(),
                                },
                            ),
                        )
                    } else {
                        None
                    }
                },
                None => None,
            };
            put_back(state, &key.operation, next);
        },
        PrecheckerAction::GetEndorsingRights { key } => {
            let next = match state.operations.get(&key.operation) {
                Some(e) => {
                    match &e.state {
                        PrecheckerOperationState::DecodedContentReady {
                            operation_decoded_contents,
                        } => Some(
                            e.with_state(
                                PrecheckerOperationState::PendingEndorsingRights {
                                    operation_decoded_contents:
                                        operation_decoded_contents.duplicate(),
                                },
                            ),
                        ),
                        _ => None,
                    }
                },
                None => None,
            };
            put_back(state, &key.operation, next);
        },
        PrecheckerAction::EndorsingRightsReady { key, endorsing_rights_level } => {
            let next = match state.operations.get(&key.operation) {
                Some(e) => {
                    match &e.state {
                        PrecheckerOperationState::PendingEndorsingRights {
                            operation_decoded_contents,
                        } => Some(
                            e.with_state(
                                PrecheckerOperationState::EndorsingRightsReady {
                                    operation_decoded_contents:
                                        operation_decoded_contents.duplicate(),
                                    endorsing_rights_level: *endorsing_rights_level,
                                },
                            ),
                        ),
                        _ => None,
                    }
                },
                None => None,
            };
            put_back(state, &key.operation, next);
        },
        PrecheckerAction::ValidateEndorsement { key } => {
            let next = match state.operations.get(&key.operation) {
                Some(e) => {
                    match &e.state {
                        PrecheckerOperationState::EndorsingRightsReady {
                            operation_decoded_contents,
                            endorsing_rights_level,
                        } => Some(
                            e.with_state(
                                PrecheckerOperationState::PendingOperationPrechecking {
                                    operation_decoded_contents:
                                        operation_decoded_contents.duplicate(),
                                    endorsing_rights_level: *endorsing_rights_level,
                                },
                            ),
                        ),
                        _ => None,
                    }
                },
                None => None,
            };
            put_back(state, &key.operation, next);
        },
        PrecheckerAction::EndorsementValidationApplied { key, protocol_data } => {
            let next = match state.operations.get(&key.operation) {
                Some(e) => {
                    if matches!(e.state, PrecheckerOperationState::PendingOperationPrechecking { .. }) {
                        Some(
                            e.with_state(
                                PrecheckerOperationState::Applied {
                                    protocol_data: protocol_data.clone(),
                                },
                            ),
                        )
                    } else {
                        None
                    }
                },
                None => None,
            };
            put_back(state, &key.operation, next);
        },
        PrecheckerAction::EndorsementValidationRefused { key, protocol_data, error } => {
            let next = match state.operations.get(&key.operation) {
                Some(e) => {
                    if matches!(e.state, PrecheckerOperationState::PendingOperationPrechecking { .. }) {
                        Some(
                            e.with_state(
                                PrecheckerOperationState::Refused {
                                    protocol_data: protocol_data.clone(),
                                    error: *error,
                                },
                            ),
                        )
                    } else {
                        None
                    }
                },
                None => None,
            };
            put_back(state, &key.operation, next);
        },
        PrecheckerAction::ProtocolNeeded { key } => {
            let next = match state.operations.get(&key.operation) {
                Some(e) => {
                    if matches!(e.state, PrecheckerOperationState::DecodedContentReady { .. }) || matches!(e.state, PrecheckerOperationState::PendingOperationPrechecking { .. }) {
                        Some(e.with_state(PrecheckerOperationState::ProtocolNeeded))
                    } else {
                        None
                    }
                },
                None => None,
            };
            put_back(state, &key.operation, next);
        },
        PrecheckerAction::Error { key, error } => {
            let next = match state.operations.get(&key.operation) {
                Some(e) => {
                    if !matches!(e.state, PrecheckerOperationState::Error { .. }) {
                        Some(
                            e.with_state(
                                PrecheckerOperationState::Error { error: error.clone() },
                            ),
                        )
                    } else {
                        None
                    }
                },
                None => None,
            };
            put_back(state, &key.operation, next);
        },
    }
}

/// What a guarded in-place advance does to the entry map: when `k` holds an
/// entry whose state satisfies `from`, that entry keeps its identity fields
/// and its state moves to one satisfying `to`; otherwise nothing changes.
pub open spec fn advanced_if(
    a: Map<Seq<u8>, PrecheckerOperation>,
    b: Map<Seq<u8>, PrecheckerOperation>,
    k: Seq<u8>,
    from: spec_fn(PrecheckerOperationState) -> bool,
    to: spec_fn(PrecheckerOperationState) -> bool,
) -> bool {
    if a.dom().contains(k) && from(a[k].state) {
        let e0 = a[k];
        let e1 = b[k];
        b == a.insert(k, e1) && to(e1.state) && e1.start == e0.start && e1.operation@
            == e0.operation@ && e1.operation_binary_encoding@ == e0.operation_binary_encoding@
    } else {
        b == a
    }
}

impl PrecheckerOperation {
    /// The same entry with another lifecycle state.
    fn with_state(&self, state: PrecheckerOperationState) -> (r: PrecheckerOperation)
        ensures
            r.start == self.start,
            r.operation@ == self.operation@,
            r.operation_binary_encoding@ == self.operation_binary_encoding@,
            r.state == state,
    {
        PrecheckerOperation {
            start: self.start,
            operation: self.operation.duplicate(),
            operation_binary_encoding: copy_bytes(&self.operation_binary_encoding),
            state,
        }
    }
}

/// Stores an advanced entry back, if there is one.
fn put_back(state: &mut PrecheckerState, key: &Vec<u8>, next: Option<PrecheckerOperation>)
    requires
        old(state).wf(),
    ensures
        final(state).wf(),
        final(state).latest_block_hash == old(state).latest_block_hash,
        match next {
            Some(e) => final(state).operations@ == old(state).operations@.insert(key@, e),
            None => final(state).operations@ == old(state).operations@,
        },
{
    match next {
        Some(e) => {
            state.operations.insert(copy_bytes(key), e);
        },
        None => {},
    }
}

} // verus!
