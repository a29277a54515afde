//! Persistent mempool operations, modelled over an in-memory key-value
//! backing: the key schema (one type byte, then the operation hash) and the
//! store built on it.

use vstd::prelude::*;
use crate::assoc::KeyMap;
use crate::codec::{enc_operation, HASH_SIZE};
use crate::hash::blake2b_digest;
use crate::messages::{copy_bytes, OperationMessage};

verus! {

/// Which mempool list an operation sits in.
#[derive(Clone, Copy, PartialEq, Eq, Structural, Debug)]
pub enum MempoolOperationType {
    Pending,
    KnownValid,
}

pub open spec fn type_tag(t: MempoolOperationType) -> u8 {
    match t {
        MempoolOperationType::Pending => 0,
        MempoolOperationType::KnownValid => 1,
    }
}

/// The given value names no operation type.
#[derive(Clone, Copy, PartialEq, Eq, Structural, Debug)]
pub struct MempoolOperationTypeParseError(pub u8);

impl MempoolOperationType {
    pub fn to_u8(&self) -> (r: u8)
        ensures
            r == type_tag(*self),
    {
        match self {
            MempoolOperationType::Pending => 0,
            MempoolOperationType::KnownValid => 1,
        }
    }

    pub fn from_u8(num: u8) -> (r: Result<MempoolOperationType, MempoolOperationTypeParseError>)
        ensures
            num == 0 ==> r == Ok::<_, MempoolOperationTypeParseError>(
                MempoolOperationType::Pending,
            ),
            num == 1 ==> r == Ok::<_, MempoolOperationTypeParseError>(
                MempoolOperationType::KnownValid,
            ),
            num > 1 ==> r == Err::<MempoolOperationType, _>(MempoolOperationTypeParseError(num)),
    {
        match num {
            0 => Ok(MempoolOperationType::Pending),
            1 => Ok(MempoolOperationType::KnownValid),
            invalid_num => Err(MempoolOperationTypeParseError(invalid_num)),
        }
    }
}

/// A stored operation.
pub struct MempoolValue {
    pub operation: OperationMessage,
}

/// The key of a stored operation: its type byte, then its 32-byte hash.
pub struct MempoolKey {
    pub operation_type: MempoolOperationType,
    pub operation_hash: Vec<u8>,
}

pub open spec fn enc_mempool_key(t: MempoolOperationType, h: Seq<u8>) -> Seq<u8> {
    seq![type_tag(t)] + h
}

/// The stored form of a key value.
pub open spec fn stored_key(k: MempoolKey) -> Seq<u8> {
    enc_mempool_key(k.operation_type, k.operation_hash@)
}

/// Why a stored key or value cannot be used.
#[derive(Clone, Copy, PartialEq, Eq, Structural, Debug)]
pub enum SchemaError {
    EncodeError,
    DecodeError,
}

impl MempoolKey {
    /// The stored form of the key. Fails exactly when the hash has the wrong
    /// size.
    pub fn encode(&self) -> (r: Result<Vec<u8>, SchemaError>)
        ensures
            r matches Ok(b) ==> b@ == enc_mempool_key(self.operation_type, self.operation_hash@),
            r is Ok <==> self.operation_hash@.len() == HASH_SIZE,
            r matches Err(e) ==> e == SchemaError::EncodeError,
    {
        if self.operation_hash.len() == HASH_SIZE {
            let mut bytes: Vec<u8> = Vec::new();
            crate::wire::put_u8(&mut bytes, self.operation_type.to_u8());
            crate::wire::put_bytes(&mut bytes, &self.operation_hash);
            proof {
                assert(bytes@ =~= enc_mempool_key(self.operation_type, self.operation_hash@));
            }
            Ok(bytes)
        } else {
            Err(SchemaError::EncodeError)
        }
    }

    /// Reads a stored key back. Accepts exactly the encodings `encode`
    /// produces.
    pub fn decode(bytes: &Vec<u8>) -> (r: Result<MempoolKey, SchemaError>)
        ensures
            r matches Ok(k) ==> bytes@ == enc_mempool_key(k.operation_type, k.operation_hash@)
                && k.operation_hash@.len() == HASH_SIZE,
            r is Ok <==> bytes@.len() == 1 + HASH_SIZE && bytes@[0] <= 1,
    {
        if bytes.len() != 1 + HASH_SIZE {
            return Err(SchemaError::DecodeError);
        }
        let t = match MempoolOperationType::from_u8(crate::wire::read_u8(bytes, 0)) {
            Ok(t) => t,
            Err(_) => {
                return Err(SchemaError::DecodeError);
            },
        };
        let h = crate::wire::read_bytes(bytes, 1, HASH_SIZE);
        proof {
            assert(bytes@ =~= enc_mempool_key(t, h@));
        }
        Ok(MempoolKey { operation_type: t, operation_hash: h })
    }
}

/// Round trip of the key schema: decoding an encoded key yields the key.
pub proof fn lemma_mempool_key_round(t: MempoolOperationType, h: Seq<u8>)
    requires
        h.len() == HASH_SIZE,
    ensures
        enc_mempool_key(t, h).len() == 1 + HASH_SIZE,
        enc_mempool_key(t, h)[0] == type_tag(t),
        enc_mempool_key(t, h).skip(1) == h,
{
    crate::codec::lemma_parts(seq![type_tag(t)], h);
    assert(enc_mempool_key(t, h).skip(1) =~= h);
}

/// The mempool operation store, over an in-memory key-value table keyed by
/// the encoded `MempoolKey`.
pub struct MempoolStorage {
    kv: KeyMap<OperationMessage>,
}

impl MempoolStorage {
    pub closed spec fn wf(&self) -> bool {
        self.kv.wf()
    }

    /// The stored operations, by encoded key.
    pub closed spec fn table(&self) -> Map<Seq<u8>, crate::codec::OperationV> {
        self.kv@.map_values(|m: OperationMessage| m@)
    }

    pub fn new() -> (r: MempoolStorage)
        ensures
            r.wf(),
            r.table() == Map::<Seq<u8>, crate::codec::OperationV>::empty(),
    {
        let r = MempoolStorage { kv: KeyMap::new() };
        proof {
            assert(r.table() =~= Map::<Seq<u8>, crate::codec::OperationV>::empty());
        }
        r
    }

    /// Stores an operation under its hash and the given list. Fails exactly
    /// when the operation's branch hash is malformed.
    pub fn put(&mut self, operation_type: MempoolOperationType, message: OperationMessage) -> (r:
        Result<(), SchemaError>)
        requires
            old(self).wf(),
        ensures
            final(self).wf(),
            r is Ok <==> message@.branch.len() == HASH_SIZE,
            r is Ok ==> final(self).table() == old(self).table().insert(
                enc_mempool_key(
                    operation_type,
                    blake2b_digest(enc_operation(message@)),
                ),
                message@,
            ),
            r is Err ==> final(self).table() == old(self).table(),
    {
        if message.operation().branch().len() != HASH_SIZE {
            return Err(SchemaError::EncodeError);
        }
        let hash = crate::hash::operation_hash(message.operation());
        let key = MempoolKey { operation_type, operation_hash: hash };
        let encoded = match key.encode() {
            Ok(b) => b,
            Err(e) => {
                return Err(e);
            },
        };
        let ghost k0 = encoded@;
        self.kv.insert(encoded, message);
        proof {
            assert(final(self).table() =~= old(self).table().insert(
                k0,
                final(self).kv@[k0]@,
            ));
        }
        Ok(())
    }

    /// Stores an operation among the pending ones.
    pub fn put_pending(&mut self, message: OperationMessage) -> (r: Result<(), SchemaError>)
        requires
            old(self).wf(),
        ensures
            final(self).wf(),
            r is Ok <==> message@.branch.len() == HASH_SIZE,
            r is Ok ==> final(self).table() == old(self).table().insert(
                enc_mempool_key(
                    MempoolOperationType::Pending,
                    blake2b_digest(enc_operation(message@)),
                ),
                message@,
            ),
            r is Err ==> final(self).table() == old(self).table(),
    {
        self.put(MempoolOperationType::Pending, message)
    }

    /// Stores an operation among the known-valid ones.
    pub fn put_known_valid(&mut self, message: OperationMessage) -> (r: Result<(), SchemaError>)
        requires
            old(self).wf(),
        ensures
            final(self).wf(),
            r is Ok <==> message@.branch.len() == HASH_SIZE,
            r is Ok ==> final(self).table() == old(self).table().insert(
                enc_mempool_key(
                    MempoolOperationType::KnownValid,
                    blake2b_digest(enc_operation(message@)),
                ),
                message@,
            ),
            r is Err ==> final(self).table() == old(self).table(),
    {
        self.put(MempoolOperationType::KnownValid, message)
    }

    /// Looks an operation up under one list.
    pub fn get(&self, operation_type: MempoolOperationType, operation_hash: &Vec<u8>) -> (r: Option<
        &OperationMessage,
    >)
        requires
            self.wf(),
        ensures
            match r {
                Some(m) => self.table().dom().contains(
                    enc_mempool_key(operation_type, operation_hash@),
                ) && self.table()[enc_mempool_key(operation_type, operation_hash@)] == m@,
                None => !self.table().dom().contains(
                    enc_mempool_key(operation_type, operation_hash@),
                ),
            },
    {
        let mut key: Vec<u8> = Vec::new();
        crate::wire::put_u8(&mut key, operation_type.to_u8());
        crate::wire::put_bytes(&mut key, operation_hash);
        proof {
            assert(key@ =~= enc_mempool_key(operation_type, operation_hash@));
        }
        self.kv.get(&key)
    }

    /// Removes an operation from both lists.
    pub fn delete(&mut self, operation_hash: &Vec<u8>)
        requires
            old(self).wf(),
        ensures
            final(self).wf(),
            final(self).table() == old(self).table().remove(
                enc_mempool_key(MempoolOperationType::Pending, operation_hash@),
            ).remove(enc_mempool_key(MempoolOperationType::KnownValid, operation_hash@)),
    {
        let mut key: Vec<u8> = Vec::new();
        crate::wire::put_u8(&mut key, 0);
        crate::wire::put_bytes(&mut key, operation_hash);
        proof {
            assert(key@ =~= enc_mempool_key(MempoolOperationType::Pending, operation_hash@));
        }
        let _ = self.kv.remove(&key);
        let mut key2: Vec<u8> = Vec::new();
        crate::wire::put_u8(&mut key2, 1);
        crate::wire::put_bytes(&mut key2, operation_hash);
        proof {
            assert(key2@ =~= enc_mempool_key(MempoolOperationType::KnownValid, operation_hash@));
        }
        let _ = self.kv.remove(&key2);
        proof {
            assert(final(self).table() =~= old(self).table().remove(
                enc_mempool_key(MempoolOperationType::Pending, operation_hash@),
            ).remove(enc_mempool_key(MempoolOperationType::KnownValid, operation_hash@)));
        }
    }

    /// Walks both lists: every stored operation under its decoded key, and
    /// nothing else. Fails exactly when some stored key is not a well-formed
    /// mempool key.
    pub fn iter(&self) -> (r: Result<Vec<(MempoolKey, OperationMessage)>, SchemaError>)
        requires
            self.wf(),
        ensures
            (r matches Ok(v) ==> {
                &&& v@.len() == self.table().dom().len()
                &&& forall|i: int|
                    0 <= i < v@.len() ==> #[trigger] self.table().dom().contains(
                        stored_key(v@[i].0),
                    ) && self.table()[stored_key(v@[i].0)] == (v@[i].1)@
                &&& forall|k: Seq<u8>| #[trigger]
                    self.table().dom().contains(k) ==> exists|i: int|
                        0 <= i < v@.len() && #[trigger] stored_key(v@[i].0) == k
            }),
            (r matches Err(e) ==> e == SchemaError::DecodeError && exists|k: Seq<u8>| #[trigger]
                self.table().dom().contains(k) && !(k.len() == 1 + HASH_SIZE && k[0] <= 1)),
    {
        proof {
            self.kv.lemma_finite_dom();
            assert(self.table().dom() =~= self.kv@.dom());
        }
        let keys = self.kv.keys();
        let mut out: Vec<(MempoolKey, OperationMessage)> = Vec::new();
        let mut i: usize = 0;
        while i < keys.len()
            invariant
                self.wf(),
                i <= keys@.len(),
                self.table().dom() =~= self.kv@.dom(),
                keys@.len() == self.kv@.dom().len(),
                forall|j: int| 0 <= j < keys@.len() ==> self.kv@.dom().contains(#[trigger] keys@[j]@),
                forall|j: int, l: int| 0 <= j < l < keys@.len() ==> keys@[j]@ != keys@[l]@,
                out@.len() == i,
                forall|j: int|
                    0 <= j < i ==> #[trigger] stored_key(out@[j].0) == keys@[j]@ && (out@[j].1)@
                        == self.table()[keys@[j]@],
            decreases keys@.len() - i,
        {
            match MempoolKey::decode(&keys[i]) {
                Ok(mk) => {
                    match self.kv.get(&keys[i]) {
                        Some(m) => {
                            out.push(
                                (mk, OperationMessage::new(m.operation().duplicate())),
                            );
                        },
                        None => {
                            proof {
                                assert(false);
                            }
                            return Err(SchemaError::DecodeError);
                        },
                    }
                },
                Err(_) => {
                    return Err(SchemaError::DecodeError);
                },
            }
            i = i + 1;
        }
        proof {
            assert forall|k: Seq<u8>| #[trigger] self.table().dom().contains(k) implies exists|
                j: int,
            | 0 <= j < out@.len() && #[trigger] stored_key(out@[j].0) == k by {
                crate::assoc::lemma_elements_complete(keys@, self.kv@.dom(), k);
                let j = choose|j: int| 0 <= j < keys@.len() && #[trigger] keys@[j]@ == k;
                assert(stored_key(out@[j].0) == k);
            }
        }
        Ok(out)
    }

    /// Finds an operation in either list, pending first.
    pub fn find(&self, operation_hash: &Vec<u8>) -> (r: Option<&OperationMessage>)
        requires
            self.wf(),
        ensures
            match r {
                Some(m) => {
                    ||| (self.table().dom().contains(
                        enc_mempool_key(MempoolOperationType::Pending, operation_hash@),
                    ) && self.table()[enc_mempool_key(
                        MempoolOperationType::Pending,
                        operation_hash@,
                    )] == m@)
                    ||| (self.table().dom().contains(
                        enc_mempool_key(MempoolOperationType::KnownValid, operation_hash@),
                    ) && self.table()[enc_mempool_key(
                        MempoolOperationType::KnownValid,
                        operation_hash@,
                    )] == m@)
                },
                None => !self.table().dom().contains(
                    enc_mempool_key(MempoolOperationType::Pending, operation_hash@),
                ) && !self.table().dom().contains(
                    enc_mempool_key(MempoolOperationType::KnownValid, operation_hash@),
                ),
            },
    {
        match self.get(MempoolOperationType::Pending, operation_hash) {
            Some(found) => Some(found),
            None => self.get(MempoolOperationType::KnownValid, operation_hash),
        }
    }
}

} // verus!
