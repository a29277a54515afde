//! Specification of the peer wire format: ghost message values, encoding
//! functions, decoding functions, and the proofs that decoding inverts
//! encoding. The executable message types and their encoders live in
//! `messages`; their contracts are stated over the functions defined here.
//!
//! Every decoder consumes a byte sequence from the front and reports how many
//! bytes it took, so composite decoders peel fields one after another. Lists
//! written without a length prefix run to the end of the enclosing
//! length-prefixed block, as the wire format prescribes.

use vstd::prelude::*;
use vstd::utf8::{decode_utf8, encode_utf8, valid_utf8};
use crate::wire::{be_u16, be_u32, be_u64, val_u16, val_u32, val_u64};
use crate::wire::{lemma_be_u16_round, lemma_be_u32_round, lemma_be_u64_round};

verus! {

/// Bytes of the length field that precedes every chunk on the wire.
pub const CONTENT_LENGTH_FIELD_BYTES: usize = 2;

/// Largest content a single chunk can carry.
pub const CONTENT_LENGTH_MAX: usize = 65535;

/// Largest number of addresses an advertisement may carry.
pub const ADVERTISE_ID_LIST_MAX_LENGTH: usize = 100;

/// Largest encoded size of one peer address.
pub const P2P_POINT_MAX_SIZE: usize = 47;

/// Largest number of alternative peers a nack may suggest.
pub const NACK_PEERS_MAX_LENGTH: usize = 100;

/// Largest encoded size of one operation, branch hash included.
pub const OPERATION_MAX_SIZE: usize = 131072;

/// Size in bytes of block, operation and context hashes.
pub const HASH_SIZE: usize = 32;

/// Size in bytes of a chain identifier.
pub const CHAIN_ID_SIZE: usize = 4;

/// Size in bytes of a peer's public key hash.
pub const PKH_SIZE: usize = 16;

// ---------------------------------------------------------------------------
// Primitive decoders. Each returns the decoded value and the number of bytes
// consumed from the front of `s`.
// ---------------------------------------------------------------------------

pub open spec fn dec_u8(s: Seq<u8>) -> Option<(u8, int)> {
    if s.len() >= 1 {
        Some((s[0], 1int))
    } else {
        None
    }
}

pub open spec fn dec_u16(s: Seq<u8>) -> Option<(u16, int)> {
    if s.len() >= 2 {
        Some((val_u16(s[0], s[1]), 2int))
    } else {
        None
    }
}

pub open spec fn dec_u32(s: Seq<u8>) -> Option<(u32, int)> {
    if s.len() >= 4 {
        Some((val_u32(s[0], s[1], s[2], s[3]), 4int))
    } else {
        None
    }
}

pub open spec fn dec_u64(s: Seq<u8>) -> Option<(u64, int)> {
    if s.len() >= 8 {
        Some((val_u64(s[0], s[1], s[2], s[3], s[4], s[5], s[6], s[7]), 8int))
    } else {
        None
    }
}

/// Takes exactly `n` raw bytes.
pub open spec fn dec_fix(s: Seq<u8>, n: int) -> Option<(Seq<u8>, int)> {
    if 0 <= n <= s.len() {
        Some((s.take(n), n))
    } else {
        None
    }
}

/// A length-prefixed block: four length bytes, then that many content bytes.
pub open spec fn enc_dyn(inner: Seq<u8>) -> Seq<u8> {
    be_u32(inner.len() as u32) + inner
}

pub open spec fn wf_dyn(inner: Seq<u8>) -> bool {
    inner.len() <= u32::MAX
}

/// Yields the content of the length-prefixed block at the front of `s`.
pub open spec fn dec_dyn(s: Seq<u8>) -> Option<(Seq<u8>, int)> {
    match dec_u32(s) {
        Some((n, _)) => {
            if 4 + n as int <= s.len() {
                Some((s.subrange(4, 4 + n as int), 4 + n as int))
            } else {
                None
            }
        },
        None => None,
    }
}

// ---------------------------------------------------------------------------
// Concatenation lemmas used to peel fields off a composite encoding.
// ---------------------------------------------------------------------------

pub proof fn lemma_parts(a: Seq<u8>, b: Seq<u8>)
    ensures
        (a + b).take(a.len() as int) == a,
        (a + b).skip(a.len() as int) == b,
        (a + b).len() == a.len() + b.len(),
{
    assert((a + b).take(a.len() as int) =~= a);
    assert((a + b).skip(a.len() as int) =~= b);
}

pub proof fn lemma_dec_u8(v: u8, rest: Seq<u8>)
    ensures
        dec_u8(seq![v] + rest) == Some((v, 1int)),
{
    let s = seq![v] + rest;
    assert(s[0] == v);
}

pub proof fn lemma_dec_u16(v: u16, rest: Seq<u8>)
    ensures
        dec_u16(be_u16(v) + rest) == Some((v, 2int)),
{
    let s = be_u16(v) + rest;
    lemma_be_u16_round(v);
    assert(s[0] == be_u16(v)[0] && s[1] == be_u16(v)[1]);
}

pub proof fn lemma_dec_u32(v: u32, rest: Seq<u8>)
    ensures
        dec_u32(be_u32(v) + rest) == Some((v, 4int)),
{
    let s = be_u32(v) + rest;
    lemma_be_u32_round(v);
    assert(s[0] == be_u32(v)[0] && s[1] == be_u32(v)[1] && s[2] == be_u32(v)[2] && s[3] == be_u32(
        v,
    )[3]);
}

pub proof fn lemma_dec_u64(v: u64, rest: Seq<u8>)
    ensures
        dec_u64(be_u64(v) + rest) == Some((v, 8int)),
{
    let s = be_u64(v) + rest;
    lemma_be_u64_round(v);
    assert(s[0] == be_u64(v)[0] && s[1] == be_u64(v)[1] && s[2] == be_u64(v)[2] && s[3] == be_u64(
        v,
    )[3] && s[4] == be_u64(v)[4] && s[5] == be_u64(v)[5] && s[6] == be_u64(v)[6] && s[7] == be_u64(
        v,
    )[7]);
}

pub proof fn lemma_dec_fix(b: Seq<u8>, rest: Seq<u8>)
    ensures
        dec_fix(b + rest, b.len() as int) == Some((b, b.len() as int)),
{
    assert((b + rest).take(b.len() as int) =~= b);
}
#[verifier::rlimit(100)]
#[verifier::spinoff_prover]
pub proof fn lemma_dec_dyn(inner: Seq<u8>, rest: Seq<u8>)
    requires
        wf_dyn(inner),
    ensures
        dec_dyn(enc_dyn(inner) + rest) == Some((inner, 4 + inner.len() as int)),
{
    let s = enc_dyn(inner) + rest;
    assert(s =~= be_u32(inner.len() as u32) + (inner + rest));
    lemma_dec_u32(inner.len() as u32, inner + rest);
    assert(dec_u32(s) == Some((inner.len() as u32, 4int)));
    assert(s.subrange(4, 4 + inner.len() as int) =~= inner);
}

// ---------------------------------------------------------------------------
// Strings: a length-prefixed UTF-8 block.
// ---------------------------------------------------------------------------

pub open spec fn enc_str(sv: Seq<char>) -> Seq<u8> {
    enc_dyn(encode_utf8(sv))
}

/// A peer address as carried in advertisements and nacks.
pub open spec fn wf_point(sv: Seq<char>) -> bool {
    encode_utf8(sv).len() <= P2P_POINT_MAX_SIZE
}

pub open spec fn dec_str(s: Seq<u8>) -> Option<(Seq<char>, int)> {
    match dec_dyn(s) {
        Some((b, n)) => {
            if valid_utf8(b) {
                Some((decode_utf8(b), n))
            } else {
                None
            }
        },
        None => None,
    }
}
#[verifier::rlimit(100)]
#[verifier::spinoff_prover]
pub proof fn lemma_dec_str(sv: Seq<char>, rest: Seq<u8>)
    requires
        wf_dyn(encode_utf8(sv)),
    ensures
        dec_str(enc_str(sv) + rest) == Some((sv, enc_str(sv).len() as int)),
        enc_str(sv).len() == 4 + encode_utf8(sv).len(),
{
    let b = encode_utf8(sv);
    lemma_dec_dyn(b, rest);
    assert(dec_dyn(enc_str(sv) + rest) == Some((b, 4 + b.len() as int)));
    vstd::utf8::encode_utf8_valid_utf8(sv);
    vstd::utf8::encode_utf8_decode_utf8(sv);
    assert(valid_utf8(b));
    assert(decode_utf8(b) == sv);
    lemma_parts(be_u32(b.len() as u32), b);
    assert(enc_str(sv).len() == 4 + b.len());
}

// A run of length-prefixed strings filling its enclosing block.

pub open spec fn enc_strs(ss: Seq<Seq<char>>) -> Seq<u8>
    decreases ss.len(),
{
    if ss.len() == 0 {
        Seq::empty()
    } else {
        enc_str(ss[0]) + enc_strs(ss.drop_first())
    }
}

pub open spec fn dec_strs(s: Seq<u8>) -> Option<Seq<Seq<char>>>
    decreases s.len(),
{
    if s.len() == 0 {
        Some(Seq::empty())
    } else {
        match dec_str(s) {
            Some((sv, n)) => {
                if 0 < n <= s.len() {
                    match dec_strs(s.skip(n)) {
                        Some(t) => Some(seq![sv] + t),
                        None => None,
                    }
                } else {
                    None
                }
            },
            None => None,
        }
    }
}

pub open spec fn wf_points(ss: Seq<Seq<char>>) -> bool {
    forall|i: int| 0 <= i < ss.len() ==> wf_point(#[trigger] ss[i])
}
#[verifier::rlimit(100)]
#[verifier::spinoff_prover]
pub proof fn lemma_dec_strs(ss: Seq<Seq<char>>, )
    requires
        wf_points(ss),
    ensures
        dec_strs(enc_strs(ss)) == Some(ss),
    decreases ss.len(),
{
    if ss.len() == 0 {
        assert(dec_strs(enc_strs(ss)) == Some(Seq::<Seq<char>>::empty()));
        assert(Seq::<Seq<char>>::empty() =~= ss);
    } else {
        let head = ss[0];
        let tail = ss.drop_first();
        let e = enc_strs(ss);
        assert(e == enc_str(head) + enc_strs(tail));
        lemma_dec_str(head, enc_strs(tail));
        lemma_parts(enc_str(head), enc_strs(tail));
        let n = enc_str(head).len() as int;
        assert(e.skip(n) == enc_strs(tail));
        assert(wf_points(tail));
        lemma_dec_strs(tail);
        assert(seq![head] + tail =~= ss);
    }
}

// ---------------------------------------------------------------------------
// Hashes and runs of hashes.
// ---------------------------------------------------------------------------

pub open spec fn wf_hash(h: Seq<u8>) -> bool {
    h.len() == HASH_SIZE
}

pub open spec fn wf_chain_id(c: Seq<u8>) -> bool {
    c.len() == CHAIN_ID_SIZE
}

pub open spec fn dec_hash(s: Seq<u8>) -> Option<(Seq<u8>, int)> {
    dec_fix(s, HASH_SIZE as int)
}

pub proof fn lemma_dec_hash(h: Seq<u8>, rest: Seq<u8>)
    requires
        wf_hash(h),
    ensures
        dec_hash(h + rest) == Some((h, HASH_SIZE as int)),
{
    lemma_dec_fix(h, rest);
}

/// A run of 32-byte hashes filling its enclosing block.
pub open spec fn enc_hashes(hs: Seq<Seq<u8>>) -> Seq<u8>
    decreases hs.len(),
{
    if hs.len() == 0 {
        Seq::empty()
    } else {
        hs[0] + enc_hashes(hs.drop_first())
    }
}

pub open spec fn wf_hashes(hs: Seq<Seq<u8>>) -> bool {
    forall|i: int| 0 <= i < hs.len() ==> wf_hash(#[trigger] hs[i])
}

pub open spec fn dec_hashes(s: Seq<u8>) -> Option<Seq<Seq<u8>>>
    decreases s.len(),
{
    if s.len() == 0 {
        Some(Seq::empty())
    } else if s.len() >= HASH_SIZE {
        match dec_hashes(s.skip(HASH_SIZE as int)) {
            Some(t) => Some(seq![s.take(HASH_SIZE as int)] + t),
            None => None,
        }
    } else {
        None
    }
}
#[verifier::rlimit(100)]
#[verifier::spinoff_prover]
pub proof fn lemma_dec_hashes(hs: Seq<Seq<u8>>)
    requires
        wf_hashes(hs),
    ensures
        dec_hashes(enc_hashes(hs)) == Some(hs),
        enc_hashes(hs).len() == HASH_SIZE * hs.len(),
    decreases hs.len(),
{
    if hs.len() == 0 {
        assert(Seq::<Seq<u8>>::empty() =~= hs);
    } else {
        let head = hs[0];
        let tail = hs.drop_first();
        let e = enc_hashes(hs);
        assert(e == head + enc_hashes(tail));
        lemma_parts(head, enc_hashes(tail));
        assert(wf_hashes(tail));
        lemma_dec_hashes(tail);
        assert(e.skip(HASH_SIZE as int) == enc_hashes(tail));
        assert(e.take(HASH_SIZE as int) == head);
        assert(seq![head] + tail =~= hs);
    }
}

// ---------------------------------------------------------------------------
// Operations.
// ---------------------------------------------------------------------------

/// An operation on the wire: the hash of the branch it extends, then its
/// protocol payload, running to the end of the enclosing block.
pub struct OperationV {
    pub branch: Seq<u8>,
    pub data: Seq<u8>,
}

pub open spec fn wf_operation(op: OperationV) -> bool {
    &&& wf_hash(op.branch)
    &&& HASH_SIZE + op.data.len() <= OPERATION_MAX_SIZE
}

pub open spec fn enc_operation(op: OperationV) -> Seq<u8> {
    op.branch + op.data
}

/// Consumes the whole of `s`; anything longer than the configured maximum is
/// rejected.
pub open spec fn dec_operation(s: Seq<u8>) -> Option<OperationV> {
    if HASH_SIZE <= s.len() <= OPERATION_MAX_SIZE {
        Some(OperationV { branch: s.take(HASH_SIZE as int), data: s.skip(HASH_SIZE as int) })
    } else {
        None
    }
}
#[verifier::rlimit(100)]
#[verifier::spinoff_prover]
pub proof fn lemma_dec_operation(op: OperationV)
    requires
        wf_operation(op),
    ensures
        dec_operation(enc_operation(op)) == Some(op),
        enc_operation(op).len() <= OPERATION_MAX_SIZE,
{
    lemma_parts(op.branch, op.data);
    assert(enc_operation(op).take(HASH_SIZE as int) == op.branch);
    assert(enc_operation(op).skip(HASH_SIZE as int) == op.data);
}

/// The size law of operations: a well-formed operation encodes to at most
/// the configured maximum, and decoding rejects anything larger.
pub proof fn lemma_operation_size(op: OperationV, s: Seq<u8>)
    ensures
        wf_operation(op) ==> enc_operation(op).len() <= OPERATION_MAX_SIZE,
        s.len() > OPERATION_MAX_SIZE ==> dec_operation(s) is None,
{
    if wf_operation(op) {
        lemma_parts(op.branch, op.data);
    }
}

/// One operation of a run, framed by its own length prefix.
pub open spec fn enc_operation_item(op: OperationV) -> Seq<u8> {
    enc_dyn(enc_operation(op))
}

pub open spec fn dec_operation_item(s: Seq<u8>) -> Option<(OperationV, int)> {
    match dec_dyn(s) {
        Some((c, n)) => match dec_operation(c) {
            Some(op) => Some((op, n)),
            None => None,
        },
        None => None,
    }
}

#[verifier::rlimit(100)]
#[verifier::spinoff_prover]
pub proof fn lemma_dec_operation_item(op: OperationV, rest: Seq<u8>)
    requires
        wf_operation(op),
    ensures
        dec_operation_item(enc_operation_item(op) + rest) == Some(
            (op, enc_operation_item(op).len() as int),
        ),
        enc_operation_item(op).len() == 4 + enc_operation(op).len(),
{
    let c = enc_operation(op);
    let e = enc_operation_item(op) + rest;
    assert(dec_operation_item(e) == Some((op, 4 + c.len() as int))) by {
        lemma_dec_operation(op);
        lemma_dec_dyn(c, rest);
    }
    assert(enc_operation_item(op).len() == 4 + c.len()) by {
        lemma_parts(be_u32(c.len() as u32), c);
    }
}

/// A run of length-prefixed operations filling its enclosing block.
pub open spec fn enc_operations(ops: Seq<OperationV>) -> Seq<u8>
    decreases ops.len(),
{
    if ops.len() == 0 {
        Seq::empty()
    } else {
        enc_operation_item(ops[0]) + enc_operations(ops.drop_first())
    }
}

pub open spec fn wf_operations(ops: Seq<OperationV>) -> bool {
    forall|i: int| 0 <= i < ops.len() ==> wf_operation(#[trigger] ops[i])
}

pub open spec fn dec_operations(s: Seq<u8>) -> Option<Seq<OperationV>>
    decreases s.len(),
{
    if s.len() == 0 {
        Some(Seq::empty())
    } else {
        match dec_operation_item(s) {
            Some((op, n)) => {
                if 0 < n <= s.len() {
                    match dec_operations(s.skip(n)) {
                        Some(t) => Some(seq![op] + t),
                        None => None,
                    }
                } else {
                    None
                }
            },
            None => None,
        }
    }
}

#[verifier::rlimit(100)]
#[verifier::spinoff_prover]
pub proof fn lemma_dec_operations(ops: Seq<OperationV>)
    requires
        wf_operations(ops),
    ensures
        dec_operations(enc_operations(ops)) == Some(ops),
    decreases ops.len(),
{
    if ops.len() == 0 {
        assert(Seq::<OperationV>::empty() =~= ops);
    } else {
        let head = ops[0];
        let tail = ops.drop_first();
        let e = enc_operations(ops);
        assert(e == enc_operation_item(head) + enc_operations(tail));
        lemma_dec_operation_item(head, enc_operations(tail));
        lemma_parts(enc_operation_item(head), enc_operations(tail));
        assert(e.skip(enc_operation_item(head).len() as int) == enc_operations(tail));
        assert(wf_operations(tail));
        lemma_dec_operations(tail);
        assert(seq![head] + tail =~= ops);
    }
}


// ---------------------------------------------------------------------------
// Operations-for-block queries: a block hash and a validation pass index.
// ---------------------------------------------------------------------------

pub struct OperationsForBlockV {
    pub hash: Seq<u8>,
    pub validation_pass: i8,
}

pub open spec fn wf_ops_for_block(q: OperationsForBlockV) -> bool {
    wf_hash(q.hash)
}

pub open spec fn enc_ops_for_block(q: OperationsForBlockV) -> Seq<u8> {
    q.hash + seq![q.validation_pass as u8]
}

pub open spec fn dec_ops_for_block(s: Seq<u8>) -> Option<(OperationsForBlockV, int)> {
    if s.len() >= 33 {
        Some(
            (
                OperationsForBlockV {
                    hash: s.take(HASH_SIZE as int),
                    validation_pass: s[HASH_SIZE as int] as i8,
                },
                33int,
            ),
        )
    } else {
        None
    }
}
#[verifier::rlimit(100)]
#[verifier::spinoff_prover]
pub proof fn lemma_dec_ops_for_block(q: OperationsForBlockV, rest: Seq<u8>)
    requires
        wf_ops_for_block(q),
    ensures
        dec_ops_for_block(enc_ops_for_block(q) + rest) == Some((q, 33int)),
        enc_ops_for_block(q).len() == 33,
{
    let s = enc_ops_for_block(q) + rest;
    assert(s =~= q.hash + (seq![q.validation_pass as u8] + rest));
    lemma_parts(q.hash, seq![q.validation_pass as u8] + rest);
    assert(s.take(HASH_SIZE as int) == q.hash);
    assert(s[HASH_SIZE as int] == q.validation_pass as u8);
    crate::wire::lemma_i8_cast_round(q.validation_pass);
}

/// A run of operations-for-block queries filling its enclosing block.
pub open spec fn enc_ops_for_blocks(qs: Seq<OperationsForBlockV>) -> Seq<u8>
    decreases qs.len(),
{
    if qs.len() == 0 {
        Seq::empty()
    } else {
        enc_ops_for_block(qs[0]) + enc_ops_for_blocks(qs.drop_first())
    }
}

pub open spec fn wf_ops_for_blocks(qs: Seq<OperationsForBlockV>) -> bool {
    forall|i: int| 0 <= i < qs.len() ==> wf_ops_for_block(#[trigger] qs[i])
}

pub open spec fn dec_ops_for_blocks(s: Seq<u8>) -> Option<Seq<OperationsForBlockV>>
    decreases s.len(),
{
    if s.len() == 0 {
        Some(Seq::empty())
    } else {
        match dec_ops_for_block(s) {
            Some((q, n)) => {
                if 0 < n <= s.len() {
                    match dec_ops_for_blocks(s.skip(n)) {
                        Some(t) => Some(seq![q] + t),
                        None => None,
                    }
                } else {
                    None
                }
            },
            None => None,
        }
    }
}
#[verifier::rlimit(100)]
#[verifier::spinoff_prover]
pub proof fn lemma_dec_ops_for_blocks(qs: Seq<OperationsForBlockV>)
    requires
        wf_ops_for_blocks(qs),
    ensures
        dec_ops_for_blocks(enc_ops_for_blocks(qs)) == Some(qs),
    decreases qs.len(),
{
    if qs.len() == 0 {
        assert(Seq::<OperationsForBlockV>::empty() =~= qs);
    } else {
        let head = qs[0];
        let tail = qs.drop_first();
        let e = enc_ops_for_blocks(qs);
        assert(e == enc_ops_for_block(head) + enc_ops_for_blocks(tail));
        lemma_dec_ops_for_block(head, enc_ops_for_blocks(tail));
        lemma_parts(enc_ops_for_block(head), enc_ops_for_blocks(tail));
        assert(e.skip(33) == enc_ops_for_blocks(tail));
        assert(wf_ops_for_blocks(tail));
        lemma_dec_ops_for_blocks(tail);
        assert(seq![head] + tail =~= qs);
    }
}

pub open spec fn enc_ops_for_blocks_dyn(qs: Seq<OperationsForBlockV>) -> Seq<u8> {
    enc_dyn(enc_ops_for_blocks(qs))
}

pub open spec fn wf_ops_for_blocks_dyn(qs: Seq<OperationsForBlockV>) -> bool {
    wf_ops_for_blocks(qs) && wf_dyn(enc_ops_for_blocks(qs))
}

pub open spec fn dec_ops_for_blocks_dyn(s: Seq<u8>) -> Option<(Seq<OperationsForBlockV>, int)> {
    match dec_dyn(s) {
        Some((c, n)) => match dec_ops_for_blocks(c) {
            Some(qs) => Some((qs, n)),
            None => None,
        },
        None => None,
    }
}

pub proof fn lemma_dec_ops_for_blocks_dyn(qs: Seq<OperationsForBlockV>, rest: Seq<u8>)
    requires
        wf_ops_for_blocks_dyn(qs),
    ensures
        dec_ops_for_blocks_dyn(enc_ops_for_blocks_dyn(qs) + rest) == Some(
            (qs, enc_ops_for_blocks_dyn(qs).len() as int),
        ),
{
    let c = enc_ops_for_blocks(qs);
    let e = enc_ops_for_blocks_dyn(qs) + rest;
    let n: int = 4 + c.len() as int;
    assert(enc_ops_for_blocks_dyn(qs).len() == n) by {
        lemma_parts(be_u32(c.len() as u32), c);
    }
    assert(dec_dyn(e) == Some((c, n))) by {
        lemma_dec_dyn(c, rest);
    }
    assert(dec_ops_for_blocks(c) == Some(qs)) by {
        lemma_dec_ops_for_blocks(qs);
    }
    assert(dec_ops_for_blocks_dyn(e) == Some((qs, n)));
}

// ---------------------------------------------------------------------------
// Merkle paths locating an operation list inside a block.
// ---------------------------------------------------------------------------

pub enum PathV {
    Left(Box<PathV>, Seq<u8>),
    Right(Seq<u8>, Box<PathV>),
    Op,
}

pub open spec fn wf_path(p: PathV) -> bool
    decreases p,
{
    match p {
        PathV::Left(sub, right) => wf_hash(right) && wf_path(*sub),
        PathV::Right(left, sub) => wf_hash(left) && wf_path(*sub),
        PathV::Op => true,
    }
}

pub open spec fn enc_path(p: PathV) -> Seq<u8>
    decreases p,
{
    match p {
        PathV::Left(sub, right) => seq![0xF0u8] + enc_path(*sub) + right,
        PathV::Right(left, sub) => seq![0x0Fu8] + left + enc_path(*sub),
        PathV::Op => seq![0x00u8],
    }
}

pub open spec fn dec_path(s: Seq<u8>) -> Option<(PathV, int)>
    decreases s.len(),
{
    if s.len() == 0 {
        None
    } else if s[0] == 0xF0 {
        match dec_path(s.skip(1)) {
            Some((sub, n)) => {
                if 1 + n + HASH_SIZE as int <= s.len() {
                    Some(
                        (
                            PathV::Left(Box::new(sub), s.subrange(1 + n, 1 + n + HASH_SIZE as int)),
                            1 + n + HASH_SIZE as int,
                        ),
                    )
                } else {
                    None
                }
            },
            None => None,
        }
    } else if s[0] == 0x0F {
        if s.len() >= 1 + HASH_SIZE {
            match dec_path(s.skip(1 + HASH_SIZE as int)) {
                Some((sub, n)) => Some(
                    (
                        PathV::Right(s.subrange(1, 1 + HASH_SIZE as int), Box::new(sub)),
                        1 + HASH_SIZE as int + n,
                    ),
                ),
                None => None,
            }
        } else {
            None
        }
    } else if s[0] == 0x00 {
        Some((PathV::Op, 1int))
    } else {
        None
    }
}
#[verifier::rlimit(100)]
#[verifier::spinoff_prover]
pub proof fn lemma_dec_path(p: PathV, rest: Seq<u8>)
    requires
        wf_path(p),
    ensures
        dec_path(enc_path(p) + rest) == Some((p, enc_path(p).len() as int)),
        enc_path(p).len() >= 1,
    decreases p,
{
    let s = enc_path(p) + rest;
    match p {
        PathV::Left(sub, right) => {
            let esub = enc_path(*sub);
            assert(s =~= seq![0xF0u8] + (esub + (right + rest)));
            assert(s[0] == 0xF0);
            assert(s.skip(1) =~= esub + (right + rest));
            lemma_dec_path(*sub, right + rest);
            let n = esub.len() as int;
            assert(dec_path(s.skip(1)) == Some((*sub, n)));
            assert(s.subrange(1 + n, 1 + n + HASH_SIZE as int) =~= right);
            assert(enc_path(p).len() == 1 + n + HASH_SIZE);
        },
        PathV::Right(left, sub) => {
            let esub = enc_path(*sub);
            assert(s =~= seq![0x0Fu8] + (left + (esub + rest)));
            assert(s[0] == 0x0F);
            assert(s.subrange(1, 1 + HASH_SIZE as int) =~= left);
            assert(s.skip(1 + HASH_SIZE as int) =~= esub + rest);
            lemma_dec_path(*sub, rest);
            assert(enc_path(p).len() == 1 + HASH_SIZE + esub.len());
        },
        PathV::Op => {
            assert(s[0] == 0x00);
        },
    }
}

// ---------------------------------------------------------------------------
// Block fitness: a run of length-prefixed byte blocks.
// ---------------------------------------------------------------------------

pub open spec fn enc_fitness(fs: Seq<Seq<u8>>) -> Seq<u8>
    decreases fs.len(),
{
    if fs.len() == 0 {
        Seq::empty()
    } else {
        enc_dyn(fs[0]) + enc_fitness(fs.drop_first())
    }
}

pub open spec fn wf_fitness(fs: Seq<Seq<u8>>) -> bool {
    forall|i: int| 0 <= i < fs.len() ==> wf_dyn(#[trigger] fs[i])
}

pub open spec fn dec_fitness(s: Seq<u8>) -> Option<Seq<Seq<u8>>>
    decreases s.len(),
{
    if s.len() == 0 {
        Some(Seq::empty())
    } else {
        match dec_dyn(s) {
            Some((f, n)) => {
                if 0 < n <= s.len() {
                    match dec_fitness(s.skip(n)) {
                        Some(t) => Some(seq![f] + t),
                        None => None,
                    }
                } else {
                    None
                }
            },
            None => None,
        }
    }
}
#[verifier::rlimit(100)]
#[verifier::spinoff_prover]
pub proof fn lemma_dec_fitness(fs: Seq<Seq<u8>>)
    requires
        wf_fitness(fs),
    ensures
        dec_fitness(enc_fitness(fs)) == Some(fs),
    decreases fs.len(),
{
    if fs.len() == 0 {
        assert(Seq::<Seq<u8>>::empty() =~= fs);
    } else {
        let head = fs[0];
        let tail = fs.drop_first();
        let e = enc_fitness(fs);
        assert(e == enc_dyn(head) + enc_fitness(tail));
        assert(dec_dyn(e) == Some((head, 4 + head.len() as int))) by {
            lemma_dec_dyn(head, enc_fitness(tail));
        }
        assert(e.skip(4 + head.len() as int) == enc_fitness(tail)) by {
            lemma_parts(enc_dyn(head), enc_fitness(tail));
            assert(enc_dyn(head).len() == 4 + head.len()) by {
                lemma_parts(be_u32(head.len() as u32), head);
            }
        }
        assert(wf_fitness(tail));
        lemma_dec_fitness(tail);
        assert(seq![head] + tail =~= fs);
    }
}


// ---------------------------------------------------------------------------
// Block headers.
// ---------------------------------------------------------------------------

pub struct BlockHeaderV {
    pub level: i32,
    pub proto: u8,
    pub predecessor: Seq<u8>,
    pub timestamp: i64,
    pub validation_pass: u8,
    pub operations_hash: Seq<u8>,
    pub fitness: Seq<Seq<u8>>,
    pub context: Seq<u8>,
    pub protocol_data: Seq<u8>,
}

pub open spec fn wf_header(h: BlockHeaderV) -> bool {
    &&& wf_hash(h.predecessor)
    &&& wf_hash(h.operations_hash)
    &&& wf_hash(h.context)
    &&& wf_fitness(h.fitness)
    &&& wf_dyn(enc_fitness(h.fitness))
    &&& enc_header(h).len() <= u32::MAX
}

pub open spec fn enc_header(h: BlockHeaderV) -> Seq<u8> {
    be_u32(h.level as u32) + (seq![h.proto] + (h.predecessor + (be_u64(h.timestamp as u64) + (seq![
        h.validation_pass,
    ] + (h.operations_hash + (enc_dyn(enc_fitness(h.fitness)) + (h.context + h.protocol_data)))))))
}

/// The six fixed-size fields at the front of a block header.
#[verifier::opaque]
pub open spec fn dec_header_prefix(s: Seq<u8>) -> Option<((u32, u8, Seq<u8>, u64, u8, Seq<u8>), int)> {
    match dec_u32(s) {
        None => None,
        Some((lvl, _)) => match dec_u8(s.skip(4)) {
            None => None,
            Some((proto, _)) => match dec_hash(s.skip(5)) {
                None => None,
                Some((pred, _)) => match dec_u64(s.skip(37)) {
                    None => None,
                    Some((ts, _)) => match dec_u8(s.skip(45)) {
                        None => None,
                        Some((vp, _)) => match dec_hash(s.skip(46)) {
                            None => None,
                            Some((oh, _)) => Some(((lvl, proto, pred, ts, vp, oh), 78int)),
                        },
                    },
                },
            },
        },
    }
}

/// Fitness block, context hash and protocol data at the tail of a header.
#[verifier::opaque]
pub open spec fn dec_header_suffix(s: Seq<u8>) -> Option<(Seq<Seq<u8>>, Seq<u8>, Seq<u8>)> {
    match dec_dyn(s) {
        None => None,
        Some((fc, nf)) => match dec_fitness(fc) {
            None => None,
            Some(fitness) => {
                let s7 = s.skip(nf);
                match dec_hash(s7) {
                    None => None,
                    Some((ctx, _)) => Some((fitness, ctx, s7.skip(HASH_SIZE as int))),
                }
            },
        },
    }
}

/// Consumes the whole of `s`.
pub open spec fn dec_header(s: Seq<u8>) -> Option<BlockHeaderV> {
    match dec_header_prefix(s) {
        None => None,
        Some(((lvl, proto, pred, ts, vp, oh), n)) => match dec_header_suffix(s.skip(n)) {
            None => None,
            Some((fitness, ctx, pdata)) => Some(
                BlockHeaderV {
                    level: lvl as i32,
                    proto,
                    predecessor: pred,
                    timestamp: ts as i64,
                    validation_pass: vp,
                    operations_hash: oh,
                    fitness,
                    context: ctx,
                    protocol_data: pdata,
                },
            ),
        },
    }
}

#[verifier::rlimit(100)]
#[verifier::spinoff_prover]
pub proof fn lemma_dec_header_suffix(h: BlockHeaderV)
    requires
        wf_fitness(h.fitness),
        wf_dyn(enc_fitness(h.fitness)),
        wf_hash(h.context),
    ensures
        dec_header_suffix(
            enc_dyn(enc_fitness(h.fitness)) + (h.context + h.protocol_data),
        ) == Some((h.fitness, h.context, h.protocol_data)),
{
    let inner = enc_fitness(h.fitness);
    let e_fit = enc_dyn(inner);
    let p8 = h.context + h.protocol_data;
    let p7 = e_fit + p8;
    let nf: int = e_fit.len() as int;
    assert(e_fit.len() == 4 + inner.len()) by {
        lemma_parts(be_u32(inner.len() as u32), inner);
    }
    assert(dec_dyn(p7) == Some((inner, nf))) by {
        lemma_dec_dyn(inner, p8);
    }
    assert(p7.skip(nf) == p8) by {
        lemma_parts(e_fit, p8);
    }
    assert(dec_fitness(inner) == Some(h.fitness)) by {
        lemma_dec_fitness(h.fitness);
    }
    assert(dec_hash(p8) == Some((h.context, HASH_SIZE as int))) by {
        lemma_dec_hash(h.context, h.protocol_data);
    }
    assert(p8.skip(HASH_SIZE as int) == h.protocol_data) by {
        lemma_parts(h.context, h.protocol_data);
    }
    assert(dec_header_suffix(p7) == Some((h.fitness, h.context, h.protocol_data))) by {
        reveal(dec_header_suffix);
    }
}

#[verifier::rlimit(100)]
#[verifier::spinoff_prover]
pub proof fn lemma_dec_header_prefix(h: BlockHeaderV, tail: Seq<u8>)
    requires
        wf_header(h),
    ensures
        dec_header_prefix(enc_header(h)) == Some(
            ((h.level as u32, h.proto, h.predecessor, h.timestamp as u64, h.validation_pass,
            h.operations_hash), 78int),
        ),
        enc_header(h).skip(78) == enc_dyn(enc_fitness(h.fitness)) + (h.context + h.protocol_data),
{
    let e_fit = enc_dyn(enc_fitness(h.fitness));
    let p8 = h.context + h.protocol_data;
    let p7 = e_fit + p8;
    let p6 = h.operations_hash + p7;
    let p5 = seq![h.validation_pass] + p6;
    let p4 = be_u64(h.timestamp as u64) + p5;
    let p3 = h.predecessor + p4;
    let p2 = seq![h.proto] + p3;
    let s = be_u32(h.level as u32) + p2;
    reveal(dec_header_prefix);
    assert(enc_header(h) == s);
    assert(dec_u32(s) == Some((h.level as u32, 4int)) && s.skip(4) == p2) by {
        lemma_dec_u32(h.level as u32, p2);
        lemma_parts(be_u32(h.level as u32), p2);
    }
    assert(dec_u8(p2) == Some((h.proto, 1int)) && p2.skip(1) == p3) by {
        lemma_dec_u8(h.proto, p3);
        lemma_parts(seq![h.proto], p3);
    }
    assert(dec_hash(p3) == Some((h.predecessor, HASH_SIZE as int)) && p3.skip(HASH_SIZE as int)
        == p4) by {
        lemma_dec_hash(h.predecessor, p4);
        lemma_parts(h.predecessor, p4);
    }
    assert(dec_u64(p4) == Some((h.timestamp as u64, 8int)) && p4.skip(8) == p5) by {
        lemma_dec_u64(h.timestamp as u64, p5);
        lemma_parts(be_u64(h.timestamp as u64), p5);
    }
    assert(dec_u8(p5) == Some((h.validation_pass, 1int)) && p5.skip(1) == p6) by {
        lemma_dec_u8(h.validation_pass, p6);
        lemma_parts(seq![h.validation_pass], p6);
    }
    assert(dec_hash(p6) == Some((h.operations_hash, HASH_SIZE as int)) && p6.skip(HASH_SIZE as int)
        == p7) by {
        lemma_dec_hash(h.operations_hash, p7);
        lemma_parts(h.operations_hash, p7);
    }
    assert(s.skip(5) == p2.skip(1)) by {
        assert(s.skip(5) =~= p2.skip(1));
    }
    assert(s.skip(37) == p3.skip(HASH_SIZE as int)) by {
        assert(s.skip(37) =~= p3.skip(HASH_SIZE as int));
    }
    assert(s.skip(45) == p4.skip(8)) by {
        assert(s.skip(45) =~= p4.skip(8));
    }
    assert(s.skip(46) == p5.skip(1)) by {
        assert(s.skip(46) =~= p5.skip(1));
    }
    assert(s.skip(78) == p6.skip(HASH_SIZE as int)) by {
        assert(s.skip(78) =~= p6.skip(HASH_SIZE as int));
    }
}

pub proof fn lemma_dec_header(h: BlockHeaderV)
    requires
        wf_header(h),
    ensures
        dec_header(enc_header(h)) == Some(h),
{
    let s = enc_header(h);
    let p7 = enc_dyn(enc_fitness(h.fitness)) + (h.context + h.protocol_data);
    assert((h.level as u32) as i32 == h.level) by {
        crate::wire::lemma_i32_cast_round(h.level);
    }
    assert((h.timestamp as u64) as i64 == h.timestamp) by {
        crate::wire::lemma_i64_cast_round(h.timestamp);
    }
    lemma_dec_header_prefix(h, p7);
    lemma_dec_header_suffix(h);
    assert(dec_header(s) == Some(h));
}

/// A block header framed by its own length prefix.
pub open spec fn enc_header_dyn(h: BlockHeaderV) -> Seq<u8> {
    enc_dyn(enc_header(h))
}

pub open spec fn dec_header_dyn(s: Seq<u8>) -> Option<(BlockHeaderV, int)> {
    match dec_dyn(s) {
        Some((c, n)) => match dec_header(c) {
            Some(h) => Some((h, n)),
            None => None,
        },
        None => None,
    }
}

pub proof fn lemma_dec_header_dyn(h: BlockHeaderV, rest: Seq<u8>)
    requires
        wf_header(h),
    ensures
        dec_header_dyn(enc_header_dyn(h) + rest) == Some(
            (h, enc_header_dyn(h).len() as int),
        ),
        enc_header_dyn(h).len() == 4 + enc_header(h).len(),
{
    let c = enc_header(h);
    let e = enc_header_dyn(h) + rest;
    let n: int = 4 + c.len() as int;
    assert(enc_header_dyn(h).len() == n) by {
        lemma_parts(be_u32(c.len() as u32), c);
    }
    assert(dec_dyn(e) == Some((c, n))) by {
        lemma_dec_dyn(c, rest);
    }
    assert(dec_header(c) == Some(h)) by {
        lemma_dec_header(h);
    }
    assert(dec_header_dyn(e) == Some((h, n)));
}

// ---------------------------------------------------------------------------
// Mempool advertisements carried inside a current-head message.
// ---------------------------------------------------------------------------

pub struct MempoolV {
    pub known_valid: Seq<Seq<u8>>,
    pub pending: Seq<Seq<u8>>,
}

pub open spec fn wf_mempool(m: MempoolV) -> bool {
    &&& wf_hashes(m.known_valid)
    &&& wf_hashes(m.pending)
    &&& wf_dyn(enc_hashes(m.known_valid))
    &&& wf_dyn(enc_hashes(m.pending))
}

pub open spec fn enc_mempool(m: MempoolV) -> Seq<u8> {
    enc_dyn(enc_hashes(m.known_valid)) + enc_dyn(enc_hashes(m.pending))
}

pub open spec fn dec_mempool(s: Seq<u8>) -> Option<(MempoolV, int)> {
    match dec_dyn(s) {
        None => None,
        Some((c1, n1)) => match dec_hashes(c1) {
            None => None,
            Some(kv) => match dec_dyn(s.skip(n1)) {
                None => None,
                Some((c2, n2)) => match dec_hashes(c2) {
                    None => None,
                    Some(p) => Some((MempoolV { known_valid: kv, pending: p }, n1 + n2)),
                },
            },
        },
    }
}

#[verifier::rlimit(100)]
#[verifier::spinoff_prover]
pub proof fn lemma_dec_mempool(m: MempoolV, rest: Seq<u8>)
    requires
        wf_mempool(m),
    ensures
        dec_mempool(enc_mempool(m) + rest) == Some((m, enc_mempool(m).len() as int)),
{
    let c1 = enc_hashes(m.known_valid);
    let c2 = enc_hashes(m.pending);
    let s = enc_mempool(m) + rest;
    assert(s =~= enc_dyn(c1) + (enc_dyn(c2) + rest));
    assert(dec_dyn(s) == Some((c1, 4 + c1.len() as int)) && s.skip(4 + c1.len() as int) == enc_dyn(
        c2,
    ) + rest && enc_dyn(c1).len() == 4 + c1.len()) by {
        lemma_dec_dyn(c1, enc_dyn(c2) + rest);
        lemma_parts(enc_dyn(c1), enc_dyn(c2) + rest);
        lemma_parts(be_u32(c1.len() as u32), c1);
    }
    assert(dec_hashes(c1) == Some(m.known_valid)) by {
        lemma_dec_hashes(m.known_valid);
    }
    assert(dec_dyn(enc_dyn(c2) + rest) == Some((c2, 4 + c2.len() as int)) && enc_dyn(c2).len() == 4
        + c2.len()) by {
        lemma_dec_dyn(c2, rest);
        lemma_parts(be_u32(c2.len() as u32), c2);
    }
    assert(dec_hashes(c2) == Some(m.pending)) by {
        lemma_dec_hashes(m.pending);
    }
    assert(enc_mempool(m).len() == enc_dyn(c1).len() + enc_dyn(c2).len()) by {
        lemma_parts(enc_dyn(c1), enc_dyn(c2));
    }
}

// ---------------------------------------------------------------------------
// Swap requests and acknowledgements.
// ---------------------------------------------------------------------------

pub struct SwapV {
    pub point: Seq<char>,
    pub peer_id: Seq<u8>,
}

pub open spec fn wf_swap(v: SwapV) -> bool {
    &&& wf_point(v.point)
    &&& v.peer_id.len() == PKH_SIZE
}

pub open spec fn enc_swap(v: SwapV) -> Seq<u8> {
    enc_str(v.point) + v.peer_id
}

pub open spec fn dec_swap(s: Seq<u8>) -> Option<(SwapV, int)> {
    match dec_str(s) {
        None => None,
        Some((pt, n)) => match dec_fix(s.skip(n), PKH_SIZE as int) {
            None => None,
            Some((pid, _)) => Some((SwapV { point: pt, peer_id: pid }, n + PKH_SIZE as int)),
        },
    }
}

#[verifier::rlimit(100)]
#[verifier::spinoff_prover]
pub proof fn lemma_dec_swap(v: SwapV, rest: Seq<u8>)
    requires
        wf_swap(v),
    ensures
        dec_swap(enc_swap(v) + rest) == Some((v, enc_swap(v).len() as int)),
{
    let e1 = enc_str(v.point);
    let tail = v.peer_id + rest;
    let s = enc_swap(v) + rest;
    assert(s =~= e1 + tail);
    assert(dec_str(s) == Some((v.point, e1.len() as int)) && s.skip(e1.len() as int) == tail) by {
        lemma_dec_str(v.point, tail);
        lemma_parts(e1, tail);
    }
    assert(dec_fix(tail, PKH_SIZE as int) == Some((v.peer_id, PKH_SIZE as int))) by {
        lemma_dec_fix(v.peer_id, rest);
    }
    assert(enc_swap(v).len() == e1.len() + PKH_SIZE) by {
        lemma_parts(e1, v.peer_id);
    }
}

// ---------------------------------------------------------------------------
// Length-prefixed hash lists and query lists.
// ---------------------------------------------------------------------------

pub open spec fn enc_hashes_dyn(hs: Seq<Seq<u8>>) -> Seq<u8> {
    enc_dyn(enc_hashes(hs))
}

pub open spec fn wf_hashes_dyn(hs: Seq<Seq<u8>>) -> bool {
    wf_hashes(hs) && wf_dyn(enc_hashes(hs))
}

pub open spec fn dec_hashes_dyn(s: Seq<u8>) -> Option<(Seq<Seq<u8>>, int)> {
    match dec_dyn(s) {
        Some((c, n)) => match dec_hashes(c) {
            Some(hs) => Some((hs, n)),
            None => None,
        },
        None => None,
    }
}

#[verifier::rlimit(100)]
#[verifier::spinoff_prover]
pub proof fn lemma_dec_hashes_dyn(hs: Seq<Seq<u8>>, rest: Seq<u8>)
    requires
        wf_hashes_dyn(hs),
    ensures
        dec_hashes_dyn(enc_hashes_dyn(hs) + rest) == Some(
            (hs, enc_hashes_dyn(hs).len() as int),
        ),
{
    let c = enc_hashes(hs);
    assert(dec_dyn(enc_hashes_dyn(hs) + rest) == Some((c, 4 + c.len() as int))) by {
        lemma_dec_dyn(c, rest);
    }
    assert(dec_hashes(c) == Some(hs)) by {
        lemma_dec_hashes(hs);
    }
    assert(enc_hashes_dyn(hs).len() == 4 + c.len()) by {
        lemma_parts(be_u32(c.len() as u32), c);
    }
}



// ---------------------------------------------------------------------------
// Peer messages: a two-byte tag, then the payload.
// ---------------------------------------------------------------------------

pub struct CurrentBranchV {
    pub chain_id: Seq<u8>,
    pub current_head: BlockHeaderV,
    pub history: Seq<Seq<u8>>,
}

pub struct CurrentHeadV {
    pub chain_id: Seq<u8>,
    pub current_block_header: BlockHeaderV,
    pub current_mempool: MempoolV,
}

pub struct OperationsForBlocksV {
    pub operations_for_block: OperationsForBlockV,
    pub operation_hashes_path: PathV,
    pub operations: Seq<OperationV>,
}

pub enum PeerMessageV {
    Disconnect,
    Bootstrap,
    Advertise(Seq<Seq<char>>),
    SwapRequest(SwapV),
    SwapAck(SwapV),
    GetCurrentBranch(Seq<u8>),
    CurrentBranch(CurrentBranchV),
    Deactivate(Seq<u8>),
    GetCurrentHead(Seq<u8>),
    CurrentHead(CurrentHeadV),
    GetBlockHeaders(Seq<Seq<u8>>),
    BlockHeader(BlockHeaderV),
    GetOperations(Seq<Seq<u8>>),
    Operation(OperationV),
    GetOperationsForBlocks(Seq<OperationsForBlockV>),
    OperationsForBlocks(OperationsForBlocksV),
}

pub open spec fn msg_tag(m: PeerMessageV) -> u16 {
    match m {
        PeerMessageV::Disconnect => 0x01,
        PeerMessageV::Bootstrap => 0x02,
        PeerMessageV::Advertise(_) => 0x03,
        PeerMessageV::SwapRequest(_) => 0x04,
        PeerMessageV::SwapAck(_) => 0x05,
        PeerMessageV::GetCurrentBranch(_) => 0x10,
        PeerMessageV::CurrentBranch(_) => 0x11,
        PeerMessageV::Deactivate(_) => 0x12,
        PeerMessageV::GetCurrentHead(_) => 0x13,
        PeerMessageV::CurrentHead(_) => 0x14,
        PeerMessageV::GetBlockHeaders(_) => 0x20,
        PeerMessageV::BlockHeader(_) => 0x21,
        PeerMessageV::GetOperations(_) => 0x30,
        PeerMessageV::Operation(_) => 0x31,
        PeerMessageV::GetOperationsForBlocks(_) => 0x60,
        PeerMessageV::OperationsForBlocks(_) => 0x61,
    }
}

/// Whether the payload's last field runs to the end of the enclosing block,
/// so that only the final message of a response may have this shape.
pub open spec fn open_tailed(m: PeerMessageV) -> bool {
    match m {
        PeerMessageV::Advertise(_) => true,
        PeerMessageV::CurrentBranch(_) => true,
        PeerMessageV::OperationsForBlocks(_) => true,
        _ => false,
    }
}

pub open spec fn enc_current_branch(cb: CurrentBranchV) -> Seq<u8> {
    cb.chain_id + (enc_header_dyn(cb.current_head) + enc_hashes(cb.history))
}

pub open spec fn wf_current_branch(cb: CurrentBranchV) -> bool {
    &&& wf_chain_id(cb.chain_id)
    &&& wf_header(cb.current_head)
    &&& wf_hashes(cb.history)
}

/// Consumes the whole of `s`.
pub open spec fn dec_current_branch(s: Seq<u8>) -> Option<CurrentBranchV> {
    match dec_fix(s, CHAIN_ID_SIZE as int) {
        None => None,
        Some((cid, _)) => match dec_header_dyn(s.skip(CHAIN_ID_SIZE as int)) {
            None => None,
            Some((h, nh)) => match dec_hashes(s.skip(CHAIN_ID_SIZE as int + nh)) {
                None => None,
                Some(hist) => Some(
                    CurrentBranchV { chain_id: cid, current_head: h, history: hist },
                ),
            },
        },
    }
}

#[verifier::spinoff_prover]
pub proof fn lemma_dec_current_branch(cb: CurrentBranchV)
    requires
        wf_current_branch(cb),
    ensures
        dec_current_branch(enc_current_branch(cb)) == Some(cb),
{
    let ehd = enc_header_dyn(cb.current_head);
    let ehist = enc_hashes(cb.history);
    let p2 = ehd + ehist;
    let s = cb.chain_id + p2;
    let nh: int = ehd.len() as int;
    assert(dec_fix(s, CHAIN_ID_SIZE as int) == Some((cb.chain_id, CHAIN_ID_SIZE as int))) by {
        lemma_dec_fix(cb.chain_id, p2);
    }
    assert(s.skip(CHAIN_ID_SIZE as int) == p2) by {
        lemma_parts(cb.chain_id, p2);
    }
    assert(dec_header_dyn(p2) == Some((cb.current_head, nh))) by {
        lemma_dec_header_dyn(cb.current_head, ehist);
    }
    assert(p2.skip(nh) == ehist) by {
        lemma_parts(ehd, ehist);
    }
    assert(s.skip(CHAIN_ID_SIZE as int + nh) == ehist) by {
        assert(s.skip(CHAIN_ID_SIZE as int + nh) =~= p2.skip(nh));
    }
    assert(dec_hashes(ehist) == Some(cb.history)) by {
        lemma_dec_hashes(cb.history);
    }
}

pub open spec fn enc_current_head(ch: CurrentHeadV) -> Seq<u8> {
    ch.chain_id + (enc_header_dyn(ch.current_block_header) + enc_mempool(ch.current_mempool))
}

pub open spec fn wf_current_head(ch: CurrentHeadV) -> bool {
    &&& wf_chain_id(ch.chain_id)
    &&& wf_header(ch.current_block_header)
    &&& wf_mempool(ch.current_mempool)
}

pub open spec fn dec_current_head(s: Seq<u8>) -> Option<(CurrentHeadV, int)> {
    match dec_fix(s, CHAIN_ID_SIZE as int) {
        None => None,
        Some((cid, _)) => match dec_header_dyn(s.skip(CHAIN_ID_SIZE as int)) {
            None => None,
            Some((h, nh)) => match dec_mempool(s.skip(CHAIN_ID_SIZE as int + nh)) {
                None => None,
                Some((mp, nm)) => Some(
                    (
                        CurrentHeadV { chain_id: cid, current_block_header: h, current_mempool: mp },
                        CHAIN_ID_SIZE as int + nh + nm,
                    ),
                ),
            },
        },
    }
}

#[verifier::spinoff_prover]
pub proof fn lemma_dec_current_head(ch: CurrentHeadV, rest: Seq<u8>)
    requires
        wf_current_head(ch),
    ensures
        dec_current_head(enc_current_head(ch) + rest) == Some(
            (ch, enc_current_head(ch).len() as int),
        ),
{
    let ehd = enc_header_dyn(ch.current_block_header);
    let emp = enc_mempool(ch.current_mempool);
    let p2 = ehd + (emp + rest);
    let s0 = enc_current_head(ch) + rest;
    let nh: int = ehd.len() as int;
    let nm: int = emp.len() as int;
    assert(s0 =~= ch.chain_id + p2);
    let s = ch.chain_id + p2;
    assert(dec_fix(s, CHAIN_ID_SIZE as int) == Some((ch.chain_id, CHAIN_ID_SIZE as int))) by {
        lemma_dec_fix(ch.chain_id, p2);
    }
    assert(s.skip(CHAIN_ID_SIZE as int) == p2) by {
        lemma_parts(ch.chain_id, p2);
    }
    assert(dec_header_dyn(p2) == Some((ch.current_block_header, nh))) by {
        lemma_dec_header_dyn(ch.current_block_header, emp + rest);
    }
    assert(p2.skip(nh) == emp + rest) by {
        lemma_parts(ehd, emp + rest);
    }
    assert(s.skip(CHAIN_ID_SIZE as int + nh) == emp + rest) by {
        assert(s.skip(CHAIN_ID_SIZE as int + nh) =~= p2.skip(nh));
    }
    assert(dec_mempool(emp + rest) == Some((ch.current_mempool, nm))) by {
        lemma_dec_mempool(ch.current_mempool, rest);
    }
    assert(enc_current_head(ch).len() == CHAIN_ID_SIZE + nh + nm) by {
        lemma_parts(ehd, emp);
        lemma_parts(ch.chain_id, ehd + emp);
    }
}

pub open spec fn enc_ofb_msg(v: OperationsForBlocksV) -> Seq<u8> {
    enc_ops_for_block(v.operations_for_block) + (enc_path(v.operation_hashes_path) + enc_operations(
        v.operations,
    ))
}

pub open spec fn wf_ofb_msg(v: OperationsForBlocksV) -> bool {
    &&& wf_ops_for_block(v.operations_for_block)
    &&& wf_path(v.operation_hashes_path)
    &&& wf_operations(v.operations)
}

/// Consumes the whole of `s`.
pub open spec fn dec_ofb_msg(s: Seq<u8>) -> Option<OperationsForBlocksV> {
    match dec_ops_for_block(s) {
        None => None,
        Some((q, nq)) => match dec_path(s.skip(nq)) {
            None => None,
            Some((p, np)) => match dec_operations(s.skip(nq + np)) {
                None => None,
                Some(ops) => Some(
                    OperationsForBlocksV {
                        operations_for_block: q,
                        operation_hashes_path: p,
                        operations: ops,
                    },
                ),
            },
        },
    }
}

#[verifier::spinoff_prover]
pub proof fn lemma_dec_ofb_msg(v: OperationsForBlocksV)
    requires
        wf_ofb_msg(v),
    ensures
        dec_ofb_msg(enc_ofb_msg(v)) == Some(v),
{
    let eq = enc_ops_for_block(v.operations_for_block);
    let ep = enc_path(v.operation_hashes_path);
    let eo = enc_operations(v.operations);
    let p2 = ep + eo;
    let s = eq + p2;
    let np: int = ep.len() as int;
    assert(dec_ops_for_block(s) == Some((v.operations_for_block, 33int))) by {
        lemma_dec_ops_for_block(v.operations_for_block, p2);
    }
    assert(s.skip(33) == p2) by {
        lemma_dec_ops_for_block(v.operations_for_block, p2);
        lemma_parts(eq, p2);
    }
    assert(dec_path(p2) == Some((v.operation_hashes_path, np))) by {
        lemma_dec_path(v.operation_hashes_path, eo);
    }
    assert(p2.skip(np) == eo) by {
        lemma_parts(ep, eo);
    }
    assert(s.skip(33 + np) == eo) by {
        assert(s.skip(33 + np) =~= p2.skip(np));
    }
    assert(dec_operations(eo) == Some(v.operations)) by {
        lemma_dec_operations(v.operations);
    }
}

pub open spec fn enc_msg_payload(m: PeerMessageV) -> Seq<u8> {
    match m {
        PeerMessageV::Disconnect => Seq::empty(),
        PeerMessageV::Bootstrap => Seq::empty(),
        PeerMessageV::Advertise(ids) => enc_strs(ids),
        PeerMessageV::SwapRequest(v) => enc_swap(v),
        PeerMessageV::SwapAck(v) => enc_swap(v),
        PeerMessageV::GetCurrentBranch(cid) => cid,
        PeerMessageV::CurrentBranch(cb) => enc_current_branch(cb),
        PeerMessageV::Deactivate(cid) => cid,
        PeerMessageV::GetCurrentHead(cid) => cid,
        PeerMessageV::CurrentHead(ch) => enc_current_head(ch),
        PeerMessageV::GetBlockHeaders(hs) => enc_hashes_dyn(hs),
        PeerMessageV::BlockHeader(h) => enc_header_dyn(h),
        PeerMessageV::GetOperations(hs) => enc_hashes_dyn(hs),
        PeerMessageV::Operation(op) => enc_operation_item(op),
        PeerMessageV::GetOperationsForBlocks(qs) => enc_ops_for_blocks_dyn(qs),
        PeerMessageV::OperationsForBlocks(v) => enc_ofb_msg(v),
    }
}

pub open spec fn enc_msg(m: PeerMessageV) -> Seq<u8> {
    be_u16(msg_tag(m)) + enc_msg_payload(m)
}

pub open spec fn wf_msg(m: PeerMessageV) -> bool {
    match m {
        PeerMessageV::Disconnect => true,
        PeerMessageV::Bootstrap => true,
        PeerMessageV::Advertise(ids) => ids.len() <= ADVERTISE_ID_LIST_MAX_LENGTH && wf_points(ids),
        PeerMessageV::SwapRequest(v) => wf_swap(v),
        PeerMessageV::SwapAck(v) => wf_swap(v),
        PeerMessageV::GetCurrentBranch(cid) => wf_chain_id(cid),
        PeerMessageV::CurrentBranch(cb) => wf_current_branch(cb),
        PeerMessageV::Deactivate(cid) => wf_chain_id(cid),
        PeerMessageV::GetCurrentHead(cid) => wf_chain_id(cid),
        PeerMessageV::CurrentHead(ch) => wf_current_head(ch),
        PeerMessageV::GetBlockHeaders(hs) => wf_hashes_dyn(hs),
        PeerMessageV::BlockHeader(h) => wf_header(h),
        PeerMessageV::GetOperations(hs) => wf_hashes_dyn(hs),
        PeerMessageV::Operation(op) => wf_operation(op),
        PeerMessageV::GetOperationsForBlocks(qs) => wf_ops_for_blocks_dyn(qs),
        PeerMessageV::OperationsForBlocks(v) => wf_ofb_msg(v),
    }
}

/// Decodes one message from the front of `s`; an open-tailed message consumes
/// the whole of `s`.
#[verifier::opaque]
pub open spec fn dec_msg(s: Seq<u8>) -> Option<(PeerMessageV, int)> {
    match dec_u16(s) {
        None => None,
        Some((t, _)) => {
            let s1 = s.skip(2);
            if t == 0x01 {
                Some((PeerMessageV::Disconnect, 2int))
            } else if t == 0x02 {
                Some((PeerMessageV::Bootstrap, 2int))
            } else if t == 0x03 {
                match dec_strs(s1) {
                    Some(ids) => {
                        if ids.len() <= ADVERTISE_ID_LIST_MAX_LENGTH && wf_points(ids) {
                            Some((PeerMessageV::Advertise(ids), s.len() as int))
                        } else {
                            None
                        }
                    },
                    None => None,
                }
            } else if t == 0x04 {
                match dec_swap(s1) {
                    Some((v, n)) => Some((PeerMessageV::SwapRequest(v), 2 + n)),
                    None => None,
                }
            } else if t == 0x05 {
                match dec_swap(s1) {
                    Some((v, n)) => Some((PeerMessageV::SwapAck(v), 2 + n)),
                    None => None,
                }
            } else if t == 0x10 {
                match dec_fix(s1, CHAIN_ID_SIZE as int) {
                    Some((cid, _)) => Some((PeerMessageV::GetCurrentBranch(cid), 6int)),
                    None => None,
                }
            } else if t == 0x11 {
                match dec_current_branch(s1) {
                    Some(cb) => Some((PeerMessageV::CurrentBranch(cb), s.len() as int)),
                    None => None,
                }
            } else if t == 0x12 {
                match dec_fix(s1, CHAIN_ID_SIZE as int) {
                    Some((cid, _)) => Some((PeerMessageV::Deactivate(cid), 6int)),
                    None => None,
                }
            } else if t == 0x13 {
                match dec_fix(s1, CHAIN_ID_SIZE as int) {
                    Some((cid, _)) => Some((PeerMessageV::GetCurrentHead(cid), 6int)),
                    None => None,
                }
            } else if t == 0x14 {
                match dec_current_head(s1) {
                    Some((ch, n)) => Some((PeerMessageV::CurrentHead(ch), 2 + n)),
                    None => None,
                }
            } else if t == 0x20 {
                match dec_hashes_dyn(s1) {
                    Some((hs, n)) => Some((PeerMessageV::GetBlockHeaders(hs), 2 + n)),
                    None => None,
                }
            } else if t == 0x21 {
                match dec_header_dyn(s1) {
                    Some((h, n)) => Some((PeerMessageV::BlockHeader(h), 2 + n)),
                    None => None,
                }
            } else if t == 0x30 {
                match dec_hashes_dyn(s1) {
                    Some((hs, n)) => Some((PeerMessageV::GetOperations(hs), 2 + n)),
                    None => None,
                }
            } else if t == 0x31 {
                match dec_operation_item(s1) {
                    Some((op, n)) => Some((PeerMessageV::Operation(op), 2 + n)),
                    None => None,
                }
            } else if t == 0x60 {
                match dec_ops_for_blocks_dyn(s1) {
                    Some((qs, n)) => Some((PeerMessageV::GetOperationsForBlocks(qs), 2 + n)),
                    None => None,
                }
            } else if t == 0x61 {
                match dec_ofb_msg(s1) {
                    Some(v) => Some((PeerMessageV::OperationsForBlocks(v), s.len() as int)),
                    None => None,
                }
            } else {
                None
            }
        },
    }
}

#[verifier::rlimit(100)]
#[verifier::spinoff_prover]
pub proof fn lemma_dec_msg(m: PeerMessageV, rest: Seq<u8>)
    requires
        wf_msg(m),
        open_tailed(m) ==> rest.len() == 0,
    ensures
        dec_msg(enc_msg(m) + rest) == Some((m, enc_msg(m).len() as int)),
        enc_msg(m).len() >= 2,
{
    let s = enc_msg(m) + rest;
    let tag = msg_tag(m);
    let pay = enc_msg_payload(m);
    assert(s =~= be_u16(tag) + (pay + rest));
    assert(dec_u16(s) == Some((tag, 2int))) by {
        lemma_dec_u16(tag, pay + rest);
    }
    assert(s.skip(2) == pay + rest) by {
        lemma_parts(be_u16(tag), pay + rest);
    }
    assert(enc_msg(m).len() == 2 + pay.len()) by {
        lemma_parts(be_u16(tag), pay);
    }
    assert(s.len() == 2 + pay.len() + rest.len()) by {
        lemma_parts(be_u16(tag), pay + rest);
        lemma_parts(pay, rest);
    }
    match m {
        PeerMessageV::Disconnect => {
            assert(dec_msg(s) == Some((m, 2int))) by {
                reveal(dec_msg);
            }
        },
        PeerMessageV::Bootstrap => {
            assert(dec_msg(s) == Some((m, 2int))) by {
                reveal(dec_msg);
            }
        },
        PeerMessageV::Advertise(ids) => {
            assert(pay + rest =~= pay);
            assert(dec_strs(pay) == Some(ids)) by {
                lemma_dec_strs(ids);
            }
            assert(dec_msg(s) == Some((m, s.len() as int))) by {
                reveal(dec_msg);
            }
        },
        PeerMessageV::SwapRequest(v) => {
            assert(dec_swap(pay + rest) == Some((v, pay.len() as int))) by {
                lemma_dec_swap(v, rest);
            }
            assert(dec_msg(s) == Some((m, 2 + pay.len() as int))) by {
                reveal(dec_msg);
            }
        },
        PeerMessageV::SwapAck(v) => {
            assert(dec_swap(pay + rest) == Some((v, pay.len() as int))) by {
                lemma_dec_swap(v, rest);
            }
            assert(dec_msg(s) == Some((m, 2 + pay.len() as int))) by {
                reveal(dec_msg);
            }
        },
        PeerMessageV::GetCurrentBranch(cid) => {
            assert(dec_fix(pay + rest, CHAIN_ID_SIZE as int) == Some((cid, CHAIN_ID_SIZE as int)))
                by {
                lemma_dec_fix(cid, rest);
            }
            assert(dec_msg(s) == Some((m, 6int))) by {
                reveal(dec_msg);
            }
        },
        PeerMessageV::CurrentBranch(cb) => {
            assert(pay + rest =~= pay);
            assert(dec_current_branch(pay) == Some(cb)) by {
                lemma_dec_current_branch(cb);
            }
            assert(dec_msg(s) == Some((m, s.len() as int))) by {
                reveal(dec_msg);
            }
        },
        PeerMessageV::Deactivate(cid) => {
            assert(dec_fix(pay + rest, CHAIN_ID_SIZE as int) == Some((cid, CHAIN_ID_SIZE as int)))
                by {
                lemma_dec_fix(cid, rest);
            }
            assert(dec_msg(s) == Some((m, 6int))) by {
                reveal(dec_msg);
            }
        },
        PeerMessageV::GetCurrentHead(cid) => {
            assert(dec_fix(pay + rest, CHAIN_ID_SIZE as int) == Some((cid, CHAIN_ID_SIZE as int)))
                by {
                lemma_dec_fix(cid, rest);
            }
            assert(dec_msg(s) == Some((m, 6int))) by {
                reveal(dec_msg);
            }
        },
        PeerMessageV::CurrentHead(ch) => {
            assert(dec_current_head(pay + rest) == Some((ch, pay.len() as int))) by {
                lemma_dec_current_head(ch, rest);
            }
            assert(dec_msg(s) == Some((m, 2 + pay.len() as int))) by {
                reveal(dec_msg);
            }
        },
        PeerMessageV::GetBlockHeaders(hs) => {
            assert(dec_hashes_dyn(pay + rest) == Some((hs, pay.len() as int))) by {
                lemma_dec_hashes_dyn(hs, rest);
            }
            assert(dec_msg(s) == Some((m, 2 + pay.len() as int))) by {
                reveal(dec_msg);
            }
        },
        PeerMessageV::BlockHeader(h) => {
            assert(dec_header_dyn(pay + rest) == Some((h, pay.len() as int))) by {
                lemma_dec_header_dyn(h, rest);
            }
            assert(dec_msg(s) == Some((m, 2 + pay.len() as int))) by {
                reveal(dec_msg);
            }
        },
        PeerMessageV::GetOperations(hs) => {
            assert(dec_hashes_dyn(pay + rest) == Some((hs, pay.len() as int))) by {
                lemma_dec_hashes_dyn(hs, rest);
            }
            assert(dec_msg(s) == Some((m, 2 + pay.len() as int))) by {
                reveal(dec_msg);
            }
        },
        PeerMessageV::Operation(op) => {
            assert(dec_operation_item(pay + rest) == Some((op, pay.len() as int))) by {
                lemma_dec_operation_item(op, rest);
            }
            assert(dec_msg(s) == Some((m, 2 + pay.len() as int))) by {
                reveal(dec_msg);
            }
        },
        PeerMessageV::GetOperationsForBlocks(qs) => {
            assert(dec_ops_for_blocks_dyn(pay + rest) == Some((qs, pay.len() as int))) by {
                lemma_dec_ops_for_blocks_dyn(qs, rest);
            }
            assert(dec_msg(s) == Some((m, 2 + pay.len() as int))) by {
                reveal(dec_msg);
            }
        },
        PeerMessageV::OperationsForBlocks(v) => {
            assert(pay + rest =~= pay);
            assert(dec_ofb_msg(pay) == Some(v)) by {
                lemma_dec_ofb_msg(v);
            }
            assert(dec_msg(s) == Some((m, s.len() as int))) by {
                reveal(dec_msg);
            }
        },
    }
}

// ---------------------------------------------------------------------------
// A run of messages, and the length-prefixed response that frames it.
// ---------------------------------------------------------------------------

pub open spec fn enc_msgs(ms: Seq<PeerMessageV>) -> Seq<u8>
    decreases ms.len(),
{
    if ms.len() == 0 {
        Seq::empty()
    } else {
        enc_msg(ms[0]) + enc_msgs(ms.drop_first())
    }
}

pub open spec fn wf_msgs(ms: Seq<PeerMessageV>) -> bool {
    &&& forall|i: int| 0 <= i < ms.len() ==> wf_msg(#[trigger] ms[i])
    &&& forall|i: int| 0 <= i < ms.len() - 1 ==> !open_tailed(#[trigger] ms[i])
}

pub open spec fn dec_msgs(s: Seq<u8>) -> Option<Seq<PeerMessageV>>
    decreases s.len(),
{
    if s.len() == 0 {
        Some(Seq::empty())
    } else {
        match dec_msg(s) {
            Some((m, n)) => {
                if 0 < n <= s.len() {
                    match dec_msgs(s.skip(n)) {
                        Some(t) => Some(seq![m] + t),
                        None => None,
                    }
                } else {
                    None
                }
            },
            None => None,
        }
    }
}

#[verifier::rlimit(100)]
#[verifier::spinoff_prover]
pub proof fn lemma_dec_msgs(ms: Seq<PeerMessageV>)
    requires
        wf_msgs(ms),
    ensures
        dec_msgs(enc_msgs(ms)) == Some(ms),
    decreases ms.len(),
{
    if ms.len() == 0 {
        assert(Seq::<PeerMessageV>::empty() =~= ms);
    } else {
        let head = ms[0];
        let tail = ms.drop_first();
        let e = enc_msgs(ms);
        let etail = enc_msgs(tail);
        assert(e == enc_msg(head) + etail);
        if ms.len() == 1 {
            assert(etail =~= Seq::<u8>::empty());
        }
        assert(open_tailed(head) ==> etail.len() == 0);
        lemma_dec_msg(head, etail);
        assert(e.skip(enc_msg(head).len() as int) == etail) by {
            lemma_parts(enc_msg(head), etail);
        }
        assert(wf_msgs(tail));
        lemma_dec_msgs(tail);
        assert(seq![head] + tail =~= ms);
    }
}

pub open spec fn enc_response(ms: Seq<PeerMessageV>) -> Seq<u8> {
    enc_dyn(enc_msgs(ms))
}

pub open spec fn wf_response(ms: Seq<PeerMessageV>) -> bool {
    wf_msgs(ms) && wf_dyn(enc_msgs(ms))
}

pub open spec fn dec_response(s: Seq<u8>) -> Option<(Seq<PeerMessageV>, int)> {
    match dec_dyn(s) {
        Some((c, n)) => match dec_msgs(c) {
            Some(ms) => Some((ms, n)),
            None => None,
        },
        None => None,
    }
}

#[verifier::rlimit(100)]
#[verifier::spinoff_prover]
pub proof fn lemma_dec_response(ms: Seq<PeerMessageV>, rest: Seq<u8>)
    requires
        wf_response(ms),
    ensures
        dec_response(enc_response(ms) + rest) == Some((ms, enc_response(ms).len() as int)),
{
    let c = enc_msgs(ms);
    let e = enc_response(ms) + rest;
    let n: int = 4 + c.len() as int;
    assert(enc_response(ms).len() == n) by {
        lemma_parts(be_u32(c.len() as u32), c);
    }
    assert(dec_dyn(e) == Some((c, n))) by {
        lemma_dec_dyn(c, rest);
    }
    assert(dec_msgs(c) == Some(ms)) by {
        lemma_dec_msgs(ms);
    }
    assert(dec_response(e) == Some((ms, n)));
}

// ---------------------------------------------------------------------------
// Handshake acknowledgements.
// ---------------------------------------------------------------------------

#[derive(Clone, Copy, Debug, PartialEq, Eq, Structural)]
pub enum NackMotive {
    NoMotive,
    TooManyConnections,
    UnknownChainName,
    DeprecatedP2pVersion,
    DeprecatedDistributedDbVersion,
    AlreadyConnected,
}

pub open spec fn motive_tag(m: NackMotive) -> u16 {
    match m {
        NackMotive::NoMotive => 0,
        NackMotive::TooManyConnections => 1,
        NackMotive::UnknownChainName => 2,
        NackMotive::DeprecatedP2pVersion => 3,
        NackMotive::DeprecatedDistributedDbVersion => 4,
        NackMotive::AlreadyConnected => 5,
    }
}

pub open spec fn dec_motive(t: u16) -> Option<NackMotive> {
    if t == 0 {
        Some(NackMotive::NoMotive)
    } else if t == 1 {
        Some(NackMotive::TooManyConnections)
    } else if t == 2 {
        Some(NackMotive::UnknownChainName)
    } else if t == 3 {
        Some(NackMotive::DeprecatedP2pVersion)
    } else if t == 4 {
        Some(NackMotive::DeprecatedDistributedDbVersion)
    } else if t == 5 {
        Some(NackMotive::AlreadyConnected)
    } else {
        None
    }
}

pub struct NackInfoV {
    pub motive: NackMotive,
    pub potential_peers_to_connect: Seq<Seq<char>>,
}

pub open spec fn wf_nack_info(ni: NackInfoV) -> bool {
    &&& ni.potential_peers_to_connect.len() <= NACK_PEERS_MAX_LENGTH
    &&& wf_points(ni.potential_peers_to_connect)
    &&& wf_dyn(enc_strs(ni.potential_peers_to_connect))
}

pub open spec fn enc_nack_info(ni: NackInfoV) -> Seq<u8> {
    be_u16(motive_tag(ni.motive)) + enc_dyn(enc_strs(ni.potential_peers_to_connect))
}

pub open spec fn dec_nack_info(s: Seq<u8>) -> Option<(NackInfoV, int)> {
    match dec_u16(s) {
        None => None,
        Some((t, _)) => match dec_motive(t) {
            None => None,
            Some(motive) => match dec_dyn(s.skip(2)) {
                None => None,
                Some((c, n)) => match dec_strs(c) {
                    None => None,
                    Some(peers) => Some(
                        (NackInfoV { motive, potential_peers_to_connect: peers }, 2 + n),
                    ),
                },
            },
        },
    }
}

#[verifier::rlimit(100)]
#[verifier::spinoff_prover]
pub proof fn lemma_dec_nack_info(ni: NackInfoV, rest: Seq<u8>)
    requires
        wf_nack_info(ni),
    ensures
        dec_nack_info(enc_nack_info(ni) + rest) == Some((ni, enc_nack_info(ni).len() as int)),
{
    let c = enc_strs(ni.potential_peers_to_connect);
    let p2 = enc_dyn(c) + rest;
    let s = enc_nack_info(ni) + rest;
    assert(s =~= be_u16(motive_tag(ni.motive)) + p2);
    assert(dec_u16(s) == Some((motive_tag(ni.motive), 2int))) by {
        lemma_dec_u16(motive_tag(ni.motive), p2);
    }
    assert(dec_motive(motive_tag(ni.motive)) == Some(ni.motive));
    assert(s.skip(2) == p2) by {
        lemma_parts(be_u16(motive_tag(ni.motive)), p2);
    }
    assert(dec_dyn(p2) == Some((c, 4 + c.len() as int))) by {
        lemma_dec_dyn(c, rest);
    }
    assert(dec_strs(c) == Some(ni.potential_peers_to_connect)) by {
        lemma_dec_strs(ni.potential_peers_to_connect);
    }
    assert(enc_nack_info(ni).len() == 2 + (4 + c.len())) by {
        lemma_parts(be_u16(motive_tag(ni.motive)), enc_dyn(c));
        lemma_parts(be_u32(c.len() as u32), c);
    }
}

pub enum AckMessageV {
    Ack,
    NackV0,
    Nack(NackInfoV),
}

pub open spec fn wf_ack(a: AckMessageV) -> bool {
    match a {
        AckMessageV::Nack(ni) => wf_nack_info(ni),
        _ => true,
    }
}

pub open spec fn enc_ack(a: AckMessageV) -> Seq<u8> {
    match a {
        AckMessageV::Ack => seq![0x00u8],
        AckMessageV::NackV0 => seq![0xffu8],
        AckMessageV::Nack(ni) => seq![0x01u8] + enc_nack_info(ni),
    }
}

pub open spec fn dec_ack(s: Seq<u8>) -> Option<(AckMessageV, int)> {
    if s.len() == 0 {
        None
    } else if s[0] == 0x00 {
        Some((AckMessageV::Ack, 1int))
    } else if s[0] == 0xff {
        Some((AckMessageV::NackV0, 1int))
    } else if s[0] == 0x01 {
        match dec_nack_info(s.skip(1)) {
            Some((ni, n)) => Some((AckMessageV::Nack(ni), 1 + n)),
            None => None,
        }
    } else {
        None
    }
}

/// How many bytes the acknowledgement at the front of the buffer occupies:
/// one tag byte, and for a nack also the motive, the length field and the
/// suggested peers.
pub open spec fn ack_size_from(s: Seq<u8>) -> Option<int> {
    if s.len() == 0 {
        None
    } else if s[0] == 0x00 || s[0] == 0xff {
        Some(1int)
    } else if s[0] == 0x01 {
        if s.len() >= 7 {
            Some(7 + val_u32(s[3], s[4], s[5], s[6]) as int)
        } else {
            None
        }
    } else {
        None
    }
}

#[verifier::rlimit(100)]
#[verifier::spinoff_prover]
pub proof fn lemma_dec_ack(a: AckMessageV, rest: Seq<u8>)
    requires
        wf_ack(a),
    ensures
        dec_ack(enc_ack(a) + rest) == Some((a, enc_ack(a).len() as int)),
        ack_size_from(enc_ack(a) + rest) == Some(enc_ack(a).len() as int),
{
    let s = enc_ack(a) + rest;
    match a {
        AckMessageV::Ack => {
            assert(s[0] == 0x00);
        },
        AckMessageV::NackV0 => {
            assert(s[0] == 0xff);
        },
        AckMessageV::Nack(ni) => {
            let eni = enc_nack_info(ni);
            let c = enc_strs(ni.potential_peers_to_connect);
            assert(s =~= seq![0x01u8] + (eni + rest));
            assert(s[0] == 0x01);
            assert(s.skip(1) == eni + rest) by {
                lemma_parts(seq![0x01u8], eni + rest);
            }
            assert(dec_nack_info(eni + rest) == Some((ni, eni.len() as int))) by {
                lemma_dec_nack_info(ni, rest);
            }
            assert(enc_ack(a).len() == 1 + eni.len()) by {
                lemma_parts(seq![0x01u8], eni);
            }
            assert(eni.len() == 2 + (4 + c.len())) by {
                lemma_parts(be_u16(motive_tag(ni.motive)), enc_dyn(c));
                lemma_parts(be_u32(c.len() as u32), c);
            }
            assert(eni =~= be_u16(motive_tag(ni.motive)) + (be_u32(c.len() as u32) + c));
            assert(s.len() >= 7);
            assert(s[3] == be_u32(c.len() as u32)[0] && s[4] == be_u32(c.len() as u32)[1] && s[5]
                == be_u32(c.len() as u32)[2] && s[6] == be_u32(c.len() as u32)[3]);
            assert(val_u32(
                be_u32(c.len() as u32)[0],
                be_u32(c.len() as u32)[1],
                be_u32(c.len() as u32)[2],
                be_u32(c.len() as u32)[3],
            ) == c.len() as u32) by {
                lemma_be_u32_round(c.len() as u32);
            }
            assert(ack_size_from(s) == Some(7 + c.len() as int));
        },
    }
}

} // verus!
