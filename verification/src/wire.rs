//! Big-endian byte-level primitives shared by the peer-message codec and the
//! storage key schema: specification-level encoders, executable writers that
//! append to a byte vector, and executable readers proved against the same
//! specifications.

use vstd::prelude::*;

verus! {

/// Specification of the two-byte big-endian encoding of a `u16`.
pub open spec fn be_u16(v: u16) -> Seq<u8> {
    seq![(v >> 8) as u8, v as u8]
}

/// Specification of the four-byte big-endian encoding of a `u32`.
pub open spec fn be_u32(v: u32) -> Seq<u8> {
    seq![(v >> 24) as u8, (v >> 16) as u8, (v >> 8) as u8, v as u8]
}

/// Specification of the eight-byte big-endian encoding of a `u64`.
pub open spec fn be_u64(v: u64) -> Seq<u8> {
    seq![
        (v >> 56) as u8,
        (v >> 48) as u8,
        (v >> 40) as u8,
        (v >> 32) as u8,
        (v >> 24) as u8,
        (v >> 16) as u8,
        (v >> 8) as u8,
        v as u8,
    ]
}

/// The `u16` denoted by two big-endian bytes.
pub open spec fn val_u16(b0: u8, b1: u8) -> u16 {
    ((b0 as u16) << 8) | (b1 as u16)
}

/// The `u32` denoted by four big-endian bytes.
pub open spec fn val_u32(b0: u8, b1: u8, b2: u8, b3: u8) -> u32 {
    ((b0 as u32) << 24) | ((b1 as u32) << 16) | ((b2 as u32) << 8) | (b3 as u32)
}

/// The `u64` denoted by eight big-endian bytes.
pub open spec fn val_u64(b0: u8, b1: u8, b2: u8, b3: u8, b4: u8, b5: u8, b6: u8, b7: u8) -> u64 {
    ((b0 as u64) << 56) | ((b1 as u64) << 48) | ((b2 as u64) << 40) | ((b3 as u64) << 32)
        | ((b4 as u64) << 24) | ((b5 as u64) << 16) | ((b6 as u64) << 8) | (b7 as u64)
}

pub proof fn lemma_be_u16_round(v: u16)
    ensures
        val_u16(be_u16(v)[0], be_u16(v)[1]) == v,
{
    assert(val_u16((v >> 8) as u8, v as u8) == v) by (bit_vector);
}

pub proof fn lemma_be_u32_round(v: u32)
    ensures
        val_u32(be_u32(v)[0], be_u32(v)[1], be_u32(v)[2], be_u32(v)[3]) == v,
{
    assert(val_u32((v >> 24) as u8, (v >> 16) as u8, (v >> 8) as u8, v as u8) == v)
        by (bit_vector);
}

pub proof fn lemma_be_u64_round(v: u64)
    ensures
        val_u64(
            be_u64(v)[0],
            be_u64(v)[1],
            be_u64(v)[2],
            be_u64(v)[3],
            be_u64(v)[4],
            be_u64(v)[5],
            be_u64(v)[6],
            be_u64(v)[7],
        ) == v,
{
    assert(val_u64(
        (v >> 56) as u8,
        (v >> 48) as u8,
        (v >> 40) as u8,
        (v >> 32) as u8,
        (v >> 24) as u8,
        (v >> 16) as u8,
        (v >> 8) as u8,
        v as u8,
    ) == v) by (bit_vector);
}

/// Casting an `i32` through `u32` and back is the identity.
pub proof fn lemma_i32_cast_round(v: i32)
    ensures
        ((v as u32) as i32) == v,
{
    assert(((v as u32) as i32) == v) by (bit_vector);
}

/// Casting an `i64` through `u64` and back is the identity.
pub proof fn lemma_i64_cast_round(v: i64)
    ensures
        ((v as u64) as i64) == v,
{
    assert(((v as u64) as i64) == v) by (bit_vector);
}

/// Casting an `i8` through `u8` and back is the identity.
pub proof fn lemma_i8_cast_round(v: i8)
    ensures
        ((v as u8) as i8) == v,
{
    assert(((v as u8) as i8) == v) by (bit_vector);
}

pub fn put_u8(out: &mut Vec<u8>, v: u8)
    ensures
        final(out)@ == old(out)@ + seq![v],
{
    out.push(v);
    proof {
        assert(out@ =~= old(out)@ + seq![v]);
    }
}

pub fn put_u16_be(out: &mut Vec<u8>, v: u16)
    ensures
        final(out)@ == old(out)@ + be_u16(v),
{
    out.push(#[verifier::truncate] ((v >> 8) as u8));
    out.push(#[verifier::truncate] (v as u8));
    proof {
        assert(out@ =~= old(out)@ + be_u16(v));
    }
}

pub fn put_u32_be(out: &mut Vec<u8>, v: u32)
    ensures
        final(out)@ == old(out)@ + be_u32(v),
{
    out.push(#[verifier::truncate] ((v >> 24) as u8));
    out.push(#[verifier::truncate] ((v >> 16) as u8));
    out.push(#[verifier::truncate] ((v >> 8) as u8));
    out.push(#[verifier::truncate] (v as u8));
    proof {
        assert(out@ =~= old(out)@ + be_u32(v));
    }
}

pub fn put_u64_be(out: &mut Vec<u8>, v: u64)
    ensures
        final(out)@ == old(out)@ + be_u64(v),
{
    out.push(#[verifier::truncate] ((v >> 56) as u8));
    out.push(#[verifier::truncate] ((v >> 48) as u8));
    out.push(#[verifier::truncate] ((v >> 40) as u8));
    out.push(#[verifier::truncate] ((v >> 32) as u8));
    out.push(#[verifier::truncate] ((v >> 24) as u8));
    out.push(#[verifier::truncate] ((v >> 16) as u8));
    out.push(#[verifier::truncate] ((v >> 8) as u8));
    out.push(#[verifier::truncate] (v as u8));
    proof {
        assert(out@ =~= old(out)@ + be_u64(v));
    }
}

/// Appends a copy of `b` to `out`.
pub fn put_bytes(out: &mut Vec<u8>, b: &Vec<u8>)
    ensures
        final(out)@ == old(out)@ + b@,
{
    let mut i: usize = 0;
    while i < b.len()
        invariant
            i <= b@.len(),
            out@ == old(out)@ + b@.subrange(0, i as int),
        decreases b@.len() - i,
    {
        out.push(b[i]);
        i = i + 1;
        proof {
            assert(out@ =~= old(out)@ + b@.subrange(0, i as int));
        }
    }
    proof {
        assert(b@.subrange(0, b@.len() as int) =~= b@);
    }
}

pub fn read_u8(data: &Vec<u8>, pos: usize) -> (r: u8)
    requires
        pos < data@.len(),
    ensures
        r == data@[pos as int],
{
    data[pos]
}

pub fn read_u16_be(data: &Vec<u8>, pos: usize) -> (r: u16)
    requires
        pos + 2 <= data@.len(),
    ensures
        r == val_u16(data@[pos as int], data@[pos as int + 1]),
{
    let _n = data.len();
    ((data[pos] as u16) << 8) | (data[pos + 1] as u16)
}

pub fn read_u32_be(data: &Vec<u8>, pos: usize) -> (r: u32)
    requires
        pos + 4 <= data@.len(),
    ensures
        r == val_u32(
            data@[pos as int],
            data@[pos as int + 1],
            data@[pos as int + 2],
            data@[pos as int + 3],
        ),
{
    let _n = data.len();
    ((data[pos] as u32) << 24) | ((data[pos + 1] as u32) << 16) | ((data[pos + 2] as u32) << 8)
        | (data[pos + 3] as u32)
}

pub fn read_u64_be(data: &Vec<u8>, pos: usize) -> (r: u64)
    requires
        pos + 8 <= data@.len(),
    ensures
        r == val_u64(
            data@[pos as int],
            data@[pos as int + 1],
            data@[pos as int + 2],
            data@[pos as int + 3],
            data@[pos as int + 4],
            data@[pos as int + 5],
            data@[pos as int + 6],
            data@[pos as int + 7],
        ),
{
    let _n = data.len();
    ((data[pos] as u64) << 56) | ((data[pos + 1] as u64) << 48) | ((data[pos + 2] as u64) << 40)
        | ((data[pos + 3] as u64) << 32) | ((data[pos + 4] as u64) << 24)
        | ((data[pos + 5] as u64) << 16) | ((data[pos + 6] as u64) << 8) | (data[pos + 7] as u64)
}

/// Copies `data[pos .. pos + n]` into a fresh vector.
pub fn read_bytes(data: &Vec<u8>, pos: usize, n: usize) -> (r: Vec<u8>)
    requires
        pos + n <= data@.len(),
    ensures
        r@ == data@.subrange(pos as int, pos as int + n as int),
{
    let total = data.len();
    let mut out: Vec<u8> = Vec::new();
    let mut i: usize = 0;
    while i < n
        invariant
            i <= n,
            pos + n <= data@.len(),
            total == data@.len(),
            out@ == data@.subrange(pos as int, pos as int + i as int),
        decreases n - i,
    {
        out.push(data[pos + i]);
        i = i + 1;
        proof {
            assert(out@ =~= data@.subrange(pos as int, pos as int + i as int));
        }
    }
    out
}

/// Compares two byte vectors for equality of their contents.
pub fn bytes_eq(a: &Vec<u8>, b: &Vec<u8>) -> (r: bool)
    ensures
        r == (a@ == b@),
{
    if a.len() != b.len() {
        proof {
            assert(a@.len() != b@.len());
        }
        return false;
    }
    let mut i: usize = 0;
    while i < a.len()
        invariant
            i <= a@.len(),
            a@.len() == b@.len(),
            forall|j: int| 0 <= j < i ==> a@[j] == b@[j],
        decreases a@.len() - i,
    {
        if a[i] != b[i] {
            return false;
        }
        i = i + 1;
    }
    proof {
        assert(a@ =~= b@);
    }
    true
}

} // verus!
