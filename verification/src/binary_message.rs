//! Chunk framing for the wire: every message travels in chunks that carry a
//! two-byte big-endian length before their content, plus the byte-cache types
//! that let a message remember the exact bytes it was read from.

use vstd::prelude::*;
use crate::codec::{CONTENT_LENGTH_FIELD_BYTES, CONTENT_LENGTH_MAX};
use crate::wire::{be_u16, put_bytes, put_u16_be, val_u16};

verus! {

/// Read access to a cached encoding.
pub trait CacheReader {
    fn get(&self) -> Option<Vec<u8>>;
}

/// Write access to a cached encoding.
pub trait CacheWriter {
    fn put(&mut self, body: &Vec<u8>);
}

/// A type that may remember the bytes it was decoded from.
pub trait CachedData: CacheReader + CacheWriter {
    fn has_cache() -> bool;
}

/// Remembers the bytes a message was decoded from, so that hashing and
/// storage need not re-encode it.
pub struct BinaryDataCache {
    data: Option<Vec<u8>>,
}

impl View for BinaryDataCache {
    type V = Option<Seq<u8>>;

    closed spec fn view(&self) -> Option<Seq<u8>> {
        match self.data {
            Some(ref v) => Some(v@),
            None => None,
        }
    }
}

impl BinaryDataCache {
    pub fn empty() -> (r: BinaryDataCache)
        ensures
            r@ is None,
    {
        BinaryDataCache { data: None }
    }

    pub fn filled(data: Vec<u8>) -> (r: BinaryDataCache)
        ensures
            r@ == Some(data@),
    {
        BinaryDataCache { data: Some(data) }
    }

    pub fn read(&self) -> (r: Option<Vec<u8>>)
        ensures
            match r {
                Some(v) => self@ == Some(v@),
                None => self@ is None,
            },
    {
        match self.data {
            Some(ref v) => Some(crate::messages::copy_bytes(v)),
            None => None,
        }
    }

    pub fn write(&mut self, body: &Vec<u8>)
        ensures
            final(self)@ == Some(body@),
    {
        self.data = Some(crate::messages::copy_bytes(body));
    }
}

impl Default for BinaryDataCache {
    fn default() -> (r: Self)
        ensures
            r@ is None,
    {
        BinaryDataCache::empty()
    }
}

impl CacheReader for BinaryDataCache {
    fn get(&self) -> Option<Vec<u8>> {
        self.read()
    }
}

impl CacheWriter for BinaryDataCache {
    fn put(&mut self, body: &Vec<u8>) {
        self.write(body);
    }
}

impl CachedData for BinaryDataCache {
    fn has_cache() -> bool {
        true
    }
}

/// A cache that remembers nothing.
pub struct NeverCache;

impl CacheReader for NeverCache {
    fn get(&self) -> Option<Vec<u8>> {
        None
    }
}

impl CacheWriter for NeverCache {
    fn put(&mut self, _body: &Vec<u8>) {
    }
}

impl CachedData for NeverCache {
    fn has_cache() -> bool {
        false
    }
}

/// Why a byte vector is not a valid chunk.
#[derive(Debug, PartialEq, Eq, Structural)]
pub enum BinaryChunkError {
    OverflowError,
    MissingSizeInformation,
    IncorrectSizeInformation { expected: usize, actual: usize },
}

/// A raw chunk as sent on the wire: two bytes of big-endian content length,
/// then that many content bytes.
pub struct BinaryChunk(Vec<u8>);

/// What it means for raw bytes to form a chunk.
pub open spec fn wf_chunk(raw: Seq<u8>) -> bool {
    &&& raw.len() >= CONTENT_LENGTH_FIELD_BYTES
    &&& raw.len() <= CONTENT_LENGTH_MAX + CONTENT_LENGTH_FIELD_BYTES
    &&& val_u16(raw[0], raw[1]) as int == raw.len() - CONTENT_LENGTH_FIELD_BYTES
}

impl View for BinaryChunk {
    type V = Seq<u8>;

    closed spec fn view(&self) -> Seq<u8> {
        self.0@
    }
}

impl BinaryChunk {
    /// Frames `content` as a chunk. Fails exactly when the content is longer
    /// than a chunk can carry.
    pub fn from_content(content: &Vec<u8>) -> (r: Result<BinaryChunk, BinaryChunkError>)
        ensures
            content@.len() <= CONTENT_LENGTH_MAX <==> r is Ok,
            r matches Ok(c) ==> c@ == be_u16(content@.len() as u16) + content@ && wf_chunk(c@),
            r matches Err(e) ==> e == BinaryChunkError::OverflowError,
    {
        if content.len() <= CONTENT_LENGTH_MAX {
            let mut bytes: Vec<u8> = Vec::with_capacity(CONTENT_LENGTH_FIELD_BYTES + content.len());
            put_u16_be(&mut bytes, content.len() as u16);
            put_bytes(&mut bytes, content);
            proof {
                crate::wire::lemma_be_u16_round(content@.len() as u16);
                assert(bytes@[0] == be_u16(content@.len() as u16)[0] && bytes@[1] == be_u16(
                    content@.len() as u16,
                )[1]);
            }
            Ok(BinaryChunk(bytes))
        } else {
            Err(BinaryChunkError::OverflowError)
        }
    }

    /// Accepts raw bytes as a chunk if their length field is consistent.
    pub fn from_raw(value: Vec<u8>) -> (r: Result<BinaryChunk, BinaryChunkError>)
        ensures
            r matches Ok(c) ==> c@ == value@ && wf_chunk(value@),
            r is Ok <==> wf_chunk(value@),
            r matches Err(e) ==> (value@.len() < CONTENT_LENGTH_FIELD_BYTES <==> e
                == BinaryChunkError::MissingSizeInformation),
            r matches Err(e) ==> (value@.len() > CONTENT_LENGTH_MAX + CONTENT_LENGTH_FIELD_BYTES
                <==> e == BinaryChunkError::OverflowError),
            r matches Err(e) ==> (e matches BinaryChunkError::IncorrectSizeInformation {
                expected,
                actual,
            } ==> expected == val_u16(value@[0], value@[1]) as usize && actual == value@.len()),
    {
        if value.len() < CONTENT_LENGTH_FIELD_BYTES {
            Err(BinaryChunkError::MissingSizeInformation)
        } else if value.len() <= CONTENT_LENGTH_MAX + CONTENT_LENGTH_FIELD_BYTES {
            let expected_content_length = crate::wire::read_u16_be(&value, 0) as usize;
            if expected_content_length + CONTENT_LENGTH_FIELD_BYTES == value.len() {
                Ok(BinaryChunk(value))
            } else {
                Err(BinaryChunkError::IncorrectSizeInformation {
                    expected: expected_content_length,
                    actual: value.len(),
                })
            }
        } else {
            proof {
                assert(!wf_chunk(value@));
            }
            Err(BinaryChunkError::OverflowError)
        }
    }

    /// The raw chunk bytes, length field included.
    pub fn raw(&self) -> (r: &Vec<u8>)
        ensures
            r@ == self@,
    {
        &self.0
    }

    /// The content carried by the chunk.
    pub fn content(&self) -> (r: &[u8])
        requires
            self@.len() >= CONTENT_LENGTH_FIELD_BYTES,
        ensures
            r@ == self@.skip(CONTENT_LENGTH_FIELD_BYTES as int),
    {
        let r = vstd::slice::slice_subrange(self.0.as_slice(), CONTENT_LENGTH_FIELD_BYTES, self.0.len());
        proof {
            assert(r@ =~= self@.skip(CONTENT_LENGTH_FIELD_BYTES as int));
        }
        r
    }
}

} // verus!
