//! Executable peer message types and their binary codec. Every encoder and
//! decoder is specified against the ghost encoding functions in `codec`, so
//! the round-trip proofs there carry over to these functions.

use vstd::prelude::*;
use vstd::string::StringSliceAdditionalSpecFns;
use vstd::utf8::{encode_utf8, valid_utf8};
use crate::codec::{
    enc_dyn, enc_fitness, enc_hashes, enc_msg, enc_msgs, enc_operation, enc_operation_item,
    enc_operations, enc_ops_for_block, enc_ops_for_blocks, enc_path, enc_str, enc_strs,
    NackMotive, OperationV, OperationsForBlockV, PathV, PeerMessageV,
};
use crate::wire::{
    be_u16, be_u32, put_bytes, put_u16_be, put_u32_be, put_u64_be, put_u8, read_bytes, read_u32_be,
    read_u8,
};

verus! {

// ---------------------------------------------------------------------------
// Snoc lemmas: appending one item to an encoded run extends the encoding on
// the right. They justify the executable encoding loops.
// ---------------------------------------------------------------------------

pub proof fn lemma_enc_hashes_snoc(hs: Seq<Seq<u8>>, h: Seq<u8>)
    ensures
        enc_hashes(hs.push(h)) == enc_hashes(hs) + h,
    decreases hs.len(),
{
    if hs.len() == 0 {
        assert(hs.push(h).drop_first() =~= hs);
        assert(enc_hashes(hs.push(h)) =~= enc_hashes(hs) + h);
    } else {
        assert(hs.push(h).drop_first() =~= hs.drop_first().push(h));
        lemma_enc_hashes_snoc(hs.drop_first(), h);
        assert(enc_hashes(hs.push(h)) =~= enc_hashes(hs) + h);
    }
}

pub proof fn lemma_enc_strs_snoc(ss: Seq<Seq<char>>, sv: Seq<char>)
    ensures
        enc_strs(ss.push(sv)) == enc_strs(ss) + enc_str(sv),
    decreases ss.len(),
{
    if ss.len() == 0 {
        assert(ss.push(sv).drop_first() =~= ss);
        assert(enc_strs(ss.push(sv)) =~= enc_strs(ss) + enc_str(sv));
    } else {
        assert(ss.push(sv).drop_first() =~= ss.drop_first().push(sv));
        lemma_enc_strs_snoc(ss.drop_first(), sv);
        assert(enc_strs(ss.push(sv)) =~= enc_strs(ss) + enc_str(sv));
    }
}

pub proof fn lemma_enc_fitness_snoc(fs: Seq<Seq<u8>>, f: Seq<u8>)
    ensures
        enc_fitness(fs.push(f)) == enc_fitness(fs) + enc_dyn(f),
    decreases fs.len(),
{
    if fs.len() == 0 {
        assert(fs.push(f).drop_first() =~= fs);
        assert(enc_fitness(fs.push(f)) =~= enc_fitness(fs) + enc_dyn(f));
    } else {
        assert(fs.push(f).drop_first() =~= fs.drop_first().push(f));
        lemma_enc_fitness_snoc(fs.drop_first(), f);
        assert(enc_fitness(fs.push(f)) =~= enc_fitness(fs) + enc_dyn(f));
    }
}

pub proof fn lemma_enc_operations_snoc(ops: Seq<OperationV>, op: OperationV)
    ensures
        enc_operations(ops.push(op)) == enc_operations(ops) + enc_operation_item(op),
    decreases ops.len(),
{
    if ops.len() == 0 {
        assert(ops.push(op).drop_first() =~= ops);
        assert(enc_operations(ops.push(op)) =~= enc_operations(ops) + enc_operation_item(op));
    } else {
        assert(ops.push(op).drop_first() =~= ops.drop_first().push(op));
        lemma_enc_operations_snoc(ops.drop_first(), op);
        assert(enc_operations(ops.push(op)) =~= enc_operations(ops) + enc_operation_item(op));
    }
}

pub proof fn lemma_enc_ops_for_blocks_snoc(qs: Seq<OperationsForBlockV>, q: OperationsForBlockV)
    ensures
        enc_ops_for_blocks(qs.push(q)) == enc_ops_for_blocks(qs) + enc_ops_for_block(q),
    decreases qs.len(),
{
    if qs.len() == 0 {
        assert(qs.push(q).drop_first() =~= qs);
        assert(enc_ops_for_blocks(qs.push(q)) =~= enc_ops_for_blocks(qs) + enc_ops_for_block(q));
    } else {
        assert(qs.push(q).drop_first() =~= qs.drop_first().push(q));
        lemma_enc_ops_for_blocks_snoc(qs.drop_first(), q);
        assert(enc_ops_for_blocks(qs.push(q)) =~= enc_ops_for_blocks(qs) + enc_ops_for_block(q));
    }
}

pub proof fn lemma_enc_msgs_snoc(ms: Seq<PeerMessageV>, m: PeerMessageV)
    ensures
        enc_msgs(ms.push(m)) == enc_msgs(ms) + enc_msg(m),
    decreases ms.len(),
{
    if ms.len() == 0 {
        assert(ms.push(m).drop_first() =~= ms);
        assert(enc_msgs(ms.push(m)) =~= enc_msgs(ms) + enc_msg(m));
    } else {
        assert(ms.push(m).drop_first() =~= ms.drop_first().push(m));
        lemma_enc_msgs_snoc(ms.drop_first(), m);
        assert(enc_msgs(ms.push(m)) =~= enc_msgs(ms) + enc_msg(m));
    }
}

// ---------------------------------------------------------------------------
// Executable encoders for the shared field shapes.
// ---------------------------------------------------------------------------

/// Writes a length-prefixed block holding `inner`.
pub fn put_dyn(out: &mut Vec<u8>, inner: &Vec<u8>)
    requires
        inner@.len() <= u32::MAX,
    ensures
        final(out)@ == old(out)@ + enc_dyn(inner@),
{
    let n = inner.len();
    put_u32_be(out, n as u32);
    put_bytes(out, inner);
    proof {
        assert(out@ =~= old(out)@ + enc_dyn(inner@));
    }
}

/// Writes a run of 32-byte hashes.
pub fn put_hashes(out: &mut Vec<u8>, hs: &Vec<Vec<u8>>)
    ensures
        final(out)@ == old(out)@ + enc_hashes(hs.deep_view()),
{
    let mut i: usize = 0;
    proof {
        assert(hs.deep_view().take(0) =~~= Seq::<Seq<u8>>::empty());
    }
    while i < hs.len()
        invariant
            i <= hs@.len(),
            hs.deep_view().len() == hs@.len(),
            out@ == old(out)@ + enc_hashes(hs.deep_view().take(i as int)),
        decreases hs@.len() - i,
    {
        put_bytes(out, &hs[i]);
        proof {
            assert(hs.deep_view().take(i as int).push(hs@[i as int]@) =~~= hs.deep_view().take(
                i as int + 1,
            ));
            lemma_enc_hashes_snoc(hs.deep_view().take(i as int), hs@[i as int]@);
        }
        i = i + 1;
    }
    proof {
        assert(hs.deep_view().take(hs@.len() as int) =~~= hs.deep_view());
    }
}

/// Writes one length-prefixed UTF-8 string.
pub fn put_str(out: &mut Vec<u8>, s: &String)
    requires
        encode_utf8(s@).len() <= u32::MAX,
    ensures
        final(out)@ == old(out)@ + enc_str(s@),
{
    let bs = s.as_str().as_bytes();
    let v = vstd::slice::slice_to_vec(bs);
    put_dyn(out, &v);
}

/// Writes a run of length-prefixed strings.
pub fn put_strs(out: &mut Vec<u8>, ss: &Vec<String>)
    requires
        forall|i: int| 0 <= i < ss@.len() ==> encode_utf8(#[trigger] ss@[i]@).len() <= u32::MAX,
    ensures
        final(out)@ == old(out)@ + enc_strs(ss.deep_view()),
{
    let mut i: usize = 0;
    proof {
        assert(ss.deep_view().take(0) =~~= Seq::<Seq<char>>::empty());
    }
    while i < ss.len()
        invariant
            i <= ss@.len(),
            ss.deep_view().len() == ss@.len(),
            forall|j: int| 0 <= j < ss@.len() ==> encode_utf8(#[trigger] ss@[j]@).len()
                <= u32::MAX,
            out@ == old(out)@ + enc_strs(ss.deep_view().take(i as int)),
        decreases ss@.len() - i,
    {
        put_str(out, &ss[i]);
        proof {
            assert(ss.deep_view().take(i as int).push(ss@[i as int]@) =~~= ss.deep_view().take(
                i as int + 1,
            ));
            lemma_enc_strs_snoc(ss.deep_view().take(i as int), ss@[i as int]@);
        }
        i = i + 1;
    }
    proof {
        assert(ss.deep_view().take(ss@.len() as int) =~~= ss.deep_view());
    }
}


/// Copies a byte vector, preserving its view.
pub fn copy_bytes(v: &Vec<u8>) -> (r: Vec<u8>)
    ensures
        r@ == v@,
{
    let r = read_bytes(v, 0, v.len());
    proof {
        assert(v@.subrange(0, v@.len() as int) =~= v@);
    }
    r
}

/// Copies a vector of byte vectors, preserving its deep view.
pub fn copy_hashes(v: &Vec<Vec<u8>>) -> (r: Vec<Vec<u8>>)
    ensures
        r.deep_view() == v.deep_view(),
{
    let mut out: Vec<Vec<u8>> = Vec::new();
    let mut i: usize = 0;
    while i < v.len()
        invariant
            i <= v@.len(),
            out@.len() == i,
            forall|j: int| 0 <= j < i ==> #[trigger] out@[j]@ == v@[j]@,
        decreases v@.len() - i,
    {
        out.push(copy_bytes(&v[i]));
        i = i + 1;
    }
    proof {
        assert(out.deep_view() =~~= v.deep_view());
    }
    out
}

// ---------------------------------------------------------------------------
// Executable message types. Each views to its ghost counterpart in `codec`.
// ---------------------------------------------------------------------------

/// An operation: the branch it extends and its protocol payload.
pub struct Operation {
    branch: Vec<u8>,
    data: Vec<u8>,
}

impl View for Operation {
    type V = OperationV;

    closed spec fn view(&self) -> OperationV {
        OperationV { branch: self.branch@, data: self.data@ }
    }
}

impl DeepView for Operation {
    type V = OperationV;

    open spec fn deep_view(&self) -> OperationV {
        self.view()
    }
}

impl Operation {
    pub fn new(branch: Vec<u8>, data: Vec<u8>) -> (r: Operation)
        ensures
            r@ == (OperationV { branch: branch@, data: data@ }),
    {
        Operation { branch, data }
    }

    pub fn branch(&self) -> (r: &Vec<u8>)
        ensures
            r@ == self@.branch,
    {
        &self.branch
    }

    pub fn data(&self) -> (r: &Vec<u8>)
        ensures
            r@ == self@.data,
    {
        &self.data
    }

    pub fn duplicate(&self) -> (r: Operation)
        ensures
            r@ == self@,
    {
        Operation { branch: copy_bytes(&self.branch), data: copy_bytes(&self.data) }
    }

    /// The raw binary encoding of this operation.
    pub fn encode(&self, out: &mut Vec<u8>)
        ensures
            final(out)@ == old(out)@ + enc_operation(self@),
    {
        put_bytes(out, &self.branch);
        put_bytes(out, &self.data);
        proof {
            assert(out@ =~= old(out)@ + enc_operation(self@));
        }
    }

    /// Whether this operation fits the configured maximum (`wf_operation`
    /// apart from the branch-hash length).
    pub fn check_size(&self) -> (r: bool)
        ensures
            r == (crate::codec::HASH_SIZE + self@.data.len() <= crate::codec::OPERATION_MAX_SIZE
                && self@.branch.len() == crate::codec::HASH_SIZE),
    {
        self.branch.len() == crate::codec::HASH_SIZE && self.data.len()
            <= crate::codec::OPERATION_MAX_SIZE - crate::codec::HASH_SIZE
    }
}

/// An operation wrapped for transfer or storage.
pub struct OperationMessage {
    operation: Operation,
}

impl View for OperationMessage {
    type V = OperationV;

    closed spec fn view(&self) -> OperationV {
        self.operation@
    }
}

impl OperationMessage {
    pub fn new(operation: Operation) -> (r: OperationMessage)
        ensures
            r@ == operation@,
    {
        OperationMessage { operation }
    }

    pub fn operation(&self) -> (r: &Operation)
        ensures
            r@ == self@,
    {
        &self.operation
    }

    pub fn into_operation(self) -> (r: Operation)
        ensures
            r@ == self@,
    {
        self.operation
    }
}

/// Identifies one validation pass of one block's operations.
pub struct OperationsForBlock {
    hash: Vec<u8>,
    validation_pass: i8,
}

impl View for OperationsForBlock {
    type V = OperationsForBlockV;

    closed spec fn view(&self) -> OperationsForBlockV {
        OperationsForBlockV { hash: self.hash@, validation_pass: self.validation_pass }
    }
}

impl DeepView for OperationsForBlock {
    type V = OperationsForBlockV;

    open spec fn deep_view(&self) -> OperationsForBlockV {
        self.view()
    }
}

impl OperationsForBlock {
    pub fn new(hash: Vec<u8>, validation_pass: i8) -> (r: OperationsForBlock)
        ensures
            r@ == (OperationsForBlockV { hash: hash@, validation_pass }),
    {
        OperationsForBlock { hash, validation_pass }
    }

    /// Getter under a name that does not collide with hashing traits.
    pub fn block_hash(&self) -> (r: &Vec<u8>)
        ensures
            r@ == self@.hash,
    {
        &self.hash
    }

    pub fn validation_pass(&self) -> (r: i8)
        ensures
            r == self@.validation_pass,
    {
        self.validation_pass
    }

    pub fn duplicate(&self) -> (r: OperationsForBlock)
        ensures
            r@ == self@,
    {
        OperationsForBlock { hash: copy_bytes(&self.hash), validation_pass: self.validation_pass }
    }

    pub fn encode(&self, out: &mut Vec<u8>)
        ensures
            final(out)@ == old(out)@ + enc_ops_for_block(self@),
    {
        put_bytes(out, &self.hash);
        put_u8(out, #[verifier::truncate] (self.validation_pass as u8));
        proof {
            assert(out@ =~= old(out)@ + enc_ops_for_block(self@));
        }
    }
}

/// The left half of a merkle path node.
pub struct PathLeft {
    pub path: Path,
    pub right: Vec<u8>,
}

/// The right half of a merkle path node.
pub struct PathRight {
    pub left: Vec<u8>,
    pub path: Path,
}

/// A merkle path locating an operation list inside a block.
pub enum Path {
    Left(Box<PathLeft>),
    Right(Box<PathRight>),
    Op,
}

impl PathLeft {
    pub fn new(path: Path, right: Vec<u8>) -> (r: PathLeft)
        ensures
            r.path == path && r.right == right,
    {
        PathLeft { path, right }
    }

    pub fn path(&self) -> (r: &Path)
        ensures
            r == &self.path,
    {
        &self.path
    }

    pub fn right(&self) -> (r: &Vec<u8>)
        ensures
            r == &self.right,
    {
        &self.right
    }
}

impl PathRight {
    pub fn new(left: Vec<u8>, path: Path) -> (r: PathRight)
        ensures
            r.left == left && r.path == path,
    {
        PathRight { left, path }
    }

    pub fn path(&self) -> (r: &Path)
        ensures
            r == &self.path,
    {
        &self.path
    }

    pub fn left(&self) -> (r: &Vec<u8>)
        ensures
            r == &self.left,
    {
        &self.left
    }
}

impl View for Path {
    type V = PathV;

    closed spec fn view(&self) -> PathV
        decreases self,
    {
        match self {
            Path::Left(l) => PathV::Left(Box::new(l.path@), l.right@),
            Path::Right(r) => PathV::Right(r.left@, Box::new(r.path@)),
            Path::Op => PathV::Op,
        }
    }
}

impl Path {
    pub fn duplicate(&self) -> (r: Path)
        ensures
            r@ == self@,
        decreases self,
    {
        match self {
            Path::Left(l) => Path::Left(
                Box::new(PathLeft { path: l.path.duplicate(), right: copy_bytes(&l.right) }),
            ),
            Path::Right(r) => Path::Right(
                Box::new(PathRight { left: copy_bytes(&r.left), path: r.path.duplicate() }),
            ),
            Path::Op => Path::Op,
        }
    }

    pub fn encode(&self, out: &mut Vec<u8>)
        ensures
            final(out)@ == old(out)@ + enc_path(self@),
        decreases self,
    {
        match self {
            Path::Left(l) => {
                put_u8(out, 0xF0);
                l.path.encode(out);
                put_bytes(out, &l.right);
                proof {
                    assert(out@ =~= old(out)@ + enc_path(self@));
                }
            },
            Path::Right(r) => {
                put_u8(out, 0x0F);
                put_bytes(out, &r.left);
                r.path.encode(out);
                proof {
                    assert(out@ =~= old(out)@ + enc_path(self@));
                }
            },
            Path::Op => {
                put_u8(out, 0x00);
                proof {
                    assert(out@ =~= old(out)@ + enc_path(self@));
                }
            },
        }
    }
}

/// The shell header of a block.
pub struct BlockHeader {
    level: i32,
    proto: u8,
    predecessor: Vec<u8>,
    timestamp: i64,
    validation_pass: u8,
    operations_hash: Vec<u8>,
    fitness: Vec<Vec<u8>>,
    context: Vec<u8>,
    protocol_data: Vec<u8>,
}

impl View for BlockHeader {
    type V = crate::codec::BlockHeaderV;

    closed spec fn view(&self) -> crate::codec::BlockHeaderV {
        crate::codec::BlockHeaderV {
            level: self.level,
            proto: self.proto,
            predecessor: self.predecessor@,
            timestamp: self.timestamp,
            validation_pass: self.validation_pass,
            operations_hash: self.operations_hash@,
            fitness: self.fitness.deep_view(),
            context: self.context@,
            protocol_data: self.protocol_data@,
        }
    }
}

impl BlockHeader {
    #[allow(clippy::too_many_arguments)]
    pub fn new(
        level: i32,
        proto: u8,
        predecessor: Vec<u8>,
        timestamp: i64,
        validation_pass: u8,
        operations_hash: Vec<u8>,
        fitness: Vec<Vec<u8>>,
        context: Vec<u8>,
        protocol_data: Vec<u8>,
    ) -> (r: BlockHeader)
        ensures
            r@ == (crate::codec::BlockHeaderV {
                level,
                proto,
                predecessor: predecessor@,
                timestamp,
                validation_pass,
                operations_hash: operations_hash@,
                fitness: fitness.deep_view(),
                context: context@,
                protocol_data: protocol_data@,
            }),
    {
        BlockHeader {
            level,
            proto,
            predecessor,
            timestamp,
            validation_pass,
            operations_hash,
            fitness,
            context,
            protocol_data,
        }
    }

    pub fn level(&self) -> (r: i32)
        ensures
            r == self@.level,
    {
        self.level
    }

    pub fn proto(&self) -> (r: u8)
        ensures
            r == self@.proto,
    {
        self.proto
    }

    pub fn predecessor(&self) -> (r: &Vec<u8>)
        ensures
            r@ == self@.predecessor,
    {
        &self.predecessor
    }

    pub fn timestamp(&self) -> (r: i64)
        ensures
            r == self@.timestamp,
    {
        self.timestamp
    }

    pub fn validation_pass(&self) -> (r: u8)
        ensures
            r == self@.validation_pass,
    {
        self.validation_pass
    }

    pub fn operations_hash(&self) -> (r: &Vec<u8>)
        ensures
            r@ == self@.operations_hash,
    {
        &self.operations_hash
    }

    pub fn context(&self) -> (r: &Vec<u8>)
        ensures
            r@ == self@.context,
    {
        &self.context
    }

    pub fn fitness(&self) -> (r: &Vec<Vec<u8>>)
        ensures
            r.deep_view() == self@.fitness,
    {
        &self.fitness
    }

    pub fn protocol_data(&self) -> (r: &Vec<u8>)
        ensures
            r@ == self@.protocol_data,
    {
        &self.protocol_data
    }

    pub fn duplicate(&self) -> (r: BlockHeader)
        ensures
            r@ == self@,
    {
        BlockHeader {
            level: self.level,
            proto: self.proto,
            predecessor: copy_bytes(&self.predecessor),
            timestamp: self.timestamp,
            validation_pass: self.validation_pass,
            operations_hash: copy_bytes(&self.operations_hash),
            fitness: copy_hashes(&self.fitness),
            context: copy_bytes(&self.context),
            protocol_data: copy_bytes(&self.protocol_data),
        }
    }

    /// Writes the fitness list, each element framed by its own length.
    fn encode_fitness(&self, out: &mut Vec<u8>) -> (r: bool)
        ensures
            r <==> crate::codec::wf_fitness(self@.fitness),
            r ==> final(out)@ == old(out)@ + enc_fitness(self@.fitness),
            !r ==> final(out)@ == old(out)@,
    {
        let mut tmp: Vec<u8> = Vec::new();
        let mut i: usize = 0;
        proof {
            assert(self@.fitness.take(0) =~~= Seq::<Seq<u8>>::empty());
        }
        while i < self.fitness.len()
            invariant
                i <= self.fitness@.len(),
                self@.fitness.len() == self.fitness@.len(),
                forall|j: int| 0 <= j < self.fitness@.len() ==> #[trigger] self@.fitness[j]
                    == self.fitness@[j]@,
                tmp@ == enc_fitness(self@.fitness.take(i as int)),
                forall|j: int| 0 <= j < i ==> crate::codec::wf_dyn(#[trigger] self@.fitness[j]),
            decreases self.fitness@.len() - i,
        {
            if self.fitness[i].len() > u32::MAX as usize {
                proof {
                    assert(!crate::codec::wf_dyn(self@.fitness[i as int]));
                    assert(!crate::codec::wf_fitness(self@.fitness));
                }
                return false;
            }
            put_dyn(&mut tmp, &self.fitness[i]);
            proof {
                assert(self@.fitness.take(i as int).push(self@.fitness[i as int]) =~~=
                    self@.fitness.take(i as int + 1));
                lemma_enc_fitness_snoc(self@.fitness.take(i as int), self@.fitness[i as int]);
            }
            i = i + 1;
        }
        proof {
            assert(self@.fitness.take(self.fitness@.len() as int) =~~= self@.fitness);
        }
        put_bytes(out, &tmp);
        true
    }

    /// The raw binary encoding of this header.
    pub fn encode(&self, out: &mut Vec<u8>) -> (r: bool)
        ensures
            r <==> crate::codec::wf_fitness(self@.fitness) && crate::codec::wf_dyn(
                enc_fitness(self@.fitness),
            ),
            r ==> final(out)@ == old(out)@ + crate::codec::enc_header(self@),
            !r ==> final(out)@ == old(out)@,
    {
        let mut tmp: Vec<u8> = Vec::new();
        put_u32_be(&mut tmp, #[verifier::truncate] (self.level as u32));
        put_u8(&mut tmp, self.proto);
        put_bytes(&mut tmp, &self.predecessor);
        put_u64_be(&mut tmp, #[verifier::truncate] (self.timestamp as u64));
        put_u8(&mut tmp, self.validation_pass);
        put_bytes(&mut tmp, &self.operations_hash);
        let mut fit: Vec<u8> = Vec::new();
        if !self.encode_fitness(&mut fit) {
            return false;
        }
        if fit.len() > u32::MAX as usize {
            return false;
        }
        put_dyn(&mut tmp, &fit);
        put_bytes(&mut tmp, &self.context);
        put_bytes(&mut tmp, &self.protocol_data);
        put_bytes(out, &tmp);
        proof {
            assert(final(out)@ =~= old(out)@ + crate::codec::enc_header(self@));
        }
        true
    }
}


// ---------------------------------------------------------------------------
// Executable decoders. Each is specified against the ghost decoder applied to
// `data[start .. end]`, the enclosing frame.
// ---------------------------------------------------------------------------

#[verifier::external_type_specification]
#[verifier::external_body]
pub struct ExUtf8Error(core::str::Utf8Error);

/// Relies on `core::str::from_utf8`: succeeds exactly on valid UTF-8, and the
/// returned string slice has the input as its bytes.
pub assume_specification[ core::str::from_utf8 ](v: &[u8]) -> (r: Result<&str, core::str::Utf8Error>)
    ensures
        r is Ok <==> valid_utf8(v@),
        r matches Ok(s) ==> s.spec_bytes() == v@,
;

/// Reads one length-prefixed UTF-8 string.
pub fn decode_str_at(data: &Vec<u8>, start: usize, end: usize) -> (r: Option<(String, usize)>)
    requires
        start <= end <= data@.len(),
    ensures
        match r {
            Some((sv, p)) => crate::codec::dec_str(data@.subrange(start as int, end as int))
                == Some((sv@, p - start)) && start < p <= end,
            None => crate::codec::dec_str(data@.subrange(start as int, end as int)) is None,
        },
{
    let ghost c = data@.subrange(start as int, end as int);
    if end - start < 4 {
        return None;
    }
    let n32 = read_u32_be(data, start);
    proof {
        assert(c[0] == data@[start as int] && c[1] == data@[start as int + 1]);
        assert(c[2] == data@[start as int + 2] && c[3] == data@[start as int + 3]);
    }
    if (end - start - 4) < (n32 as usize) {
        return None;
    }
    let n = n32 as usize;
    let b = read_bytes(data, start + 4, n);
    proof {
        assert(b@ =~= c.subrange(4, 4 + n as int));
    }
    match core::str::from_utf8(b.as_slice()) {
        Ok(st) => {
            let owned = st.to_owned();
            proof {
                vstd::utf8::encode_utf8_decode_utf8(owned@);
            }
            Some((owned, start + 4 + n))
        },
        Err(_) => None,
    }
}

/// Reads a run of length-prefixed strings filling `data[start .. end]`.
pub fn decode_strs_range(data: &Vec<u8>, start: usize, end: usize) -> (r: Option<Vec<String>>)
    requires
        start <= end <= data@.len(),
    ensures
        match r {
            Some(v) => crate::codec::dec_strs(data@.subrange(start as int, end as int)) == Some(
                v.deep_view(),
            ),
            None => crate::codec::dec_strs(data@.subrange(start as int, end as int)) is None,
        },
{
    let ghost c0 = data@.subrange(start as int, end as int);
    let mut acc: Vec<String> = Vec::new();
    let mut pos: usize = start;
    proof {
        assert(acc.deep_view() =~~= Seq::<Seq<char>>::empty());
    }
    while pos < end
        invariant
            start <= pos <= end <= data@.len(),
            c0 == data@.subrange(start as int, end as int),
            crate::codec::dec_strs(c0) == (match crate::codec::dec_strs(
                data@.subrange(pos as int, end as int),
            ) {
                Some(t) => Some(acc.deep_view() + t),
                None => None::<Seq<Seq<char>>>,
            }),
        decreases end - pos,
    {
        let ghost rem = data@.subrange(pos as int, end as int);
        match decode_str_at(data, pos, end) {
            Some((sv, p)) => {
                let ghost old_acc = acc.deep_view();
                acc.push(sv);
                proof {
                    let rem2 = data@.subrange(p as int, end as int);
                    assert(rem.skip((p - pos) as int) =~= rem2);
                    assert(acc.deep_view() =~~= old_acc.push(sv@));
                    match crate::codec::dec_strs(rem2) {
                        Some(t2) => {
                            assert(old_acc + (seq![sv@] + t2) =~~= acc.deep_view() + t2);
                        },
                        None => {},
                    }
                }
                pos = p;
            },
            None => {
                return None;
            },
        }
    }
    proof {
        assert(data@.subrange(pos as int, end as int) =~= Seq::<u8>::empty());
        assert(acc.deep_view() + Seq::<Seq<char>>::empty() =~~= acc.deep_view());
    }
    Some(acc)
}

/// Reads a run of 32-byte hashes filling `data[start .. end]`.
pub fn decode_hashes_range(data: &Vec<u8>, start: usize, end: usize) -> (r: Option<Vec<Vec<u8>>>)
    requires
        start <= end <= data@.len(),
    ensures
        match r {
            Some(v) => crate::codec::dec_hashes(data@.subrange(start as int, end as int)) == Some(
                v.deep_view(),
            ) && crate::codec::wf_hashes(v.deep_view()),
            None => crate::codec::dec_hashes(data@.subrange(start as int, end as int)) is None,
        },
{
    let ghost c0 = data@.subrange(start as int, end as int);
    let mut acc: Vec<Vec<u8>> = Vec::new();
    let mut pos: usize = start;
    proof {
        assert(acc.deep_view() =~~= Seq::<Seq<u8>>::empty());
    }
    while pos < end
        invariant
            start <= pos <= end <= data@.len(),
            c0 == data@.subrange(start as int, end as int),
            crate::codec::wf_hashes(acc.deep_view()),
            crate::codec::dec_hashes(c0) == (match crate::codec::dec_hashes(
                data@.subrange(pos as int, end as int),
            ) {
                Some(t) => Some(acc.deep_view() + t),
                None => None::<Seq<Seq<u8>>>,
            }),
        decreases end - pos,
    {
        let ghost rem = data@.subrange(pos as int, end as int);
        if end - pos < crate::codec::HASH_SIZE {
            return None;
        }
        let h = read_bytes(data, pos, crate::codec::HASH_SIZE);
        let ghost old_acc = acc.deep_view();
        proof {
            assert(rem.take(crate::codec::HASH_SIZE as int) =~= h@);
            assert(rem.skip(crate::codec::HASH_SIZE as int) =~= data@.subrange(
                pos as int + crate::codec::HASH_SIZE as int,
                end as int,
            ));
        }
        acc.push(h);
        pos = pos + crate::codec::HASH_SIZE;
        proof {
            let rem2 = data@.subrange(pos as int, end as int);
            assert(acc.deep_view() =~~= old_acc.push(rem.take(crate::codec::HASH_SIZE as int)));
            match crate::codec::dec_hashes(rem2) {
                Some(t2) => {
                    assert(old_acc + (seq![rem.take(crate::codec::HASH_SIZE as int)] + t2) =~~=
                        acc.deep_view() + t2);
                },
                None => {},
            }
        }
    }
    proof {
        assert(data@.subrange(pos as int, end as int) =~= Seq::<u8>::empty());
        assert(acc.deep_view() + Seq::<Seq<u8>>::empty() =~~= acc.deep_view());
    }
    Some(acc)
}

/// Reads a run of length-prefixed fitness elements filling `data[start .. end]`.
pub fn decode_fitness_range(data: &Vec<u8>, start: usize, end: usize) -> (r: Option<Vec<Vec<u8>>>)
    requires
        start <= end <= data@.len(),
    ensures
        match r {
            Some(v) => crate::codec::dec_fitness(data@.subrange(start as int, end as int)) == Some(
                v.deep_view(),
            ),
            None => crate::codec::dec_fitness(data@.subrange(start as int, end as int)) is None,
        },
{
    let ghost c0 = data@.subrange(start as int, end as int);
    let mut acc: Vec<Vec<u8>> = Vec::new();
    let mut pos: usize = start;
    proof {
        assert(acc.deep_view() =~~= Seq::<Seq<u8>>::empty());
    }
    while pos < end
        invariant
            start <= pos <= end <= data@.len(),
            c0 == data@.subrange(start as int, end as int),
            crate::codec::dec_fitness(c0) == (match crate::codec::dec_fitness(
                data@.subrange(pos as int, end as int),
            ) {
                Some(t) => Some(acc.deep_view() + t),
                None => None::<Seq<Seq<u8>>>,
            }),
        decreases end - pos,
    {
        let ghost rem = data@.subrange(pos as int, end as int);
        if end - pos < 4 {
            return None;
        }
        let n32 = read_u32_be(data, pos);
        proof {
            assert(rem[0] == data@[pos as int] && rem[1] == data@[pos as int + 1] && rem[2]
                == data@[pos as int + 2] && rem[3] == data@[pos as int + 3]);
        }
        if (end - pos - 4) < (n32 as usize) {
            return None;
        }
        let n = n32 as usize;
        let f = read_bytes(data, pos + 4, n);
        let ghost old_acc = acc.deep_view();
        let ghost fv = f@;
        proof {
            assert(fv =~= rem.subrange(4, 4 + n as int));
            assert(rem.skip(4 + n as int) =~= data@.subrange(pos as int + 4 + n as int, end as int));
        }
        acc.push(f);
        pos = pos + 4 + n;
        proof {
            let rem2 = data@.subrange(pos as int, end as int);
            assert(acc.deep_view() =~~= old_acc.push(fv));
            match crate::codec::dec_fitness(rem2) {
                Some(t2) => {
                    assert(old_acc + (seq![fv] + t2) =~~= acc.deep_view() + t2);
                },
                None => {},
            }
        }
    }
    proof {
        assert(data@.subrange(pos as int, end as int) =~= Seq::<u8>::empty());
        assert(acc.deep_view() + Seq::<Seq<u8>>::empty() =~~= acc.deep_view());
    }
    Some(acc)
}

/// Reads the operation that fills `data[start .. end]`, rejecting any block
/// larger than the configured maximum.
pub fn decode_operation_range(data: &Vec<u8>, start: usize, end: usize) -> (r: Option<Operation>)
    requires
        start <= end <= data@.len(),
    ensures
        match r {
            Some(op) => crate::codec::dec_operation(data@.subrange(start as int, end as int))
                == Some(op@),
            None => crate::codec::dec_operation(data@.subrange(start as int, end as int)) is None,
        },
{
    let ghost c = data@.subrange(start as int, end as int);
    if end - start < crate::codec::HASH_SIZE || end - start > crate::codec::OPERATION_MAX_SIZE {
        return None;
    }
    let branch = read_bytes(data, start, crate::codec::HASH_SIZE);
    let d = read_bytes(data, start + crate::codec::HASH_SIZE, end - start
        - crate::codec::HASH_SIZE);
    proof {
        assert(branch@ =~= c.take(crate::codec::HASH_SIZE as int));
        assert(d@ =~= c.skip(crate::codec::HASH_SIZE as int));
    }
    Some(Operation::new(branch, d))
}

/// Reads a run of length-prefixed operations filling `data[start .. end]`.
pub fn decode_operations_range(data: &Vec<u8>, start: usize, end: usize) -> (r: Option<
    Vec<Operation>,
>)
    requires
        start <= end <= data@.len(),
    ensures
        match r {
            Some(v) => crate::codec::dec_operations(data@.subrange(start as int, end as int))
                == Some(v.deep_view()),
            None => crate::codec::dec_operations(data@.subrange(start as int, end as int)) is None,
        },
{
    let ghost c0 = data@.subrange(start as int, end as int);
    let mut acc: Vec<Operation> = Vec::new();
    let mut pos: usize = start;
    proof {
        assert(acc.deep_view() =~~= Seq::<OperationV>::empty());
    }
    while pos < end
        invariant
            start <= pos <= end <= data@.len(),
            c0 == data@.subrange(start as int, end as int),
            crate::codec::dec_operations(c0) == (match crate::codec::dec_operations(
                data@.subrange(pos as int, end as int),
            ) {
                Some(t) => Some(acc.deep_view() + t),
                None => None::<Seq<OperationV>>,
            }),
        decreases end - pos,
    {
        let ghost rem = data@.subrange(pos as int, end as int);
        if end - pos < 4 {
            proof {
                assert(crate::codec::dec_dyn(rem) is None);
            }
            return None;
        }
        let n32 = read_u32_be(data, pos);
        proof {
            assert(rem[0] == data@[pos as int] && rem[1] == data@[pos as int + 1] && rem[2]
                == data@[pos as int + 2] && rem[3] == data@[pos as int + 3]);
        }
        if (end - pos - 4) < (n32 as usize) {
            proof {
                assert(crate::codec::dec_dyn(rem) is None);
            }
            return None;
        }
        let n = n32 as usize;
        proof {
            assert(crate::codec::dec_dyn(rem) == Some(
                (rem.subrange(4, 4 + n as int), 4 + n as int),
            ));
            assert(rem.subrange(4, 4 + n as int) =~= data@.subrange(
                pos as int + 4,
                pos as int + 4 + n as int,
            ));
        }
        match decode_operation_range(data, pos + 4, pos + 4 + n) {
            Some(op) => {
                let ghost old_acc = acc.deep_view();
                let ghost opv = op@;
                proof {
                    assert(rem.skip(4 + n as int) =~= data@.subrange(
                        pos as int + 4 + n as int,
                        end as int,
                    ));
                }
                acc.push(op);
                pos = pos + 4 + n;
                proof {
                    let rem2 = data@.subrange(pos as int, end as int);
                    assert(acc.deep_view() =~~= old_acc.push(opv));
                    match crate::codec::dec_operations(rem2) {
                        Some(t2) => {
                            assert(old_acc + (seq![opv] + t2) =~~= acc.deep_view() + t2);
                        },
                        None => {},
                    }
                }
            },
            None => {
                return None;
            },
        }
    }
    proof {
        assert(data@.subrange(pos as int, end as int) =~= Seq::<u8>::empty());
        assert(acc.deep_view() + Seq::<OperationV>::empty() =~~= acc.deep_view());
    }
    Some(acc)
}

/// Reads a run of operations-for-block queries filling `data[start .. end]`.
pub fn decode_ops_for_blocks_range(data: &Vec<u8>, start: usize, end: usize) -> (r: Option<
    Vec<OperationsForBlock>,
>)
    requires
        start <= end <= data@.len(),
    ensures
        match r {
            Some(v) => crate::codec::dec_ops_for_blocks(data@.subrange(start as int, end as int))
                == Some(v.deep_view()),
            None => crate::codec::dec_ops_for_blocks(
                data@.subrange(start as int, end as int),
            ) is None,
        },
{
    let ghost c0 = data@.subrange(start as int, end as int);
    let mut acc: Vec<OperationsForBlock> = Vec::new();
    let mut pos: usize = start;
    proof {
        assert(acc.deep_view() =~~= Seq::<OperationsForBlockV>::empty());
    }
    while pos < end
        invariant
            start <= pos <= end <= data@.len(),
            c0 == data@.subrange(start as int, end as int),
            crate::codec::dec_ops_for_blocks(c0) == (match crate::codec::dec_ops_for_blocks(
                data@.subrange(pos as int, end as int),
            ) {
                Some(t) => Some(acc.deep_view() + t),
                None => None::<Seq<OperationsForBlockV>>,
            }),
        decreases end - pos,
    {
        let ghost rem = data@.subrange(pos as int, end as int);
        if end - pos < 33 {
            return None;
        }
        let h = read_bytes(data, pos, crate::codec::HASH_SIZE);
        let vp = read_u8(data, pos + crate::codec::HASH_SIZE);
        let q = OperationsForBlock::new(h, #[verifier::truncate] (vp as i8));
        let ghost old_acc = acc.deep_view();
        let ghost qv = q@;
        proof {
            assert(rem.take(crate::codec::HASH_SIZE as int) =~= qv.hash);
            assert(rem[crate::codec::HASH_SIZE as int] == data@[pos as int
                + crate::codec::HASH_SIZE as int]);
            assert(rem.skip(33) =~= data@.subrange(pos as int + 33, end as int));
        }
        acc.push(q);
        pos = pos + 33;
        proof {
            let rem2 = data@.subrange(pos as int, end as int);
            assert(acc.deep_view() =~~= old_acc.push(qv));
            match crate::codec::dec_ops_for_blocks(rem2) {
                Some(t2) => {
                    assert(old_acc + (seq![qv] + t2) =~~= acc.deep_view() + t2);
                },
                None => {},
            }
        }
    }
    proof {
        assert(data@.subrange(pos as int, end as int) =~= Seq::<u8>::empty());
        assert(acc.deep_view() + Seq::<OperationsForBlockV>::empty() =~~= acc.deep_view());
    }
    Some(acc)
}

/// Reads one merkle path from the front of `data[start .. end]`.
pub fn decode_path_at(data: &Vec<u8>, start: usize, end: usize) -> (r: Option<(Path, usize)>)
    requires
        start <= end <= data@.len(),
    ensures
        match r {
            Some((p, q)) => crate::codec::dec_path(data@.subrange(start as int, end as int))
                == Some((p@, q - start)) && start < q <= end,
            None => crate::codec::dec_path(data@.subrange(start as int, end as int)) is None,
        },
    decreases end - start,
{
    let ghost c = data@.subrange(start as int, end as int);
    if start == end {
        return None;
    }
    let tag = read_u8(data, start);
    proof {
        assert(c[0] == data@[start as int]);
    }
    if tag == 0xF0 {
        proof {
            assert(c.skip(1) =~= data@.subrange(start as int + 1, end as int));
        }
        match decode_path_at(data, start + 1, end) {
            Some((sub, q)) => {
                if end - q < crate::codec::HASH_SIZE {
                    return None;
                }
                let right = read_bytes(data, q, crate::codec::HASH_SIZE);
                proof {
                    let n = q - start - 1;
                    assert(c.subrange(1 + n, 1 + n + crate::codec::HASH_SIZE as int) =~= right@);
                }
                Some((Path::Left(Box::new(PathLeft { path: sub, right })), q
                    + crate::codec::HASH_SIZE))
            },
            None => None,
        }
    } else if tag == 0x0F {
        if end - start < 1 + crate::codec::HASH_SIZE {
            return None;
        }
        let left = read_bytes(data, start + 1, crate::codec::HASH_SIZE);
        proof {
            assert(c.subrange(1, 1 + crate::codec::HASH_SIZE as int) =~= left@);
            assert(c.skip(1 + crate::codec::HASH_SIZE as int) =~= data@.subrange(
                start as int + 1 + crate::codec::HASH_SIZE as int,
                end as int,
            ));
        }
        match decode_path_at(data, start + 1 + crate::codec::HASH_SIZE, end) {
            Some((sub, q)) => Some((Path::Right(Box::new(PathRight { left, path: sub })), q)),
            None => None,
        }
    } else if tag == 0x00 {
        Some((Path::Op, start + 1))
    } else {
        None
    }
}


// ---------------------------------------------------------------------------
// The remaining message bodies.
// ---------------------------------------------------------------------------

/// The mempool advertisement inside a current-head message.
pub struct Mempool {
    known_valid: Vec<Vec<u8>>,
    pending: Vec<Vec<u8>>,
}

impl View for Mempool {
    type V = crate::codec::MempoolV;

    closed spec fn view(&self) -> crate::codec::MempoolV {
        crate::codec::MempoolV {
            known_valid: self.known_valid.deep_view(),
            pending: self.pending.deep_view(),
        }
    }
}

impl Mempool {
    pub fn new(known_valid: Vec<Vec<u8>>, pending: Vec<Vec<u8>>) -> (r: Mempool)
        ensures
            r@ == (crate::codec::MempoolV {
                known_valid: known_valid.deep_view(),
                pending: pending.deep_view(),
            }),
    {
        Mempool { known_valid, pending }
    }

    pub fn known_valid(&self) -> (r: &Vec<Vec<u8>>)
        ensures
            r.deep_view() == self@.known_valid,
    {
        &self.known_valid
    }

    pub fn pending(&self) -> (r: &Vec<Vec<u8>>)
        ensures
            r.deep_view() == self@.pending,
    {
        &self.pending
    }

    pub fn duplicate(&self) -> (r: Mempool)
        ensures
            r@ == self@,
    {
        Mempool {
            known_valid: copy_hashes(&self.known_valid),
            pending: copy_hashes(&self.pending),
        }
    }

    pub fn encode(&self, out: &mut Vec<u8>) -> (r: bool)
        ensures
            r <==> crate::codec::wf_dyn(enc_hashes(self@.known_valid)) && crate::codec::wf_dyn(
                enc_hashes(self@.pending),
            ),
            r ==> final(out)@ == old(out)@ + crate::codec::enc_mempool(self@),
            !r ==> final(out)@ == old(out)@,
    {
        let mut kv: Vec<u8> = Vec::new();
        put_hashes(&mut kv, &self.known_valid);
        let mut p: Vec<u8> = Vec::new();
        put_hashes(&mut p, &self.pending);
        if kv.len() > u32::MAX as usize || p.len() > u32::MAX as usize {
            return false;
        }
        let mut tmp: Vec<u8> = Vec::new();
        put_dyn(&mut tmp, &kv);
        put_dyn(&mut tmp, &p);
        put_bytes(out, &tmp);
        proof {
            assert(final(out)@ =~= old(out)@ + crate::codec::enc_mempool(self@));
        }
        true
    }
}

/// A list of addresses of other peers worth connecting to.
pub struct AdvertiseMessage {
    id: Vec<String>,
}

impl View for AdvertiseMessage {
    type V = Seq<Seq<char>>;

    closed spec fn view(&self) -> Seq<Seq<char>> {
        self.id.deep_view()
    }
}

impl AdvertiseMessage {
    pub fn new(id: Vec<String>) -> (r: AdvertiseMessage)
        ensures
            r@ == id.deep_view(),
    {
        AdvertiseMessage { id }
    }

    pub fn id(&self) -> (r: &Vec<String>)
        ensures
            r.deep_view() == self@,
    {
        &self.id
    }
}

/// A connection-slot swap offer or acknowledgement.
pub struct SwapMessage {
    point: String,
    peer_id: Vec<u8>,
}

impl View for SwapMessage {
    type V = crate::codec::SwapV;

    closed spec fn view(&self) -> crate::codec::SwapV {
        crate::codec::SwapV { point: self.point@, peer_id: self.peer_id@ }
    }
}

impl SwapMessage {
    pub fn new(point: String, peer_id: Vec<u8>) -> (r: SwapMessage)
        ensures
            r@ == (crate::codec::SwapV { point: point@, peer_id: peer_id@ }),
    {
        SwapMessage { point, peer_id }
    }

    pub fn point(&self) -> (r: &String)
        ensures
            r@ == self@.point,
    {
        &self.point
    }

    pub fn peer_id(&self) -> (r: &Vec<u8>)
        ensures
            r@ == self@.peer_id,
    {
        &self.peer_id
    }
}

/// Asks a peer for its current branch on one chain.
pub struct GetCurrentBranchMessage {
    chain_id: Vec<u8>,
}

impl View for GetCurrentBranchMessage {
    type V = Seq<u8>;

    closed spec fn view(&self) -> Seq<u8> {
        self.chain_id@
    }
}

impl GetCurrentBranchMessage {
    pub fn new(chain_id: Vec<u8>) -> (r: GetCurrentBranchMessage)
        ensures
            r@ == chain_id@,
    {
        GetCurrentBranchMessage { chain_id }
    }

    pub fn chain_id(&self) -> (r: &Vec<u8>)
        ensures
            r@ == self@,
    {
        &self.chain_id
    }
}

/// A peer's current head together with the sampled history below it.
pub struct CurrentBranchMessage {
    chain_id: Vec<u8>,
    current_head: BlockHeader,
    history: Vec<Vec<u8>>,
}

impl View for CurrentBranchMessage {
    type V = crate::codec::CurrentBranchV;

    closed spec fn view(&self) -> crate::codec::CurrentBranchV {
        crate::codec::CurrentBranchV {
            chain_id: self.chain_id@,
            current_head: self.current_head@,
            history: self.history.deep_view(),
        }
    }
}

impl CurrentBranchMessage {
    pub fn new(chain_id: Vec<u8>, current_head: BlockHeader, history: Vec<Vec<u8>>) -> (r:
        CurrentBranchMessage)
        ensures
            r@ == (crate::codec::CurrentBranchV {
                chain_id: chain_id@,
                current_head: current_head@,
                history: history.deep_view(),
            }),
    {
        CurrentBranchMessage { chain_id, current_head, history }
    }

    pub fn chain_id(&self) -> (r: &Vec<u8>)
        ensures
            r@ == self@.chain_id,
    {
        &self.chain_id
    }

    pub fn current_head(&self) -> (r: &BlockHeader)
        ensures
            r@ == self@.current_head,
    {
        &self.current_head
    }

    pub fn history(&self) -> (r: &Vec<Vec<u8>>)
        ensures
            r.deep_view() == self@.history,
    {
        &self.history
    }
}

/// Tells a peer that a chain is no longer active.
pub struct DeactivateMessage {
    deactivate: Vec<u8>,
}

impl View for DeactivateMessage {
    type V = Seq<u8>;

    closed spec fn view(&self) -> Seq<u8> {
        self.deactivate@
    }
}

impl DeactivateMessage {
    pub fn new(deactivate: Vec<u8>) -> (r: DeactivateMessage)
        ensures
            r@ == deactivate@,
    {
        DeactivateMessage { deactivate }
    }

    pub fn deactivate(&self) -> (r: &Vec<u8>)
        ensures
            r@ == self@,
    {
        &self.deactivate
    }
}

/// Asks a peer for its current head on one chain.
pub struct GetCurrentHeadMessage {
    chain_id: Vec<u8>,
}

impl View for GetCurrentHeadMessage {
    type V = Seq<u8>;

    closed spec fn view(&self) -> Seq<u8> {
        self.chain_id@
    }
}

impl GetCurrentHeadMessage {
    pub fn new(chain_id: Vec<u8>) -> (r: GetCurrentHeadMessage)
        ensures
            r@ == chain_id@,
    {
        GetCurrentHeadMessage { chain_id }
    }

    pub fn chain_id(&self) -> (r: &Vec<u8>)
        ensures
            r@ == self@,
    {
        &self.chain_id
    }
}

/// A peer's current head block and its advertised mempool.
pub struct CurrentHeadMessage {
    chain_id: Vec<u8>,
    current_block_header: BlockHeader,
    current_mempool: Mempool,
}

impl View for CurrentHeadMessage {
    type V = crate::codec::CurrentHeadV;

    closed spec fn view(&self) -> crate::codec::CurrentHeadV {
        crate::codec::CurrentHeadV {
            chain_id: self.chain_id@,
            current_block_header: self.current_block_header@,
            current_mempool: self.current_mempool@,
        }
    }
}

impl CurrentHeadMessage {
    pub fn new(chain_id: Vec<u8>, current_block_header: BlockHeader, current_mempool: Mempool) -> (r:
        CurrentHeadMessage)
        ensures
            r@ == (crate::codec::CurrentHeadV {
                chain_id: chain_id@,
                current_block_header: current_block_header@,
                current_mempool: current_mempool@,
            }),
    {
        CurrentHeadMessage { chain_id, current_block_header, current_mempool }
    }

    pub fn chain_id(&self) -> (r: &Vec<u8>)
        ensures
            r@ == self@.chain_id,
    {
        &self.chain_id
    }

    pub fn current_block_header(&self) -> (r: &BlockHeader)
        ensures
            r@ == self@.current_block_header,
    {
        &self.current_block_header
    }

    pub fn current_mempool(&self) -> (r: &Mempool)
        ensures
            r@ == self@.current_mempool,
    {
        &self.current_mempool
    }
}

/// Asks a peer for the headers of the listed blocks.
pub struct GetBlockHeadersMessage {
    get_block_headers: Vec<Vec<u8>>,
}

impl View for GetBlockHeadersMessage {
    type V = Seq<Seq<u8>>;

    closed spec fn view(&self) -> Seq<Seq<u8>> {
        self.get_block_headers.deep_view()
    }
}

impl GetBlockHeadersMessage {
    pub fn new(get_block_headers: Vec<Vec<u8>>) -> (r: GetBlockHeadersMessage)
        ensures
            r@ == get_block_headers.deep_view(),
    {
        GetBlockHeadersMessage { get_block_headers }
    }

    pub fn get_block_headers(&self) -> (r: &Vec<Vec<u8>>)
        ensures
            r.deep_view() == self@,
    {
        &self.get_block_headers
    }
}

/// One block header, sent in reply to a header request.
pub struct BlockHeaderMessage {
    block_header: BlockHeader,
}

impl View for BlockHeaderMessage {
    type V = crate::codec::BlockHeaderV;

    closed spec fn view(&self) -> crate::codec::BlockHeaderV {
        self.block_header@
    }
}

impl BlockHeaderMessage {
    pub fn new(block_header: BlockHeader) -> (r: BlockHeaderMessage)
        ensures
            r@ == block_header@,
    {
        BlockHeaderMessage { block_header }
    }

    pub fn block_header(&self) -> (r: &BlockHeader)
        ensures
            r@ == self@,
    {
        &self.block_header
    }
}

/// Asks a peer for the contents of the listed operations.
pub struct GetOperationsMessage {
    get_operations: Vec<Vec<u8>>,
}

impl View for GetOperationsMessage {
    type V = Seq<Seq<u8>>;

    closed spec fn view(&self) -> Seq<Seq<u8>> {
        self.get_operations.deep_view()
    }
}

impl GetOperationsMessage {
    pub fn new(get_operations: Vec<Vec<u8>>) -> (r: GetOperationsMessage)
        ensures
            r@ == get_operations.deep_view(),
    {
        GetOperationsMessage { get_operations }
    }

    pub fn get_operations(&self) -> (r: &Vec<Vec<u8>>)
        ensures
            r.deep_view() == self@,
    {
        &self.get_operations
    }
}

/// The operations of one validation pass of one block, with the merkle path
/// tying them to the block's operations hash.
pub struct OperationsForBlocksMessage {
    operations_for_block: OperationsForBlock,
    operation_hashes_path: Path,
    operations: Vec<Operation>,
}

impl View for OperationsForBlocksMessage {
    type V = crate::codec::OperationsForBlocksV;

    closed spec fn view(&self) -> crate::codec::OperationsForBlocksV {
        crate::codec::OperationsForBlocksV {
            operations_for_block: self.operations_for_block@,
            operation_hashes_path: self.operation_hashes_path@,
            operations: self.operations.deep_view(),
        }
    }
}

impl OperationsForBlocksMessage {
    pub fn new(
        operations_for_block: OperationsForBlock,
        operation_hashes_path: Path,
        operations: Vec<Operation>,
    ) -> (r: OperationsForBlocksMessage)
        ensures
            r@ == (crate::codec::OperationsForBlocksV {
                operations_for_block: operations_for_block@,
                operation_hashes_path: operation_hashes_path@,
                operations: operations.deep_view(),
            }),
    {
        OperationsForBlocksMessage { operations_for_block, operation_hashes_path, operations }
    }

    pub fn duplicate(&self) -> (r: OperationsForBlocksMessage)
        ensures
            r@ == self@,
    {
        let mut ops: Vec<Operation> = Vec::new();
        let mut i: usize = 0;
        while i < self.operations.len()
            invariant
                i <= self.operations@.len(),
                ops@.len() == i,
                forall|j: int| 0 <= j < i ==> #[trigger] ops@[j]@ == self.operations@[j]@,
            decreases self.operations@.len() - i,
        {
            ops.push(self.operations[i].duplicate());
            i = i + 1;
        }
        let r = OperationsForBlocksMessage {
            operations_for_block: self.operations_for_block.duplicate(),
            operation_hashes_path: self.operation_hashes_path.duplicate(),
            operations: ops,
        };
        proof {
            assert(r.operations.deep_view() =~~= self.operations.deep_view());
        }
        r
    }

    pub fn operations_for_block(&self) -> (r: &OperationsForBlock)
        ensures
            r@ == self@.operations_for_block,
    {
        &self.operations_for_block
    }

    pub fn operation_hashes_path(&self) -> (r: &Path)
        ensures
            r@ == self@.operation_hashes_path,
    {
        &self.operation_hashes_path
    }

    pub fn operations(&self) -> (r: &Vec<Operation>)
        ensures
            r.deep_view() == self@.operations,
    {
        &self.operations
    }
}

/// Asks a peer for the operations of the listed blocks and passes.
pub struct GetOperationsForBlocksMessage {
    get_operations_for_blocks: Vec<OperationsForBlock>,
}

impl View for GetOperationsForBlocksMessage {
    type V = Seq<OperationsForBlockV>;

    closed spec fn view(&self) -> Seq<OperationsForBlockV> {
        self.get_operations_for_blocks.deep_view()
    }
}

impl GetOperationsForBlocksMessage {
    pub fn new(get_operations_for_blocks: Vec<OperationsForBlock>) -> (r:
        GetOperationsForBlocksMessage)
        ensures
            r@ == get_operations_for_blocks.deep_view(),
    {
        GetOperationsForBlocksMessage { get_operations_for_blocks }
    }

    pub fn get_operations_for_blocks(&self) -> (r: &Vec<OperationsForBlock>)
        ensures
            r.deep_view() == self@,
    {
        &self.get_operations_for_blocks
    }
}

/// One peer-to-peer message.
pub enum PeerMessage {
    Disconnect,
    Bootstrap,
    Advertise(AdvertiseMessage),
    SwapRequest(SwapMessage),
    SwapAck(SwapMessage),
    GetCurrentBranch(GetCurrentBranchMessage),
    CurrentBranch(CurrentBranchMessage),
    Deactivate(DeactivateMessage),
    GetCurrentHead(GetCurrentHeadMessage),
    CurrentHead(CurrentHeadMessage),
    GetBlockHeaders(GetBlockHeadersMessage),
    BlockHeader(BlockHeaderMessage),
    GetOperations(GetOperationsMessage),
    Operation(OperationMessage),
    GetOperationsForBlocks(GetOperationsForBlocksMessage),
    OperationsForBlocks(OperationsForBlocksMessage),
}

impl View for PeerMessage {
    type V = PeerMessageV;

    closed spec fn view(&self) -> PeerMessageV {
        match self {
            PeerMessage::Disconnect => PeerMessageV::Disconnect,
            PeerMessage::Bootstrap => PeerMessageV::Bootstrap,
            PeerMessage::Advertise(m) => PeerMessageV::Advertise(m@),
            PeerMessage::SwapRequest(m) => PeerMessageV::SwapRequest(m@),
            PeerMessage::SwapAck(m) => PeerMessageV::SwapAck(m@),
            PeerMessage::GetCurrentBranch(m) => PeerMessageV::GetCurrentBranch(m@),
            PeerMessage::CurrentBranch(m) => PeerMessageV::CurrentBranch(m@),
            PeerMessage::Deactivate(m) => PeerMessageV::Deactivate(m@),
            PeerMessage::GetCurrentHead(m) => PeerMessageV::GetCurrentHead(m@),
            PeerMessage::CurrentHead(m) => PeerMessageV::CurrentHead(m@),
            PeerMessage::GetBlockHeaders(m) => PeerMessageV::GetBlockHeaders(m@),
            PeerMessage::BlockHeader(m) => PeerMessageV::BlockHeader(m@),
            PeerMessage::GetOperations(m) => PeerMessageV::GetOperations(m@),
            PeerMessage::Operation(m) => PeerMessageV::Operation(m@),
            PeerMessage::GetOperationsForBlocks(m) => PeerMessageV::GetOperationsForBlocks(m@),
            PeerMessage::OperationsForBlocks(m) => PeerMessageV::OperationsForBlocks(m@),
        }
    }
}

impl DeepView for PeerMessage {
    type V = PeerMessageV;

    open spec fn deep_view(&self) -> PeerMessageV {
        self.view()
    }
}

// ---------------------------------------------------------------------------
// Which values every length field can frame. Encoding succeeds exactly on
// framable messages; every well-formed message is framable.
// ---------------------------------------------------------------------------

pub open spec fn framable_str(sv: Seq<char>) -> bool {
    encode_utf8(sv).len() <= u32::MAX
}

pub open spec fn framable_strs(ss: Seq<Seq<char>>) -> bool {
    forall|i: int| 0 <= i < ss.len() ==> framable_str(#[trigger] ss[i])
}

pub open spec fn framable_header(h: crate::codec::BlockHeaderV) -> bool {
    &&& crate::codec::wf_fitness(h.fitness)
    &&& crate::codec::wf_dyn(enc_fitness(h.fitness))
    &&& crate::codec::wf_dyn(crate::codec::enc_header(h))
}

pub open spec fn framable_mempool(m: crate::codec::MempoolV) -> bool {
    &&& crate::codec::wf_dyn(enc_hashes(m.known_valid))
    &&& crate::codec::wf_dyn(enc_hashes(m.pending))
}

pub open spec fn framable_operations(ops: Seq<OperationV>) -> bool {
    forall|i: int| 0 <= i < ops.len() ==> crate::codec::wf_dyn(
        enc_operation(#[trigger] ops[i]),
    )
}

pub open spec fn framable_msg(m: PeerMessageV) -> bool {
    match m {
        PeerMessageV::Disconnect => true,
        PeerMessageV::Bootstrap => true,
        PeerMessageV::Advertise(ids) => framable_strs(ids),
        PeerMessageV::SwapRequest(v) => framable_str(v.point),
        PeerMessageV::SwapAck(v) => framable_str(v.point),
        PeerMessageV::GetCurrentBranch(_) => true,
        PeerMessageV::CurrentBranch(cb) => framable_header(cb.current_head),
        PeerMessageV::Deactivate(_) => true,
        PeerMessageV::GetCurrentHead(_) => true,
        PeerMessageV::CurrentHead(ch) => framable_header(ch.current_block_header)
            && framable_mempool(ch.current_mempool),
        PeerMessageV::GetBlockHeaders(hs) => crate::codec::wf_dyn(enc_hashes(hs)),
        PeerMessageV::BlockHeader(h) => framable_header(h),
        PeerMessageV::GetOperations(hs) => crate::codec::wf_dyn(enc_hashes(hs)),
        PeerMessageV::Operation(op) => crate::codec::wf_dyn(enc_operation(op)),
        PeerMessageV::GetOperationsForBlocks(qs) => crate::codec::wf_dyn(enc_ops_for_blocks(qs)),
        PeerMessageV::OperationsForBlocks(v) => framable_operations(v.operations),
    }
}

pub open spec fn framable_msgs(ms: Seq<PeerMessageV>) -> bool {
    forall|i: int| 0 <= i < ms.len() ==> framable_msg(#[trigger] ms[i])
}


// ---------------------------------------------------------------------------
// Message-level encoding.
// ---------------------------------------------------------------------------

/// Writes the strings of an advertisement, failing exactly when one of them
/// cannot be framed.
fn put_points(out: &mut Vec<u8>, ss: &Vec<String>) -> (r: bool)
    ensures
        r <==> framable_strs(ss.deep_view()),
        r ==> final(out)@ == old(out)@ + enc_strs(ss.deep_view()),
        !r ==> final(out)@ == old(out)@,
{
    let mut i: usize = 0;
    while i < ss.len()
        invariant
            i <= ss@.len(),
            ss.deep_view().len() == ss@.len(),
            forall|j: int| 0 <= j < ss@.len() ==> #[trigger] ss.deep_view()[j] == ss@[j]@,
            forall|j: int| 0 <= j < i ==> framable_str(#[trigger] ss.deep_view()[j]),
        decreases ss@.len() - i,
    {
        if ss[i].as_str().as_bytes().len() > u32::MAX as usize {
            proof {
                assert(!framable_str(ss.deep_view()[i as int]));
                assert(!framable_strs(ss.deep_view()));
            }
            return false;
        }
        i = i + 1;
    }
    proof {
        assert(framable_strs(ss.deep_view()));
        assert forall|j: int| 0 <= j < ss@.len() implies encode_utf8(#[trigger] ss@[j]@).len()
            <= u32::MAX by {
            assert(framable_str(ss.deep_view()[j]));
        }
    }
    put_strs(out, ss);
    true
}

/// Writes one tagged message, failing exactly when a length field of the
/// payload cannot be filled.
pub fn encode_peer_message(m: &PeerMessage, out: &mut Vec<u8>) -> (r: bool)
    ensures
        r <==> framable_msg(m@),
        r ==> final(out)@ == old(out)@ + enc_msg(m@),
        !r ==> final(out)@ == old(out)@,
{
    let mut tmp: Vec<u8> = Vec::new();
    match m {
        PeerMessage::Disconnect => {
            put_u16_be(&mut tmp, 0x01);
            proof {
                assert(tmp@ =~= enc_msg(m@));
            }
        },
        PeerMessage::Bootstrap => {
            put_u16_be(&mut tmp, 0x02);
            proof {
                assert(tmp@ =~= enc_msg(m@));
            }
        },
        PeerMessage::Advertise(msg) => {
            put_u16_be(&mut tmp, 0x03);
            if !put_points(&mut tmp, msg.id()) {
                return false;
            }
            proof {
                assert(tmp@ =~= enc_msg(m@));
            }
        },
        PeerMessage::SwapRequest(msg) => {
            put_u16_be(&mut tmp, 0x04);
            if msg.point().as_str().as_bytes().len() > u32::MAX as usize {
                return false;
            }
            put_str(&mut tmp, msg.point());
            put_bytes(&mut tmp, msg.peer_id());
            proof {
                assert(tmp@ =~= enc_msg(m@));
            }
        },
        PeerMessage::SwapAck(msg) => {
            put_u16_be(&mut tmp, 0x05);
            if msg.point().as_str().as_bytes().len() > u32::MAX as usize {
                return false;
            }
            put_str(&mut tmp, msg.point());
            put_bytes(&mut tmp, msg.peer_id());
            proof {
                assert(tmp@ =~= enc_msg(m@));
            }
        },
        PeerMessage::GetCurrentBranch(msg) => {
            put_u16_be(&mut tmp, 0x10);
            put_bytes(&mut tmp, msg.chain_id());
            proof {
                assert(tmp@ =~= enc_msg(m@));
            }
        },
        PeerMessage::CurrentBranch(msg) => {
            put_u16_be(&mut tmp, 0x11);
            put_bytes(&mut tmp, msg.chain_id());
            let mut hdr: Vec<u8> = Vec::new();
            if !msg.current_head().encode(&mut hdr) {
                return false;
            }
            if hdr.len() > u32::MAX as usize {
                return false;
            }
            put_dyn(&mut tmp, &hdr);
            put_hashes(&mut tmp, msg.history());
            proof {
                assert(tmp@ =~= enc_msg(m@));
            }
        },
        PeerMessage::Deactivate(msg) => {
            put_u16_be(&mut tmp, 0x12);
            put_bytes(&mut tmp, msg.deactivate());
            proof {
                assert(tmp@ =~= enc_msg(m@));
            }
        },
        PeerMessage::GetCurrentHead(msg) => {
            put_u16_be(&mut tmp, 0x13);
            put_bytes(&mut tmp, msg.chain_id());
            proof {
                assert(tmp@ =~= enc_msg(m@));
            }
        },
        PeerMessage::CurrentHead(msg) => {
            put_u16_be(&mut tmp, 0x14);
            put_bytes(&mut tmp, msg.chain_id());
            let mut hdr: Vec<u8> = Vec::new();
            if !msg.current_block_header().encode(&mut hdr) {
                return false;
            }
            if hdr.len() > u32::MAX as usize {
                return false;
            }
            put_dyn(&mut tmp, &hdr);
            if !msg.current_mempool().encode(&mut tmp) {
                return false;
            }
            proof {
                assert(tmp@ =~= enc_msg(m@));
            }
        },
        PeerMessage::GetBlockHeaders(msg) => {
            put_u16_be(&mut tmp, 0x20);
            let mut hs: Vec<u8> = Vec::new();
            put_hashes(&mut hs, msg.get_block_headers());
            if hs.len() > u32::MAX as usize {
                return false;
            }
            put_dyn(&mut tmp, &hs);
            proof {
                assert(tmp@ =~= enc_msg(m@));
            }
        },
        PeerMessage::BlockHeader(msg) => {
            put_u16_be(&mut tmp, 0x21);
            let mut hdr: Vec<u8> = Vec::new();
            if !msg.block_header().encode(&mut hdr) {
                return false;
            }
            if hdr.len() > u32::MAX as usize {
                return false;
            }
            put_dyn(&mut tmp, &hdr);
            proof {
                assert(tmp@ =~= enc_msg(m@));
            }
        },
        PeerMessage::GetOperations(msg) => {
            put_u16_be(&mut tmp, 0x30);
            let mut hs: Vec<u8> = Vec::new();
            put_hashes(&mut hs, msg.get_operations());
            if hs.len() > u32::MAX as usize {
                return false;
            }
            put_dyn(&mut tmp, &hs);
            proof {
                assert(tmp@ =~= enc_msg(m@));
            }
        },
        PeerMessage::Operation(msg) => {
            put_u16_be(&mut tmp, 0x31);
            let mut op: Vec<u8> = Vec::new();
            msg.operation().encode(&mut op);
            if op.len() > u32::MAX as usize {
                return false;
            }
            put_dyn(&mut tmp, &op);
            proof {
                assert(tmp@ =~= enc_msg(m@));
            }
        },
        PeerMessage::GetOperationsForBlocks(msg) => {
            put_u16_be(&mut tmp, 0x60);
            let mut qs: Vec<u8> = Vec::new();
            let list = msg.get_operations_for_blocks();
            let mut i: usize = 0;
            proof {
                assert(list.deep_view().take(0) =~~= Seq::<OperationsForBlockV>::empty());
            }
            while i < list.len()
                invariant
                    i <= list@.len(),
                    list.deep_view().len() == list@.len(),
                    forall|j: int| 0 <= j < list@.len() ==> #[trigger] list.deep_view()[j]
                        == list@[j]@,
                    qs@ == enc_ops_for_blocks(list.deep_view().take(i as int)),
                decreases list@.len() - i,
            {
                list[i].encode(&mut qs);
                proof {
                    assert(list.deep_view().take(i as int).push(list.deep_view()[i as int]) =~~=
                        list.deep_view().take(i as int + 1));
                    lemma_enc_ops_for_blocks_snoc(
                        list.deep_view().take(i as int),
                        list.deep_view()[i as int],
                    );
                }
                i = i + 1;
            }
            proof {
                assert(list.deep_view().take(list@.len() as int) =~~= list.deep_view());
            }
            if qs.len() > u32::MAX as usize {
                return false;
            }
            put_dyn(&mut tmp, &qs);
            proof {
                assert(tmp@ =~= enc_msg(m@));
            }
        },
        PeerMessage::OperationsForBlocks(msg) => {
            put_u16_be(&mut tmp, 0x61);
            msg.operations_for_block().encode(&mut tmp);
            msg.operation_hashes_path().encode(&mut tmp);
            let ops = msg.operations();
            let mut i: usize = 0;
            proof {
                assert(ops.deep_view().take(0) =~~= Seq::<OperationV>::empty());
            }
            while i < ops.len()
                invariant
                    i <= ops@.len(),
                    ops.deep_view().len() == ops@.len(),
                    m@ is OperationsForBlocks,
                    m@->OperationsForBlocks_0.operations == ops.deep_view(),
                    forall|j: int| 0 <= j < ops@.len() ==> #[trigger] ops.deep_view()[j]
                        == ops@[j]@,
                    tmp@ == be_u16(0x61) + (enc_ops_for_block(m@->OperationsForBlocks_0.operations_for_block)
                        + (enc_path(m@->OperationsForBlocks_0.operation_hashes_path)
                        + enc_operations(ops.deep_view().take(i as int)))),
                    forall|j: int| 0 <= j < i ==> crate::codec::wf_dyn(
                        enc_operation(#[trigger] ops.deep_view()[j]),
                    ),
                decreases ops@.len() - i,
            {
                let mut ob: Vec<u8> = Vec::new();
                ops[i].encode(&mut ob);
                if ob.len() > u32::MAX as usize {
                    proof {
                        assert(!crate::codec::wf_dyn(enc_operation(ops.deep_view()[i as int])));
                        assert(!framable_operations(ops.deep_view()));
                        assert(m@->OperationsForBlocks_0.operations == ops.deep_view());
                        assert(!framable_msg(m@));
                    }
                    return false;
                }
                put_dyn(&mut tmp, &ob);
                proof {
                    assert(ops.deep_view().take(i as int).push(ops.deep_view()[i as int]) =~~=
                        ops.deep_view().take(i as int + 1));
                    lemma_enc_operations_snoc(
                        ops.deep_view().take(i as int),
                        ops.deep_view()[i as int],
                    );
                    assert(tmp@ =~= be_u16(0x61) + (enc_ops_for_block(
                        m@->OperationsForBlocks_0.operations_for_block,
                    ) + (enc_path(m@->OperationsForBlocks_0.operation_hashes_path)
                        + enc_operations(ops.deep_view().take(i as int + 1)))));
                }
                i = i + 1;
            }
            proof {
                assert(ops.deep_view().take(ops@.len() as int) =~~= ops.deep_view());
                assert(tmp@ =~= enc_msg(m@));
            }
        },
    }
    proof {
        assert(framable_msg(m@));
    }
    put_bytes(out, &tmp);
    true
}

/// A batch of peer messages as framed on the wire, retaining, when it was
/// read from bytes, the bytes it came from.
pub struct PeerMessageResponse {
    messages: Vec<PeerMessage>,
    body: crate::binary_message::BinaryDataCache,
}

impl View for PeerMessageResponse {
    type V = Seq<PeerMessageV>;

    closed spec fn view(&self) -> Seq<PeerMessageV> {
        self.messages.deep_view()
    }
}

impl PeerMessageResponse {
    pub fn new(messages: Vec<PeerMessage>) -> (r: PeerMessageResponse)
        ensures
            r@ == messages.deep_view(),
            r.cached() is None,
    {
        PeerMessageResponse { messages, body: crate::binary_message::BinaryDataCache::empty() }
    }

    pub fn from_message(message: PeerMessage) -> (r: PeerMessageResponse)
        ensures
            r@ == seq![message@],
            r.cached() is None,
    {
        let mut messages: Vec<PeerMessage> = Vec::new();
        messages.push(message);
        proof {
            assert(messages.deep_view() =~~= seq![message@]);
        }
        PeerMessageResponse { messages, body: crate::binary_message::BinaryDataCache::empty() }
    }

    pub fn messages(&self) -> (r: &Vec<PeerMessage>)
        ensures
            r.deep_view() == self@,
    {
        &self.messages
    }

    pub fn into_messages(self) -> (r: Vec<PeerMessage>)
        ensures
            r.deep_view() == self@,
    {
        self.messages
    }

    /// The bytes this response was decoded from, if it was decoded.
    pub closed spec fn cached(&self) -> Option<Seq<u8>> {
        self.body@
    }

    pub fn cache(&self) -> (r: Option<Vec<u8>>)
        ensures
            match r {
                Some(v) => self.cached() == Some(v@),
                None => self.cached() is None,
            },
    {
        self.body.read()
    }

    /// Encodes the whole response inside its length frame. Fails exactly when
    /// some length field cannot be filled.
    pub fn as_bytes(&self) -> (r: Option<Vec<u8>>)
        ensures
            self.cached() matches Some(kept) ==> (r matches Some(b) && b@ == kept),
            self.cached() is None ==> (r matches Some(b) ==> b@ == crate::codec::enc_response(
                self@,
            ) && framable_msgs(self@) && crate::codec::wf_dyn(enc_msgs(self@))),
            self.cached() is None ==> (r is None ==> !(framable_msgs(self@) && crate::codec::wf_dyn(
                enc_msgs(self@),
            ))),
    {
        match self.body.read() {
            Some(kept) => {
                return Some(kept);
            },
            None => {},
        }
        let mut inner: Vec<u8> = Vec::new();
        let mut i: usize = 0;
        proof {
            assert(self@.take(0) =~~= Seq::<PeerMessageV>::empty());
        }
        while i < self.messages.len()
            invariant
                i <= self.messages@.len(),
                self@.len() == self.messages@.len(),
                self.cached() is None,
                forall|j: int| 0 <= j < self.messages@.len() ==> #[trigger] self@[j]
                    == self.messages@[j]@,
                inner@ == enc_msgs(self@.take(i as int)),
                forall|j: int| 0 <= j < i ==> framable_msg(#[trigger] self@[j]),
            decreases self.messages@.len() - i,
        {
            if !encode_peer_message(&self.messages[i], &mut inner) {
                proof {
                    assert(!framable_msg(self@[i as int]));
                    assert(!framable_msgs(self@));
                }
                return None;
            }
            proof {
                assert(self@.take(i as int).push(self@[i as int]) =~~= self@.take(i as int + 1));
                lemma_enc_msgs_snoc(self@.take(i as int), self@[i as int]);
            }
            i = i + 1;
        }
        proof {
            assert(self@.take(self.messages@.len() as int) =~~= self@);
        }
        if inner.len() > u32::MAX as usize {
            return None;
        }
        let mut out: Vec<u8> = Vec::new();
        put_dyn(&mut out, &inner);
        Some(out)
    }
}


// ---------------------------------------------------------------------------
// Message-level decoding.
// ---------------------------------------------------------------------------

/// Reads the length field of a block at `start` and yields the content range.
pub fn decode_dyn_at(data: &Vec<u8>, start: usize, end: usize) -> (r: Option<(usize, usize)>)
    requires
        start <= end <= data@.len(),
    ensures
        match r {
            Some((cs, ce)) => crate::codec::dec_dyn(data@.subrange(start as int, end as int))
                == Some((data@.subrange(cs as int, ce as int), ce - start)) && cs == start + 4 && cs
                <= ce <= end,
            None => crate::codec::dec_dyn(data@.subrange(start as int, end as int)) is None,
        },
{
    let ghost c = data@.subrange(start as int, end as int);
    if end - start < 4 {
        return None;
    }
    let n32 = read_u32_be(data, start);
    proof {
        assert(c[0] == data@[start as int] && c[1] == data@[start as int + 1]);
        assert(c[2] == data@[start as int + 2] && c[3] == data@[start as int + 3]);
    }
    if (end - start - 4) < (n32 as usize) {
        return None;
    }
    let n = n32 as usize;
    proof {
        assert(c.subrange(4, 4 + n as int) =~= data@.subrange(
            start as int + 4,
            start as int + 4 + n as int,
        ));
    }
    Some((start + 4, start + 4 + n))
}

/// Reads the block header that fills `data[start .. end]`.
pub fn decode_header_range(data: &Vec<u8>, start: usize, end: usize) -> (r: Option<BlockHeader>)
    requires
        start <= end <= data@.len(),
    ensures
        match r {
            Some(h) => crate::codec::dec_header(data@.subrange(start as int, end as int)) == Some(
                h@,
            ),
            None => crate::codec::dec_header(data@.subrange(start as int, end as int)) is None,
        },
{
    let ghost c = data@.subrange(start as int, end as int);
    if end - start < 78 {
        proof {
            reveal(crate::codec::dec_header_prefix);
            if end - start >= 4 {
                assert(c.skip(4) =~= data@.subrange(start as int + 4, end as int));
            }
            if end - start >= 5 {
                assert(c.skip(5) =~= data@.subrange(start as int + 5, end as int));
            }
            if end - start >= 37 {
                assert(c.skip(37) =~= data@.subrange(start as int + 37, end as int));
            }
            if end - start >= 45 {
                assert(c.skip(45) =~= data@.subrange(start as int + 45, end as int));
            }
            if end - start >= 46 {
                assert(c.skip(46) =~= data@.subrange(start as int + 46, end as int));
            }
        }
        return None;
    }
    let lvl = read_u32_be(data, start);
    let proto = read_u8(data, start + 4);
    let pred = read_bytes(data, start + 5, 32);
    let ts = crate::wire::read_u64_be(data, start + 37);
    let vp = read_u8(data, start + 45);
    let oh = read_bytes(data, start + 46, 32);
    proof {
        reveal(crate::codec::dec_header_prefix);
        assert(c[0] == data@[start as int] && c[1] == data@[start as int + 1]);
        assert(c[2] == data@[start as int + 2] && c[3] == data@[start as int + 3]);
        assert(c.skip(4) =~= data@.subrange(start as int + 4, end as int));
        assert(c.skip(5) =~= data@.subrange(start as int + 5, end as int));
        assert(c.skip(5).take(32) =~= pred@);
        assert(c.skip(37) =~= data@.subrange(start as int + 37, end as int));
        assert(c.skip(45) =~= data@.subrange(start as int + 45, end as int));
        assert(c.skip(46) =~= data@.subrange(start as int + 46, end as int));
        assert(c.skip(46).take(32) =~= oh@);
        assert(crate::codec::dec_header_prefix(c) == Some(
            ((lvl, proto, pred@, ts, vp, oh@), 78int),
        ));
        assert(c.skip(78) =~= data@.subrange(start as int + 78, end as int));
    }
    let s6s = start + 78;
    match decode_dyn_at(data, s6s, end) {
        None => {
            proof {
                reveal(crate::codec::dec_header_suffix);
            }
            None
        },
        Some((fs, fe)) => {
            match decode_fitness_range(data, fs, fe) {
                None => {
                    proof {
                        reveal(crate::codec::dec_header_suffix);
                    }
                    None
                },
                Some(fit) => {
                    let ghost s7 = data@.subrange(fe as int, end as int);
                    proof {
                        assert(c.skip(78).skip(fe - s6s) =~= s7);
                    }
                    if end - fe < 32 {
                        proof {
                            reveal(crate::codec::dec_header_suffix);
                        }
                        return None;
                    }
                    let ctx = read_bytes(data, fe, 32);
                    let pdata = read_bytes(data, fe + 32, end - fe - 32);
                    let h = BlockHeader::new(
                        #[verifier::truncate] (lvl as i32),
                        proto,
                        pred,
                        #[verifier::truncate] (ts as i64),
                        vp,
                        oh,
                        fit,
                        ctx,
                        pdata,
                    );
                    proof {
                        reveal(crate::codec::dec_header_suffix);
                        assert(s7.take(32) =~= ctx@);
                        assert(s7.skip(32) =~= pdata@);
                        assert(crate::codec::dec_header_suffix(c.skip(78)) == Some(
                            (fit.deep_view(), ctx@, pdata@),
                        ));
                    }
                    Some(h)
                },
            }
        },
    }
}

/// Reads the length-framed block header at `start`.
pub fn decode_header_dyn_at(data: &Vec<u8>, start: usize, end: usize) -> (r: Option<
    (BlockHeader, usize),
>)
    requires
        start <= end <= data@.len(),
    ensures
        match r {
            Some((h, p)) => crate::codec::dec_header_dyn(data@.subrange(start as int, end as int))
                == Some((h@, p - start)) && start <= p <= end,
            None => crate::codec::dec_header_dyn(
                data@.subrange(start as int, end as int),
            ) is None,
        },
{
    match decode_dyn_at(data, start, end) {
        None => None,
        Some((cs, ce)) => match decode_header_range(data, cs, ce) {
            None => None,
            Some(h) => Some((h, ce)),
        },
    }
}

/// Reads the mempool advertisement at `start`.
pub fn decode_mempool_at(data: &Vec<u8>, start: usize, end: usize) -> (r: Option<(Mempool, usize)>)
    requires
        start <= end <= data@.len(),
    ensures
        match r {
            Some((m, p)) => crate::codec::dec_mempool(data@.subrange(start as int, end as int))
                == Some((m@, p - start)) && start <= p <= end,
            None => crate::codec::dec_mempool(data@.subrange(start as int, end as int)) is None,
        },
{
    let ghost c = data@.subrange(start as int, end as int);
    match decode_dyn_at(data, start, end) {
        None => None,
        Some((ks, ke)) => match decode_hashes_range(data, ks, ke) {
            None => None,
            Some(kv) => {
                proof {
                    assert(c.skip(ke - start) =~= data@.subrange(ke as int, end as int));
                }
                match decode_dyn_at(data, ke, end) {
                    None => None,
                    Some((ps, pe)) => match decode_hashes_range(data, ps, pe) {
                        None => None,
                        Some(p) => Some((Mempool::new(kv, p), pe)),
                    },
                }
            },
        },
    }
}

/// Reads the swap payload at `start`.
pub fn decode_swap_at(data: &Vec<u8>, start: usize, end: usize) -> (r: Option<(SwapMessage, usize)>)
    requires
        start <= end <= data@.len(),
    ensures
        match r {
            Some((v, p)) => crate::codec::dec_swap(data@.subrange(start as int, end as int))
                == Some((v@, p - start)) && start <= p <= end,
            None => crate::codec::dec_swap(data@.subrange(start as int, end as int)) is None,
        },
{
    let ghost c = data@.subrange(start as int, end as int);
    match decode_str_at(data, start, end) {
        None => None,
        Some((pt, p)) => {
            proof {
                assert(c.skip(p - start) =~= data@.subrange(p as int, end as int));
            }
            if end - p < crate::codec::PKH_SIZE {
                return None;
            }
            let pid = read_bytes(data, p, crate::codec::PKH_SIZE);
            proof {
                assert(c.skip(p - start).take(crate::codec::PKH_SIZE as int) =~= pid@);
            }
            Some((SwapMessage::new(pt, pid), p + crate::codec::PKH_SIZE))
        },
    }
}

/// Reads the current-branch payload filling `data[start .. end]`.
pub fn decode_current_branch_range(data: &Vec<u8>, start: usize, end: usize) -> (r: Option<
    CurrentBranchMessage,
>)
    requires
        start <= end <= data@.len(),
    ensures
        match r {
            Some(m) => crate::codec::dec_current_branch(data@.subrange(start as int, end as int))
                == Some(m@),
            None => crate::codec::dec_current_branch(
                data@.subrange(start as int, end as int),
            ) is None,
        },
{
    let ghost c = data@.subrange(start as int, end as int);
    if end - start < crate::codec::CHAIN_ID_SIZE {
        return None;
    }
    let cid = read_bytes(data, start, crate::codec::CHAIN_ID_SIZE);
    proof {
        assert(c.take(crate::codec::CHAIN_ID_SIZE as int) =~= cid@);
        assert(c.skip(crate::codec::CHAIN_ID_SIZE as int) =~= data@.subrange(
            start as int + crate::codec::CHAIN_ID_SIZE as int,
            end as int,
        ));
    }
    match decode_header_dyn_at(data, start + crate::codec::CHAIN_ID_SIZE, end) {
        None => None,
        Some((h, p)) => {
            proof {
                assert(c.skip(
                    crate::codec::CHAIN_ID_SIZE as int + (p - start
                        - crate::codec::CHAIN_ID_SIZE) as int,
                ) =~= data@.subrange(p as int, end as int));
            }
            match decode_hashes_range(data, p, end) {
                None => None,
                Some(hist) => Some(CurrentBranchMessage::new(cid, h, hist)),
            }
        },
    }
}

/// Reads the current-head payload at `start`.
pub fn decode_current_head_at(data: &Vec<u8>, start: usize, end: usize) -> (r: Option<
    (CurrentHeadMessage, usize),
>)
    requires
        start <= end <= data@.len(),
    ensures
        match r {
            Some((m, p)) => crate::codec::dec_current_head(data@.subrange(start as int, end as int))
                == Some((m@, p - start)) && start <= p <= end,
            None => crate::codec::dec_current_head(
                data@.subrange(start as int, end as int),
            ) is None,
        },
{
    let ghost c = data@.subrange(start as int, end as int);
    if end - start < crate::codec::CHAIN_ID_SIZE {
        return None;
    }
    let cid = read_bytes(data, start, crate::codec::CHAIN_ID_SIZE);
    proof {
        assert(c.take(crate::codec::CHAIN_ID_SIZE as int) =~= cid@);
        assert(c.skip(crate::codec::CHAIN_ID_SIZE as int) =~= data@.subrange(
            start as int + crate::codec::CHAIN_ID_SIZE as int,
            end as int,
        ));
    }
    match decode_header_dyn_at(data, start + crate::codec::CHAIN_ID_SIZE, end) {
        None => None,
        Some((h, p)) => {
            proof {
                assert(c.skip(
                    crate::codec::CHAIN_ID_SIZE as int + (p - start
                        - crate::codec::CHAIN_ID_SIZE) as int,
                ) =~= data@.subrange(p as int, end as int));
            }
            match decode_mempool_at(data, p, end) {
                None => None,
                Some((mp, q)) => Some((CurrentHeadMessage::new(cid, h, mp), q)),
            }
        },
    }
}

/// Reads the operations-for-blocks payload filling `data[start .. end]`.
pub fn decode_ofb_msg_range(data: &Vec<u8>, start: usize, end: usize) -> (r: Option<
    OperationsForBlocksMessage,
>)
    requires
        start <= end <= data@.len(),
    ensures
        match r {
            Some(m) => crate::codec::dec_ofb_msg(data@.subrange(start as int, end as int)) == Some(
                m@,
            ),
            None => crate::codec::dec_ofb_msg(data@.subrange(start as int, end as int)) is None,
        },
{
    let ghost c = data@.subrange(start as int, end as int);
    if end - start < 33 {
        return None;
    }
    let h = read_bytes(data, start, crate::codec::HASH_SIZE);
    let vp = read_u8(data, start + crate::codec::HASH_SIZE);
    let q = OperationsForBlock::new(h, #[verifier::truncate] (vp as i8));
    proof {
        assert(c.take(crate::codec::HASH_SIZE as int) =~= q@.hash);
        assert(c[crate::codec::HASH_SIZE as int] == data@[start as int
            + crate::codec::HASH_SIZE as int]);
        assert(c.skip(33) =~= data@.subrange(start as int + 33, end as int));
    }
    match decode_path_at(data, start + 33, end) {
        None => None,
        Some((path, p)) => {
            proof {
                assert(c.skip(33 + (p - start - 33) as int) =~= data@.subrange(
                    p as int,
                    end as int,
                ));
            }
            match decode_operations_range(data, p, end) {
                None => None,
                Some(ops) => Some(OperationsForBlocksMessage::new(q, path, ops)),
            }
        },
    }
}

/// Reads one tagged message from the front of `data[start .. end]`; an
/// open-tailed message consumes the whole range.
/// Whether every address in the list fits within the encoded point bound.
pub fn points_within_bound(ids: &Vec<String>) -> (r: bool)
    ensures
        r == crate::codec::wf_points(ids.deep_view()),
{
    let mut i: usize = 0;
    while i < ids.len()
        invariant
            i <= ids@.len(),
            forall|j: int| 0 <= j < i ==> crate::codec::wf_point(#[trigger] ids.deep_view()[j]),
        decreases ids@.len() - i,
    {
        if ids[i].as_str().as_bytes().len() > crate::codec::P2P_POINT_MAX_SIZE {
            proof {
                assert(ids.deep_view()[i as int] == ids@[i as int]@);
                assert(!crate::codec::wf_point(ids.deep_view()[i as int]));
            }
            return false;
        }
        proof {
            assert(ids.deep_view()[i as int] == ids@[i as int]@);
            assert(crate::codec::wf_point(ids.deep_view()[i as int]));
        }
        i = i + 1;
    }
    true
}

pub fn decode_msg_at(data: &Vec<u8>, start: usize, end: usize) -> (r: Option<(PeerMessage, usize)>)
    requires
        start <= end <= data@.len(),
    ensures
        match r {
            Some((m, p)) => crate::codec::dec_msg(data@.subrange(start as int, end as int)) == Some(
                (m@, p - start),
            ) && start < p <= end,
            None => crate::codec::dec_msg(data@.subrange(start as int, end as int)) is None,
        },
{
    let ghost c = data@.subrange(start as int, end as int);
    if end - start < 2 {
        proof {
            reveal(crate::codec::dec_msg);
        }
        return None;
    }
    let tag = crate::wire::read_u16_be(data, start);
    proof {
        reveal(crate::codec::dec_msg);
        assert(c[0] == data@[start as int] && c[1] == data@[start as int + 1]);
        assert(crate::codec::dec_u16(c) == Some((tag, 2int)));
        assert(c.skip(2) =~= data@.subrange(start as int + 2, end as int));
    }
    let s1 = start + 2;
    if tag == 0x01 {
        Some((PeerMessage::Disconnect, s1))
    } else if tag == 0x02 {
        Some((PeerMessage::Bootstrap, s1))
    } else if tag == 0x03 {
        match decode_strs_range(data, s1, end) {
            Some(ids) => {
                if ids.len() > crate::codec::ADVERTISE_ID_LIST_MAX_LENGTH {
                    proof {
                        reveal(crate::codec::dec_msg);
                    }
                    return None;
                }
                if !points_within_bound(&ids) {
                    proof {
                        reveal(crate::codec::dec_msg);
                    }
                    return None;
                }
                Some((PeerMessage::Advertise(AdvertiseMessage::new(ids)), end))
            },
            None => None,
        }
        } else if tag == 0x04 {
        match decode_swap_at(data, s1, end) {
            Some((v, p)) => Some((PeerMessage::SwapRequest(v), p)),
            None => None,
        }
    } else if tag == 0x05 {
        match decode_swap_at(data, s1, end) {
            Some((v, p)) => Some((PeerMessage::SwapAck(v), p)),
            None => None,
        }
    } else if tag == 0x10 {
        if end - s1 < crate::codec::CHAIN_ID_SIZE {
            return None;
        }
        let cid = read_bytes(data, s1, crate::codec::CHAIN_ID_SIZE);
        proof {
            assert(c.skip(2).take(crate::codec::CHAIN_ID_SIZE as int) =~= cid@);
        }
        Some((PeerMessage::GetCurrentBranch(GetCurrentBranchMessage::new(cid)), s1
            + crate::codec::CHAIN_ID_SIZE))
    } else if tag == 0x11 {
        match decode_current_branch_range(data, s1, end) {
            Some(m) => Some((PeerMessage::CurrentBranch(m), end)),
            None => None,
        }
    } else if tag == 0x12 {
        if end - s1 < crate::codec::CHAIN_ID_SIZE {
            return None;
        }
        let cid = read_bytes(data, s1, crate::codec::CHAIN_ID_SIZE);
        proof {
            assert(c.skip(2).take(crate::codec::CHAIN_ID_SIZE as int) =~= cid@);
        }
        Some((PeerMessage::Deactivate(DeactivateMessage::new(cid)), s1
            + crate::codec::CHAIN_ID_SIZE))
    } else if tag == 0x13 {
        if end - s1 < crate::codec::CHAIN_ID_SIZE {
            return None;
        }
        let cid = read_bytes(data, s1, crate::codec::CHAIN_ID_SIZE);
        proof {
            assert(c.skip(2).take(crate::codec::CHAIN_ID_SIZE as int) =~= cid@);
        }
        Some((PeerMessage::GetCurrentHead(GetCurrentHeadMessage::new(cid)), s1
            + crate::codec::CHAIN_ID_SIZE))
    } else if tag == 0x14 {
        match decode_current_head_at(data, s1, end) {
            Some((m, p)) => Some((PeerMessage::CurrentHead(m), p)),
            None => None,
        }
    } else if tag == 0x20 {
        match decode_dyn_at(data, s1, end) {
            Some((cs, ce)) => match decode_hashes_range(data, cs, ce) {
                Some(hs) => Some((PeerMessage::GetBlockHeaders(GetBlockHeadersMessage::new(hs)), ce)),
                None => None,
            },
            None => None,
        }
    } else if tag == 0x21 {
        match decode_header_dyn_at(data, s1, end) {
            Some((h, p)) => Some((PeerMessage::BlockHeader(BlockHeaderMessage::new(h)), p)),
            None => None,
        }
    } else if tag == 0x30 {
        match decode_dyn_at(data, s1, end) {
            Some((cs, ce)) => match decode_hashes_range(data, cs, ce) {
                Some(hs) => Some((PeerMessage::GetOperations(GetOperationsMessage::new(hs)), ce)),
                None => None,
            },
            None => None,
        }
    } else if tag == 0x31 {
        match decode_dyn_at(data, s1, end) {
            Some((cs, ce)) => match decode_operation_range(data, cs, ce) {
                Some(op) => Some((PeerMessage::Operation(OperationMessage::new(op)), ce)),
                None => None,
            },
            None => None,
        }
    } else if tag == 0x60 {
        match decode_dyn_at(data, s1, end) {
            Some((cs, ce)) => match decode_ops_for_blocks_range(data, cs, ce) {
                Some(qs) => Some(
                    (PeerMessage::GetOperationsForBlocks(GetOperationsForBlocksMessage::new(qs)), ce),
                ),
                None => None,
            },
            None => None,
        }
    } else if tag == 0x61 {
        match decode_ofb_msg_range(data, s1, end) {
            Some(m) => Some((PeerMessage::OperationsForBlocks(m), end)),
            None => None,
        }
    } else {
        None
    }
}

/// Reads the run of messages filling `data[start .. end]`.
pub fn decode_msgs_range(data: &Vec<u8>, start: usize, end: usize) -> (r: Option<Vec<PeerMessage>>)
    requires
        start <= end <= data@.len(),
    ensures
        match r {
            Some(v) => crate::codec::dec_msgs(data@.subrange(start as int, end as int)) == Some(
                v.deep_view(),
            ),
            None => crate::codec::dec_msgs(data@.subrange(start as int, end as int)) is None,
        },
{
    let ghost c0 = data@.subrange(start as int, end as int);
    let mut acc: Vec<PeerMessage> = Vec::new();
    let mut pos: usize = start;
    proof {
        assert(acc.deep_view() =~~= Seq::<PeerMessageV>::empty());
    }
    while pos < end
        invariant
            start <= pos <= end <= data@.len(),
            c0 == data@.subrange(start as int, end as int),
            crate::codec::dec_msgs(c0) == (match crate::codec::dec_msgs(
                data@.subrange(pos as int, end as int),
            ) {
                Some(t) => Some(acc.deep_view() + t),
                None => None::<Seq<PeerMessageV>>,
            }),
        decreases end - pos,
    {
        let ghost rem = data@.subrange(pos as int, end as int);
        match decode_msg_at(data, pos, end) {
            Some((m, p)) => {
                let ghost old_acc = acc.deep_view();
                let ghost mv = m@;
                acc.push(m);
                proof {
                    let rem2 = data@.subrange(p as int, end as int);
                    assert(rem.skip((p - pos) as int) =~= rem2);
                    assert(acc.deep_view() =~~= old_acc.push(mv));
                    match crate::codec::dec_msgs(rem2) {
                        Some(t2) => {
                            assert(old_acc + (seq![mv] + t2) =~~= acc.deep_view() + t2);
                        },
                        None => {},
                    }
                }
                pos = p;
            },
            None => {
                return None;
            },
        }
    }
    proof {
        assert(data@.subrange(pos as int, end as int) =~= Seq::<u8>::empty());
        assert(acc.deep_view() + Seq::<PeerMessageV>::empty() =~~= acc.deep_view());
    }
    Some(acc)
}

impl PeerMessageResponse {
    /// Decodes a whole response from raw bytes, which must hold exactly one
    /// length-framed run of messages. The bytes are retained for later
    /// hashing or storage.
    pub fn from_bytes(data: &Vec<u8>) -> (r: Option<PeerMessageResponse>)
        ensures
            match r {
                Some(resp) => crate::codec::dec_response(data@) matches Some((ms, n)) && resp@ == ms
                    && n == data@.len() && resp.cached() == Some(data@),
                None => !(crate::codec::dec_response(data@) matches Some((ms, n)) && n
                    == data@.len()),
            },
    {
        proof {
            assert(data@.subrange(0, data@.len() as int) =~= data@);
        }
        match decode_dyn_at(data, 0, data.len()) {
            None => None,
            Some((cs, ce)) => {
                if ce != data.len() {
                    return None;
                }
                match decode_msgs_range(data, cs, ce) {
                    None => None,
                    Some(messages) => Some(
                        PeerMessageResponse {
                            messages,
                            body: crate::binary_message::BinaryDataCache::filled(copy_bytes(data)),
                        },
                    ),
                }
            },
        }
    }
}


// ---------------------------------------------------------------------------
// Handshake acknowledgements.
// ---------------------------------------------------------------------------

/// Why decoding failed.
#[derive(Debug, PartialEq, Eq, Structural)]
pub enum BinaryReaderError {
    NomDeserializationError,
}

/// A type that parses itself from raw bytes.
pub trait NomFrom: Sized {
    fn nom_from_bytes(i: Vec<u8>) -> Result<Self, BinaryReaderError>;
}

impl NomFrom for PeerMessageResponse {
    fn nom_from_bytes(i: Vec<u8>) -> Result<Self, BinaryReaderError> {
        match PeerMessageResponse::from_bytes(&i) {
            Some(r) => Ok(r),
            None => Err(BinaryReaderError::NomDeserializationError),
        }
    }
}

/// The stated reason of a connection refusal, with alternative peers.
pub struct NackInfo {
    motive: NackMotive,
    potential_peers_to_connect: Vec<String>,
}

impl View for NackInfo {
    type V = crate::codec::NackInfoV;

    closed spec fn view(&self) -> crate::codec::NackInfoV {
        crate::codec::NackInfoV {
            motive: self.motive,
            potential_peers_to_connect: self.potential_peers_to_connect.deep_view(),
        }
    }
}

impl NackInfo {
    pub fn new(motive: NackMotive, potential_peers_to_connect: &[String]) -> (r: NackInfo)
        ensures
            r@.motive == motive,
            r@.potential_peers_to_connect.len() == potential_peers_to_connect@.len(),
            forall|i: int| 0 <= i < potential_peers_to_connect@.len()
                ==> #[trigger] r@.potential_peers_to_connect[i]
                == potential_peers_to_connect@[i]@,
    {
        let mut peers: Vec<String> = Vec::new();
        let n = potential_peers_to_connect.len();
        let mut i: usize = 0;
        while i < n
            invariant
                i <= n,
                n == potential_peers_to_connect@.len(),
                peers@.len() == i,
                forall|j: int| 0 <= j < i ==> #[trigger] peers@[j]@
                    == potential_peers_to_connect@[j]@,
            decreases n - i,
        {
            let p = vstd::slice::slice_index_get(potential_peers_to_connect, i);
            peers.push(p.clone());
            i = i + 1;
        }
        proof {
            assert(peers.deep_view().len() == peers@.len());
        }
        NackInfo { motive, potential_peers_to_connect: peers }
    }

    pub fn motive(&self) -> (r: &NackMotive)
        ensures
            r == &self@.motive,
    {
        &self.motive
    }

    pub fn potential_peers_to_connect(&self) -> (r: &Vec<String>)
        ensures
            r.deep_view() == self@.potential_peers_to_connect,
    {
        &self.potential_peers_to_connect
    }
}

/// The final word of the handshake: accept, or refuse with a motive.
pub enum AckMessage {
    Ack,
    NackV0,
    Nack(NackInfo),
}

impl View for AckMessage {
    type V = crate::codec::AckMessageV;

    closed spec fn view(&self) -> crate::codec::AckMessageV {
        match self {
            AckMessage::Ack => crate::codec::AckMessageV::Ack,
            AckMessage::NackV0 => crate::codec::AckMessageV::NackV0,
            AckMessage::Nack(ni) => crate::codec::AckMessageV::Nack(ni@),
        }
    }
}

impl AckMessage {
    /// Encodes the acknowledgement; fails exactly when the peer list cannot
    /// be framed.
    pub fn encode(&self, out: &mut Vec<u8>) -> (r: bool)
        ensures
            r ==> final(out)@ == old(out)@ + crate::codec::enc_ack(self@),
            !r ==> final(out)@ == old(out)@,
            r <==> (self@ matches crate::codec::AckMessageV::Nack(ni) ==> framable_strs(
                ni.potential_peers_to_connect,
            ) && crate::codec::wf_dyn(enc_strs(ni.potential_peers_to_connect))),
    {
        match self {
            AckMessage::Ack => {
                put_u8(out, 0x00);
                proof {
                    assert(final(out)@ =~= old(out)@ + crate::codec::enc_ack(self@));
                }
                true
            },
            AckMessage::NackV0 => {
                put_u8(out, 0xff);
                proof {
                    assert(final(out)@ =~= old(out)@ + crate::codec::enc_ack(self@));
                }
                true
            },
            AckMessage::Nack(ni) => {
                let mut peers: Vec<u8> = Vec::new();
                if !put_points(&mut peers, ni.potential_peers_to_connect()) {
                    return false;
                }
                if peers.len() > u32::MAX as usize {
                    return false;
                }
                let mut tmp: Vec<u8> = Vec::new();
                put_u8(&mut tmp, 0x01);
                let motive_tag_val: u16 = match ni.motive() {
                    NackMotive::NoMotive => 0,
                    NackMotive::TooManyConnections => 1,
                    NackMotive::UnknownChainName => 2,
                    NackMotive::DeprecatedP2pVersion => 3,
                    NackMotive::DeprecatedDistributedDbVersion => 4,
                    NackMotive::AlreadyConnected => 5,
                };
                put_u16_be(&mut tmp, motive_tag_val);
                put_dyn(&mut tmp, &peers);
                put_bytes(out, &tmp);
                proof {
                    assert(motive_tag_val == crate::codec::motive_tag(ni@.motive));
                    assert(final(out)@ =~= old(out)@ + crate::codec::enc_ack(self@));
                }
                true
            },
        }
    }

    /// Decodes the acknowledgement that fills `data`.
    pub fn from_bytes(data: &Vec<u8>) -> (r: Option<AckMessage>)
        ensures
            match r {
                Some(a) => crate::codec::dec_ack(data@) matches Some((av, n)) && a@ == av && n
                    == data@.len(),
                None => !(crate::codec::dec_ack(data@) matches Some((av, n)) && n == data@.len()),
            },
    {
        let n = data.len();
        if n == 0 {
            return None;
        }
        let tag = read_u8(data, 0);
        if tag == 0x00 {
            if n == 1 {
                Some(AckMessage::Ack)
            } else {
                None
            }
        } else if tag == 0xff {
            if n == 1 {
                Some(AckMessage::NackV0)
            } else {
                None
            }
        } else if tag == 0x01 {
            proof {
                assert(data@.skip(1) =~= data@.subrange(1, data@.len() as int));
            }
            if n < 3 {
                return None;
            }
            let t = crate::wire::read_u16_be(data, 1);
            proof {
                assert(data@.skip(1)[0] == data@[1] && data@.skip(1)[1] == data@[2]);
            }
            let motive = if t == 0 {
                NackMotive::NoMotive
            } else if t == 1 {
                NackMotive::TooManyConnections
            } else if t == 2 {
                NackMotive::UnknownChainName
            } else if t == 3 {
                NackMotive::DeprecatedP2pVersion
            } else if t == 4 {
                NackMotive::DeprecatedDistributedDbVersion
            } else if t == 5 {
                NackMotive::AlreadyConnected
            } else {
                return None;
            };
            proof {
                assert(crate::codec::dec_motive(t) == Some(motive));
                assert(data@.skip(1).skip(2) =~= data@.subrange(3, data@.len() as int));
            }
            match decode_dyn_at(data, 3, n) {
                None => None,
                Some((cs, ce)) => {
                    if ce != n {
                        return None;
                    }
                    match decode_strs_range(data, cs, ce) {
                        None => None,
                        Some(peers) => {
                            let ni = NackInfo { motive, potential_peers_to_connect: peers };
                            Some(AckMessage::Nack(ni))
                        },
                    }
                },
            }
        } else {
            None
        }
    }

    /// How many bytes the acknowledgement at the front of the chunk occupies.
    pub fn size_from_chunk(bytes: &Vec<u8>) -> (r: Result<usize, BinaryReaderError>)
        ensures
            match r {
                Ok(n) => crate::codec::ack_size_from(bytes@) == Some(n as int),
                Err(_) => crate::codec::ack_size_from(bytes@) is None || (
                crate::codec::ack_size_from(bytes@) matches Some(n) && n > usize::MAX),
            },
    {
        let len = bytes.len();
        if len == 0 {
            return Err(BinaryReaderError::NomDeserializationError);
        }
        let tag = read_u8(bytes, 0);
        if tag == 0x00 || tag == 0xff {
            Ok(1)
        } else if tag == 0x01 {
            if len < 7 {
                return Err(BinaryReaderError::NomDeserializationError);
            }
            let n = read_u32_be(bytes, 3);
            if (n as usize) > usize::MAX - 7 {
                return Err(BinaryReaderError::NomDeserializationError);
            }
            Ok(7 + n as usize)
        } else {
            Err(BinaryReaderError::NomDeserializationError)
        }
    }
}

} // verus!
