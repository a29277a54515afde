//! The context store seen from the shell: an in-memory model of the merkle
//! tree keyed by slash-joined paths, plus the block-to-context assignments.

use vstd::prelude::*;
use crate::assoc::{KeyMap, KeySet};
use crate::messages::copy_bytes;

verus! {

/// Why a context operation failed.
#[derive(Clone, Copy, PartialEq, Eq, Structural, Debug)]
pub enum ContextError {
    CommitWriteError,
    ContextReadError,
    ContextHashAssignError,
    InvalidContextHashError,
    UnknownContextHashError,
    ReadBlockError,
}

/// The joined form of a context path: components separated by a slash.
pub open spec fn joined_key(key: Seq<Seq<u8>>) -> Seq<u8>
    decreases key.len(),
{
    if key.len() == 0 {
        Seq::empty()
    } else if key.len() == 1 {
        key[0]
    } else {
        key[0] + seq![47u8] + joined_key(key.drop_first())
    }
}

/// Joins a context path with slashes, on the path components' raw bytes.
pub fn to_key(key: &Vec<Vec<u8>>) -> (r: Vec<u8>)
    ensures
        r@ == joined_key(key.deep_view()),
    decreases key@.len(),
{
    let mut out: Vec<u8> = Vec::new();
    let n = key.len();
    if n == 0 {
        proof {
            assert(out@ =~= joined_key(key.deep_view()));
        }
        return out;
    }
    let mut i: usize = 0;
    proof {
        assert(key.deep_view().skip(0) =~= key.deep_view());
        assert(out@ + joined_key(key.deep_view()) =~= joined_key(key.deep_view()));
    }
    while i < n - 1
        invariant
            n == key@.len(),
            n >= 1,
            i <= n - 1,
            key.deep_view().len() == n,
            forall|j: int| 0 <= j < n ==> #[trigger] key.deep_view()[j] == key@[j]@,
            out@ + joined_key(key.deep_view().skip(i as int)) == joined_key(key.deep_view()),
        decreases n - i,
    {
        crate::wire::put_bytes(&mut out, &key[i]);
        crate::wire::put_u8(&mut out, 47);
        proof {
            let rest = key.deep_view().skip(i as int);
            assert(rest.len() >= 2);
            assert(rest[0] == key@[i as int]@);
            assert(rest.drop_first() =~= key.deep_view().skip(i as int + 1));
            assert(out@ + joined_key(key.deep_view().skip(i as int + 1)) =~= joined_key(
                key.deep_view(),
            ));
        }
        i = i + 1;
    }
    crate::wire::put_bytes(&mut out, &key[i]);
    proof {
        let rest = key.deep_view().skip(i as int);
        assert(rest.len() == 1);
        assert(rest[0] == key@[i as int]@);
        assert(out@ =~= joined_key(key.deep_view()));
    }
    out
}

/// What the context offers the shell.
pub trait ContextApi {
    /// The implementation's internal invariant.
    spec fn ok(&self) -> bool;

    fn set(&mut self, key: &Vec<Vec<u8>>, value: Vec<u8>) -> (r: Result<(), ContextError>)
        requires
            old(self).ok(),
        ensures
            final(self).ok(),
    ;

    fn checkout(&self, context_hash: &Vec<u8>) -> Result<(), ContextError>
        requires
            self.ok(),
    ;

    fn commit(&mut self, block_hash: &Vec<u8>, new_context_hash: &Vec<u8>) -> (r: Result<
        (),
        ContextError,
    >)
        requires
            old(self).ok(),
        ensures
            final(self).ok(),
    ;

    fn delete_to_diff(&mut self, key_prefix_to_delete: &Vec<Vec<u8>>) -> (r: Result<(), ContextError>)
        requires
            old(self).ok(),
        ensures
            final(self).ok(),
    ;

    fn get_key(&self, key: &Vec<Vec<u8>>) -> Result<Vec<u8>, ContextError>
        requires
            self.ok(),
    ;
}

/// The shell's view of the context: tree values by joined path, known context
/// hashes, and the block-to-context assignments.
pub struct TezedgeContext {
    tree: KeyMap<Vec<u8>>,
    known_hashes: KeySet,
    assignments: KeyMap<Vec<u8>>,
    hash_ids: KeyMap<u64>,
    object_hashes: KeyMap<Vec<u8>>,
    shapes: KeyMap<Vec<Vec<u8>>>,
}

impl TezedgeContext {
    pub closed spec fn wf(&self) -> bool {
        self.tree.wf() && self.known_hashes.wf() && self.assignments.wf() && self.hash_ids.wf()
            && self.object_hashes.wf() && self.shapes.wf()
    }

    /// The stored values by joined path.
    pub closed spec fn tree_view(&self) -> Map<Seq<u8>, Vec<u8>> {
        self.tree@
    }

    /// Which context hash each block points at.
    pub closed spec fn assignments_view(&self) -> Map<Seq<u8>, Vec<u8>> {
        self.assignments@
    }

    pub closed spec fn hashes_view(&self) -> Set<Seq<u8>> {
        self.known_hashes@
    }

    /// The repository id assigned to each context hash.
    pub closed spec fn hash_ids_view(&self) -> Map<Seq<u8>, u64> {
        self.hash_ids@
    }

    /// The object hash stored under each id, keyed by the id's encoding.
    pub closed spec fn object_hashes_view(&self) -> Map<Seq<u8>, Vec<u8>> {
        self.object_hashes@
    }

    /// The directory names of each stored shape, keyed by the id's encoding.
    pub closed spec fn shapes_view(&self) -> Map<Seq<u8>, Vec<Vec<u8>>> {
        self.shapes@
    }

    pub fn new() -> (r: TezedgeContext)
        ensures
            r.wf(),
            r.tree_view() == Map::<Seq<u8>, Vec<u8>>::empty(),
            r.assignments_view() == Map::<Seq<u8>, Vec<u8>>::empty(),
            r.hashes_view() == Set::<Seq<u8>>::empty(),
            r.hash_ids_view() == Map::<Seq<u8>, u64>::empty(),
            r.object_hashes_view() == Map::<Seq<u8>, Vec<u8>>::empty(),
            r.shapes_view() == Map::<Seq<u8>, Vec<Vec<u8>>>::empty(),
    {
        TezedgeContext {
            tree: KeyMap::new(),
            known_hashes: KeySet::new(),
            assignments: KeyMap::new(),
            hash_ids: KeyMap::new(),
            object_hashes: KeyMap::new(),
            shapes: KeyMap::new(),
        }
    }

    /// Remembers a context hash as checked out.
    pub fn learn_hash(&mut self, context_hash: &Vec<u8>)
        requires
            old(self).wf(),
        ensures
            final(self).wf(),
            final(self).hashes_view() == old(self).hashes_view().insert(context_hash@),
            final(self).tree_view() == old(self).tree_view(),
            final(self).assignments_view() == old(self).assignments_view(),
    {
        self.known_hashes.insert(copy_bytes(context_hash));
    }

    /// Stores a value under a path.
    pub fn set_value(&mut self, key: &Vec<Vec<u8>>, value: Vec<u8>)
        requires
            old(self).wf(),
        ensures
            final(self).wf(),
            final(self).tree_view() == old(self).tree_view().insert(
                joined_key(key.deep_view()),
                final(self).tree_view()[joined_key(key.deep_view())],
            ),
            final(self).tree_view()[joined_key(key.deep_view())]@ == value@,
            final(self).assignments_view() == old(self).assignments_view(),
            final(self).hashes_view() == old(self).hashes_view(),
    {
        let k = to_key(key);
        self.tree.insert(k, value);
    }

    /// Reads the value under a path.
    pub fn get_value(&self, key: &Vec<Vec<u8>>) -> (r: Result<&Vec<u8>, ContextError>)
        requires
            self.wf(),
        ensures
            match r {
                Ok(v) => self.tree_view().dom().contains(joined_key(key.deep_view()))
                    && self.tree_view()[joined_key(key.deep_view())]@ == v@,
                Err(e) => !self.tree_view().dom().contains(joined_key(key.deep_view())) && e
                    == ContextError::ContextReadError,
            },
    {
        let k = to_key(key);
        match self.tree.get(&k) {
            Some(v) => Ok(v),
            None => Err(ContextError::ContextReadError),
        }
    }

    /// Removes the value under a path.
    pub fn delete_value(&mut self, key: &Vec<Vec<u8>>)
        requires
            old(self).wf(),
        ensures
            final(self).wf(),
            final(self).tree_view() == old(self).tree_view().remove(joined_key(key.deep_view())),
            final(self).assignments_view() == old(self).assignments_view(),
            final(self).hashes_view() == old(self).hashes_view(),
    {
        let k = to_key(key);
        let _ = self.tree.remove(&k);
    }

    /// Assigns a context hash to a block. Fails exactly when the context
    /// hash is unknown.
    pub fn assign(&mut self, block_hash: &Vec<u8>, new_context_hash: &Vec<u8>) -> (r: Result<
        (),
        ContextError,
    >)
        requires
            old(self).wf(),
        ensures
            final(self).wf(),
            r is Ok <==> old(self).hashes_view().contains(new_context_hash@),
            r is Ok ==> final(self).assignments_view() == old(self).assignments_view().insert(
                block_hash@,
                final(self).assignments_view()[block_hash@],
            ) && final(self).assignments_view()[block_hash@]@ == new_context_hash@,
            r is Err ==> final(self).assignments_view() == old(self).assignments_view() && r
                == Err::<(), ContextError>(ContextError::UnknownContextHashError),
            final(self).tree_view() == old(self).tree_view(),
            final(self).hashes_view() == old(self).hashes_view(),
    {
        if !self.known_hashes.contains(new_context_hash) {
            return Err(ContextError::UnknownContextHashError);
        }
        self.assignments.insert(copy_bytes(block_hash), copy_bytes(new_context_hash));
        Ok(())
    }
}

impl TezedgeContext {
    /// Records the repository id of a context hash.
    pub fn set_hash_id(&mut self, context_hash: &Vec<u8>, id: u64)
        requires
            old(self).wf(),
        ensures
            final(self).wf(),
            final(self).hash_ids_view() == old(self).hash_ids_view().insert(context_hash@, id),
            final(self).object_hashes_view() == old(self).object_hashes_view(),
            final(self).shapes_view() == old(self).shapes_view(),
            final(self).tree_view() == old(self).tree_view(),
            final(self).assignments_view() == old(self).assignments_view(),
            final(self).hashes_view() == old(self).hashes_view(),
    {
        self.hash_ids.insert(copy_bytes(context_hash), id);
    }

    /// Records the object hash stored under an id.
    pub fn set_object_hash(&mut self, id: u64, hash: Vec<u8>)
        requires
            old(self).wf(),
        ensures
            final(self).wf(),
            final(self).object_hashes_view() == old(self).object_hashes_view().insert(
                crate::wire::be_u64(id),
                final(self).object_hashes_view()[crate::wire::be_u64(id)],
            ),
            final(self).object_hashes_view()[crate::wire::be_u64(id)]@ == hash@,
            final(self).hash_ids_view() == old(self).hash_ids_view(),
            final(self).shapes_view() == old(self).shapes_view(),
            final(self).tree_view() == old(self).tree_view(),
            final(self).assignments_view() == old(self).assignments_view(),
            final(self).hashes_view() == old(self).hashes_view(),
    {
        let mut key: Vec<u8> = Vec::new();
        crate::wire::put_u64_be(&mut key, id);
        proof {
            assert(key@ =~= crate::wire::be_u64(id));
        }
        self.object_hashes.insert(key, hash);
    }

    /// Records the directory names of a shape.
    pub fn set_shape(&mut self, id: u64, directories: Vec<Vec<u8>>)
        requires
            old(self).wf(),
        ensures
            final(self).wf(),
            final(self).shapes_view() == old(self).shapes_view().insert(
                crate::wire::be_u64(id),
                final(self).shapes_view()[crate::wire::be_u64(id)],
            ),
            final(self).shapes_view()[crate::wire::be_u64(id)].deep_view()
                == directories.deep_view(),
            final(self).hash_ids_view() == old(self).hash_ids_view(),
            final(self).object_hashes_view() == old(self).object_hashes_view(),
            final(self).tree_view() == old(self).tree_view(),
            final(self).assignments_view() == old(self).assignments_view(),
            final(self).hashes_view() == old(self).hashes_view(),
    {
        let mut key: Vec<u8> = Vec::new();
        crate::wire::put_u64_be(&mut key, id);
        proof {
            assert(key@ =~= crate::wire::be_u64(id));
        }
        self.shapes.insert(key, directories);
    }

    /// Reads the repository id of a context hash, when one was recorded.
    pub fn hash_id_of(&self, context_hash: &Vec<u8>) -> (r: Option<u64>)
        requires
            self.wf(),
        ensures
            if self.hash_ids_view().dom().contains(context_hash@) {
                r == Some(self.hash_ids_view()[context_hash@])
            } else {
                r is None
            },
    {
        match self.hash_ids.get(context_hash) {
            Some(id) => Some(*id),
            None => None,
        }
    }

    /// Reads the object hash stored under an id, when one was recorded.
    pub fn object_hash_of(&self, id: u64) -> (r: Option<&Vec<u8>>)
        requires
            self.wf(),
        ensures
            if self.object_hashes_view().dom().contains(crate::wire::be_u64(id)) {
                (r matches Some(b) && b@ == self.object_hashes_view()[crate::wire::be_u64(id)]@)
            } else {
                r is None
            },
    {
        let mut key: Vec<u8> = Vec::new();
        crate::wire::put_u64_be(&mut key, id);
        proof {
            assert(key@ =~= crate::wire::be_u64(id));
        }
        self.object_hashes.get(&key)
    }

    /// Reads the directory names of a shape, when one was recorded.
    pub fn shape_of(&self, id: u64) -> (r: Option<&Vec<Vec<u8>>>)
        requires
            self.wf(),
        ensures
            if self.shapes_view().dom().contains(crate::wire::be_u64(id)) {
                (r matches Some(d) && d.deep_view() == self.shapes_view()[crate::wire::be_u64(
                    id,
                )].deep_view())
            } else {
                r is None
            },
    {
        let mut key: Vec<u8> = Vec::new();
        crate::wire::put_u64_be(&mut key, id);
        proof {
            assert(key@ =~= crate::wire::be_u64(id));
        }
        self.shapes.get(&key)
    }
}

impl ContextApi for TezedgeContext {
    open spec fn ok(&self) -> bool {
        self.wf()
    }

    fn set(&mut self, key: &Vec<Vec<u8>>, value: Vec<u8>) -> Result<(), ContextError> {
        self.set_value(key, value);
        Ok(())
    }

    fn checkout(&self, context_hash: &Vec<u8>) -> Result<(), ContextError> {
        if self.known_hashes.contains(context_hash) {
            Ok(())
        } else {
            Err(ContextError::UnknownContextHashError)
        }
    }

    fn commit(&mut self, block_hash: &Vec<u8>, new_context_hash: &Vec<u8>) -> Result<
        (),
        ContextError,
    > {
        self.learn_hash(new_context_hash);
        self.assign(block_hash, new_context_hash)
    }

    fn delete_to_diff(&mut self, key_prefix_to_delete: &Vec<Vec<u8>>) -> Result<(), ContextError> {
        self.delete_value(key_prefix_to_delete);
        Ok(())
    }

    fn get_key(&self, key: &Vec<Vec<u8>>) -> Result<Vec<u8>, ContextError> {
        match self.get_value(key) {
            Ok(v) => Ok(copy_bytes(v)),
            Err(e) => Err(e),
        }
    }
}

} // verus!
