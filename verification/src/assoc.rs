//! Small verified containers keyed by byte vectors (hashes, encoded peer
//! addresses): an association map and a set, both with mathematical `Map` and
//! `Set` views. Linear scans are fine at the sizes the shell holds.

use vstd::prelude::*;
use crate::wire::bytes_eq;

verus! {

/// The map denoted by a run of entries; later entries win, though the
/// well-formedness kept by `KeyMap` rules duplicates out.
pub open spec fn map_of<V>(entries: Seq<(Vec<u8>, V)>) -> Map<Seq<u8>, V>
    decreases entries.len(),
{
    if entries.len() == 0 {
        Map::empty()
    } else {
        map_of(entries.drop_last()).insert(entries.last().0@, entries.last().1)
    }
}

/// All keys distinct.
pub open spec fn distinct_keys<V>(entries: Seq<(Vec<u8>, V)>) -> bool {
    forall|i: int, j: int| 0 <= i < j < entries.len() ==> entries[i].0@ != entries[j].0@
}

pub proof fn lemma_map_of_dom<V>(entries: Seq<(Vec<u8>, V)>, k: Seq<u8>)
    ensures
        map_of(entries).dom().contains(k) <==> exists|i: int|
            0 <= i < entries.len() && #[trigger] entries[i].0@ == k,
    decreases entries.len(),
{
    if entries.len() == 0 {
    } else {
        lemma_map_of_dom(entries.drop_last(), k);
        if entries.last().0@ == k {
            assert(entries[entries.len() - 1].0@ == k);
        } else {
            if map_of(entries).dom().contains(k) {
                assert(exists|i: int|
                    0 <= i < entries.len() - 1 && #[trigger] entries.drop_last()[i].0@ == k);
                let i = choose|i: int|
                    0 <= i < entries.len() - 1 && #[trigger] entries.drop_last()[i].0@ == k;
                assert(entries[i].0@ == k);
            }
            if exists|i: int| 0 <= i < entries.len() && #[trigger] entries[i].0@ == k {
                let i = choose|i: int| 0 <= i < entries.len() && #[trigger] entries[i].0@ == k;
                assert(i < entries.len() - 1);
                assert(entries.drop_last()[i].0@ == k);
            }
        }
    }
}

pub proof fn lemma_map_of_index<V>(entries: Seq<(Vec<u8>, V)>, i: int)
    requires
        distinct_keys(entries),
        0 <= i < entries.len(),
    ensures
        map_of(entries).dom().contains(entries[i].0@),
        map_of(entries)[entries[i].0@] == entries[i].1,
    decreases entries.len(),
{
    if i == entries.len() - 1 {
    } else {
        assert(distinct_keys(entries.drop_last()));
        assert(entries.drop_last()[i] == entries[i]);
        lemma_map_of_index(entries.drop_last(), i);
        assert(entries[i].0@ != entries.last().0@);
    }
}

pub proof fn lemma_map_of_remove<V>(entries: Seq<(Vec<u8>, V)>, i: int)
    requires
        distinct_keys(entries),
        0 <= i < entries.len(),
    ensures
        map_of(entries.remove(i)) == map_of(entries).remove(entries[i].0@),
        distinct_keys(entries.remove(i)),
    decreases entries.len(),
{
    let k = entries[i].0@;
    assert(distinct_keys(entries.remove(i))) by {
        assert forall|a: int, b: int|
            0 <= a < b < entries.remove(i).len() implies entries.remove(i)[a].0@ != entries.remove(
            i,
        )[b].0@ by {
            let a0 = if a < i {
                a
            } else {
                a + 1
            };
            let b0 = if b < i {
                b
            } else {
                b + 1
            };
            assert(entries.remove(i)[a] == entries[a0] && entries.remove(i)[b] == entries[b0]);
        }
    }
    if i == entries.len() - 1 {
        assert(entries.remove(i) =~= entries.drop_last());
        lemma_map_of_dom(entries.drop_last(), k);
        assert(!map_of(entries.drop_last()).dom().contains(k)) by {
            if map_of(entries.drop_last()).dom().contains(k) {
                let j = choose|j: int|
                    0 <= j < entries.drop_last().len() && #[trigger] entries.drop_last()[j].0@
                        == k;
                assert(entries[j].0@ == entries[i].0@);
            }
        }
        assert(map_of(entries.drop_last()) =~= map_of(entries).remove(k));
    } else {
        let shorter = entries.drop_last();
        assert(entries.remove(i).drop_last() =~= shorter.remove(i));
        assert(distinct_keys(shorter));
        assert(shorter[i] == entries[i]);
        lemma_map_of_remove(shorter, i);
        assert(entries.remove(i).last() == entries.last());
        assert(map_of(entries.remove(i)) == map_of(shorter.remove(i)).insert(
            entries.last().0@,
            entries.last().1,
        ));
        assert(entries.last().0@ != k);
        assert(map_of(shorter).remove(k).insert(entries.last().0@, entries.last().1) =~= map_of(
            entries,
        ).remove(k));
    }
}

pub proof fn lemma_map_of_update<V>(entries: Seq<(Vec<u8>, V)>, i: int, k: Vec<u8>, v: V)
    requires
        distinct_keys(entries),
        0 <= i < entries.len(),
        k@ == entries[i].0@,
    ensures
        map_of(entries.update(i, (k, v))) == map_of(entries).insert(k@, v),
        distinct_keys(entries.update(i, (k, v))),
    decreases entries.len(),
{
    let kk = entries[i].0@;
    let updated = entries.update(i, (k, v));
    assert(distinct_keys(updated)) by {
        assert forall|a: int, b: int| 0 <= a < b < updated.len() implies updated[a].0@
            != updated[b].0@ by {
            assert(updated[a].0@ == entries[a].0@ && updated[b].0@ == entries[b].0@);
        }
    }
    if i == entries.len() - 1 {
        assert(updated.drop_last() =~= entries.drop_last());
        assert(map_of(updated) =~= map_of(entries).insert(kk, v));
    } else {
        let shorter = entries.drop_last();
        assert(updated.drop_last() =~= shorter.update(i, (k, v)));
        assert(distinct_keys(shorter));
        assert(shorter[i] == entries[i]);
        lemma_map_of_update(shorter, i, k, v);
        assert(updated.last() == entries.last());
        assert(entries.last().0@ != kk);
        assert(map_of(shorter).insert(kk, v).insert(entries.last().0@, entries.last().1) =~= map_of(
            entries,
        ).insert(kk, v));
    }
}

/// A map from byte keys to values, with a `Map` view.
pub struct KeyMap<V> {
    entries: Vec<(Vec<u8>, V)>,
}

impl<V> View for KeyMap<V> {
    type V = Map<Seq<u8>, V>;

    closed spec fn view(&self) -> Map<Seq<u8>, V> {
        map_of(self.entries@)
    }
}

impl<V> KeyMap<V> {
    /// All keys distinct; every operation keeps this.
    pub closed spec fn wf(&self) -> bool {
        distinct_keys(self.entries@)
    }

    pub fn new() -> (r: KeyMap<V>)
        ensures
            r@ == Map::<Seq<u8>, V>::empty(),
            r.wf(),
    {
        KeyMap { entries: Vec::new() }
    }

    pub fn len(&self) -> (r: usize)
        requires
            self.wf(),
        ensures
            r == self@.dom().len(),
    {
        proof {
            lemma_entries_len(self.entries@);
        }
        self.entries.len()
    }

    /// The index holding `k`, if any.
    fn find(&self, k: &Vec<u8>) -> (r: Option<usize>)
        ensures
            match r {
                Some(i) => i < self.entries@.len() && self.entries@[i as int].0@ == k@,
                None => forall|i: int|
                    0 <= i < self.entries@.len() ==> #[trigger] self.entries@[i].0@ != k@,
            },
    {
        let mut i: usize = 0;
        while i < self.entries.len()
            invariant
                i <= self.entries@.len(),
                forall|j: int| 0 <= j < i ==> #[trigger] self.entries@[j].0@ != k@,
            decreases self.entries@.len() - i,
        {
            if bytes_eq(&self.entries[i].0, k) {
                return Some(i);
            }
            i = i + 1;
        }
        None
    }

    /// A map held in this container has a finite domain.
    pub proof fn lemma_finite_dom(&self)
        requires
            self.wf(),
        ensures
            self@.dom().finite(),
    {
        lemma_entries_len(self.entries@);
    }

    /// Whether the keys are distinct; true for every map the operations
    /// build, checked dynamically where a caller cannot carry the fact.
    pub fn check_wf(&self) -> (r: bool)
        ensures
            r == self.wf(),
    {
        let mut i: usize = 0;
        let n = self.entries.len();
        while i < n
            invariant
                i <= n,
                n == self.entries@.len(),
                forall|a: int, b: int| 0 <= a < b < self.entries@.len() && a < i
                    ==> self.entries@[a].0@ != self.entries@[b].0@,
            decreases n - i,
        {
            let mut j: usize = i + 1;
            while j < n
                invariant
                    i < j <= n,
                    n == self.entries@.len(),
                    forall|b: int| i < b < j ==> self.entries@[i as int].0@
                        != #[trigger] self.entries@[b].0@,
                decreases n - j,
            {
                if bytes_eq(&self.entries[i].0, &self.entries[j].0) {
                    return false;
                }
                j = j + 1;
            }
            i = i + 1;
        }
        true
    }

    pub fn contains_key(&self, k: &Vec<u8>) -> (r: bool)
        ensures
            r == self@.dom().contains(k@),
    {
        let r = self.find(k);
        proof {
            lemma_map_of_dom(self.entries@, k@);
        }
        r.is_some()
    }

    pub fn get(&self, k: &Vec<u8>) -> (r: Option<&V>)
        requires
            self.wf(),
        ensures
            match r {
                Some(v) => self@.dom().contains(k@) && self@[k@] == *v,
                None => !self@.dom().contains(k@),
            },
    {
        proof {
            lemma_map_of_dom(self.entries@, k@);
        }
        match self.find(k) {
            Some(i) => {
                proof {
                    lemma_map_of_index(self.entries@, i as int);
                }
                Some(&self.entries[i].1)
            },
            None => None,
        }
    }

    pub fn insert(&mut self, k: Vec<u8>, v: V)
        requires
            old(self).wf(),
        ensures
            final(self).wf(),
            final(self)@ == old(self)@.insert(k@, v),
    {
        match self.find(&k) {
            Some(i) => {
                proof {
                    lemma_map_of_update(self.entries@, i as int, k, v);
                }
                self.entries.set(i, (k, v));
            },
            None => {
                self.entries.push((k, v));
                proof {
                    assert(self.entries@.drop_last() =~= old(self).entries@);
                    assert(distinct_keys(self.entries@)) by {
                        assert forall|a: int, b: int|
                            0 <= a < b < self.entries@.len() implies self.entries@[a].0@
                            != self.entries@[b].0@ by {
                            if b == self.entries@.len() - 1 {
                                assert(self.entries@[a] == old(self).entries@[a]);
                            } else {
                                assert(self.entries@[a] == old(self).entries@[a]
                                    && self.entries@[b] == old(self).entries@[b]);
                            }
                        }
                    }
                }
            },
        }
    }

    pub fn remove(&mut self, k: &Vec<u8>) -> (r: Option<V>)
        requires
            old(self).wf(),
        ensures
            final(self).wf(),
            final(self)@ == old(self)@.remove(k@),
            r is Some <==> old(self)@.dom().contains(k@),
            r matches Some(v) ==> old(self)@[k@] == v,
    {
        proof {
            lemma_map_of_dom(self.entries@, k@);
        }
        match self.find(k) {
            Some(i) => {
                proof {
                    lemma_map_of_index(self.entries@, i as int);
                    lemma_map_of_remove(self.entries@, i as int);
                }
                let (_, v) = self.entries.remove(i);
                Some(v)
            },
            None => {
                proof {
                    assert(old(self)@.remove(k@) =~= old(self)@);
                }
                None
            },
        }
    }

    /// The keys, in insertion order.
    pub fn keys(&self) -> (r: Vec<Vec<u8>>)
        requires
            self.wf(),
        ensures
            r@.len() == self@.dom().len(),
            forall|i: int| 0 <= i < r@.len() ==> self@.dom().contains(#[trigger] r@[i]@),
            forall|i: int, j: int| 0 <= i < j < r@.len() ==> r@[i]@ != r@[j]@,
    {
        proof {
            lemma_entries_len(self.entries@);
        }
        let mut out: Vec<Vec<u8>> = Vec::new();
        let mut i: usize = 0;
        while i < self.entries.len()
            invariant
                self.wf(),
                i <= self.entries@.len(),
                out@.len() == i,
                forall|j: int| 0 <= j < i ==> #[trigger] out@[j]@ == self.entries@[j].0@,
            decreases self.entries@.len() - i,
        {
            out.push(crate::messages::copy_bytes(&self.entries[i].0));
            i = i + 1;
        }
        proof {
            assert forall|j: int| 0 <= j < out@.len() implies self@.dom().contains(
                #[trigger] out@[j]@,
            ) by {
                lemma_map_of_index(self.entries@, j);
            }
        }
        out
    }
}

proof fn lemma_entries_len<V>(entries: Seq<(Vec<u8>, V)>)
    requires
        distinct_keys(entries),
    ensures
        map_of(entries).dom().len() == entries.len(),
        map_of(entries).dom().finite(),
    decreases entries.len(),
{
    if entries.len() == 0 {
        assert(map_of(entries).dom() =~= Set::<Seq<u8>>::empty());
    } else {
        assert(distinct_keys(entries.drop_last()));
        lemma_entries_len(entries.drop_last());
        lemma_map_of_dom(entries.drop_last(), entries.last().0@);
        assert(!map_of(entries.drop_last()).dom().contains(entries.last().0@)) by {
            if map_of(entries.drop_last()).dom().contains(entries.last().0@) {
                let j = choose|j: int|
                    0 <= j < entries.drop_last().len() && #[trigger] entries.drop_last()[j].0@
                        == entries.last().0@;
                assert(entries[j].0@ == entries[entries.len() - 1].0@);
            }
        }
        assert(map_of(entries).dom() =~= map_of(entries.drop_last()).dom().insert(
            entries.last().0@,
        ));
        vstd::set::axiom_set_insert_len(map_of(entries.drop_last()).dom(), entries.last().0@);
    }
}

/// A set of byte keys, with a `Set` view.
pub struct KeySet {
    items: KeyMap<u8>,
}

impl View for KeySet {
    type V = Set<Seq<u8>>;

    closed spec fn view(&self) -> Set<Seq<u8>> {
        self.items@.dom()
    }
}

impl KeySet {
    pub closed spec fn wf(&self) -> bool {
        self.items.wf()
    }

    pub fn new() -> (r: KeySet)
        ensures
            r@ == Set::<Seq<u8>>::empty(),
            r.wf(),
    {
        let r = KeySet { items: KeyMap::new() };
        proof {
            assert(r@ =~= Set::<Seq<u8>>::empty());
        }
        r
    }

    pub fn len(&self) -> (r: usize)
        requires
            self.wf(),
        ensures
            r == self@.len(),
    {
        self.items.len()
    }

    /// A set held in this container is finite.
    pub proof fn lemma_finite(&self)
        requires
            self.wf(),
        ensures
            self@.finite(),
    {
        self.items.lemma_finite_dom();
    }

    pub fn contains(&self, k: &Vec<u8>) -> (r: bool)
        ensures
            r == self@.contains(k@),
    {
        self.items.contains_key(k)
    }

    pub fn insert(&mut self, k: Vec<u8>)
        requires
            old(self).wf(),
        ensures
            final(self).wf(),
            final(self)@ == old(self)@.insert(k@),
    {
        let ghost kv = k@;
        self.items.insert(k, 0);
        proof {
            assert(self@ =~= old(self)@.insert(kv));
        }
    }

    pub fn remove(&mut self, k: &Vec<u8>)
        requires
            old(self).wf(),
        ensures
            final(self).wf(),
            final(self)@ == old(self)@.remove(k@),
    {
        let _ = self.items.remove(k);
        proof {
            assert(self@ =~= old(self)@.remove(k@));
        }
    }

    /// The members, each exactly once.
    pub fn elements(&self) -> (r: Vec<Vec<u8>>)
        requires
            self.wf(),
        ensures
            forall|i: int| 0 <= i < r@.len() ==> self@.contains(#[trigger] r@[i]@),
            forall|i: int, j: int| 0 <= i < j < r@.len() ==> r@[i]@ != r@[j]@,
            r@.len() == self@.len(),
    {
        self.items.keys()
    }
}


/// A run of distinct byte vectors that all lie in a finite set of the same
/// size lists every member of the set.
pub proof fn lemma_elements_complete(elems: Seq<Vec<u8>>, s: Set<Seq<u8>>, x: Seq<u8>)
    requires
        s.contains(x),
        s.finite(),
        elems.len() == s.len(),
        forall|i: int| 0 <= i < elems.len() ==> s.contains(#[trigger] elems[i]@),
        forall|i: int, j: int| 0 <= i < j < elems.len() ==> elems[i]@ != elems[j]@,
    ensures
        exists|i: int| 0 <= i < elems.len() && #[trigger] elems[i]@ == x,
{
    let views = Set::new(
        |v: Seq<u8>| exists|i: int| 0 <= i < elems.len() && #[trigger] elems[i]@ == v,
    );
    if !views.contains(x) {
        assert(views.subset_of(s.remove(x)));
        lemma_distinct_card(elems, views);
        vstd::set_lib::lemma_len_subset(views, s.remove(x));
        assert(s.remove(x).len() == s.len() - 1);
    }
}

proof fn lemma_distinct_card(elems: Seq<Vec<u8>>, views: Set<Seq<u8>>)
    requires
        views == Set::new(
            |v: Seq<u8>| exists|i: int| 0 <= i < elems.len() && #[trigger] elems[i]@ == v,
        ),
        forall|i: int, j: int| 0 <= i < j < elems.len() ==> elems[i]@ != elems[j]@,
    ensures
        views.finite(),
        views.len() == elems.len(),
    decreases elems.len(),
{
    if elems.len() == 0 {
        assert(views =~= Set::<Seq<u8>>::empty());
    } else {
        let shorter = elems.drop_last();
        let sub = Set::new(
            |v: Seq<u8>| exists|i: int| 0 <= i < shorter.len() && #[trigger] shorter[i]@ == v,
        );
        lemma_distinct_card(shorter, sub);
        assert forall|v: Seq<u8>| views.contains(v) implies sub.insert(elems.last()@).contains(
            v,
        ) by {
            let i = choose|i: int| 0 <= i < elems.len() && #[trigger] elems[i]@ == v;
            if i < elems.len() - 1 {
                assert(shorter[i]@ == v);
            }
        }
        assert forall|v: Seq<u8>| sub.insert(elems.last()@).contains(v) implies views.contains(
            v,
        ) by {
            if sub.contains(v) {
                let i = choose|i: int| 0 <= i < shorter.len() && #[trigger] shorter[i]@ == v;
                assert(elems[i]@ == v);
            } else {
                assert(elems[elems.len() - 1]@ == v);
            }
        }
        assert(views =~= sub.insert(elems.last()@));
        assert(!sub.contains(elems.last()@)) by {
            if sub.contains(elems.last()@) {
                let i = choose|i: int|
                    0 <= i < shorter.len() && #[trigger] shorter[i]@ == elems.last()@;
                assert(elems[i]@ == elems[elems.len() - 1]@);
            }
        }
        vstd::set::axiom_set_insert_len(sub, elems.last()@);
    }
}

} // verus!
