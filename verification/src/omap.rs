//! An insertion-ordered map keyed by `ComponentKey`.
//!
//! Entries keep their declaration order; a well-formed map holds each
//! key at most once.  Contracts speak of the map's view: the sequence
//! of (key view, value) pairs in declaration order.

use vstd::prelude::*;
use vstd::pervasive::VecAdditionalExecFns;
use crate::id::ComponentKey;

verus! {

/// The first value bound to `k`, scanning the entries from the front.
pub open spec fn seq_get<V>(s: Seq<(Seq<char>, V)>, k: Seq<char>) -> Option<V>
    decreases s.len(),
{
    if s.len() == 0 {
        None
    } else if s[0].0 == k {
        Some(s[0].1)
    } else {
        seq_get(s.drop_first(), k)
    }
}

/// The entries after binding `k` to `v`: the first entry keyed `k` gets
/// the new value in place; a missing key is appended at the back.
pub open spec fn seq_insert<V>(s: Seq<(Seq<char>, V)>, k: Seq<char>, v: V) -> Seq<(Seq<char>, V)>
    decreases s.len(),
{
    if s.len() == 0 {
        seq![(k, v)]
    } else if s[0].0 == k {
        seq![(k, v)] + s.drop_first()
    } else {
        seq![s[0]] + seq_insert(s.drop_first(), k, v)
    }
}

pub proof fn lemma_seq_get_none<V>(s: Seq<(Seq<char>, V)>, k: Seq<char>)
    requires
        forall|j: int| 0 <= j < s.len() ==> s[j].0 != k,
    ensures
        seq_get(s, k) is None,
    decreases s.len(),
{
    if s.len() > 0 {
        lemma_seq_get_none(s.drop_first(), k);
    }
}

pub proof fn lemma_seq_get_found<V>(s: Seq<(Seq<char>, V)>, k: Seq<char>, i: int)
    requires
        0 <= i < s.len(),
        s[i].0 == k,
        forall|j: int| 0 <= j < i ==> s[j].0 != k,
    ensures
        seq_get(s, k) == Some(s[i].1),
    decreases i,
{
    if i > 0 {
        lemma_seq_get_found(s.drop_first(), k, i - 1);
    }
}

pub proof fn lemma_seq_insert_found<V>(s: Seq<(Seq<char>, V)>, k: Seq<char>, v: V, i: int)
    requires
        0 <= i < s.len(),
        s[i].0 == k,
        forall|j: int| 0 <= j < i ==> s[j].0 != k,
    ensures
        seq_insert(s, k, v) =~= s.update(i, (k, v)),
    decreases i,
{
    if i > 0 {
        lemma_seq_insert_found(s.drop_first(), k, v, i - 1);
    }
}

pub proof fn lemma_seq_insert_none<V>(s: Seq<(Seq<char>, V)>, k: Seq<char>, v: V)
    requires
        forall|j: int| 0 <= j < s.len() ==> s[j].0 != k,
    ensures
        seq_insert(s, k, v) =~= s.push((k, v)),
    decreases s.len(),
{
    if s.len() > 0 {
        lemma_seq_insert_none(s.drop_first(), k, v);
    }
}

/// An insertion-ordered map from component keys to values.
#[derive(Debug, Clone, PartialEq)]
pub struct OMap<V> {
    pub entries: Vec<(ComponentKey, V)>,
}

impl<V> OMap<V> {
    /// The sequence of (key view, value) pairs, in declaration order.
    pub open spec fn kv_seq(&self) -> Seq<(Seq<char>, V)> {
        self.entries@.map_values(|e: (ComponentKey, V)| (e.0@, e.1))
    }

    /// The sequence of key views, in declaration order.
    pub open spec fn key_seq(&self) -> Seq<Seq<char>> {
        self.entries@.map_values(|e: (ComponentKey, V)| e.0@)
    }

    /// Each key occurs at most once.
    pub open spec fn wf(&self) -> bool {
        forall|i: int, j: int|
            0 <= i < j < self.kv_seq().len() ==> self.kv_seq()[i].0 != self.kv_seq()[j].0
    }

    pub open spec fn spec_get(&self, k: Seq<char>) -> Option<V> {
        seq_get(self.kv_seq(), k)
    }

    pub open spec fn spec_contains(&self, k: Seq<char>) -> bool {
        self.spec_get(k) is Some
    }

    pub open spec fn spec_len(&self) -> nat {
        self.kv_seq().len()
    }

    pub fn new() -> (r: Self)
        ensures
            r.kv_seq() =~= Seq::<(Seq<char>, V)>::empty(),
    {
        OMap { entries: Vec::new() }
    }

    pub fn len(&self) -> (r: usize)
        ensures
            r == self.spec_len(),
    {
        self.entries.len()
    }

    pub fn is_empty(&self) -> (r: bool)
        ensures
            r == (self.spec_len() == 0),
    {
        self.entries.len() == 0
    }

    /// The index of the first entry keyed `k`, if any.
    pub fn find(&self, k: &ComponentKey) -> (r: Option<usize>)
        ensures
            match r {
                Some(i) => {
                    &&& 0 <= i < self.kv_seq().len()
                    &&& self.kv_seq()[i as int].0 == k@
                    &&& forall|j: int| 0 <= j < i ==> self.kv_seq()[j].0 != k@
                    &&& self.spec_get(k@) == Some(self.kv_seq()[i as int].1)
                },
                None => {
                    &&& self.spec_get(k@) is None
                    &&& forall|j: int| 0 <= j < self.kv_seq().len() ==> self.kv_seq()[j].0 != k@
                },
            },
    {
        let n = self.entries.len();
        for i in 0..n
            invariant
                n == self.entries@.len(),
                forall|j: int| 0 <= j < i ==> self.kv_seq()[j].0 != k@,
        {
            if crate::id::key_eq(&self.entries[i].0, k) {
                proof {
                    lemma_seq_get_found(self.kv_seq(), k@, i as int);
                }
                return Some(i);
            }
        }
        proof {
            lemma_seq_get_none(self.kv_seq(), k@);
        }
        None
    }

    pub fn contains(&self, k: &ComponentKey) -> (r: bool)
        ensures
            r == self.spec_contains(k@),
    {
        self.find(k).is_some()
    }

    pub fn get(&self, k: &ComponentKey) -> (r: Option<&V>)
        ensures
            match r {
                Some(v) => self.spec_get(k@) == Some(*v),
                None => self.spec_get(k@) is None,
            },
    {
        match self.find(k) {
            Some(i) => Some(&self.entries[i].1),
            None => None,
        }
    }

    /// The entry at position `i`, in declaration order.
    pub fn entry_at(&self, i: usize) -> (r: &(ComponentKey, V))
        requires
            i < self.spec_len(),
        ensures
            r.0@ == self.kv_seq()[i as int].0,
            r.1 == self.kv_seq()[i as int].1,
    {
        &self.entries[i]
    }

    /// Appends an entry at the back, with no duplicate suppression.
    pub fn push(&mut self, k: ComponentKey, v: V)
        ensures
            final(self).kv_seq() =~= old(self).kv_seq().push((k@, v)),
    {
        self.entries.push((k, v));
    }

    /// Replaces the value at position `i`, keeping the key.
    pub fn set_val(&mut self, i: usize, v: V)
        requires
            i < old(self).spec_len(),
        ensures
            final(self).kv_seq() =~= old(self).kv_seq().update(
                i as int,
                (old(self).kv_seq()[i as int].0, v),
            ),
    {
        let k = self.entries[i].0.dup();
        self.entries.set(i, (k, v));
    }

    /// Binds `k` to `v`: in place for a present key, appended for a
    /// fresh one.
    pub fn insert(&mut self, k: ComponentKey, v: V)
        ensures
            final(self).kv_seq() =~= seq_insert(old(self).kv_seq(), k@, v),
    {
        match self.find(&k) {
            Some(i) => {
                proof {
                    lemma_seq_insert_found(self.kv_seq(), k@, v, i as int);
                }
                self.set_val(i, v);
            },
            None => {
                proof {
                    lemma_seq_insert_none(self.kv_seq(), k@, v);
                }
                self.entries.push((k, v));
            },
        }
    }

    /// A mutable borrow of the value at position `i`; the key stays.
    pub fn val_at_mut(&mut self, i: usize) -> (r: &mut V)
        requires
            i < old(self).spec_len(),
        ensures
            *r == old(self).kv_seq()[i as int].1,
            final(self).kv_seq() =~= old(self).kv_seq().update(
                i as int,
                (old(self).kv_seq()[i as int].0, *final(r)),
            ),
    {
        &mut self.entries[i].1
    }

    /// Hands the entries out, consuming the map.
    pub fn take_entries(self) -> (r: Vec<(ComponentKey, V)>)
        ensures
            r@.len() == self.kv_seq().len(),
            forall|i: int|
                0 <= i < r@.len() ==> r@[i].0@ == self.kv_seq()[i].0 && r@[i].1
                    == self.kv_seq()[i].1,
    {
        self.entries
    }
}

} // verus!
