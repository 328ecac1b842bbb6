//! Ordered input lists with duplicate suppression on insertion.
//!
//! An `Inputs<T>` keeps the order in which entries were added; adding
//! an entry already present leaves the list unchanged (the first
//! occurrence wins the position).  The entry type is the raw reference
//! string before resolution, and an `OutputId` after.

use vstd::prelude::*;
use crate::id::OutputId;

verus! {

/// Duplicate-suppressing push over string views.
pub open spec fn push_dedup_view(s: Seq<Seq<char>>, x: Seq<char>) -> Seq<Seq<char>> {
    if s.contains(x) {
        s
    } else {
        s.push(x)
    }
}

/// Duplicate-suppressing push over output-id views.
pub open spec fn push_dedup_oid(
    s: Seq<(Seq<char>, Option<Seq<char>>)>,
    x: (Seq<char>, Option<Seq<char>>),
) -> Seq<(Seq<char>, Option<Seq<char>>)> {
    if s.contains(x) {
        s
    } else {
        s.push(x)
    }
}

/// An ordered sequence with duplicate suppression on insertion.
#[derive(Debug, Clone, PartialEq, Eq)]
pub struct Inputs<T> {
    pub items: Vec<T>,
}

impl<T> Inputs<T> {
    pub fn new() -> (r: Self)
        ensures
            r.items@ =~= Seq::<T>::empty(),
    {
        Inputs { items: Vec::new() }
    }

    pub fn len(&self) -> (r: usize)
        ensures
            r == self.items@.len(),
    {
        self.items.len()
    }

    pub fn as_vec(&self) -> (r: &Vec<T>)
        ensures
            r@ == self.items@,
    {
        &self.items
    }

    pub fn item_at(&self, i: usize) -> (r: &T)
        requires
            i < self.items@.len(),
        ensures
            *r == self.items@[i as int],
    {
        &self.items[i]
    }
}

impl Inputs<String> {
    /// The entry views, in order.
    pub open spec fn views(&self) -> Seq<Seq<char>> {
        self.items@.map_values(|s: String| s@)
    }

    /// Adds one raw reference string unless an equal one is present.
    pub fn extend_one(&mut self, x: String)
        ensures
            final(self).views() =~= push_dedup_view(old(self).views(), x@),
    {
        let n = self.items.len();
        for i in 0..n
            invariant
                n == self.items@.len(),
                forall|j: int| 0 <= j < i ==> self.items@[j]@ != x@,
        {
            if self.items[i] == x {
                proof {
                    assert(self.views()[i as int] == x@);
                    assert(self.views().contains(x@));
                }
                return ;
            }
        }
        proof {
            assert(forall|j: int| 0 <= j < self.views().len() ==> self.views()[j] != x@);
            assert(!self.views().contains(x@));
        }
        self.items.push(x);
    }
}

impl Inputs<OutputId> {
    /// The entry views, in order.
    pub open spec fn views(&self) -> Seq<(Seq<char>, Option<Seq<char>>)> {
        self.items@.map_values(|o: OutputId| o@)
    }

    /// Adds one resolved output id unless an equal one is present.
    pub fn extend_one(&mut self, x: OutputId)
        ensures
            final(self).views() =~= push_dedup_oid(old(self).views(), x@),
    {
        let n = self.items.len();
        for i in 0..n
            invariant
                n == self.items@.len(),
                forall|j: int| 0 <= j < i ==> self.items@[j]@ != x@,
        {
            if crate::id::output_id_eq(&self.items[i], &x) {
                proof {
                    assert(self.views()[i as int] == x@);
                    assert(self.views().contains(x@));
                }
                return ;
            }
        }
        proof {
            assert(forall|j: int| 0 <= j < self.views().len() ==> self.views()[j] != x@);
            assert(!self.views().contains(x@));
        }
        self.items.push(x);
    }
}

} // verus!
