//! Handles to runs of consecutive cells in the node store.

use vstd::prelude::*;
use crate::parse::arena::ArenaMem;
use crate::parse::ast::{AST, Id};

verus! {

/// A child vector: `len` consecutive cells of the store, the first at `first`.
#[derive(PartialEq, Eq, Debug, Clone, Copy)]
pub struct Vector {
    pub first: Id,
    pub len: usize,
}

/// The cells `first .. first + len` of `cells`, when all of them exist.
pub open spec fn cells_of(cells: Seq<AST>, v: Vector) -> Option<Seq<AST>> {
    if v.first + v.len <= cells.len() {
        Some(cells.subrange(v.first as int, v.first + v.len))
    } else {
        None
    }
}

impl Vector {
    /// Whether every cell of the vector exists in a store of `n` cells.
    pub open spec fn within(&self, n: nat) -> bool {
        self.first + self.len <= n
    }

    /// The ids of the cells, in order.
    pub open spec fn ids(&self) -> Seq<Id>
        recommends
            self.first + self.len <= u64::MAX,
    {
        Seq::new(self.len as nat, |i: int| (self.first + i) as Id)
    }

    #[inline(always)]
    pub fn len(&self) -> (n: usize)
        ensures
            n == self.len,
    {
        self.len
    }

    /// Shortens the vector to its first `l` cells.
    pub fn set_len(&mut self, l: usize)
        requires
            l <= old(self).len,
        ensures
            final(self).len == l,
            final(self).first == old(self).first,
    {
        self.len = l;
    }

    /// Whether the whole vector lies inside `arena`.
    pub fn fits(&self, arena: &ArenaMem) -> (b: bool)
        ensures
            b == self.within(arena@.len()),
    {
        let n = arena.len();
        self.len <= n && self.first <= (n - self.len) as u64
    }

    /// A copy of the cells, in order.
    pub fn as_slice(&self, arena: &ArenaMem) -> (out: Vec<AST>)
        requires
            self.within(arena@.len()),
        ensures
            Some(out@) == cells_of(arena@, *self),
    {
        let mut out: Vec<AST> = Vec::new();
        let mut i: usize = 0;
        while i < self.len
            invariant
                self.within(arena@.len()),
                i <= self.len,
                out@ == arena@.subrange(self.first as int, self.first + i),
            decreases self.len - i,
        {
            out.push(*arena.deref_as_offset(self.first, i));
            i = i + 1;
            assert(out@ =~= arena@.subrange(self.first as int, self.first + i));
        }
        out
    }

    /// The cells as one slice, to be written through.
    pub fn as_slice_mut<'a>(&self, arena: &'a mut ArenaMem) -> (out: &'a mut [AST])
        requires
            self.within(old(arena)@.len()),
        ensures
            Some(out@) == cells_of(old(arena)@, *self),
            final(arena)@ == old(arena)@.take(self.first as int) + final(out)@ + old(arena)@.skip(
                self.first + self.len,
            ),
    {
        arena.cells_mut(self.first, self.len)
    }

    /// The id of the cell at position `ix`.
    #[inline(always)]
    pub fn to_id(&self, ix: usize) -> (id: Id)
        requires
            ix < self.len,
            self.first + ix <= u64::MAX,
        ensures
            id == self.first + ix,
    {
        self.first + ix as u64
    }

    /// Overwrites the cell at position `ix`.
    #[inline(always)]
    pub fn set(&self, ix: usize, arena: &mut ArenaMem, v: AST)
        requires
            ix < self.len,
            self.within(old(arena)@.len()),
        ensures
            final(arena)@ == old(arena)@.update(self.first + ix, v),
    {
        proof {
            arena.lemma_len_fits();
        }
        arena.store(self.first + ix as u64, v);
    }

    /// The cell at position `ix`.
    #[inline(always)]
    pub fn get<'a>(&self, ix: usize, arena: &'a ArenaMem) -> (cell: &'a AST)
        requires
            ix < self.len,
            self.within(arena@.len()),
        ensures
            *cell == arena@[self.first + ix],
    {
        arena.deref_as_offset(self.first, ix)
    }

    /// A cursor over the cells, in order.
    pub fn iter<'a>(&self, arena: &'a ArenaMem) -> (it: VectorArenaIter<'a>)
        requires
            self.within(arena@.len()),
        ensures
            Some(it.rest()) == cells_of(arena@, *self),
    {
        let it = VectorArenaIter { arena: arena, first: self.first, curr: 0, len: self.len };
        assert(it.rest() =~= arena@.subrange(self.first as int, self.first + self.len));
        it
    }

    /// Writes `items` into the first cells of the vector, in order.
    pub fn from_iter(&self, items: &Vec<AST>, arena: &mut ArenaMem)
        requires
            items@.len() <= self.len,
            self.within(old(arena)@.len()),
        ensures
            final(arena)@.len() == old(arena)@.len(),
            forall|i: int|
                0 <= i < old(arena)@.len() ==> #[trigger] final(arena)@[i] == (if self.first <= i
                    < self.first + items@.len() {
                    items@[i - self.first]
                } else {
                    old(arena)@[i]
                }),
    {
        proof {
            arena.lemma_len_fits();
        }
        let mut i: usize = 0;
        while i < items.len()
            invariant
                arena@.len() <= usize::MAX,
                i <= items@.len() <= self.len,
                self.within(arena@.len()),
                arena@.len() == old(arena)@.len(),
                forall|j: int|
                    0 <= j < arena@.len() ==> #[trigger] arena@[j] == if self.first <= j
                        < self.first + i {
                        items@[j - self.first]
                    } else {
                        old(arena)@[j]
                    },
            decreases items@.len() - i,
        {
            arena.store(self.first + i as u64, items[i]);
            i = i + 1;
        }
    }

    /// A cursor over the ids of the cells.
    pub fn id_iter(&self) -> (it: VectItemIter)
        requires
            self.first + self.len <= u64::MAX,
        ensures
            it.rest() == self.ids(),
    {
        let it = VectItemIter { curr: self.first, end: self.first + self.len as u64 };
        assert(it.rest() =~= self.ids());
        it
    }
}

/// A cursor over the cells of a child vector.
pub struct VectorArenaIter<'a> {
    arena: &'a ArenaMem,
    first: Id,
    curr: usize,
    len: usize,
}

impl<'a> VectorArenaIter<'a> {
    /// The cells that are still to come, in order; none where the vector
    /// does not lie in the store.
    pub closed spec fn rest(&self) -> Seq<AST> {
        if self.curr <= self.len && self.first + self.len <= self.arena@.len() {
            self.arena@.subrange(self.first + self.curr, self.first + self.len)
        } else {
            Seq::empty()
        }
    }

    /// Hands out the next cell and moves on, or `None` once all are given.
    pub fn next(&mut self) -> (r: Option<&'a AST>)
        ensures
            old(self).rest().len() == 0 ==> r.is_none() && final(self).rest().len() == 0,
            old(self).rest().len() > 0 ==> r.is_some() && *r.unwrap() == old(self).rest()[0]
                && final(self).rest() == old(self).rest().skip(1),
    {
        let n = self.arena.len();
        if self.curr < self.len && self.len <= n && self.first <= (n - self.len) as u64 {
            let r = self.arena.deref_as_offset(self.first, self.curr);
            self.curr = self.curr + 1;
            assert(self.rest() =~= old(self).rest().skip(1));
            Some(r)
        } else {
            None
        }
    }
}

/// A cursor over consecutive cell ids: those from `curr` up to `end`, `end` left out.
#[derive(PartialEq, Eq, Debug, Copy, Clone)]
pub struct VectItemIter {
    pub curr: Id,
    pub end: Id,
}

impl VectItemIter {
    /// The ids that are still to come, in order.
    pub open spec fn rest(&self) -> Seq<Id> {
        if self.curr < self.end {
            Seq::new((self.end - self.curr) as nat, |i: int| (self.curr + i) as Id)
        } else {
            Seq::empty()
        }
    }

    /// Hands out the next id and moves on, or `None` once all are given.
    pub fn next(&mut self) -> (r: Option<Id>)
        ensures
            old(self).rest().len() == 0 ==> r.is_none() && *final(self) == *old(self),
            old(self).rest().len() > 0 ==> r == Some(old(self).rest()[0]) && final(self).rest()
                == old(self).rest().skip(1),
    {
        if self.curr < self.end {
            let r = self.curr;
            self.curr = self.curr + 1;
            assert(self.rest() =~= old(self).rest().skip(1));
            Some(r)
        } else {
            None
        }
    }
}

} // verus!
