//! The node store: a dense run of cells addressed by small integer ids.

use vstd::prelude::*;
use crate::parse::ast::{AST, Id};
use crate::parse::vector::Vector;

verus! {

/// A child vector, under the name that the store knows it by.
pub type Vect = Vector;

/// A run of `n` empty cells.
pub open spec fn blank(n: nat) -> Seq<AST> {
    Seq::new(n, |i: int| AST::Nil)
}

/// The cell `id` of `cells`, if there is one.
pub open spec fn cell_at(cells: Seq<AST>, id: Id) -> Option<AST> {
    if id < cells.len() {
        Some(cells[id as int])
    } else {
        None
    }
}

/// Rounds `s` up to the next multiple of `a`.
pub fn align(s: usize, a: usize) -> (r: usize)
    requires
        a > 0,
        s + a - 1 <= usize::MAX,
    ensures
        r == ((s + a - 1) / (a as int)) * a,
        r % a == 0,
        s <= r < s + a,
{
    let q = (s + (a - 1)) / a;
    proof {
        let n = (s + a - 1) as int;
        let d = a as int;
        vstd::arithmetic::div_mod::lemma_fundamental_div_mod(n, d);
        vstd::arithmetic::div_mod::lemma_mod_bound(n, d);
        vstd::arithmetic::div_mod::lemma_mod_multiples_basic(n / d, d);
        assert(d * (n / d) == (n / d) * d) by (nonlinear_arith);
    }
    q * a
}

/// A bump store of tree nodes. Cells are handed out in order and never move;
/// only the whole store can be reset.
#[derive(Debug)]
pub struct ArenaMem {
    cells: Vec<AST>,
}

impl View for ArenaMem {
    type V = Seq<AST>;

    closed spec fn view(&self) -> Seq<AST> {
        self.cells@
    }
}

impl ArenaMem {
    #[inline]
    pub fn new() -> (arena: ArenaMem)
        ensures
            arena@ == Seq::<AST>::empty(),
    {
        ArenaMem { cells: Vec::new() }
    }

    /// An empty store with room for `capacity` cells.
    #[inline]
    pub fn with_capacity(capacity: usize) -> (arena: ArenaMem)
        ensures
            arena@ == Seq::<AST>::empty(),
    {
        ArenaMem { cells: Vec::with_capacity(capacity) }
    }

    /// A store is never longer than memory allows.
    pub proof fn lemma_len_fits(&self)
        ensures
            self@.len() <= usize::MAX,
    {
        assert(self.cells@.len() == self.cells.len());
    }

    #[inline(always)]
    pub fn deref(&self, item: Id) -> (cell: &AST)
        requires
            item < self@.len(),
        ensures
            *cell == self@[item as int],
    {
        assert(self.cells@.len() == self.cells.len());
        &self.cells[item as usize]
    }

    /// The cell `item`, to be written through.
    #[inline(always)]
    pub fn deref_mut(&mut self, item: Id) -> (cell: &mut AST)
        requires
            item < old(self)@.len(),
        ensures
            *cell == old(self)@[item as int],
            final(self)@ == old(self)@.update(item as int, *final(cell)),
    {
        assert(self.cells@.len() == self.cells.len());
        &mut self.cells[item as usize]
    }

    /// The cell `item`: the store has one type of cell.
    #[inline(always)]
    pub fn deref_as(&self, item: Id) -> (cell: &AST)
        requires
            item < self@.len(),
        ensures
            *cell == self@[item as int],
    {
        self.deref(item)
    }

    /// The cell `item`, to be written through.
    #[inline(always)]
    pub fn deref_as_mut(&mut self, item: Id) -> (cell: &mut AST)
        requires
            item < old(self)@.len(),
        ensures
            *cell == old(self)@[item as int],
            final(self)@ == old(self)@.update(item as int, *final(cell)),
    {
        self.deref_mut(item)
    }

    /// The cell `offset` places after `item`, to be written through.
    #[inline(always)]
    pub fn deref_as_offset_mut(&mut self, item: Id, offset: usize) -> (cell: &mut AST)
        requires
            item + offset < old(self)@.len(),
        ensures
            *cell == old(self)@[item + offset],
            final(self)@ == old(self)@.update(item + offset, *final(cell)),
    {
        assert(self.cells@.len() == self.cells.len());
        &mut self.cells[item as usize + offset]
    }

    /// The `len` cells from `first` on as one slice, to be written through.
    pub fn cells_mut(&mut self, first: Id, len: usize) -> (out: &mut [AST])
        requires
            first + len <= old(self)@.len(),
        ensures
            out@ == old(self)@.subrange(first as int, first + len),
            final(self)@ == old(self)@.take(first as int) + final(out)@ + old(self)@.skip(
                first + len,
            ),
    {
        assert(self.cells@.len() == self.cells.len());
        let all = self.cells.as_mut_slice();
        let (_, rest) = all.split_at_mut(first as usize);
        let (mid, _) = rest.split_at_mut(len);
        mid
    }

    /// The cell `item`, or `None` where the store has no such cell.
    pub fn cell(&self, item: Id) -> (cell: Option<AST>)
        ensures
            cell == cell_at(self@, item),
    {
        if item < self.cells.len() as u64 {
            Some(self.cells[item as usize])
        } else {
            None
        }
    }

    /// Overwrites the cell `item`.
    pub fn store(&mut self, item: Id, data: AST)
        requires
            item < old(self)@.len(),
        ensures
            final(self)@ == old(self)@.update(item as int, data),
    {
        assert(self.cells@.len() == self.cells.len());
        self.cells[item as usize] = data;
    }

    /// The cell `offset` places after `item`.
    #[inline(always)]
    pub fn deref_as_offset(&self, item: Id, offset: usize) -> (cell: &AST)
        requires
            item + offset < self@.len(),
        ensures
            *cell == self@[item + offset],
    {
        assert(self.cells@.len() == self.cells.len());
        &self.cells[item as usize + offset]
    }

    /// Appends a cell and returns its id.
    #[inline(always)]
    pub fn push(&mut self, data: AST) -> (id: Id)
        ensures
            id == old(self)@.len(),
            final(self)@ == old(self)@.push(data),
    {
        let r = self.cells.len() as u64;
        self.cells.push(data);
        r
    }

    /// Resets the store: every cell is given up and ids start again at zero.
    #[inline]
    pub fn clear(&mut self)
        ensures
            final(self)@ == Seq::<AST>::empty(),
    {
        self.cells.clear();
    }

    /// The id that the next cell will get.
    #[inline]
    pub fn curr(&self) -> (id: Id)
        ensures
            id == self@.len(),
    {
        self.cells.len() as u64
    }

    #[inline]
    pub fn len(&self) -> (n: usize)
        ensures
            n == self@.len(),
    {
        self.cells.len()
    }

    /// Moves the cursor back to `curr`: the cells from there on are given up.
    #[inline]
    pub fn set_curr(&mut self, curr: Id)
        requires
            curr <= old(self)@.len(),
        ensures
            final(self)@ == old(self)@.take(curr as int),
    {
        self.cells.truncate(curr as usize);
    }

    /// Appends `el_count` empty cells and returns the handle to them.
    pub fn alloc_vec(&mut self, el_count: usize) -> (v: Vector)
        ensures
            v.len == el_count,
            v.first == (if el_count > 0 { old(self)@.len() } else { 0 }),
            final(self)@ == old(self)@ + blank(el_count as nat),
    {
        let mut v = Vector { first: 0, len: 0 };
        if el_count > 0 {
            v.first = self.cells.len() as u64;
            let mut i: usize = 0;
            while i < el_count
                invariant
                    i <= el_count,
                    self@ == old(self)@ + blank(i as nat),
                decreases el_count - i,
            {
                self.cells.push(AST::Nil);
                i = i + 1;
                assert(self@ =~= old(self)@ + blank(i as nat));
            }
            v.len = el_count;
        } else {
            assert(self@ =~= old(self)@ + blank(0));
        }
        v
    }
}

/// A cell that was pushed is read back unchanged, whatever is pushed after it.
pub proof fn lemma_push_then_deref(cells: Seq<AST>, x: AST, later: Seq<AST>)
    requires
        cells.len() < u64::MAX,
    ensures
        cell_at(cells.push(x) + later, cells.len() as Id) == Some(x),
{
}

/// Pushing leaves every earlier cell as it was.
pub proof fn lemma_push_keeps_cells(cells: Seq<AST>, x: AST, id: Id)
    requires
        id < cells.len(),
    ensures
        cell_at(cells.push(x), id) == cell_at(cells, id),
{
}

} // verus!
