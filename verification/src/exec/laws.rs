//! What holds of every evaluation: laws of the semantics, each proved from
//! the definitions.

use vstd::prelude::*;
use crate::exec::env::ScopeId;
use crate::exec::error::Error;
use crate::exec::semantics::{
    Arith, IState, arith_of, repeated, scalar, spec_arith, spec_arith_each, spec_exec,
    spec_exec_cells, spec_verb_apply,
};
use crate::parse::ast::{AST, Id, spec_list};
use crate::parse::vector::{Vector, cells_of};

verus! {

/// Addition of integers is associative, also where it wraps.
pub proof fn lemma_add_associative(a: i64, b: i64, c: i64)
    ensures
        scalar(Arith::Add, scalar(Arith::Add, a, b), c) == scalar(
            Arith::Add,
            a,
            scalar(Arith::Add, b, c),
        ),
{
}

/// Addition of integers is commutative, also where it wraps.
pub proof fn lemma_add_commutative(a: i64, b: i64)
    ensures
        scalar(Arith::Add, a, b) == scalar(Arith::Add, b, a),
{
}

/// Subtracting what was added gives the first number back, also where the
/// sum wraps.
pub proof fn lemma_sub_undoes_add(a: i64, b: i64)
    ensures
        scalar(Arith::Sub, scalar(Arith::Add, a, b), b) == a,
{
}

/// Whether every node is an integer.
pub open spec fn all_ints(items: Seq<AST>) -> bool {
    forall|i: int| 0 <= i < items.len() ==> (#[trigger] items[i]) is Int
}

/// The results of `op` on the pairs of two runs of integers.
pub open spec fn pairwise(op: Arith, ls: Seq<AST>, rs: Seq<AST>) -> Seq<AST> {
    Seq::new(ls.len(), |i: int| AST::Int { value: scalar(op, ls[i]->Int_value, rs[i]->Int_value) })
}

/// On two runs of integers of one length, the verb works pair by pair and
/// leaves the store alone.
pub proof fn lemma_arith_each_ints(
    cells: Seq<AST>,
    op: Arith,
    ls: Seq<AST>,
    rs: Seq<AST>,
    i: nat,
    acc: Seq<AST>,
    depth: nat,
)
    requires
        ls.len() == rs.len(),
        all_ints(ls),
        all_ints(rs),
        i <= ls.len(),
    ensures
        spec_arith_each(cells, op, ls, rs, i, acc, depth) == (
            cells,
            Ok::<Seq<AST>, Error>(acc + pairwise(op, ls, rs).skip(i as int)),
        ),
    decreases ls.len() - i,
{
    if i < ls.len() {
        let x = AST::Int { value: scalar(op, ls[i as int]->Int_value, rs[i as int]->Int_value) };
        lemma_arith_each_ints(cells, op, ls, rs, i + 1, acc.push(x), depth);
        let all = pairwise(op, ls, rs);
        assert(acc.push(x) + all.skip(i as int + 1) =~= acc + all.skip(i as int));
    } else {
        assert(acc + pairwise(op, ls, rs).skip(i as int) =~= acc);
    }
}

/// A curried list of integers combined with an integer gives a list of the
/// same shape: curried, of the same length, in new cells at the end of the
/// store, and its cell at each place holds the cell of the list at that
/// place combined with the integer. The cells that were there stay as they
/// were.
pub proof fn lemma_list_with_scalar(cells: Seq<AST>, op: Arith, v: Vector, s: i64, depth: nat)
    requires
        v.within(cells.len()),
        all_ints(cells.subrange(v.first as int, v.first + v.len)),
        cells.len() <= u64::MAX,
    ensures
        ({
            let list = AST::List { curry: true, values: v };
            let (after, r) = spec_arith(cells, op, list, AST::Int { value: s }, depth);
            let first: Id = if v.len > 0 {
                cells.len() as Id
            } else {
                0
            };
            &&& r == Ok::<AST, Error>(
                AST::List { curry: true, values: Vector { first: first, len: v.len } },
            )
            &&& after.len() == cells.len() + v.len
            &&& after.take(cells.len() as int) == cells
            &&& forall|i: int|
                0 <= i < v.len ==> #[trigger] after[cells.len() + i] == (AST::Int {
                    value: scalar(op, cells[v.first + i]->Int_value, s),
                })
        }),
{
    let ls = cells.subrange(v.first as int, v.first + v.len);
    let rs = repeated(AST::Int { value: s }, ls.len());
    lemma_arith_each_ints(cells, op, ls, rs, 0, Seq::empty(), depth);
    let items = pairwise(op, ls, rs);
    assert(Seq::<AST>::empty() + items.skip(0) =~= items);
    let (after, a) = spec_list(true, cells, items);
    assert(after.take(cells.len() as int) =~= cells);
    assert forall|i: int| 0 <= i < v.len implies #[trigger] after[cells.len() + i] == (AST::Int {
        value: scalar(op, cells[v.first + i]->Int_value, s),
    }) by {
        assert(after[cells.len() + i] == items[i]);
        assert(ls[i] == cells[v.first + i]);
    }
}

/// The same with the integer on the left.
pub proof fn lemma_scalar_with_list(cells: Seq<AST>, op: Arith, s: i64, v: Vector, depth: nat)
    requires
        v.within(cells.len()),
        all_ints(cells.subrange(v.first as int, v.first + v.len)),
        cells.len() <= u64::MAX,
    ensures
        ({
            let list = AST::List { curry: true, values: v };
            let (after, r) = spec_arith(cells, op, AST::Int { value: s }, list, depth);
            let first: Id = if v.len > 0 {
                cells.len() as Id
            } else {
                0
            };
            &&& r == Ok::<AST, Error>(
                AST::List { curry: true, values: Vector { first: first, len: v.len } },
            )
            &&& after.len() == cells.len() + v.len
            &&& after.take(cells.len() as int) == cells
            &&& forall|i: int|
                0 <= i < v.len ==> #[trigger] after[cells.len() + i] == (AST::Int {
                    value: scalar(op, s, cells[v.first + i]->Int_value),
                })
        }),
{
    let rs = cells.subrange(v.first as int, v.first + v.len);
    let ls = repeated(AST::Int { value: s }, rs.len());
    lemma_arith_each_ints(cells, op, ls, rs, 0, Seq::empty(), depth);
    let items = pairwise(op, ls, rs);
    assert(Seq::<AST>::empty() + items.skip(0) =~= items);
    let (after, a) = spec_list(true, cells, items);
    assert(after.take(cells.len() as int) =~= cells);
    assert forall|i: int| 0 <= i < v.len implies #[trigger] after[cells.len() + i] == (AST::Int {
        value: scalar(op, s, cells[v.first + i]->Int_value),
    }) by {
        assert(after[cells.len() + i] == items[i]);
        assert(rs[i] == cells[v.first + i]);
    }
}

/// Cells that hold integers stay as they are when they are evaluated in
/// place, and so does the rest of the state.
pub proof fn lemma_int_cells_stay(st: IState, v: Vector, i: nat, scope: ScopeId, depth: nat)
    requires
        v.within(st.arena.cells.len()),
        all_ints(st.arena.cells.subrange(v.first as int, v.first + v.len)),
        i <= v.len,
    ensures
        spec_exec_cells(st, v, i, scope, depth) == (st, Ok::<(), Error>(())),
    decreases v.len - i,
{
    if i < v.len {
        let cells = st.arena.cells;
        let c = cells[v.first + i];
        assert(c == cells.subrange(v.first as int, v.first + v.len)[i as int]);
        assert(spec_exec(st, c, scope, depth) == (st, Ok::<AST, Error>(c)));
        assert(cells.update(v.first + i, c) =~= cells);
        assert(st.with_cells(cells.update(v.first + i, c)) == st);
        lemma_int_cells_stay(st, v, i + 1, scope, depth);
    }
}

/// The sum, difference or product of a curried list of integers and an
/// integer, as a verb node over the two evaluates to it: a list of the same
/// shape in new cells at the end of the store, whose cell at each place
/// holds the cell of the list at that place combined with the integer.
/// Nothing else of the state changes.
pub proof fn lemma_exec_list_with_scalar(
    st: IState,
    kind: u8,
    op: Arith,
    args: Vector,
    v: Vector,
    s: i64,
    scope: ScopeId,
    depth: nat,
)
    requires
        arith_of(kind) == Some(op),
        depth >= 2,
        cells_of(st.arena.cells, args) == Some(
            seq![(AST::List { curry: true, values: v }), (AST::Int { value: s })],
        ),
        v.within(st.arena.cells.len()),
        all_ints(st.arena.cells.subrange(v.first as int, v.first + v.len)),
        st.arena.cells.len() <= u64::MAX,
    ensures
        ({
            let cells = st.arena.cells;
            let (after, r) = spec_exec(st, AST::Verb { kind: kind, args: args }, scope, depth);
            let first: Id = if v.len > 0 {
                cells.len() as Id
            } else {
                0
            };
            &&& r == Ok::<AST, Error>(
                AST::List { curry: true, values: Vector { first: first, len: v.len } },
            )
            &&& after == st.with_cells(after.arena.cells)
            &&& after.arena.cells.len() == cells.len() + v.len
            &&& after.arena.cells.take(cells.len() as int) == cells
            &&& forall|i: int|
                0 <= i < v.len ==> #[trigger] after.arena.cells[cells.len() + i] == (AST::Int {
                    value: scalar(op, cells[v.first + i]->Int_value, s),
                })
        }),
{
    let cells = st.arena.cells;
    let list = AST::List { curry: true, values: v };
    let items = seq![list, AST::Int { value: s }];
    assert(args.len == 2) by {
        assert(cells.subrange(args.first as int, args.first + args.len).len() == items.len());
    }
    let d = (depth - 1) as nat;
    lemma_int_cells_stay(st, v, 0, scope, (d - 1) as nat);
    assert(spec_exec(st, items[0], scope, d) == (st, Ok::<AST, Error>(list)));
    assert(spec_exec(st, items[1], scope, d) == (st, Ok::<AST, Error>(items[1])));
    lemma_list_with_scalar(cells, op, v, s, d);
    assert(spec_verb_apply(st, kind, args, scope, d) == ({
        let (c, r) = spec_arith(cells, op, list, AST::Int { value: s }, d);
        (st.with_cells(c), r)
    }));
}

/// Two curried lists of different lengths cannot be combined.
pub proof fn lemma_length_mismatch(cells: Seq<AST>, op: Arith, a: Vector, b: Vector, depth: nat)
    requires
        a.len != b.len,
    ensures
        spec_arith(
            cells,
            op,
            AST::List { curry: true, values: a },
            AST::List { curry: true, values: b },
            depth,
        ) == (cells, Err::<AST, Error>(Error::Length)),
{
}

/// Whether the node is a literal: an integer, a decimal literal, a boolean,
/// a symbol, a string, a built-in function, the empty node or the quit mark.
pub open spec fn is_literal(node: AST) -> bool {
    node is Int || node is Float || node is Bool || node is Symbol || node is String
        || node is Native || node is Nil || node is Quit
}

/// A literal evaluates to itself, in every state, scope and depth, and the
/// state stays as it is.
pub proof fn lemma_literal_is_its_value(st: IState, node: AST, scope: ScopeId, depth: nat)
    requires
        is_literal(node),
    ensures
        spec_exec(st, node, scope, depth) == (st, Ok::<AST, Error>(node)),
{
}

/// The vector of the first `k` cells of `v`.
pub open spec fn prefix(v: Vector, k: nat) -> Vector {
    Vector { first: v.first, len: k as usize }
}

/// Where the cells of `v` from place `i` on evaluate without error, so do
/// those of every shorter vector with the same first cell, up to the state
/// from which the longer one goes on.
pub proof fn lemma_cells_by_prefix(
    st: IState,
    v: Vector,
    k: nat,
    i: nat,
    scope: ScopeId,
    depth: nat,
)
    requires
        i <= k <= v.len,
        spec_exec_cells(st, v, i, scope, depth).1.is_ok(),
    ensures
        spec_exec_cells(st, prefix(v, k), i, scope, depth).1.is_ok(),
        spec_exec_cells(spec_exec_cells(st, prefix(v, k), i, scope, depth).0, v, k, scope, depth)
            == spec_exec_cells(st, v, i, scope, depth),
    decreases k - i,
{
    if i < k {
        let (st1, r) = spec_exec(st, st.arena.cells[v.first + i], scope, depth);
        let st2 = st1.with_cells(st1.arena.cells.update(v.first + i, r.unwrap()));
        lemma_cells_by_prefix(st2, v, k, i + 1, scope, depth);
    }
}

/// A sequence evaluates its cells in order, each in the state that the ones
/// before it left, so that whatever they define is defined afterwards; and
/// its value is the value of its last cell. With `before` the state after
/// all cells but the last, and `last` the last cell as that state holds it:
/// the sequence gives what `last` evaluates to in `before`, and leaves the
/// state that this evaluation leaves, with the value written to the last
/// cell.
pub proof fn lemma_sequence_is_its_last(st: IState, v: Vector, scope: ScopeId, depth: nat)
    requires
        v.len > 0,
        spec_exec(st, AST::Sequence { values: v }, scope, depth + 1).1.is_ok(),
    ensures
        ({
            let k = (v.len - 1) as nat;
            let (before, r0) = spec_exec_cells(st, prefix(v, k), 0, scope, depth);
            let last = before.arena.cells[v.first + k];
            let (after, r) = spec_exec(before, last, scope, depth);
            &&& r0.is_ok()
            &&& r.is_ok()
            &&& spec_exec(st, AST::Sequence { values: v }, scope, depth + 1) == (
                after.with_cells(after.arena.cells.update(v.first + k, r.unwrap())),
                r,
            )
        }),
{
    let k = (v.len - 1) as nat;
    assert(spec_exec_cells(st, v, 0, scope, depth).1.is_ok());
    lemma_cells_by_prefix(st, v, k, 0, scope, depth);
    let (before, r0) = spec_exec_cells(st, prefix(v, k), 0, scope, depth);
    let last = before.arena.cells[v.first + k];
    let (after, r) = spec_exec(before, last, scope, depth);
    let st2 = after.with_cells(after.arena.cells.update(v.first + k, r.unwrap()));
    assert(spec_exec_cells(st2, v, v.len as nat, scope, depth) == (st2, Ok::<(), Error>(())));
}

} // verus!
