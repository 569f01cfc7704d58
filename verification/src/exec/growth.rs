//! Evaluation only adds: the store never loses a cell, an interned text
//! keeps its id, a scope keeps its id, its parent and its bindings, and a
//! name that is defined stays defined.

use vstd::prelude::*;
use crate::exec::env::{
    ScopeId, ScopeView, lemma_define_then_get, lemma_newest, newest, parent_of, spec_get,
    spec_new_child,
};
use crate::exec::error::Error;
use crate::exec::laws::{lemma_cells_by_prefix, prefix};
use crate::exec::semantics::{
    Arith, IState, arith_of, is_curried, repeated, spec_arith, spec_arith_atoms, spec_arith_each,
    spec_arith_list, spec_bind, spec_bind_args, spec_call, spec_call_args, spec_cond, spec_exec,
    spec_exec_cells, spec_native, spec_parse_ast, spec_verb_apply,
};
use crate::parse::arena::cell_at;
use crate::parse::ast::{AST, Id};
use crate::parse::growth::{extends, lemma_parse_list};
use crate::parse::parser::state;
use crate::parse::source::spec_prepare;
use crate::parse::vector::{Vector, cells_of};

verus! {

/// Whether the scope tree `new` holds every scope of `old` at its id, with
/// the same parent and with all its bindings, oldest first.
pub open spec fn scopes_extend(new: Seq<ScopeView>, old: Seq<ScopeView>) -> bool {
    old.len() <= new.len() && forall|i: int|
        0 <= i < old.len() ==> (#[trigger] new[i]).parent == old[i].parent && extends(
            new[i].entries,
            old[i].entries,
        )
}

/// Whether `after` can follow `before` in an evaluation: no cell, no
/// interned text, no scope and no binding was lost.
pub open spec fn grows(after: IState, before: IState) -> bool {
    &&& before.arena.cells.len() <= after.arena.cells.len()
    &&& extends(after.arena.names, before.arena.names)
    &&& extends(after.arena.symbols, before.arena.symbols)
    &&& extends(after.arena.floats, before.arena.floats)
    &&& after.arena.natives == before.arena.natives
    &&& scopes_extend(after.env, before.env)
}

/// A scope tree that got more still gives every name a value that had one.
pub proof fn lemma_stays_defined(new: Seq<ScopeView>, old: Seq<ScopeView>, key: u16, s: nat)
    requires
        scopes_extend(new, old),
        spec_get(old, key, s).is_some(),
    ensures
        spec_get(new, key, s).is_some(),
    decreases s,
{
    lemma_newest(old[s as int].entries, key);
    lemma_newest(new[s as int].entries, key);
    if newest(old[s as int].entries, key).is_some() {
        let i = choose|i: int|
            0 <= i < old[s as int].entries.len() && (#[trigger] old[s as int].entries[i]).0 == key;
        assert(new[s as int].entries[i].0 == key);
    } else {
        let p = parent_of(old, s).unwrap();
        assert(parent_of(new, s) == Some(p));
        lemma_stays_defined(new, old, key, p);
    }
}

/// Binding a name only adds to the state.
pub proof fn lemma_bind(st: IState, scope: ScopeId, name: u16, value: AST)
    ensures
        grows(spec_bind(st, scope, name, value), st),
{
    let after = spec_bind(st, scope, name, value);
    assert forall|i: int| 0 <= i < st.env.len() implies (#[trigger] after.env[i]).parent
        == st.env[i].parent && extends(after.env[i].entries, st.env[i].entries) by {}
}

/// Arithmetic leaves every cell at its place.
pub proof fn lemma_arith(cells: Seq<AST>, op: Arith, left: AST, right: AST, depth: nat)
    ensures
        extends(spec_arith(cells, op, left, right, depth).0, cells),
    decreases depth, 2nat, 0nat,
{
    match (left, right) {
        (AST::List { curry: true, values: a }, AST::Int { .. }) => {
            if let Some(ls) = cells_of(cells, a) {
                lemma_arith_list(cells, op, ls, repeated(right, ls.len()), depth);
            }
        },
        (AST::Int { .. }, AST::List { curry: true, values: b }) => {
            if let Some(rs) = cells_of(cells, b) {
                lemma_arith_list(cells, op, repeated(left, rs.len()), rs, depth);
            }
        },
        (AST::List { curry: true, values: a }, AST::List { curry: true, values: b }) => {
            if a.len == b.len {
                if let (Some(ls), Some(rs)) = (cells_of(cells, a), cells_of(cells, b)) {
                    lemma_arith_list(cells, op, ls, rs, depth);
                }
            }
        },
        _ => {},
    }
}

/// Arithmetic on two runs leaves every cell at its place.
pub proof fn lemma_arith_list(cells: Seq<AST>, op: Arith, ls: Seq<AST>, rs: Seq<AST>, depth: nat)
    ensures
        extends(spec_arith_list(cells, op, ls, rs, depth).0, cells),
    decreases depth, 1nat, 0nat,
{
    lemma_arith_each(cells, op, ls, rs, 0, Seq::empty(), depth);
}

/// Arithmetic pair by pair leaves every cell at its place.
pub proof fn lemma_arith_each(
    cells: Seq<AST>,
    op: Arith,
    ls: Seq<AST>,
    rs: Seq<AST>,
    i: nat,
    acc: Seq<AST>,
    depth: nat,
)
    ensures
        extends(spec_arith_each(cells, op, ls, rs, i, acc, depth).0, cells),
    decreases depth, 0nat, ls.len() - i,
{
    if !(i >= ls.len() || i >= rs.len()) {
        let x = ls[i as int];
        let y = rs[i as int];
        if is_curried(x) || is_curried(y) {
            if depth != 0 {
                lemma_arith(cells, op, x, y, (depth - 1) as nat);
                let (cells1, r) = spec_arith(cells, op, x, y, (depth - 1) as nat);
                if let Ok(v) = r {
                    lemma_arith_each(cells1, op, ls, rs, i + 1, acc.push(v), depth);
                }
            }
        } else {
            if let Ok(v) = spec_arith_atoms(op, x, y) {
                lemma_arith_each(cells, op, ls, rs, i + 1, acc.push(v), depth);
            }
        }
    }
}

/// The built-in function `parse` only adds to the state.
pub proof fn lemma_parse_ast(st: IState, a: AST)
    ensures
        grows(spec_parse_ast(st, a).0, st),
{
    if let AST::String { value } = a {
        lemma_parse_list(state(spec_prepare(value@), st.arena), None);
    }
}

/// Evaluation only adds to the state.
pub proof fn lemma_exec(st: IState, node: AST, scope: ScopeId, depth: nat)
    ensures
        grows(spec_exec(st, node, scope, depth).0, st),
    decreases depth, 0nat, 0nat,
{
    match node {
        AST::Verb { kind, args } => {
            if args.len != 0 && depth != 0 {
                lemma_verb_apply(st, kind, args, scope, (depth - 1) as nat);
            }
        },
        AST::Condition { list } => {
            if depth != 0 {
                lemma_cond(st, list, scope, (depth - 1) as nat);
            }
        },
        AST::Nameref { name, value } => {
            if depth != 0 {
                if let Some(a) = cell_at(st.arena.cells, value) {
                    lemma_exec(st, a, scope, (depth - 1) as nat);
                    let (st1, r) = spec_exec(st, a, scope, (depth - 1) as nat);
                    if let Ok(u) = r {
                        lemma_bind(st1, scope, name, u);
                    }
                }
            }
        },
        AST::List { curry, values } => {
            if depth != 0 {
                lemma_exec_cells(st, values, 0, scope, (depth - 1) as nat);
            }
        },
        AST::Sequence { values } => {
            if depth != 0 {
                lemma_exec_cells(st, values, 0, scope, (depth - 1) as nat);
            }
        },
        _ => {},
    }
}

/// Evaluation of cells in place only adds to the state.
pub proof fn lemma_exec_cells(st: IState, v: Vector, i: nat, scope: ScopeId, depth: nat)
    ensures
        grows(spec_exec_cells(st, v, i, scope, depth).0, st),
    decreases depth, 1nat, v.len - i,
{
    if i < v.len && v.within(st.arena.cells.len()) {
        lemma_exec(st, st.arena.cells[v.first + i], scope, depth);
        let (st1, r) = spec_exec(st, st.arena.cells[v.first + i], scope, depth);
        if let Ok(x) = r {
            if v.first + i < st1.arena.cells.len() {
                let st2 = st1.with_cells(st1.arena.cells.update(v.first + i, x));
                lemma_exec_cells(st2, v, i + 1, scope, depth);
            }
        }
    }
}

/// The application of a verb only adds to the state.
pub proof fn lemma_verb_apply(st: IState, kind: u8, args: Vector, scope: ScopeId, depth: nat)
    ensures
        grows(spec_verb_apply(st, kind, args, scope, depth).0, st),
    decreases depth, 3nat, 0nat,
{
    if let Some(items) = cells_of(st.arena.cells, args) {
        if items.len() > 0 {
            lemma_exec(st, items[0], scope, depth);
            let (st1, rx) = spec_exec(st, items[0], scope, depth);
            if let Ok(x) = rx {
                if items.len() >= 2 {
                    lemma_exec(st1, items[1], scope, depth);
                    let (st2, ry) = spec_exec(st1, items[1], scope, depth);
                    if let Ok(y) = ry {
                        if let Some(op) = arith_of(kind) {
                            lemma_arith(st2.arena.cells, op, x, y, depth);
                        }
                    }
                }
                if let Some(a) = spec_call_args(st1.arena.cells, items) {
                    lemma_call(st1, x, a, scope, depth);
                }
            }
        }
    }
}

/// A condition only adds to the state.
pub proof fn lemma_cond(st: IState, list: Vector, scope: ScopeId, depth: nat)
    ensures
        grows(spec_cond(st, list, scope, depth).0, st),
    decreases depth, 3nat, 0nat,
{
    if let Some(items) = cells_of(st.arena.cells, list) {
        if items.len() == 3 {
            lemma_exec(st, items[0], scope, depth);
            let (st1, r) = spec_exec(st, items[0], scope, depth);
            lemma_exec(st1, items[1], scope, depth);
            lemma_exec(st1, items[2], scope, depth);
        }
    }
}

/// Binding the arguments of a call only adds to the state.
pub proof fn lemma_bind_args(
    st: IState,
    params: Seq<u16>,
    args: Seq<AST>,
    i: nat,
    e: ScopeId,
    depth: nat,
)
    ensures
        grows(spec_bind_args(st, params, args, i, e, depth).0, st),
    decreases depth, 1nat, params.len() - i,
{
    if !(i >= params.len() || i >= args.len()) {
        lemma_exec(st, args[i as int], e, depth);
        let (st1, r) = spec_exec(st, args[i as int], e, depth);
        if let Ok(x) = r {
            lemma_bind(st1, e, params[i as int], x);
            lemma_bind_args(spec_bind(st1, e, params[i as int], x), params, args, i + 1, e, depth);
        }
    }
}

/// A call only adds to the state.
pub proof fn lemma_call(st: IState, callable: AST, args: Seq<AST>, scope: ScopeId, depth: nat)
    ensures
        grows(spec_call(st, callable, args, scope, depth).0, st),
    decreases depth, 2nat, 0nat,
{
    match callable {
        AST::Lambda { args: params, body } => {
            let e = st.env.len() as ScopeId;
            let st1 = st.with_env(spec_new_child(st.env, scope));
            assert(grows(st1, st));
            lemma_bind_args(st1, params@, args, 0, e, depth);
            let (st2, r) = spec_bind_args(st1, params@, args, 0, e, depth);
            if let Some(b) = cell_at(st2.arena.cells, body) {
                lemma_exec(st2, b, e, depth);
            }
        },
        AST::Native { name } => {
            if let Some(t) = st.arena.native_code(name) {
                lemma_native(st, callable, t, args, scope, depth);
            }
        },
        _ => {},
    }
}

/// A built-in function only adds to the state.
pub proof fn lemma_native(
    st: IState,
    callable: AST,
    t: u8,
    args: Seq<AST>,
    scope: ScopeId,
    depth: nat,
)
    ensures
        grows(spec_native(st, callable, t, args, scope, depth).0, st),
    decreases depth, 1nat, 0nat,
{
    if args.len() > 0 {
        lemma_exec(st, args[0], scope, depth);
        let (st1, r) = spec_exec(st, args[0], scope, depth);
        if let Ok(x) = r {
            lemma_exec(st1, x, scope, depth);
        }
        lemma_parse_ast(st, args[0]);
    }
}

/// The state in which the cell at place `i` of `v` has its turn: the one
/// that the cells before it left.
pub open spec fn before_cell(st: IState, v: Vector, i: nat, scope: ScopeId, depth: nat) -> IState {
    spec_exec_cells(st, prefix(v, i), 0, scope, depth).0
}

/// The state that the cell at place `i` of `v` leaves: its evaluation in
/// the state before it, with the value written to the cell.
pub open spec fn after_cell(st: IState, v: Vector, i: nat, scope: ScopeId, depth: nat) -> IState {
    let before = before_cell(st, v, i, scope, depth);
    let (after, r) = spec_exec(before, before.arena.cells[v.first + i], scope, depth);
    after.with_cells(after.arena.cells.update(v.first + i, r.unwrap()))
}

/// Whether each of the first `k` cells of `v` evaluates without error, in
/// order, each in the state that the cells before it left.
pub open spec fn cells_succeed(st: IState, v: Vector, k: nat, scope: ScopeId, depth: nat) -> bool {
    forall|i: nat|
        i < k ==> spec_exec(
            #[trigger] before_cell(st, v, i, scope, depth),
            before_cell(st, v, i, scope, depth).arena.cells[v.first + i],
            scope,
            depth,
        ).1.is_ok()
}

/// Where the first `k` cells of a vector that lies in the store were
/// evaluated from place `i` on, and the next cell evaluates without error,
/// the first `k + 1` cells evaluate to what that cell leaves.
pub proof fn lemma_cells_step(st: IState, v: Vector, k: nat, i: nat, scope: ScopeId, depth: nat)
    requires
        i <= k < v.len,
        v.within(st.arena.cells.len()),
        spec_exec_cells(st, prefix(v, k), i, scope, depth).1.is_ok(),
        ({
            let mid = spec_exec_cells(st, prefix(v, k), i, scope, depth).0;
            spec_exec(mid, mid.arena.cells[v.first + k], scope, depth).1.is_ok()
        }),
    ensures
        ({
            let mid = spec_exec_cells(st, prefix(v, k), i, scope, depth).0;
            let (after, r) = spec_exec(mid, mid.arena.cells[v.first + k], scope, depth);
            &&& v.within(mid.arena.cells.len())
            &&& v.within(after.arena.cells.len())
            &&& spec_exec_cells(st, prefix(v, k + 1), i, scope, depth) == (
                after.with_cells(after.arena.cells.update(v.first + k, r.unwrap())),
                Ok::<(), Error>(()),
            )
        }),
    decreases k - i,
{
    let c = st.arena.cells[v.first + i];
    lemma_exec(st, c, scope, depth);
    let (st1, r) = spec_exec(st, c, scope, depth);
    if i < k {
        let st2 = st1.with_cells(st1.arena.cells.update(v.first + i, r.unwrap()));
        lemma_cells_step(st2, v, k, i + 1, scope, depth);
    } else {
        let st2 = st1.with_cells(st1.arena.cells.update(v.first + k, r.unwrap()));
        assert(spec_exec_cells(st2, prefix(v, k + 1), k + 1, scope, depth) == (
            st2,
            Ok::<(), Error>(()),
        ));
    }
}

/// Where each of the first `k` cells of a vector that lies in the store
/// evaluates without error, each in the state that the cells before it
/// left, the evaluation of these cells in place ends without error, and the
/// vector still lies in the store.
pub proof fn lemma_cells_run(st: IState, v: Vector, k: nat, scope: ScopeId, depth: nat)
    requires
        k <= v.len,
        v.within(st.arena.cells.len()),
        cells_succeed(st, v, k, scope, depth),
    ensures
        spec_exec_cells(st, prefix(v, k), 0, scope, depth).1.is_ok(),
        v.within(before_cell(st, v, k, scope, depth).arena.cells.len()),
        k > 0 ==> before_cell(st, v, k, scope, depth) == after_cell(
            st,
            v,
            (k - 1) as nat,
            scope,
            depth,
        ),
    decreases k,
{
    if k > 0 {
        let j = (k - 1) as nat;
        assert(cells_succeed(st, v, j, scope, depth)) by {
            assert forall|i: nat| i < j implies spec_exec(
                #[trigger] before_cell(st, v, i, scope, depth),
                before_cell(st, v, i, scope, depth).arena.cells[v.first + i],
                scope,
                depth,
            ).1.is_ok() by {}
        }
        lemma_cells_run(st, v, j, scope, depth);
        let mid = before_cell(st, v, j, scope, depth);
        assert(spec_exec(mid, mid.arena.cells[v.first + j], scope, depth).1.is_ok());
        lemma_cells_step(st, v, j, 0, scope, depth);
    }
}

/// A sequence evaluates to the value of its last expression. Where the
/// cells of the sequence lie in the store and each of them evaluates
/// without error, in order, each in the state that the cells before it
/// left, the sequence gives the value of the last cell and leaves the state
/// that the last cell leaves.
pub proof fn lemma_sequence_value(st: IState, v: Vector, scope: ScopeId, depth: nat)
    requires
        v.len > 0,
        v.within(st.arena.cells.len()),
        cells_succeed(st, v, v.len as nat, scope, depth),
    ensures
        ({
            let k = (v.len - 1) as nat;
            let before = before_cell(st, v, k, scope, depth);
            let value = spec_exec(before, before.arena.cells[v.first + k], scope, depth).1;
            &&& value.is_ok()
            &&& spec_exec(st, AST::Sequence { values: v }, scope, depth + 1) == (
                after_cell(st, v, k, scope, depth),
                value,
            )
        }),
{
    let k = (v.len - 1) as nat;
    assert(cells_succeed(st, v, k, scope, depth)) by {
        assert forall|i: nat| i < k implies spec_exec(
            #[trigger] before_cell(st, v, i, scope, depth),
            before_cell(st, v, i, scope, depth).arena.cells[v.first + i],
            scope,
            depth,
        ).1.is_ok() by {}
    }
    lemma_cells_run(st, v, k, scope, depth);
    let before = before_cell(st, v, k, scope, depth);
    let (after, r) = spec_exec(before, before.arena.cells[v.first + k], scope, depth);
    assert(r.is_ok());
    lemma_cells_step(st, v, k, 0, scope, depth);
    assert(prefix(v, k + 1) == v);
    let last = after_cell(st, v, k, scope, depth);
    assert(spec_exec_cells(st, v, 0, scope, depth) == (last, Ok::<(), Error>(())));
    assert(last.arena.cells[v.first + k] == r.unwrap());
}

/// A binding that is evaluated defines its name: in the state that the
/// evaluation leaves, the name has a value when seen from the scope.
pub proof fn lemma_binding_defines(
    st: IState,
    name: u16,
    value: Id,
    scope: ScopeId,
    depth: nat,
)
    requires
        scope < st.env.len(),
        spec_exec(st, AST::Nameref { name: name, value: value }, scope, depth).1.is_ok(),
    ensures
        spec_get(
            spec_exec(st, AST::Nameref { name: name, value: value }, scope, depth).0.env,
            name,
            scope as nat,
        ).is_some(),
{
    let a = cell_at(st.arena.cells, value).unwrap();
    lemma_exec(st, a, scope, (depth - 1) as nat);
    let (st1, r) = spec_exec(st, a, scope, (depth - 1) as nat);
    lemma_define_then_get(st1.env, scope, name, st1.arena.cells.len() as Id);
}

/// A sequence performs the definitions of all its expressions: where the
/// cells of the sequence lie in the store and each of them evaluates
/// without error when its turn comes, and the cell at place `i` is a binding
/// then, the name of the binding has a value after the sequence, seen from
/// the scope of the evaluation.
pub proof fn lemma_sequence_defines(st: IState, v: Vector, i: nat, scope: ScopeId, depth: nat)
    requires
        i < v.len,
        scope < st.env.len(),
        v.within(st.arena.cells.len()),
        cells_succeed(st, v, v.len as nat, scope, depth),
        before_cell(st, v, i, scope, depth).arena.cells[v.first + i] is Nameref,
    ensures
        spec_get(
            spec_exec(st, AST::Sequence { values: v }, scope, depth + 1).0.env,
            before_cell(st, v, i, scope, depth).arena.cells[v.first + i]->Nameref_name,
            scope as nat,
        ).is_some(),
{
    lemma_sequence_value(st, v, scope, depth);
    assert(spec_exec(st, AST::Sequence { values: v }, scope, depth + 1).1.is_ok());
    assert(spec_exec_cells(st, v, 0, scope, depth).1.is_ok());
    lemma_cells_by_prefix(st, v, i, 0, scope, depth);
    let (before, r0) = spec_exec_cells(st, prefix(v, i), 0, scope, depth);
    lemma_exec_cells(st, prefix(v, i), 0, scope, depth);
    let cell = before.arena.cells[v.first + i];
    let name = cell->Nameref_name;
    let value = cell->Nameref_value;
    let (st1, r) = spec_exec(before, cell, scope, depth);
    assert(spec_exec_cells(before, v, i, scope, depth) == spec_exec_cells(st, v, 0, scope, depth));
    assert(r.is_ok());
    lemma_binding_defines(before, name, value, scope, depth);
    let st2 = st1.with_cells(st1.arena.cells.update(v.first + i, r.unwrap()));
    lemma_exec_cells(st2, v, i + 1, scope, depth);
    let last = spec_exec_cells(st2, v, i + 1, scope, depth).0;
    lemma_stays_defined(last.env, st2.env, name, scope as nat);
}

} // verus!
