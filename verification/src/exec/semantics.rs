//! The meaning of the language as mathematics: what evaluation makes of a
//! node, stated as functions from the state before to the state after and
//! the result.

use vstd::prelude::*;
use vstd::wrapping::i64_specs;
use crate::exec::env::{ScopeId, ScopeView, spec_define, spec_get, spec_new_child};
use crate::exec::error::Error;
use crate::parse::arena::cell_at;
use crate::parse::ascii::{AT, COMMA, EQUALS, MINUS, PLUS, POINT, STAR};
use crate::parse::ast::{AST, spec_atom, spec_list};
use crate::parse::parser::spec_parse;
use crate::parse::store::ArenaView;
use crate::parse::vector::{Vector, cells_of};

verus! {

/// The state of an interpreter: the text that its parser has left, the
/// store, and the scope tree.
pub struct IState {
    pub text: Seq<u8>,
    pub arena: ArenaView,
    pub env: Seq<ScopeView>,
}

impl IState {
    pub open spec fn with_cells(self, cells: Seq<AST>) -> IState {
        IState { arena: self.arena.with_cells(cells), ..self }
    }

    pub open spec fn with_env(self, env: Seq<ScopeView>) -> IState {
        IState { env: env, ..self }
    }
}

/// What evaluation hands back: the state after and the value or the error.
pub type Outcome = (IState, Result<AST, Error>);

pub open spec fn good(st: IState, a: AST) -> Outcome {
    (st, Ok(a))
}

pub open spec fn bad(st: IState, e: Error) -> Outcome {
    (st, Err(e))
}

/// The code of the built-in function `type`.
pub const NATIVE_TYPE: u8 = 0;

/// The code of the built-in function `parse`.
pub const NATIVE_PARSE: u8 = 1;

/// The code of the built-in function `exec`.
pub const NATIVE_EXEC: u8 = 2;

/// The code of the built-in function `debug`.
pub const NATIVE_DEBUG: u8 = 3;

/// The name `type`.
pub open spec fn word_type() -> Seq<u8> {
    seq![0x74u8, 0x79, 0x70, 0x65]
}

/// The name `parse`.
pub open spec fn word_parse() -> Seq<u8> {
    seq![0x70u8, 0x61, 0x72, 0x73, 0x65]
}

/// The name `exec`.
pub open spec fn word_exec() -> Seq<u8> {
    seq![0x65u8, 0x78, 0x65, 0x63]
}

/// The name `debug`.
pub open spec fn word_debug() -> Seq<u8> {
    seq![0x64u8, 0x65, 0x62, 0x75, 0x67]
}

/// The state of a new interpreter: no cells, the names of the four built-in
/// functions interned and registered, and a scope tree that has its root.
pub open spec fn initial() -> IState {
    let empty = ArenaView {
        names: Seq::empty(),
        symbols: Seq::empty(),
        floats: Seq::empty(),
        cells: Seq::empty(),
        natives: Map::empty(),
    };
    IState {
        text: Seq::empty(),
        arena: empty.add_native(word_type(), NATIVE_TYPE).add_native(
            word_parse(),
            NATIVE_PARSE,
        ).add_native(word_exec(), NATIVE_EXEC).add_native(
            word_debug(),
            NATIVE_DEBUG,
        ),
        env: seq![ScopeView { parent: None, entries: Seq::empty() }],
    }
}

/// The arithmetic verbs.
#[derive(Debug, Clone, Copy, PartialEq, Eq)]
pub enum Arith {
    Add,
    Sub,
    Prod,
}

/// The arithmetic verb that the verb kind `kind` names: `+`, `-` or `*`.
pub open spec fn arith_of(kind: u8) -> Option<Arith> {
    if kind == PLUS {
        Some(Arith::Add)
    } else if kind == MINUS {
        Some(Arith::Sub)
    } else if kind == STAR {
        Some(Arith::Prod)
    } else {
        None
    }
}

/// The verb `op` on two integers, in two's-complement arithmetic that wraps.
pub open spec fn scalar(op: Arith, a: i64, b: i64) -> i64 {
    match op {
        Arith::Add => i64_specs::wrapping_add(a, b),
        Arith::Sub => i64_specs::wrapping_sub(a, b),
        Arith::Prod => i64_specs::wrapping_mul(a, b),
    }
}

/// `n` times the node `a`.
pub open spec fn repeated(a: AST, n: nat) -> Seq<AST> {
    Seq::new(n, |i: int| a)
}

/// The arithmetic verb `op` on two values: integer with integer; a curried
/// list with an integer or an integer with a curried list, cell by cell; two
/// curried lists of one length, cell by cell. A list result takes new cells.
/// Lists may hold lists, `depth` deep at most; lists of integers need no
/// depth.
pub open spec fn spec_arith(cells: Seq<AST>, op: Arith, left: AST, right: AST, depth: nat) -> (
    Seq<AST>,
    Result<AST, Error>,
)
    decreases depth, 2nat, 0nat,
{
    match (left, right) {
        (AST::Int { value: a }, AST::Int { value: b }) => (
            cells,
            Ok(AST::Int { value: scalar(op, a, b) }),
        ),
        (AST::List { curry: true, values: a }, AST::Int { .. }) => match cells_of(cells, a) {
            Some(ls) => spec_arith_list(cells, op, ls, repeated(right, ls.len()), depth),
            None => (cells, Err(Error::RuntimeError)),
        },
        (AST::Int { .. }, AST::List { curry: true, values: b }) => match cells_of(
            cells,
            b,
        ) {
            Some(rs) => spec_arith_list(cells, op, repeated(left, rs.len()), rs, depth),
            None => (cells, Err(Error::RuntimeError)),
        },
        (AST::List { curry: true, values: a }, AST::List { curry: true, values: b }) => if a.len
            != b.len {
            (cells, Err(Error::Length))
        } else {
            match (cells_of(cells, a), cells_of(cells, b)) {
                (Some(ls), Some(rs)) => spec_arith_list(cells, op, ls, rs, depth),
                _ => (cells, Err(Error::RuntimeError)),
            }
        },
        _ => (cells, Err(Error::Type)),
    }
}

/// The curried list of the results of `op` on the pairs of `ls` and `rs`.
pub open spec fn spec_arith_list(
    cells: Seq<AST>,
    op: Arith,
    ls: Seq<AST>,
    rs: Seq<AST>,
    depth: nat,
) -> (Seq<AST>, Result<AST, Error>)
    decreases depth, 1nat, 0nat,
{
    let (cells1, r) = spec_arith_each(cells, op, ls, rs, 0, Seq::empty(), depth);
    match r {
        Ok(items) => {
            let (cells2, a) = spec_list(true, cells1, items);
            (cells2, Ok(a))
        },
        Err(e) => (cells1, Err(e)),
    }
}

/// Whether the node is a curried list.
pub open spec fn is_curried(a: AST) -> bool {
    match a {
        AST::List { curry: true, .. } => true,
        _ => false,
    }
}

/// The verb `op` on two values of which none is a curried list: two
/// integers give an integer, and nothing else can be combined.
pub open spec fn spec_arith_atoms(op: Arith, left: AST, right: AST) -> Result<AST, Error> {
    match (left, right) {
        (AST::Int { value: a }, AST::Int { value: b }) => Ok(AST::Int { value: scalar(op, a, b) }),
        _ => Err(Error::Type),
    }
}

/// The results of `op` on the pairs of `ls` and `rs` from position `i` on,
/// appended to `acc`. A pair with a curried list in it is combined one
/// level deeper.
pub open spec fn spec_arith_each(
    cells: Seq<AST>,
    op: Arith,
    ls: Seq<AST>,
    rs: Seq<AST>,
    i: nat,
    acc: Seq<AST>,
    depth: nat,
) -> (Seq<AST>, Result<Seq<AST>, Error>)
    decreases depth, 0nat, ls.len() - i,
{
    if i >= ls.len() || i >= rs.len() {
        (cells, Ok(acc))
    } else {
        let x = ls[i as int];
        let y = rs[i as int];
        let (cells1, r) = if is_curried(x) || is_curried(y) {
            if depth == 0 {
                (cells, Err(Error::Stack))
            } else {
                spec_arith(cells, op, x, y, (depth - 1) as nat)
            }
        } else {
            (cells, spec_arith_atoms(op, x, y))
        };
        match r {
            Ok(x) => spec_arith_each(cells1, op, ls, rs, i + 1, acc.push(x), depth),
            Err(e) => (cells1, Err(e)),
        }
    }
}

/// The verb `=` on two values: whether two integers are equal.
pub open spec fn spec_eq(left: AST, right: AST) -> Result<AST, Error> {
    match (left, right) {
        (AST::Int { value: a }, AST::Int { value: b }) => Ok(AST::Bool { value: a == b }),
        _ => Err(Error::Type),
    }
}

/// The state after `value` was stored in a new cell and `name` was bound to
/// that cell in `scope`.
pub open spec fn spec_bind(st: IState, scope: ScopeId, name: u16, value: AST) -> IState {
    let (cells, id) = spec_atom(st.arena.cells, value);
    IState {
        arena: st.arena.with_cells(cells),
        env: spec_define(st.env, scope, name, id),
        ..st
    }
}

/// What the name `key` stands for when seen from `scope`.
pub open spec fn spec_lookup(st: IState, key: u16, scope: ScopeId) -> Result<AST, Error> {
    match spec_get(st.env, key, scope as nat) {
        Some((n, _)) => match cell_at(st.arena.cells, n) {
            Some(c) => Ok(c),
            None => Err(Error::RuntimeError),
        },
        None => Err(Error::Undefined),
    }
}

/// The nodes after the first.
pub open spec fn after_first(items: Seq<AST>) -> Seq<AST> {
    if items.len() > 0 {
        items.skip(1)
    } else {
        Seq::empty()
    }
}

/// The positional arguments of an application whose argument cells are
/// `items`, the callable first: the cells of a curried list or of a sequence
/// in the second place, else all cells after the first.
pub open spec fn spec_call_args(cells: Seq<AST>, items: Seq<AST>) -> Option<Seq<AST>> {
    if items.len() >= 2 {
        match items[1] {
            AST::List { curry: true, values } => cells_of(cells, values),
            AST::Sequence { values } => cells_of(cells, values),
            _ => Some(after_first(items)),
        }
    } else {
        Some(after_first(items))
    }
}

/// The value of `node` in `scope`, with the evaluation nested at most
/// `depth` deep:
/// - a verb without arguments, a lambda, a dictionary and every literal stand
///   for themselves;
/// - a name stands for what it is bound to;
/// - a binding evaluates its right side, stores the value, binds the name in
///   `scope` and gives the value;
/// - a list evaluates its cells in place, in order, and stands for itself; a
///   sequence does the same and gives the value of its last cell;
/// - a verb with arguments and a condition go by their own rules;
/// - an adverb form is not evaluated.
pub open spec fn spec_exec(st: IState, node: AST, scope: ScopeId, depth: nat) -> Outcome
    decreases depth, 0nat, 0nat,
{
    match node {
        AST::Verb { kind, args } => if args.len == 0 {
            good(st, node)
        } else if depth == 0 {
            bad(st, Error::Stack)
        } else {
            spec_verb_apply(st, kind, args, scope, (depth - 1) as nat)
        },
        AST::Condition { list } => if depth == 0 {
            bad(st, Error::Stack)
        } else {
            spec_cond(st, list, scope, (depth - 1) as nat)
        },
        AST::Nameref { name, value } => if depth == 0 {
            bad(st, Error::Stack)
        } else {
            match cell_at(st.arena.cells, value) {
                None => bad(st, Error::RuntimeError),
                Some(a) => {
                    let (st1, r) = spec_exec(st, a, scope, (depth - 1) as nat);
                    match r {
                        Ok(u) => good(spec_bind(st1, scope, name, u), u),
                        Err(e) => bad(st1, e),
                    }
                },
            }
        },
        AST::Name { value } => (st, spec_lookup(st, value, scope)),
        AST::List { curry, values } => if depth == 0 {
            bad(st, Error::Stack)
        } else {
            let (st1, r) = spec_exec_cells(st, values, 0, scope, (depth - 1) as nat);
            match r {
                Ok(_) => good(st1, node),
                Err(e) => bad(st1, e),
            }
        },
        AST::Sequence { values } => if depth == 0 {
            bad(st, Error::Stack)
        } else {
            let (st1, r) = spec_exec_cells(st, values, 0, scope, (depth - 1) as nat);
            match r {
                Ok(_) => if values.len == 0 {
                    good(st1, AST::Nil)
                } else if values.within(st1.arena.cells.len()) {
                    good(st1, st1.arena.cells[values.first + values.len - 1])
                } else {
                    bad(st1, Error::RuntimeError)
                },
                Err(e) => bad(st1, e),
            }
        },
        AST::Adverb { .. } => bad(st, Error::NotImplemented),
        _ => good(st, node),
    }
}

/// The cells of `v` from position `i` on, evaluated in order, each value
/// written back to its cell.
pub open spec fn spec_exec_cells(st: IState, v: Vector, i: nat, scope: ScopeId, depth: nat) -> (
    IState,
    Result<(), Error>,
)
    decreases depth, 1nat, v.len - i,
{
    if i >= v.len {
        (st, Ok(()))
    } else if !v.within(st.arena.cells.len()) {
        (st, Err(Error::RuntimeError))
    } else {
        let (st1, r) = spec_exec(st, st.arena.cells[v.first + i], scope, depth);
        match r {
            Ok(x) => if v.first + i < st1.arena.cells.len() {
                spec_exec_cells(
                    st1.with_cells(st1.arena.cells.update(v.first + i, x)),
                    v,
                    i + 1,
                    scope,
                    depth,
                )
            } else {
                (st1, Err(Error::RuntimeError))
            },
            Err(e) => (st1, Err(e)),
        }
    }
}

/// A verb of kind `kind` applied to the argument cells `args`:
/// - `+`, `-`, `*` and `=` evaluate the first two arguments and combine them;
/// - `,` makes a list of its one or two evaluated arguments;
/// - `.` and `@` evaluate the first argument and call it with the others;
/// - every other verb is undefined.
pub open spec fn spec_verb_apply(
    st: IState,
    kind: u8,
    args: Vector,
    scope: ScopeId,
    depth: nat,
) -> Outcome
    decreases depth, 3nat, 0nat,
{
    match cells_of(st.arena.cells, args) {
        None => bad(st, Error::RuntimeError),
        Some(items) => if items.len() == 0 {
            bad(st, Error::Rank)
        } else if arith_of(kind).is_some() || kind == EQUALS {
            if items.len() < 2 {
                bad(st, Error::Rank)
            } else {
                let (st1, rx) = spec_exec(st, items[0], scope, depth);
                match rx {
                    Err(e) => bad(st1, e),
                    Ok(x) => {
                        let (st2, ry) = spec_exec(st1, items[1], scope, depth);
                        match ry {
                            Err(e) => bad(st2, e),
                            Ok(y) => match arith_of(kind) {
                                Some(op) => {
                                    let (cells, r) = spec_arith(st2.arena.cells, op, x, y, depth);
                                    (st2.with_cells(cells), r)
                                },
                                None => (st2, spec_eq(x, y)),
                            },
                        }
                    },
                }
            }
        } else if kind == COMMA {
            if items.len() > 2 {
                bad(st, Error::Rank)
            } else {
                let (st1, rx) = spec_exec(st, items[0], scope, depth);
                match rx {
                    Err(e) => bad(st1, e),
                    Ok(x) => if items.len() == 1 {
                        let (cells, a) = spec_list(false, st1.arena.cells, seq![x]);
                        good(st1.with_cells(cells), a)
                    } else {
                        let (st2, ry) = spec_exec(st1, items[1], scope, depth);
                        match ry {
                            Err(e) => bad(st2, e),
                            Ok(y) => {
                                let (cells, a) = spec_list(false, st2.arena.cells, seq![x, y]);
                                good(st2.with_cells(cells), a)
                            },
                        }
                    },
                }
            }
        } else if kind == POINT || kind == AT {
            let (st1, rx) = spec_exec(st, items[0], scope, depth);
            match rx {
                Err(e) => bad(st1, e),
                Ok(x) => match spec_call_args(st1.arena.cells, items) {
                    Some(a) => spec_call(st1, x, a, scope, depth),
                    None => bad(st1, Error::RuntimeError),
                },
            }
        } else {
            bad(st, Error::Undefined)
        },
    }
}

/// A condition over the cells `list`, which have to be three: the value of
/// the second where the first evaluates to true, of the third where it
/// evaluates to false.
pub open spec fn spec_cond(st: IState, list: Vector, scope: ScopeId, depth: nat) -> Outcome
    decreases depth, 3nat, 0nat,
{
    match cells_of(st.arena.cells, list) {
        None => bad(st, Error::RuntimeError),
        Some(items) => if items.len() != 3 {
            bad(st, Error::Condition)
        } else {
            let (st1, r) = spec_exec(st, items[0], scope, depth);
            match r {
                Ok(AST::Bool { value: b }) => if b {
                    spec_exec(st1, items[1], scope, depth)
                } else {
                    spec_exec(st1, items[2], scope, depth)
                },
                Ok(_) => bad(st1, Error::Condition),
                Err(e) => bad(st1, e),
            }
        },
    }
}

/// The arguments `args` from position `i` on, evaluated in the scope `e` and
/// bound there to the parameters `params`, pair by pair as far as both go.
pub open spec fn spec_bind_args(
    st: IState,
    params: Seq<u16>,
    args: Seq<AST>,
    i: nat,
    e: ScopeId,
    depth: nat,
) -> (IState, Result<(), Error>)
    decreases depth, 1nat, params.len() - i,
{
    if i >= params.len() || i >= args.len() {
        (st, Ok(()))
    } else {
        let (st1, r) = spec_exec(st, args[i as int], e, depth);
        match r {
            Ok(x) => spec_bind_args(
                spec_bind(st1, e, params[i as int], x),
                params,
                args,
                i + 1,
                e,
                depth,
            ),
            Err(e) => (st1, Err(e)),
        }
    }
}

/// The call of `callable` with the arguments `args` from `scope`:
/// - a lambda gets a new scope under `scope`, in which its arguments are
///   evaluated and bound to its parameters and its body is evaluated;
/// - a built-in function goes by its own rule;
/// - nothing else can be called.
pub open spec fn spec_call(
    st: IState,
    callable: AST,
    args: Seq<AST>,
    scope: ScopeId,
    depth: nat,
) -> Outcome
    decreases depth, 2nat, 0nat,
{
    match callable {
        AST::Lambda { args: params, body } => {
            let e = st.env.len() as ScopeId;
            let st1 = st.with_env(spec_new_child(st.env, scope));
            let (st2, r) = spec_bind_args(st1, params@, args, 0, e, depth);
            match r {
                Err(err) => bad(st2, err),
                Ok(_) => match cell_at(st2.arena.cells, body) {
                    None => bad(st2, Error::RuntimeError),
                    Some(b) => spec_exec(st2, b, e, depth),
                },
            }
        },
        AST::Native { name } => match st.arena.native_code(name) {
            None => bad(st, Error::InvalidNativeCall),
            Some(t) => spec_native(st, callable, t, args, scope, depth),
        },
        _ => bad(st, Error::Call),
    }
}

/// The type tag of a value as an integer node: -7 for an integer, -8 for a
/// decimal literal, -9 for a symbol, and 127 for every other value.
pub open spec fn spec_type_of(a: AST) -> Result<AST, Error> {
    Ok(AST::Int { value: a.spec_type_id() as i64 })
}

/// The built-in function `parse` on the node `a`, which has to be a string:
/// the tree that its text parses to.
pub open spec fn spec_parse_ast(st: IState, a: AST) -> Outcome {
    match a {
        AST::String { value } => {
            let (p, r) = spec_parse(value@, st.arena);
            (
                IState { text: p.text, arena: p.arena, env: st.env },
                match r {
                    Ok(x) => Ok(x),
                    Err(_) => Err(Error::InvalidNativeCall),
                },
            )
        },
        _ => bad(st, Error::InvalidNativeCall),
    }
}

/// The built-in function with the code `t`, called as `callable` with the
/// arguments `args`. Without arguments the result is `callable` itself.
/// - `type` gives the type tag of its evaluated argument;
/// - `parse` gives the tree of the string that is its argument;
/// - `exec` evaluates its argument and then the value of it;
/// - `debug` gives a node that prints the structure of its argument.
pub open spec fn spec_native(
    st: IState,
    callable: AST,
    t: u8,
    args: Seq<AST>,
    scope: ScopeId,
    depth: nat,
) -> Outcome
    decreases depth, 1nat, 0nat,
{
    if t > NATIVE_DEBUG {
        bad(st, Error::InvalidNativeCall)
    } else if args.len() == 0 {
        good(st, callable)
    } else if t == NATIVE_TYPE {
        let (st1, r) = spec_exec(st, args[0], scope, depth);
        match r {
            Ok(x) => (st1, spec_type_of(x)),
            Err(e) => bad(st1, e),
        }
    } else if t == NATIVE_PARSE {
        spec_parse_ast(st, args[0])
    } else if t == NATIVE_EXEC {
        let (st1, r) = spec_exec(st, args[0], scope, depth);
        match r {
            Ok(x) => spec_exec(st1, x, scope, depth),
            Err(e) => bad(st1, e),
        }
    } else {
        let (cells, id) = spec_atom(st.arena.cells, args[0]);
        good(st.with_cells(cells), AST::Debug { value: id })
    }
}

} // verus!
