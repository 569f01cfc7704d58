//! The interpreter: a tree-walking evaluator over the store and the scope
//! tree, proved to compute what the semantics say.

use vstd::prelude::*;
use crate::exec::env::{Environment, ScopeId};
use crate::exec::error::Error as ExecError;
use crate::exec::semantics::{
    Arith, IState, NATIVE_DEBUG, NATIVE_EXEC, NATIVE_PARSE, NATIVE_TYPE, after_first, arith_of,
    initial, is_curried, repeated, spec_arith, spec_arith_atoms, spec_arith_each, spec_arith_list,
    spec_bind, spec_bind_args, spec_call, spec_call_args, spec_cond, spec_eq, spec_exec,
    spec_exec_cells, spec_lookup, spec_native, spec_parse_ast, spec_type_of, spec_verb_apply,
    word_debug, word_exec, word_parse, word_type,
};
use crate::parse::ascii::{AT, COMMA, EQUALS, MINUS, PLUS, POINT, STAR};
use crate::parse::ast;
use crate::parse::ast::{AST, Id};
use crate::parse::error::Error as ParseError;
use crate::parse::parser;
use crate::parse::parser::{Parser, spec_parse, state};
use crate::parse::show;
use crate::parse::show::spec_print;
use crate::parse::store::Arena;
use crate::parse::vector::{Vector, cells_of};

verus! {

/// How deep an evaluation may be nested unless the interpreter is told
/// otherwise.
pub const DEFAULT_DEPTH: usize = 100000;

/// The stack that has to be free when a lambda body is entered, in bytes.
pub const RED_ZONE: usize = 8013672;

/// The size of the stack segment that is added when less is free, in bytes.
pub const STACK_SIZE: usize = 32054688;

/// An interpreter: a parser, the store and the scope tree.
pub struct Interpreter {
    parser: Parser,
    arena: Arena,
    env: Environment,
    depth: usize,
}

impl View for Interpreter {
    type V = IState;

    closed spec fn view(&self) -> IState {
        IState { text: self.parser@, arena: self.arena@, env: self.env@ }
    }
}

/// The arithmetic verb that the verb kind `kind` names.
pub fn arith_kind(kind: u8) -> (r: Option<Arith>)
    ensures
        r == arith_of(kind),
{
    if kind == PLUS {
        Some(Arith::Add)
    } else if kind == MINUS {
        Some(Arith::Sub)
    } else if kind == STAR {
        Some(Arith::Prod)
    } else {
        None
    }
}

/// Whether the node is a curried list.
fn is_curried_list(a: &AST) -> (b: bool)
    ensures
        b == is_curried(*a),
{
    match *a {
        AST::List { curry: true, .. } => true,
        _ => false,
    }
}

/// The verb `op` on two values of which none is a curried list.
fn arith_atoms(op: Arith, left: &AST, right: &AST) -> (r: Result<AST, ExecError>)
    ensures
        r == spec_arith_atoms(op, *left, *right),
{
    match (*left, *right) {
        (AST::Int { value: a }, AST::Int { value: b }) => {
            let v = match op {
                Arith::Add => a.wrapping_add(b),
                Arith::Sub => a.wrapping_sub(b),
                Arith::Prod => a.wrapping_mul(b),
            };
            Ok(AST::Int { value: v })
        },
        _ => Err(ExecError::Type),
    }
}

/// The vector of `n` copies of `a`.
fn repeat(a: AST, n: usize) -> (v: Vec<AST>)
    ensures
        v@ == repeated(a, n as nat),
{
    let mut v: Vec<AST> = Vec::new();
    let mut i: usize = 0;
    while i < n
        invariant
            i <= n,
            v@ == repeated(a, i as nat),
        decreases n - i,
    {
        v.push(a);
        i = i + 1;
        assert(v@ =~= repeated(a, i as nat));
    }
    v
}

/// The cells of `v`, where all of them exist.
fn cells(arena: &Arena, v: &Vector) -> (r: Option<Vec<AST>>)
    ensures
        (match r {
            Some(x) => cells_of(arena@.cells, *v) == Some(x@),
            None => cells_of(arena@.cells, *v).is_none(),
        }),
{
    if v.fits(&arena.ast) {
        Some(v.as_slice(&arena.ast))
    } else {
        None
    }
}

/// The part of `items` after its first place.
fn tail(items: &Vec<AST>) -> (r: Vec<AST>)
    ensures
        r@ == after_first(items@),
{
    let mut r: Vec<AST> = Vec::new();
    let mut i: usize = 1;
    while i < items.len()
        invariant
            1 <= i,
            i <= items@.len() || items@.len() == 0,
            items@.len() > 0 ==> r@ == items@.subrange(1, i as int),
            items@.len() == 0 ==> r@.len() == 0,
        decreases items@.len() - i,
    {
        r.push(items[i]);
        i = i + 1;
        assert(r@ =~= items@.subrange(1, i as int));
    }
    assert(r@ =~= after_first(items@));
    r
}

impl Interpreter {
    /// The store of the interpreter.
    pub fn arena(&self) -> (a: &Arena)
        ensures
            a@ == self@.arena,
    {
        &self.arena
    }

    /// The scope tree of the interpreter.
    pub fn env(&self) -> (e: &Environment)
        ensures
            e@ == self@.env,
    {
        &self.env
    }

    /// How deep an evaluation may be nested.
    pub closed spec fn depth_limit(&self) -> nat {
        self.depth as nat
    }

    /// Sets how deep an evaluation may be nested.
    pub fn set_depth(&mut self, depth: usize)
        ensures
            final(self)@ == old(self)@,
            final(self).depth_limit() == depth,
    {
        self.depth = depth;
    }

    /// Compacts the scope tree.
    pub fn gc(&mut self)
        ensures
            final(self)@ == old(self)@.with_env(crate::exec::env::spec_clean(old(self)@.env)),
            final(self).depth_limit() == old(self).depth_limit(),
    {
        self.env.clean();
    }

    /// The type tag of a value as an integer node.
    fn type_id(&mut self, ast: &AST) -> (r: Result<AST, ExecError>)
        ensures
            r == spec_type_of(*ast),
            final(self)@ == old(self)@,
            final(self).depth_limit() == old(self).depth_limit(),
    {
        Ok(AST::Int { value: ast.type_id() as i64 })
    }

    /// The built-in function `parse`: the tree of the text of a string node.
    pub fn parse_ast(&mut self, ast: &AST) -> (r: Result<AST, ExecError>)
        ensures
            (final(self)@, r) == spec_parse_ast(old(self)@, *ast),
            final(self).depth_limit() == old(self).depth_limit(),
    {
        match *ast {
            AST::String { value: s } => {
                let text = s.bytes();
                match self.parser.parse(text.as_slice(), &mut self.arena) {
                    Ok(x) => Ok(x),
                    Err(_) => Err(ExecError::InvalidNativeCall),
                }
            },
            _ => Err(ExecError::InvalidNativeCall),
        }
    }

    /// The results of `op` on the pairs of `ls` and `rs`.
    fn arith_each(&mut self, op: Arith, ls: &Vec<AST>, rs: &Vec<AST>, depth: usize) -> (r: Result<
        Vec<AST>,
        ExecError,
    >)
        ensures
            (
                final(self)@.arena.cells,
                match r {
                    Ok(v) => Ok::<Seq<AST>, ExecError>(v@),
                    Err(e) => Err(e),
                },
            ) == spec_arith_each(
                old(self)@.arena.cells,
                op,
                ls@,
                rs@,
                0,
                Seq::empty(),
                depth as nat,
            ),
            final(self)@ == old(self)@.with_cells(final(self)@.arena.cells),
            final(self).depth_limit() == old(self).depth_limit(),
        decreases depth, 0nat, ls@.len() + 1,
    {
        let mut out: Vec<AST> = Vec::new();
        let mut i: usize = 0;
        while i < ls.len() && i < rs.len()
            invariant
                self@ == old(self)@.with_cells(self@.arena.cells),
                self.depth_limit() == old(self).depth_limit(),
                spec_arith_each(self@.arena.cells, op, ls@, rs@, i as nat, out@, depth as nat)
                    == spec_arith_each(
                    old(self)@.arena.cells,
                    op,
                    ls@,
                    rs@,
                    0,
                    Seq::empty(),
                    depth as nat,
                ),
            decreases ls@.len() - i,
        {
            let r = if is_curried_list(&ls[i]) || is_curried_list(&rs[i]) {
                if depth == 0 {
                    return Err(ExecError::Stack);
                }
                self.arith(op, &ls[i], &rs[i], depth - 1)
            } else {
                arith_atoms(op, &ls[i], &rs[i])
            };
            let x = match r {
                Ok(x) => x,
                Err(e) => {
                    return Err(e);
                },
            };
            out.push(x);
            i = i + 1;
        }
        Ok(out)
    }

    /// The curried list of the results of `op` on the pairs of `ls` and `rs`.
    fn arith_list(&mut self, op: Arith, ls: &Vec<AST>, rs: &Vec<AST>, depth: usize) -> (r: Result<
        AST,
        ExecError,
    >)
        ensures
            (final(self)@.arena.cells, r) == spec_arith_list(
                old(self)@.arena.cells,
                op,
                ls@,
                rs@,
                depth as nat,
            ),
            final(self)@ == old(self)@.with_cells(final(self)@.arena.cells),
            final(self).depth_limit() == old(self).depth_limit(),
        decreases depth, 1nat, 0nat,
    {
        match self.arith_each(op, ls, rs, depth) {
            Ok(items) => Ok(ast::list(true, &mut self.arena.ast, items)),
            Err(e) => Err(e),
        }
    }

    /// The arithmetic verb `op` on two values.
    pub fn arith(&mut self, op: Arith, left: &AST, right: &AST, depth: usize) -> (r: Result<
        AST,
        ExecError,
    >)
        ensures
            (final(self)@.arena.cells, r) == spec_arith(
                old(self)@.arena.cells,
                op,
                *left,
                *right,
                depth as nat,
            ),
            final(self)@ == old(self)@.with_cells(final(self)@.arena.cells),
            final(self).depth_limit() == old(self).depth_limit(),
        decreases depth, 2nat, 0nat,
    {
        match (*left, *right) {
            (AST::Int { .. }, AST::Int { .. }) => arith_atoms(op, left, right),
            (AST::List { curry: true, values: a }, AST::Int { .. }) => {
                match cells(&self.arena, &a) {
                    Some(ls) => {
                        let rs = repeat(*right, ls.len());
                        self.arith_list(op, &ls, &rs, depth)
                    },
                    None => Err(ExecError::RuntimeError),
                }
            },
            (AST::Int { .. }, AST::List { curry: true, values: b }) => {
                match cells(&self.arena, &b) {
                    Some(rs) => {
                        let ls = repeat(*left, rs.len());
                        self.arith_list(op, &ls, &rs, depth)
                    },
                    None => Err(ExecError::RuntimeError),
                }
            },
            (AST::List { curry: true, values: a }, AST::List { curry: true, values: b }) => {
                if a.len() != b.len() {
                    return Err(ExecError::Length);
                }
                match (cells(&self.arena, &a), cells(&self.arena, &b)) {
                    (Some(ls), Some(rs)) => self.arith_list(op, &ls, &rs, depth),
                    _ => Err(ExecError::RuntimeError),
                }
            },
            _ => Err(ExecError::Type),
        }
    }

    /// The sum of two values.
    pub fn add(&mut self, left: &AST, right: &AST, depth: usize) -> (r: Result<AST, ExecError>)
        ensures
            (final(self)@.arena.cells, r) == spec_arith(
                old(self)@.arena.cells,
                Arith::Add,
                *left,
                *right,
                depth as nat,
            ),
            final(self)@ == old(self)@.with_cells(final(self)@.arena.cells),
            final(self).depth_limit() == old(self).depth_limit(),
    {
        self.arith(Arith::Add, left, right, depth)
    }

    /// The difference of two values.
    pub fn sub(&mut self, left: &AST, right: &AST, depth: usize) -> (r: Result<AST, ExecError>)
        ensures
            (final(self)@.arena.cells, r) == spec_arith(
                old(self)@.arena.cells,
                Arith::Sub,
                *left,
                *right,
                depth as nat,
            ),
            final(self)@ == old(self)@.with_cells(final(self)@.arena.cells),
            final(self).depth_limit() == old(self).depth_limit(),
    {
        self.arith(Arith::Sub, left, right, depth)
    }

    /// The product of two values.
    pub fn prod(&mut self, left: &AST, right: &AST, depth: usize) -> (r: Result<AST, ExecError>)
        ensures
            (final(self)@.arena.cells, r) == spec_arith(
                old(self)@.arena.cells,
                Arith::Prod,
                *left,
                *right,
                depth as nat,
            ),
            final(self)@ == old(self)@.with_cells(final(self)@.arena.cells),
            final(self).depth_limit() == old(self).depth_limit(),
    {
        self.arith(Arith::Prod, left, right, depth)
    }

    /// Whether two integers are equal, as a boolean node.
    pub fn eq(&self, left: &AST, right: &AST) -> (r: Result<AST, ExecError>)
        ensures
            r == spec_eq(*left, *right),
    {
        match (*left, *right) {
            (AST::Int { value: a }, AST::Int { value: b }) => Ok(AST::Bool { value: a == b }),
            _ => Err(ExecError::Type),
        }
    }

    /// Stores `ast` in a new cell and returns its id.
    #[inline]
    pub fn store(&mut self, ast: AST) -> (id: Id)
        ensures
            id == old(self)@.arena.cells.len(),
            final(self)@ == old(self)@.with_cells(old(self)@.arena.cells.push(ast)),
            final(self).depth_limit() == old(self).depth_limit(),
    {
        self.arena.ast.push(ast)
    }

    /// Stores `value` and binds the name `key` to it in the scope `id`.
    pub fn define(&mut self, key: u16, value: &AST, id: ScopeId) -> (u: Id)
        ensures
            u == old(self)@.arena.cells.len(),
            final(self)@ == spec_bind(old(self)@, id, key, *value),
            final(self).depth_limit() == old(self).depth_limit(),
    {
        let u = self.store(*value);
        self.env.define(id, key, u);
        u
    }

    /// What the name `key` stands for when seen from the scope `id`.
    pub fn get(&self, key: u16, id: ScopeId) -> (r: Result<AST, ExecError>)
        ensures
            r == spec_lookup(self@, key, id),
    {
        match self.env.get(key, id) {
            Some((n, _)) => match self.arena.ast.cell(n) {
                Some(c) => Ok(c),
                None => Err(ExecError::RuntimeError),
            },
            None => Err(ExecError::Undefined),
        }
    }

    /// Parses the source line `b` into the store of the interpreter.
    pub fn parse(&mut self, b: &[u8]) -> (r: Result<AST, ParseError>)
        ensures
            (state(final(self)@.text, final(self)@.arena), r) == spec_parse(b@, old(self)@.arena),
            final(self)@.env == old(self)@.env,
            final(self).depth_limit() == old(self).depth_limit(),
    {
        self.parser.parse(b, &mut self.arena)
    }

    /// Calls `stacker::maybe_grow` with a closure that evaluates `body`: the
    /// evaluation runs on the current stack where `red_zone` bytes of it are
    /// free, else on a new segment of `stack_size` bytes. The contract claims
    /// that the closure is run once and its result handed back, so that the
    /// call gives what the evaluation of `body` gives.
    #[verifier::external_body]
    fn on_stack(
        &mut self,
        red_zone: usize,
        stack_size: usize,
        body: &AST,
        scope: ScopeId,
        depth: usize,
    ) -> (r: Result<AST, ExecError>)
        ensures
            (final(self)@, r) == spec_exec(old(self)@, *body, scope, depth as nat),
            final(self).depth_limit() == old(self).depth_limit(),
    {
        stacker::maybe_grow(red_zone, stack_size, || self.exec(body, scope, depth))
    }

    /// Evaluates the cells of `v` in place, in order.
    fn exec_cells(&mut self, v: &Vector, scope: ScopeId, depth: usize) -> (r: Result<
        (),
        ExecError,
    >)
        ensures
            (final(self)@, r) == spec_exec_cells(old(self)@, *v, 0, scope, depth as nat),
            final(self).depth_limit() == old(self).depth_limit(),
        decreases depth, 1nat, v.len + 1,
    {
        let mut i: usize = 0;
        while i < v.len
            invariant
                i <= v.len,
                self.depth_limit() == old(self).depth_limit(),
                spec_exec_cells(self@, *v, i as nat, scope, depth as nat) == spec_exec_cells(
                    old(self)@,
                    *v,
                    0,
                    scope,
                    depth as nat,
                ),
            decreases v.len - i,
        {
            if !v.fits(&self.arena.ast) {
                return Err(ExecError::RuntimeError);
            }
            proof {
                self.arena.ast.lemma_len_fits();
            }
            let c = *v.get(i, &self.arena.ast);
            let id = v.first + i as u64;
            let x = match self.exec(&c, scope, depth) {
                Ok(x) => x,
                Err(e) => {
                    return Err(e);
                },
            };
            if id < self.arena.ast.curr() {
                self.arena.ast.store(id, x);
            } else {
                return Err(ExecError::RuntimeError);
            }
            i = i + 1;
        }
        Ok(())
    }

    /// Evaluates the arguments in the scope `e` and binds them there to the
    /// parameters, pair by pair as far as both go.
    fn bind_args(
        &mut self,
        params: &Vec<u16>,
        cargs: &Vec<AST>,
        e: ScopeId,
        depth: usize,
    ) -> (r: Result<(), ExecError>)
        ensures
            (final(self)@, r) == spec_bind_args(
                old(self)@,
                params@,
                cargs@,
                0,
                e,
                depth as nat,
            ),
            final(self).depth_limit() == old(self).depth_limit(),
        decreases depth, 1nat, params@.len() + 1,
    {
        let mut i: usize = 0;
        while i < params.len() && i < cargs.len()
            invariant
                self.depth_limit() == old(self).depth_limit(),
                spec_bind_args(self@, params@, cargs@, i as nat, e, depth as nat)
                    == spec_bind_args(old(self)@, params@, cargs@, 0, e, depth as nat),
            decreases params@.len() - i,
        {
            let x = match self.exec(&cargs[i], e, depth) {
                Ok(x) => x,
                Err(err) => {
                    return Err(err);
                },
            };
            let _ = self.define(params[i], &x, e);
            i = i + 1;
        }
        Ok(())
    }

    /// Calls the built-in function with the code `t`.
    fn native(
        &mut self,
        callable: &AST,
        t: u8,
        cargs: &Vec<AST>,
        id: ScopeId,
        depth: usize,
    ) -> (r: Result<AST, ExecError>)
        ensures
            (final(self)@, r) == spec_native(
                old(self)@,
                *callable,
                t,
                cargs@,
                id,
                depth as nat,
            ),
            final(self).depth_limit() == old(self).depth_limit(),
        decreases depth, 1nat, 0nat,
    {
        if t > NATIVE_DEBUG {
            return Err(ExecError::InvalidNativeCall);
        }
        if cargs.len() == 0 {
            return Ok(*callable);
        }
        if t == NATIVE_TYPE {
            match self.exec(&cargs[0], id, depth) {
                Ok(r) => self.type_id(&r),
                Err(e) => Err(e),
            }
        } else if t == NATIVE_PARSE {
            self.parse_ast(&cargs[0])
        } else if t == NATIVE_EXEC {
            match self.exec(&cargs[0], id, depth) {
                Ok(r) => self.exec(&r, id, depth),
                Err(e) => Err(e),
            }
        } else {
            let u = ast::atom(&mut self.arena.ast, cargs[0]);
            Ok(AST::Debug { value: u })
        }
    }

    /// Calls `lambda` with the arguments `cargs` from the scope `id`.
    pub fn call(&mut self, lambda: &AST, cargs: &Vec<AST>, id: ScopeId, depth: usize) -> (r: Result<
        AST,
        ExecError,
    >)
        ensures
            (final(self)@, r) == spec_call(old(self)@, *lambda, cargs@, id, depth as nat),
            final(self).depth_limit() == old(self).depth_limit(),
        decreases depth, 2nat, 0nat,
    {
        match *lambda {
            AST::Lambda { args: a, body: b } => {
                let e = self.env.new_child(id);
                let params = a.iter();
                match self.bind_args(&params, cargs, e, depth) {
                    Ok(_) => {},
                    Err(x) => {
                        return Err(x);
                    },
                }
                match self.arena.ast.cell(b) {
                    Some(u) => self.on_stack(RED_ZONE, STACK_SIZE, &u, e, depth),
                    None => Err(ExecError::RuntimeError),
                }
            },
            AST::Native { name: n } => {
                match self.arena.native_id_id(n) {
                    Some(t) => self.native(lambda, t, cargs, id, depth),
                    None => Err(ExecError::InvalidNativeCall),
                }
            },
            _ => Err(ExecError::Call),
        }
    }

    /// Applies `lambda` to the arguments `args`: the same as a call.
    pub fn apply(&mut self, lambda: &AST, args: &Vec<AST>, id: ScopeId, depth: usize) -> (r: Result<
        AST,
        ExecError,
    >)
        ensures
            (final(self)@, r) == spec_call(old(self)@, *lambda, args@, id, depth as nat),
            final(self).depth_limit() == old(self).depth_limit(),
        decreases depth, 2nat, 1nat,
    {
        self.call(lambda, args, id, depth)
    }

    /// Evaluates a condition over the cells `c`.
    pub fn cond(&mut self, c: &Vector, id: ScopeId, depth: usize) -> (r: Result<AST, ExecError>)
        ensures
            (final(self)@, r) == spec_cond(old(self)@, *c, id, depth as nat),
            final(self).depth_limit() == old(self).depth_limit(),
        decreases depth, 3nat, 0nat,
    {
        let items = match cells(&self.arena, c) {
            Some(i) => i,
            None => {
                return Err(ExecError::RuntimeError);
            },
        };
        if items.len() != 3 {
            return Err(ExecError::Condition);
        }
        match self.exec(&items[0], id, depth) {
            Ok(AST::Bool { value: b }) => {
                if b {
                    self.exec(&items[1], id, depth)
                } else {
                    self.exec(&items[2], id, depth)
                }
            },
            Ok(_) => Err(ExecError::Condition),
            Err(e) => Err(e),
        }
    }

    /// The positional arguments of an application with the argument cells
    /// `items`.
    fn call_args(&self, items: &Vec<AST>) -> (r: Option<Vec<AST>>)
        ensures
            (match r {
                Some(a) => spec_call_args(self@.arena.cells, items@) == Some(a@),
                None => spec_call_args(self@.arena.cells, items@).is_none(),
            }),
    {
        if items.len() >= 2 {
            match items[1] {
                AST::List { curry: true, values: v } => cells(&self.arena, &v),
                AST::Sequence { values: v } => cells(&self.arena, &v),
                _ => Some(tail(items)),
            }
        } else {
            Some(tail(items))
        }
    }

    /// Applies a verb of kind `kind` to the argument cells `args`.
    fn verb_apply(&mut self, kind: u8, args: &Vector, id: ScopeId, depth: usize) -> (r: Result<
        AST,
        ExecError,
    >)
        ensures
            (final(self)@, r) == spec_verb_apply(old(self)@, kind, *args, id, depth as nat),
            final(self).depth_limit() == old(self).depth_limit(),
        decreases depth, 3nat, 0nat,
    {
        let items = match cells(&self.arena, args) {
            Some(i) => i,
            None => {
                return Err(ExecError::RuntimeError);
            },
        };
        if items.len() == 0 {
            return Err(ExecError::Rank);
        }
        let op = arith_kind(kind);
        if op.is_some() || kind == EQUALS {
            if items.len() < 2 {
                return Err(ExecError::Rank);
            }
            let x = match self.exec(&items[0], id, depth) {
                Ok(x) => x,
                Err(e) => {
                    return Err(e);
                },
            };
            let y = match self.exec(&items[1], id, depth) {
                Ok(y) => y,
                Err(e) => {
                    return Err(e);
                },
            };
            match op {
                Some(o) => self.arith(o, &x, &y, depth),
                None => self.eq(&x, &y),
            }
        } else if kind == COMMA {
            if items.len() > 2 {
                return Err(ExecError::Rank);
            }
            let x = match self.exec(&items[0], id, depth) {
                Ok(x) => x,
                Err(e) => {
                    return Err(e);
                },
            };
            let mut out: Vec<AST> = Vec::new();
            out.push(x);
            if items.len() == 1 {
                assert(out@ =~= seq![x]);
                Ok(ast::list(false, &mut self.arena.ast, out))
            } else {
                let y = match self.exec(&items[1], id, depth) {
                    Ok(y) => y,
                    Err(e) => {
                        return Err(e);
                    },
                };
                out.push(y);
                assert(out@ =~= seq![x, y]);
                Ok(ast::list(false, &mut self.arena.ast, out))
            }
        } else if kind == POINT || kind == AT {
            let x = match self.exec(&items[0], id, depth) {
                Ok(x) => x,
                Err(e) => {
                    return Err(e);
                },
            };
            match self.call_args(&items) {
                Some(a) => {
                    if kind == POINT {
                        self.call(&x, &a, id, depth)
                    } else {
                        self.apply(&x, &a, id, depth)
                    }
                },
                None => Err(ExecError::RuntimeError),
            }
        } else {
            Err(ExecError::Undefined)
        }
    }

    /// Evaluates `node` in the scope `id`, nested at most `depth` deep.
    pub fn exec(&mut self, node: &AST, id: ScopeId, depth: usize) -> (r: Result<AST, ExecError>)
        ensures
            (final(self)@, r) == spec_exec(old(self)@, *node, id, depth as nat),
            final(self).depth_limit() == old(self).depth_limit(),
        decreases depth, 0nat, 0nat,
    {
        match *node {
            AST::Verb { kind: k, args: a } => {
                if a.len() == 0 {
                    return Ok(AST::Verb { kind: k, args: a });
                }
                if depth == 0 {
                    return Err(ExecError::Stack);
                }
                self.verb_apply(k, &a, id, depth - 1)
            },
            AST::Condition { list: c } => {
                if depth == 0 {
                    return Err(ExecError::Stack);
                }
                self.cond(&c, id, depth - 1)
            },
            AST::Nameref { name: n, value: v } => {
                if depth == 0 {
                    return Err(ExecError::Stack);
                }
                let a = match self.arena.ast.cell(v) {
                    Some(a) => a,
                    None => {
                        return Err(ExecError::RuntimeError);
                    },
                };
                let u = match self.exec(&a, id, depth - 1) {
                    Ok(u) => u,
                    Err(e) => {
                        return Err(e);
                    },
                };
                let _ = self.define(n, &u, id);
                Ok(u)
            },
            AST::Name { value: n } => self.get(n, id),
            AST::List { curry: c, values: v } => {
                if depth == 0 {
                    return Err(ExecError::Stack);
                }
                match self.exec_cells(&v, id, depth - 1) {
                    Ok(_) => Ok(AST::List { curry: c, values: v }),
                    Err(e) => Err(e),
                }
            },
            AST::Sequence { values: v } => {
                if depth == 0 {
                    return Err(ExecError::Stack);
                }
                match self.exec_cells(&v, id, depth - 1) {
                    Ok(_) => {
                        if v.len() == 0 {
                            return Ok(AST::Nil);
                        }
                        if v.fits(&self.arena.ast) {
                            Ok(*v.get(v.len() - 1, &self.arena.ast))
                        } else {
                            Err(ExecError::RuntimeError)
                        }
                    },
                    Err(e) => Err(e),
                }
            },
            AST::Adverb { .. } => Err(ExecError::NotImplemented),
            _ => Ok(*node),
        }
    }

    /// Evaluates `node` in the scope that was created last, nested as deep as
    /// the interpreter allows.
    pub fn run(&mut self, node: &AST) -> (r: Result<AST, ExecError>)
        ensures
            (final(self)@, r) == spec_exec(
                old(self)@,
                *node,
                crate::exec::env::spec_last(old(self)@.env),
                old(self).depth_limit(),
            ),
            final(self).depth_limit() == old(self).depth_limit(),
    {
        let id = self.env.last();
        let depth = self.depth;
        self.exec(node, id, depth)
    }

    /// What printing the result `ast` writes.
    pub fn print(&self, ast: &AST) -> (out: Vec<u8>)
        ensures
            out@ == spec_print(self@.arena, *ast),
    {
        show::print(ast, &self.arena)
    }
}

/// A new interpreter: the built-in functions `type`, `parse`, `exec` and
/// `debug` are registered, and the scope tree has its root.
pub fn new() -> (i: Interpreter)
    ensures
        i@ == initial(),
        i.depth_limit() == DEFAULT_DEPTH,
{
    let mut arena = Arena::new();
    assert(arena@ == (crate::parse::store::ArenaView {
        names: Seq::empty(),
        symbols: Seq::empty(),
        floats: Seq::empty(),
        cells: Seq::empty(),
        natives: Map::empty(),
    }));
    let t: [u8; 4] = [0x74, 0x79, 0x70, 0x65];
    let p: [u8; 5] = [0x70, 0x61, 0x72, 0x73, 0x65];
    let e: [u8; 4] = [0x65, 0x78, 0x65, 0x63];
    let d: [u8; 5] = [0x64, 0x65, 0x62, 0x75, 0x67];
    assert(t@ =~= word_type());
    assert(p@ =~= word_parse());
    assert(e@ =~= word_exec());
    assert(d@ =~= word_debug());
    arena.add_native(t.as_slice(), NATIVE_TYPE);
    arena.add_native(p.as_slice(), NATIVE_PARSE);
    arena.add_native(e.as_slice(), NATIVE_EXEC);
    arena.add_native(d.as_slice(), NATIVE_DEBUG);
    Interpreter {
        parser: parser::new(),
        arena: arena,
        env: Environment::new_root(),
        depth: DEFAULT_DEPTH,
    }
}

} // verus!
