//! The parser: recursive descent over the token stream, proved to compute
//! what the grammar says.

use vstd::prelude::*;
use vstd::string::StringSliceAdditionalSpecFns;
use crate::parse::ascii::{AT, BLANK, LOWER_X, LOWER_Y, LOWER_Z, NINE, POINT, RETURN, TAB, ZERO};
use crate::parse::ast;
use crate::parse::ast::{AST, Adverb, Args, Chars};
use crate::parse::error::Error;
use crate::parse::grammar::{
    PState, bool_items, name_x, name_y, name_z, spec_apply_right, spec_at, spec_at_noun,
    spec_dict_items, spec_expect, spec_implicit_args, spec_items, spec_noun_bits, spec_noun_dict,
    spec_noun_group, spec_noun_lambda, spec_noun_mark, spec_noun_name, spec_noun_number,
    spec_noun_text, spec_numbers, spec_params, spec_parse_adverb, spec_parse_ex, spec_parse_list,
    spec_parse_noun, spec_run, spec_symbols, trim_start,
};
use crate::parse::source::{prepare, spec_prepare};
use crate::parse::store::{Arena, ArenaView, bytes_copy};
use crate::parse::token::{Raw, Token, canonical, is_decimal, parse_hex, parse_int};

verus! {

/// The state of a parse with `text` left to read and the store `arena`.
pub open spec fn state(text: Seq<u8>, arena: ArenaView) -> PState {
    PState { text: text, arena: arena }
}

/// The text from `from` on without the white space at its beginning.
pub fn skip_trimmed(text: &[u8], from: usize) -> (out: Vec<u8>)
    requires
        from <= text@.len(),
    ensures
        out@ == trim_start(text@.skip(from as int)),
        out@.len() <= text@.len() - from,
{
    let mut i: usize = from;
    while i < text.len() && (text[i] == BLANK || (TAB <= text[i] && text[i] <= RETURN))
        invariant
            from <= i <= text@.len(),
            trim_start(text@.skip(i as int)) == trim_start(text@.skip(from as int)),
        decreases text@.len() - i,
    {
        assert(text@.skip(i as int).skip(1) =~= text@.skip(i + 1));
        i = i + 1;
    }
    let tail = vstd::slice::slice_subrange(text, i, text.len());
    assert(tail@ =~= text@.skip(i as int));
    bytes_copy(tail)
}

/// The vector of one node.
fn one(a: AST) -> (v: Vec<AST>)
    ensures
        v@ == seq![a],
{
    let mut v: Vec<AST> = Vec::new();
    v.push(a);
    assert(v@ =~= seq![a]);
    v
}

/// The vector of two nodes.
fn two(a: AST, b: AST) -> (v: Vec<AST>)
    ensures
        v@ == seq![a, b],
{
    let mut v: Vec<AST> = Vec::new();
    v.push(a);
    v.push(b);
    assert(v@ =~= seq![a, b]);
    v
}

/// Whether `v` holds `x`.
fn holds(v: &Vec<u16>, x: u16) -> (b: bool)
    ensures
        b == v@.contains(x),
{
    let mut i: usize = 0;
    while i < v.len()
        invariant
            i <= v@.len(),
            forall|j: int| 0 <= j < i ==> v@[j] != x,
        decreases v@.len() - i,
    {
        if v[i] == x {
            return true;
        }
        i = i + 1;
    }
    false
}

/// A parser: the text that is still to be read.
pub struct Parser {
    text: Vec<u8>,
}

impl View for Parser {
    type V = Seq<u8>;

    closed spec fn view(&self) -> Seq<u8> {
        self.text@
    }
}

/// What parsing the source line `line` gives with the store `arena`: the line
/// is prepared and read as a list of expressions up to its end. What is left
/// of the text when no further expression begins stays unread.
pub open spec fn spec_parse(line: Seq<u8>, arena: ArenaView) -> (PState, Result<AST, Error>) {
    spec_parse_list(state(spec_prepare(line), arena), None)
}

impl Parser {
    /// Takes the source line `s` as the text to read, in its prepared form.
    pub fn begin(&mut self, s: &[u8])
        ensures
            final(self)@ == spec_prepare(s@),
    {
        self.text = prepare(s);
    }

    /// Parses the source line `b`. New nodes, names and symbols go to `arena`.
    pub fn parse(&mut self, b: &[u8], arena: &mut Arena) -> (r: Result<AST, Error>)
        ensures
            (state(final(self)@, final(arena)@), r) == spec_parse(b@, old(arena)@),
    {
        self.begin(b);
        self.parse_list(arena, None)
    }

    /// Parses the source line `s`.
    pub fn parse_str(&mut self, s: &str, arena: &mut Arena) -> (r: Result<AST, Error>)
        ensures
            (state(final(self)@, final(arena)@), r) == spec_parse(s.spec_bytes(), old(arena)@),
    {
        self.begin(s.as_bytes());
        self.parse_list(arena, None)
    }

    /// The text that is still to be read.
    pub fn rest(&self) -> (r: &[u8])
        ensures
            r@ == self@,
    {
        self.text.as_slice()
    }

    /// Reads a token of kind `t` from the head of the text and skips the
    /// white space after it.
    #[inline]
    pub fn expect(&mut self, t: Token) -> (r: Result<Raw, Error>)
        ensures
            (match r {
                Ok(raw) => spec_expect(t, old(self)@) == Some((raw@, final(self)@))
                    && final(self)@.len() < old(self)@.len(),
                Err(e) => e == Error::ParseError && spec_expect(t, old(self)@).is_none()
                    && final(self)@ == old(self)@,
            }),
    {
        match t.find(self.text.as_slice()) {
            Some(x) => {
                let rest = skip_trimmed(self.text.as_slice(), x.len());
                self.text = rest;
                Ok(x)
            },
            None => Err(Error::ParseError),
        }
    }

    /// Whether a token of kind `t` stands at the head of the text.
    #[inline]
    pub fn at(&self, t: Token) -> (b: bool)
        ensures
            b == spec_at(t, self@),
    {
        t.is_match(self.text.as_slice())
    }

    /// Reads a token of kind `t` if one stands at the head of the text.
    #[inline]
    pub fn matches(&mut self, t: Token) -> (r: Option<Raw>)
        ensures
            (match r {
                Some(raw) => spec_expect(t, old(self)@) == Some((raw@, final(self)@))
                    && final(self)@.len() < old(self)@.len(),
                None => spec_expect(t, old(self)@).is_none() && final(self)@ == old(self)@,
            }),
    {
        if self.at(t) {
            return match self.expect(t) {
                Ok(x) => Some(x),
                Err(..) => None,
            };
        }
        None
    }

    /// Whether all of the text was read.
    #[inline]
    pub fn done(&self) -> (b: bool)
        ensures
            b == (self@.len() == 0),
    {
        self.text.len() == 0
    }

    /// Whether the text begins with a noun.
    #[inline]
    pub fn at_noun(&self) -> (b: bool)
        ensures
            b == spec_at_noun(self@),
    {
        !self.done() && self.at(Token::Number) || self.at(Token::Name) || self.at(Token::Symbol)
            || self.at(Token::String) || self.at(Token::Cond) || self.at(Token::OpenP) || self.at(
            Token::OpenC,
        )
    }

    /// Reads the index lists `[..]` that follow the callable `node`.
    fn applycallright(&mut self, arena: &mut Arena, node: AST) -> (r: Result<AST, Error>)
        ensures
            (state(final(self)@, final(arena)@), r) == spec_apply_right(
                state(old(self)@, old(arena)@),
                node,
            ),
            final(self)@.len() <= old(self)@.len(),
        decreases old(self)@.len(), 1nat,
    {
        self.applyindexright(arena, node)
    }

    /// Reads the index lists `[..]` that follow the noun `node`.
    fn applyindexright(&mut self, arena: &mut Arena, node: AST) -> (r: Result<AST, Error>)
        ensures
            (state(final(self)@, final(arena)@), r) == spec_apply_right(
                state(old(self)@, old(arena)@),
                node,
            ),
            final(self)@.len() <= old(self)@.len(),
        decreases old(self)@.len(), 0nat,
    {
        let ghost st0 = state(self@, arena@);
        let mut r = node;
        loop
            invariant_except_break
                spec_apply_right(state(self@, arena@), r) == spec_apply_right(st0, node),
            invariant
                self@.len() <= st0.text.len(),
                st0 == state(old(self)@, old(arena)@),
            ensures
                (state(self@, arena@), Ok::<AST, Error>(r)) == spec_apply_right(st0, node),
            decreases self@.len(),
        {
            if self.matches(Token::OpenB).is_none() {
                break;
            }
            let e = match self.parse_list(arena, Some(Token::CloseB)) {
                Ok(e) => e,
                Err(e) => {
                    return Err(e);
                },
            };
            r = ast::verb(&mut arena.ast, POINT, two(r, e));
        }
        Ok(r)
    }

    /// Reads an adverb and its right operand.
    fn parse_adverb(&mut self, arena: &mut Arena, left: AST, verb: AST) -> (r: Result<AST, Error>)
        ensures
            (state(final(self)@, final(arena)@), r) == spec_parse_adverb(
                state(old(self)@, old(arena)@),
                left,
                verb,
            ),
            final(self)@.len() <= old(self)@.len(),
        decreases old(self)@.len(), 3nat,
    {
        let a = match self.expect(Token::Adverb) {
            Ok(a) => a,
            Err(e) => {
                return Err(e);
            },
        };
        let n = match self.parse_noun(arena) {
            Ok(n) => n,
            Err(e) => {
                return Err(e);
            },
        };
        let right = match self.parse_ex(arena, n) {
            Ok(x) => x,
            Err(e) => {
                return Err(e);
            },
        };
        if Adverb::from_str(a.value()).is_none() {
            return Err(Error::UnexpectedToken);
        }
        Ok(ast::adverb(&mut arena.ast, a.value(), left, verb, right))
    }

    /// Reads the number literals that follow one another.
    fn numbers(&mut self, arena: &mut Arena) -> (r: Result<Vec<AST>, Error>)
        ensures
            (
                state(final(self)@, final(arena)@),
                match r {
                    Ok(v) => Ok::<Seq<AST>, Error>(v@),
                    Err(e) => Err(e),
                },
            ) == spec_numbers(state(old(self)@, old(arena)@), Seq::empty()),
            final(self)@.len() <= old(self)@.len(),
            r.is_ok() && spec_at(Token::Number, old(self)@) ==> final(self)@.len()
                < old(self)@.len(),
    {
        let ghost st0 = state(self@, arena@);
        let mut v: Vec<AST> = Vec::new();
        loop
            invariant_except_break
                spec_numbers(state(self@, arena@), v@) == spec_numbers(st0, Seq::empty()),
            invariant
                self@.len() <= st0.text.len(),
                st0 == state(old(self)@, old(arena)@),
                v@.len() > 0 ==> self@.len() < st0.text.len(),
                v@.len() == 0 ==> self@ == st0.text,
            ensures
                (state(self@, arena@), Ok::<Seq<AST>, Error>(v@)) == spec_numbers(
                    st0,
                    Seq::empty(),
                ),
                !spec_at(Token::Number, st0.text) || v@.len() > 0,
            decreases self@.len(),
        {
            let ghost before = self@;
            let n = match self.matches(Token::Number) {
                Some(n) => n,
                None => {
                    assert(before == st0.text ==> !spec_at(Token::Number, st0.text));
                    break;
                },
            };
            match parse_int(n.value()) {
                Some(x) => v.push(AST::Int { value: x }),
                None => {
                    if is_decimal(n.value()) {
                        let text = canonical(n.value());
                        let f = arena.intern_float(text.as_slice());
                        v.push(f);
                    } else {
                        return Err(Error::ParseError);
                    }
                },
            }
        }
        Ok(v)
    }

    /// Reads the symbols that follow one another.
    fn symbols(&mut self, arena: &mut Arena) -> (v: Vec<AST>)
        ensures
            (state(final(self)@, final(arena)@), v@) == spec_symbols(
                state(old(self)@, old(arena)@),
                Seq::empty(),
            ),
            final(self)@.len() <= old(self)@.len(),
            spec_at(Token::Symbol, old(self)@) ==> final(self)@.len() < old(self)@.len(),
    {
        let ghost st0 = state(self@, arena@);
        let mut v: Vec<AST> = Vec::new();
        loop
            invariant_except_break
                spec_symbols(state(self@, arena@), v@) == spec_symbols(st0, Seq::empty()),
            invariant
                self@.len() <= st0.text.len(),
                st0 == state(old(self)@, old(arena)@),
                v@.len() > 0 ==> self@.len() < st0.text.len(),
                v@.len() == 0 ==> self@ == st0.text,
            ensures
                (state(self@, arena@), v@) == spec_symbols(st0, Seq::empty()),
                !spec_at(Token::Symbol, st0.text) || v@.len() > 0,
            decreases self@.len(),
        {
            let ghost before = self@;
            let n = match self.matches(Token::Symbol) {
                Some(n) => n,
                None => {
                    assert(before == st0.text ==> !spec_at(Token::Symbol, st0.text));
                    break;
                },
            };
            let t = vstd::slice::slice_subrange(n.value(), 1, n.len());
            assert(t@ =~= n@.skip(1));
            let s = arena.intern_symbol(t);
            v.push(s);
        }
        v
    }

    /// One noun of the run `v`: the node itself where there is one, else a
    /// curried list.
    fn run(arena: &mut Arena, v: Vec<AST>) -> (a: AST)
        ensures
            (final(arena)@, a) == spec_run(old(arena)@, v@),
    {
        if v.len() == 1 {
            v[0]
        } else {
            ast::list(true, &mut arena.ast, v)
        }
    }

    /// Reads the parameter names of a lambda header.
    fn params(&mut self, arena: &mut Arena) -> (r: Result<Args, Error>)
        ensures
            (state(final(self)@, final(arena)@), r) == spec_params(
                state(old(self)@, old(arena)@),
                Args::spec_new(),
            ),
            final(self)@.len() <= old(self)@.len(),
    {
        let ghost st0 = state(self@, arena@);
        let mut args = Args::new();
        loop
            invariant_except_break
                spec_params(state(self@, arena@), args) == spec_params(st0, Args::spec_new()),
            invariant
                self@.len() <= st0.text.len(),
                st0 == state(old(self)@, old(arena)@),
            ensures
                (state(self@, arena@), Ok::<Args, Error>(args)) == spec_params(
                    st0,
                    Args::spec_new(),
                ),
            decreases self@.len(),
        {
            if self.at(Token::CloseB) {
                break;
            }
            let n = match self.expect(Token::Name) {
                Ok(n) => n,
                Err(e) => {
                    return Err(e);
                },
            };
            if !args.can_push() {
                return Err(Error::ParseError);
            }
            let id = arena.intern_name_id(n.value());
            args.push(id);
            if self.matches(Token::Semi).is_none() {
                break;
            }
        }
        Ok(args)
    }

    /// The parameters that a lambda without a header gets from its body.
    fn implicit_args(arena: &mut Arena, body: &AST) -> (args: Args)
        ensures
            (final(arena)@, args) == spec_implicit_args(old(arena)@, *body),
    {
        let mut names: Vec<u16> = Vec::new();
        body.find_names(&arena.ast, &mut names);
        assert(names@ =~= body.names_in(arena@.cells, arena@.cells.len()));
        let x: [u8; 1] = [LOWER_X];
        let y: [u8; 1] = [LOWER_Y];
        let z: [u8; 1] = [LOWER_Z];
        assert(x@ =~= name_x());
        assert(y@ =~= name_y());
        assert(z@ =~= name_z());
        let mut args = Args::new();
        if holds(&names, arena.name_id(z.as_slice())) {
            let a = arena.intern_name_id(x.as_slice());
            args.push(a);
            let b = arena.intern_name_id(y.as_slice());
            args.push(b);
            let c = arena.intern_name_id(z.as_slice());
            args.push(c);
        } else if holds(&names, arena.name_id(y.as_slice())) {
            let a = arena.intern_name_id(x.as_slice());
            args.push(a);
            let b = arena.intern_name_id(y.as_slice());
            args.push(b);
        } else if holds(&names, arena.name_id(x.as_slice())) {
            let a = arena.intern_name_id(x.as_slice());
            args.push(a);
        }
        args
    }

    /// Reads the `name:expr` pairs of a dictionary literal.
    fn dict_items(&mut self, arena: &mut Arena) -> (r: Result<(Vec<AST>, Vec<AST>), Error>)
        ensures
            (
                state(final(self)@, final(arena)@),
                match r {
                    Ok(kv) => Ok::<(Seq<AST>, Seq<AST>), Error>((kv.0@, kv.1@)),
                    Err(e) => Err(e),
                },
            ) == spec_dict_items(state(old(self)@, old(arena)@), Seq::empty(), Seq::empty()),
            final(self)@.len() <= old(self)@.len(),
        decreases old(self)@.len(), 0nat,
    {
        let ghost st0 = state(self@, arena@);
        let mut keys: Vec<AST> = Vec::new();
        let mut values: Vec<AST> = Vec::new();
        loop
            invariant_except_break
                spec_dict_items(state(self@, arena@), keys@, values@) == spec_dict_items(
                    st0,
                    Seq::empty(),
                    Seq::empty(),
                ),
            invariant
                self@.len() <= st0.text.len(),
                st0 == state(old(self)@, old(arena)@),
            ensures
                (
                    state(self@, arena@),
                    Ok::<(Seq<AST>, Seq<AST>), Error>((keys@, values@)),
                ) == spec_dict_items(st0, Seq::empty(), Seq::empty()),
            decreases self@.len(),
        {
            let key = match self.expect(Token::Name) {
                Ok(k) => k,
                Err(e) => {
                    return Err(e);
                },
            };
            let _ = self.expect(Token::Colon);
            let n = match self.parse_noun(arena) {
                Ok(n) => n,
                Err(e) => {
                    return Err(e);
                },
            };
            let value = match self.parse_ex(arena, n) {
                Ok(v) => v,
                Err(e) => {
                    return Err(e);
                },
            };
            let kname = arena.intern_name(key.value());
            keys.push(kname);
            values.push(value);
            if self.matches(Token::Semi).is_none() {
                break;
            }
        }
        Ok((keys, values))
    }

    /// Reads the noun that begins with a name.
    fn noun_name(&mut self, arena: &mut Arena) -> (r: Result<AST, Error>)
        ensures
            (state(final(self)@, final(arena)@), r) == spec_noun_name(
                state(old(self)@, old(arena)@),
            ),
            final(self)@.len() <= old(self)@.len(),
            r.is_ok() ==> final(self)@.len() < old(self)@.len(),
        decreases old(self)@.len(), 0nat,
    {
        let n = match self.expect(Token::Name) {
            Ok(n) => n,
            Err(e) => {
                return Err(e);
            },
        };
        if let Some(x) = arena.native_id(n.value()) {
            return self.applycallright(arena, AST::Native { name: x });
        }
        if self.matches(Token::Colon).is_some() {
            let _ = self.matches(Token::Colon);
            let m = match self.parse_noun(arena) {
                Ok(m) => m,
                Err(e) => {
                    return Err(e);
                },
            };
            let r = match self.parse_ex(arena, m) {
                Ok(r) => r,
                Err(e) => {
                    return Err(e);
                },
            };
            if r.is_nil() {
                return Err(Error::ParseError);
            }
            let name = arena.intern_name_id(n.value());
            let value = ast::atom(&mut arena.ast, r);
            return Ok(AST::Nameref { name: name, value: value });
        }
        if self.matches(Token::OpenB).is_some() {
            let index = match self.parse_list(arena, Some(Token::CloseB)) {
                Ok(i) => i,
                Err(e) => {
                    return Err(e);
                },
            };
            let u = arena.intern_name(n.value());
            return Ok(ast::verb(&mut arena.ast, POINT, two(u, index)));
        }
        Ok(arena.intern_name(n.value()))
    }

    /// Reads a dictionary literal, after its opening bracket.
    fn noun_dict(&mut self, arena: &mut Arena) -> (r: Result<AST, Error>)
        ensures
            (state(final(self)@, final(arena)@), r) == spec_noun_dict(
                state(old(self)@, old(arena)@),
            ),
            final(self)@.len() <= old(self)@.len(),
        decreases old(self)@.len(), 1nat,
    {
        if self.matches(Token::CloseB).is_some() {
            return Ok(ast::dict(&mut arena.ast, Vec::new(), Vec::new()));
        }
        let (keys, values) = match self.dict_items(arena) {
            Ok(kv) => kv,
            Err(e) => {
                return Err(e);
            },
        };
        match self.expect(Token::CloseB) {
            Ok(_) => {},
            Err(e) => {
                return Err(e);
            },
        }
        Ok(ast::dict(&mut arena.ast, keys, values))
    }

    /// Reads a lambda, after its opening brace.
    fn noun_lambda(&mut self, arena: &mut Arena) -> (r: Result<AST, Error>)
        ensures
            (state(final(self)@, final(arena)@), r) == spec_noun_lambda(
                state(old(self)@, old(arena)@),
            ),
            final(self)@.len() <= old(self)@.len(),
        decreases old(self)@.len(), 7nat,
    {
        let mut args = Args::new();
        if self.matches(Token::OpenB).is_some() {
            args = match self.params(arena) {
                Ok(a) => a,
                Err(e) => {
                    return Err(e);
                },
            };
            match self.expect(Token::CloseB) {
                Ok(_) => {},
                Err(e) => {
                    return Err(e);
                },
            }
        }
        let r = match self.parse_list(arena, Some(Token::CloseC)) {
            Ok(r) => r,
            Err(e) => {
                return Err(e);
            },
        };
        if args.len() == 0 {
            args = Self::implicit_args(arena, &r);
        }
        let b = ast::atom(&mut arena.ast, r);
        self.applycallright(arena, AST::Lambda { args: args, body: b })
    }

    /// Reads the noun that begins with `\\`, a bare `:` or an I/O verb.
    fn noun_mark(&mut self, arena: &mut Arena) -> (r: Option<Result<AST, Error>>)
        ensures
            (match r {
                Some(x) => spec_noun_mark(state(old(self)@, old(arena)@)) == Some(
                    (state(final(self)@, final(arena)@), x),
                ) && final(self)@.len() < old(self)@.len(),
                None => spec_noun_mark(state(old(self)@, old(arena)@)).is_none() && final(self)@
                    == old(self)@ && final(arena)@ == old(arena)@,
            }),
    {
        if self.matches(Token::Quit).is_some() {
            return Some(Ok(AST::Quit));
        }
        if self.matches(Token::Colon).is_some() {
            let x: [u8; 1] = [LOWER_X];
            let y: [u8; 1] = [LOWER_Y];
            assert(x@ =~= name_x());
            assert(y@ =~= name_y());
            let b = arena.intern_name(y.as_slice());
            let xi = arena.intern_name_id(x.as_slice());
            let yi = arena.intern_name_id(y.as_slice());
            let mut args = Args::new();
            args.push(xi);
            args.push(yi);
            let id = ast::atom(&mut arena.ast, b);
            return Some(Ok(AST::Lambda { args: args, body: id }));
        }
        match self.matches(Token::Ioverb) {
            Some(v) => {
                let d = v.value()[0];
                if ZERO <= d && d <= NINE {
                    Some(Ok(AST::Ioverb { fd: d - ZERO }))
                } else {
                    Some(Err(Error::UnexpectedToken))
                }
            },
            None => None,
        }
    }

    /// Reads the noun that begins with a bit string, a hexadecimal literal or
    /// `$[`.
    fn noun_bits(&mut self, arena: &mut Arena) -> (r: Option<Result<AST, Error>>)
        ensures
            (match r {
                Some(x) => spec_noun_bits(state(old(self)@, old(arena)@)) == Some(
                    (state(final(self)@, final(arena)@), x),
                ) && final(self)@.len() < old(self)@.len(),
                None => spec_noun_bits(state(old(self)@, old(arena)@)).is_none() && final(self)@
                    == old(self)@ && final(arena)@ == old(arena)@,
            }),
        decreases old(self)@.len(), 1nat,
    {
        match self.matches(Token::Bool) {
            Some(n) => {
                let mut v: Vec<AST> = Vec::new();
                let mut i: usize = 0;
                while i < n.len() - 1
                    invariant
                        i <= n@.len() - 1,
                        v@ == bool_items(n@).take(i as int),
                    decreases n@.len() - i,
                {
                    v.push(AST::Int { value: (n.value()[i] as i64) - (ZERO as i64) });
                    i = i + 1;
                    assert(v@ =~= bool_items(n@).take(i as int));
                }
                assert(v@ =~= bool_items(n@));
                let list = ast::list(true, &mut arena.ast, v);
                return Some(self.applyindexright(arena, list));
            },
            None => {},
        }
        match self.matches(Token::Hexlit) {
            Some(h) => {
                if h.len() < 2 {
                    return Some(Err(Error::ParseError));
                }
                let digits = vstd::slice::slice_subrange(h.value(), 2, h.len());
                assert(digits@ =~= h@.skip(2));
                return match parse_hex(digits) {
                    Some(v) => Some(Ok(AST::Int { value: v })),
                    None => Some(Err(Error::ParseError)),
                };
            },
            None => {},
        }
        if self.matches(Token::Cond).is_some() {
            return match self.parse_list(arena, Some(Token::CloseB)) {
                Ok(AST::Sequence { values: v }) => Some(Ok(AST::Condition { list: v })),
                Ok(_) => Some(Err(Error::InvalidCondition)),
                Err(e) => Some(Err(e)),
            };
        }
        None
    }

    /// Reads the noun that begins with a number or a verb.
    fn noun_number(&mut self, arena: &mut Arena) -> (r: Option<Result<AST, Error>>)
        ensures
            (match r {
                Some(x) => spec_noun_number(state(old(self)@, old(arena)@)) == Some(
                    (state(final(self)@, final(arena)@), x),
                ) && final(self)@.len() <= old(self)@.len() && (x.is_ok() ==> final(self)@.len()
                    < old(self)@.len()),
                None => spec_noun_number(state(old(self)@, old(arena)@)).is_none() && final(self)@
                    == old(self)@ && final(arena)@ == old(arena)@,
            }),
        decreases old(self)@.len(), 1nat,
    {
        if self.at(Token::Number) {
            let v = match self.numbers(arena) {
                Ok(v) => v,
                Err(e) => {
                    return Some(Err(e));
                },
            };
            let a = Self::run(arena, v);
            return Some(self.applyindexright(arena, a));
        }
        match self.matches(Token::Verb) {
            Some(n) => {
                let c = n.value()[0];
                let _ = self.matches(Token::Colon);
                if self.at(Token::OpenB) && !self.at(Token::Dict) {
                    match self.expect(Token::OpenB) {
                        Ok(_) => {},
                        Err(e) => {
                            return Some(Err(e));
                        },
                    }
                    let r = match self.parse_list(arena, Some(Token::CloseB)) {
                        Ok(r) => r,
                        Err(e) => {
                            return Some(Err(e));
                        },
                    };
                    return Some(Ok(ast::verb(&mut arena.ast, c, one(r))));
                }
                Some(Ok(ast::verb(&mut arena.ast, c, Vec::new())))
            },
            None => None,
        }
    }

    /// Reads the noun that begins with a symbol or a string.
    fn noun_text(&mut self, arena: &mut Arena) -> (r: Option<Result<AST, Error>>)
        ensures
            (match r {
                Some(x) => spec_noun_text(state(old(self)@, old(arena)@)) == Some(
                    (state(final(self)@, final(arena)@), x),
                ) && final(self)@.len() < old(self)@.len(),
                None => spec_noun_text(state(old(self)@, old(arena)@)).is_none() && final(self)@
                    == old(self)@ && final(arena)@ == old(arena)@,
            }),
        decreases old(self)@.len(), 1nat,
    {
        if self.at(Token::Symbol) {
            let v = self.symbols(arena);
            let a = Self::run(arena, v);
            return Some(self.applyindexright(arena, a));
        }
        match self.matches(Token::String) {
            Some(s) => {
                if s.len() < 2 {
                    return Some(Err(Error::ParseError));
                }
                let t = vstd::slice::slice_subrange(s.value(), 1, s.len() - 1);
                match Chars::new(t) {
                    Some(v) => Some(self.applyindexright(arena, AST::String { value: v })),
                    None => Some(Err(Error::StringSize)),
                }
            },
            None => None,
        }
    }

    /// Reads the noun that begins with a name or an opening bracket.
    fn noun_group(&mut self, arena: &mut Arena) -> (r: Result<AST, Error>)
        ensures
            (state(final(self)@, final(arena)@), r) == spec_noun_group(
                state(old(self)@, old(arena)@),
            ),
            final(self)@.len() <= old(self)@.len(),
            r matches Ok(a) && !(a is Nil) ==> final(self)@.len() < old(self)@.len(),
        decreases old(self)@.len(), 1nat,
    {
        if self.at(Token::Name) {
            return self.noun_name(arena);
        }
        if self.matches(Token::OpenB).is_some() {
            return self.noun_dict(arena);
        }
        if self.matches(Token::OpenC).is_some() {
            return self.noun_lambda(arena);
        }
        if self.matches(Token::OpenP).is_some() {
            let n = match self.parse_list(arena, Some(Token::CloseP)) {
                Ok(n) => n,
                Err(e) => {
                    return Err(e);
                },
            };
            let r = match n {
                AST::Sequence { values: v } => AST::List { curry: false, values: v },
                x => x,
            };
            return self.applyindexright(arena, r);
        }
        Ok(AST::Nil)
    }

    /// Reads a noun.
    #[inline]
    fn parse_noun(&mut self, arena: &mut Arena) -> (r: Result<AST, Error>)
        ensures
            (state(final(self)@, final(arena)@), r) == spec_parse_noun(
                state(old(self)@, old(arena)@),
            ),
            final(self)@.len() <= old(self)@.len(),
            r matches Ok(a) && !(a is Nil) ==> final(self)@.len() < old(self)@.len(),
        decreases old(self)@.len(), 2nat,
    {
        match self.noun_mark(arena) {
            Some(r) => {
                return r;
            },
            None => {},
        }
        match self.noun_bits(arena) {
            Some(r) => {
                return r;
            },
            None => {},
        }
        match self.noun_number(arena) {
            Some(r) => {
                return r;
            },
            None => {},
        }
        match self.noun_text(arena) {
            Some(r) => {
                return r;
            },
            None => {},
        }
        self.noun_group(arena)
    }

    /// Reads what follows the left operand `node`.
    fn parse_ex(&mut self, arena: &mut Arena, node: AST) -> (r: Result<AST, Error>)
        ensures
            (state(final(self)@, final(arena)@), r) == spec_parse_ex(
                state(old(self)@, old(arena)@),
                node,
            ),
            final(self)@.len() <= old(self)@.len(),
        decreases old(self)@.len(), 4nat,
    {
        if node.is_nil() {
            return Ok(AST::Nil);
        }
        if self.at(Token::Adverb) {
            return self.parse_adverb(arena, AST::Nil, node);
        }
        if self.at_noun() && !self.at(Token::Ioverb) {
            let n = match self.parse_noun(arena) {
                Ok(n) => n,
                Err(e) => {
                    return Err(e);
                },
            };
            if self.at(Token::Adverb) {
                return self.parse_adverb(arena, node, n);
            }
            assert(n is Nil ==> spec_parse_ex(state(self@, arena@), n) == (
                state(self@, arena@),
                Ok::<AST, Error>(AST::Nil),
            ));
            let p = if n.is_nil() {
                AST::Nil
            } else {
                match self.parse_ex(arena, n) {
                    Ok(p) => p,
                    Err(e) => {
                        return Err(e);
                    },
                }
            };
            return match node {
                AST::Verb { kind: v, args: a } => {
                    if a.len() == 0 {
                        Ok(ast::verb(&mut arena.ast, v, one(p)))
                    } else {
                        Ok(AST::Verb { kind: AT, args: a })
                    }
                },
                x => Ok(ast::verb(&mut arena.ast, AT, two(x, p))),
            };
        }
        if self.at(Token::Verb) {
            let n = match self.expect(Token::Verb) {
                Ok(n) => n,
                Err(e) => {
                    return Err(e);
                },
            };
            let c = n.value()[0];
            if self.at(Token::Adverb) {
                let u = ast::verb(&mut arena.ast, c, Vec::new());
                return self.parse_adverb(arena, node, u);
            }
            let x = match self.parse_noun(arena) {
                Ok(x) => x,
                Err(e) => {
                    return Err(e);
                },
            };
            let r = match self.parse_ex(arena, x) {
                Ok(r) => r,
                Err(e) => {
                    return Err(e);
                },
            };
            return Ok(ast::verb(&mut arena.ast, c, two(node, r)));
        }
        Ok(node)
    }

    /// Reads a list of expressions up to the token `terminal`, or to the end
    /// of the text where there is none.
    fn parse_list(&mut self, arena: &mut Arena, terminal: Option<Token>) -> (r: Result<AST, Error>)
        ensures
            (state(final(self)@, final(arena)@), r) == spec_parse_list(
                state(old(self)@, old(arena)@),
                terminal,
            ),
            final(self)@.len() <= old(self)@.len(),
        decreases old(self)@.len(), 6nat,
    {
        let ghost st0 = state(self@, arena@);
        let mut vec: Vec<AST> = Vec::new();
        loop
            invariant_except_break
                spec_items(state(self@, arena@), terminal, vec@) == spec_items(
                    st0,
                    terminal,
                    Seq::empty(),
                ),
            invariant
                self@.len() <= st0.text.len(),
                st0 == state(old(self)@, old(arena)@),
            ensures
                (state(self@, arena@), Ok::<Seq<AST>, Error>(vec@)) == spec_items(
                    st0,
                    terminal,
                    Seq::empty(),
                ),
            decreases self@.len(),
        {
            if terminal.is_some() && self.at(terminal.unwrap()) {
                break;
            }
            let n = match self.parse_noun(arena) {
                Ok(n) => n,
                Err(e) => {
                    return Err(e);
                },
            };
            let a = match self.parse_ex(arena, n) {
                Ok(a) => a,
                Err(e) => {
                    return Err(e);
                },
            };
            vec.push(a);
            if self.matches(Token::Semi).is_none() {
                break;
            }
        }
        if let Some(x) = terminal {
            match self.expect(x) {
                Ok(_) => {},
                Err(e) => {
                    return Err(e);
                },
            }
        }
        if vec.len() == 0 {
            Ok(AST::Nil)
        } else if vec.len() == 1 {
            Ok(vec[0])
        } else {
            Ok(ast::sequence(&mut arena.ast, vec))
        }
    }
}

/// A parser with no text.
pub fn new() -> (p: Parser)
    ensures
        p@ == Seq::<u8>::empty(),
{
    Parser { text: Vec::new() }
}

} // verus!
