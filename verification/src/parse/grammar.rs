//! The grammar as mathematics: what the parser makes of a text, stated as
//! functions from the state before to the state after and the result.
//!
//! A rule that calls another one after it has read something tests that
//! less text is left than before. The test shows that the rules end; it
//! never fails, since no rule reads backwards (see `growth`).

use vstd::prelude::*;
use crate::parse::ascii::{AT, BLANK, LOWER_X, LOWER_Y, LOWER_Z, NINE, POINT, RETURN, TAB, ZERO};
use crate::parse::ast::{
    AST, Adverb, Args, Chars, spec_adverb, spec_atom, spec_dict, spec_list, spec_sequence,
    spec_verb,
};
use crate::parse::error::Error;
use crate::parse::store::{ArenaView, spec_name_id};
use crate::parse::token::{Token, spec_canonical, spec_is_decimal, spec_parse_hex, spec_parse_int};

verus! {

/// Whether the byte is white space: a blank or one of the control characters
/// from the tabulator to the carriage return.
pub open spec fn is_space(b: u8) -> bool {
    b == BLANK || (TAB <= b && b <= RETURN)
}

/// The text without the white space at its beginning.
pub open spec fn trim_start(text: Seq<u8>) -> Seq<u8>
    decreases text.len(),
{
    if text.len() > 0 && is_space(text[0]) {
        trim_start(text.skip(1))
    } else {
        text
    }
}

/// The text without the white space at its end.
pub open spec fn trim_end(text: Seq<u8>) -> Seq<u8>
    decreases text.len(),
{
    if text.len() > 0 && is_space(text.last()) {
        trim_end(text.drop_last())
    } else {
        text
    }
}

/// The text without the white space at both ends.
pub open spec fn trim(text: Seq<u8>) -> Seq<u8> {
    trim_end(trim_start(text))
}

/// The state of a parse: the text that is still to be read, and the store.
pub struct PState {
    pub text: Seq<u8>,
    pub arena: ArenaView,
}

impl PState {
    pub open spec fn with_text(self, text: Seq<u8>) -> PState {
        PState { text: text, ..self }
    }

    pub open spec fn with_arena(self, arena: ArenaView) -> PState {
        PState { arena: arena, ..self }
    }

    pub open spec fn with_cells(self, cells: Seq<AST>) -> PState {
        PState { arena: self.arena.with_cells(cells), ..self }
    }

    /// Whether less text is left here than in `other`.
    pub open spec fn shorter(self, other: PState) -> bool {
        self.text.len() < other.text.len()
    }

    /// Whether no more text is left here than in `other`.
    pub open spec fn no_longer(self, other: PState) -> bool {
        self.text.len() <= other.text.len()
    }
}

/// Whether a token of kind `t` stands at the head of `text`.
pub open spec fn spec_at(t: Token, text: Seq<u8>) -> bool {
    t.spec_find(text).is_some()
}

/// The lexeme of kind `t` at the head of `text` and the text after it, white
/// space skipped.
pub open spec fn spec_expect(t: Token, text: Seq<u8>) -> Option<(Seq<u8>, Seq<u8>)> {
    match t.spec_find(text) {
        Some(raw) => Some((raw, trim_start(text.skip(raw.len() as int)))),
        None => None,
    }
}

/// Whether the text begins with a noun: a number, a name, a symbol, a string
/// or the opening of a condition, a group or a lambda.
pub open spec fn spec_at_noun(text: Seq<u8>) -> bool {
    spec_at(Token::Number, text) || spec_at(Token::Name, text) || spec_at(Token::Symbol, text)
        || spec_at(Token::String, text) || spec_at(Token::Cond, text) || spec_at(
        Token::OpenP,
        text,
    ) || spec_at(Token::OpenC, text)
}

/// Reads a token of kind `t`: the lexeme and the state after it.
pub open spec fn eat(st: PState, t: Token) -> Option<(Seq<u8>, PState)> {
    match spec_expect(t, st.text) {
        Some((raw, rest)) => Some((raw, st.with_text(rest))),
        None => None,
    }
}

/// What the parser hands back: the state after and the node or the error.
pub type Parsed = (PState, Result<AST, Error>);

pub open spec fn failed(st: PState, e: Error) -> Parsed {
    (st, Err(e))
}

pub open spec fn done(st: PState, a: AST) -> Parsed {
    (st, Ok(a))
}

/// The names `x`, `y` and `z`.
pub open spec fn name_x() -> Seq<u8> {
    seq![LOWER_X]
}

pub open spec fn name_y() -> Seq<u8> {
    seq![LOWER_Y]
}

pub open spec fn name_z() -> Seq<u8> {
    seq![LOWER_Z]
}

/// The digits of a bit string as integer nodes, the closing `b` left out.
pub open spec fn bool_items(raw: Seq<u8>) -> Seq<AST> {
    Seq::new((raw.len() - 1) as nat, |i: int| AST::Int { value: (raw[i] - ZERO) as i64 })
}

/// A number literal: an integer where the lexeme spells one that fits, else a
/// decimal literal by its interned canonical form.
pub open spec fn spec_number(arena: ArenaView, raw: Seq<u8>) -> (ArenaView, Result<AST, Error>) {
    match spec_parse_int(raw) {
        Some(v) => (arena, Ok(AST::Int { value: v })),
        None => if spec_is_decimal(raw) {
            (
                arena.intern_float(spec_canonical(raw)),
                Ok(AST::Float { value: spec_name_id(arena.floats, spec_canonical(raw)) }),
            )
        } else {
            (arena, Err(Error::ParseError))
        },
    }
}

/// A run of nodes as one noun: the node itself where there is one, else a
/// curried list.
pub open spec fn spec_run(arena: ArenaView, items: Seq<AST>) -> (ArenaView, AST) {
    if items.len() == 1 {
        (arena, items[0])
    } else {
        let (cells, a) = spec_list(true, arena.cells, items);
        (arena.with_cells(cells), a)
    }
}

/// The parameters that a lambda without a header gets from its body: `x`,
/// `y` and `z` where `z` occurs, `x` and `y` where `y` occurs, `x` where `x`
/// occurs, else none.
pub open spec fn spec_implicit_args(arena: ArenaView, body: AST) -> (ArenaView, Args) {
    let names = body.names_in(arena.cells, arena.cells.len());
    if names.contains(spec_name_id(arena.names, name_z())) {
        let a1 = arena.intern_name(name_x());
        let a2 = a1.intern_name(name_y());
        let a3 = a2.intern_name(name_z());
        (
            a3,
            Args::spec_new().spec_push(spec_name_id(arena.names, name_x())).spec_push(
                spec_name_id(a1.names, name_y()),
            ).spec_push(spec_name_id(a2.names, name_z())),
        )
    } else if names.contains(spec_name_id(arena.names, name_y())) {
        let a1 = arena.intern_name(name_x());
        let a2 = a1.intern_name(name_y());
        (
            a2,
            Args::spec_new().spec_push(spec_name_id(arena.names, name_x())).spec_push(
                spec_name_id(a1.names, name_y()),
            ),
        )
    } else if names.contains(spec_name_id(arena.names, name_x())) {
        (
            arena.intern_name(name_x()),
            Args::spec_new().spec_push(spec_name_id(arena.names, name_x())),
        )
    } else {
        (arena, Args::spec_new())
    }
}

/// A list of expressions separated by `;`, up to the end of the text or to
/// the token `terminal`, which is read too. No expression gives the empty
/// node, one gives itself, more give a sequence.
pub open spec fn spec_parse_list(st: PState, terminal: Option<Token>) -> Parsed
    decreases st.text.len(), 6nat,
{
    let (st1, r) = spec_items(st, terminal, Seq::empty());
    match r {
        Err(e) => failed(st1, e),
        Ok(items) => {
            let closed = match terminal {
                Some(t) => match eat(st1, t) {
                    Some((_, st2)) => Some(st2),
                    None => None,
                },
                None => Some(st1),
            };
            match closed {
                None => failed(st1, Error::ParseError),
                Some(st2) => if items.len() == 0 {
                    done(st2, AST::Nil)
                } else if items.len() == 1 {
                    done(st2, items[0])
                } else {
                    let (cells, a) = spec_sequence(st2.arena.cells, items);
                    done(st2.with_cells(cells), a)
                },
            }
        },
    }
}

/// The expressions of a list, appended to `acc`.
pub open spec fn spec_items(st: PState, terminal: Option<Token>, acc: Seq<AST>) -> (
    PState,
    Result<Seq<AST>, Error>,
)
    decreases st.text.len(), 5nat,
{
    if terminal.is_some() && spec_at(terminal.unwrap(), st.text) {
        (st, Ok(acc))
    } else {
        let (st1, r1) = spec_parse_noun(st);
        match r1 {
            Err(e) => (st1, Err(e)),
            Ok(n) => if !st1.no_longer(st) {
                (st1, Err(Error::ParseError))
            } else {
                let (st2, r2) = spec_parse_ex(st1, n);
                match r2 {
                    Err(e) => (st2, Err(e)),
                    Ok(a) => match eat(st2, Token::Semi) {
                        None => (st2, Ok(acc.push(a))),
                        Some((_, st3)) => if st3.shorter(st) {
                            spec_items(st3, terminal, acc.push(a))
                        } else {
                            (st3, Err(Error::ParseError))
                        },
                    },
                }
            },
        }
    }
}

/// What follows a left operand `node`: an adverb form, a noun to apply
/// `node` to, or a verb with its right operand; else `node` itself.
pub open spec fn spec_parse_ex(st: PState, node: AST) -> Parsed
    decreases st.text.len(), 4nat,
{
    if node is Nil {
        done(st, AST::Nil)
    } else if spec_at(Token::Adverb, st.text) {
        spec_parse_adverb(st, AST::Nil, node)
    } else if spec_at_noun(st.text) && !spec_at(Token::Ioverb, st.text) {
        let (st1, r1) = spec_parse_noun(st);
        match r1 {
            Err(e) => failed(st1, e),
            Ok(n) => if !st1.no_longer(st) {
                failed(st1, Error::ParseError)
            } else if spec_at(Token::Adverb, st1.text) {
                spec_parse_adverb(st1, node, n)
            } else {
                let (st2, r2) = if st1.shorter(st) {
                    spec_parse_ex(st1, n)
                } else {
                    done(st1, AST::Nil)
                };
                match r2 {
                    Err(e) => failed(st2, e),
                    Ok(p) => match node {
                        AST::Verb { kind, args } => if args.len == 0 {
                            let (cells, a) = spec_verb(st2.arena.cells, kind, seq![p]);
                            done(st2.with_cells(cells), a)
                        } else {
                            done(st2, AST::Verb { kind: AT, args: args })
                        },
                        x => {
                            let (cells, a) = spec_verb(st2.arena.cells, AT, seq![x, p]);
                            done(st2.with_cells(cells), a)
                        },
                    },
                }
            },
        }
    } else if spec_at(Token::Verb, st.text) {
        match eat(st, Token::Verb) {
            None => failed(st, Error::ParseError),
            Some((raw, st1)) => if !st1.shorter(st) {
                failed(st1, Error::ParseError)
            } else if spec_at(Token::Adverb, st1.text) {
                let (cells, u) = spec_verb(st1.arena.cells, raw[0], Seq::empty());
                spec_parse_adverb(st1.with_cells(cells), node, u)
            } else {
                let (st2, r2) = spec_parse_noun(st1);
                match r2 {
                    Err(e) => failed(st2, e),
                    Ok(x) => if !st2.no_longer(st1) {
                        failed(st2, Error::ParseError)
                    } else {
                        let (st3, r3) = spec_parse_ex(st2, x);
                        match r3 {
                            Err(e) => failed(st3, e),
                            Ok(r) => {
                                let (cells, a) = spec_verb(st3.arena.cells, raw[0], seq![node, r]);
                                done(st3.with_cells(cells), a)
                            },
                        }
                    },
                }
            },
        }
    } else {
        done(st, node)
    }
}

/// An adverb and its right operand, with `left` and `verb` before it.
pub open spec fn spec_parse_adverb(st: PState, left: AST, verb: AST) -> Parsed
    decreases st.text.len(), 3nat,
{
    match eat(st, Token::Adverb) {
        None => failed(st, Error::ParseError),
        Some((a, st1)) => if !st1.shorter(st) {
            failed(st1, Error::ParseError)
        } else {
            let (st2, r2) = spec_parse_noun(st1);
            match r2 {
                Err(e) => failed(st2, e),
                Ok(n) => if !st2.no_longer(st1) {
                    failed(st2, Error::ParseError)
                } else {
                    let (st3, r3) = spec_parse_ex(st2, n);
                    match r3 {
                        Err(e) => failed(st3, e),
                        Ok(right) => match Adverb::spec_from_str(a) {
                            None => failed(st3, Error::UnexpectedToken),
                            Some(kind) => {
                                let (cells, x) = spec_adverb(
                                    st3.arena.cells,
                                    kind,
                                    left,
                                    verb,
                                    right,
                                );
                                done(st3.with_cells(cells), x)
                            },
                        },
                    }
                },
            }
        },
    }
}

/// The bracketed index lists that follow a noun: each applies what stands
/// before it, by the verb `.`, to the list between the brackets.
pub open spec fn spec_apply_right(st: PState, node: AST) -> Parsed
    decreases st.text.len(), 1nat,
{
    match eat(st, Token::OpenB) {
        None => done(st, node),
        Some((_, st1)) => if !st1.shorter(st) {
            failed(st1, Error::ParseError)
        } else {
            let (st2, r2) = spec_parse_list(st1, Some(Token::CloseB));
            match r2 {
                Err(e) => failed(st2, e),
                Ok(e) => if !st2.no_longer(st1) {
                    failed(st2, Error::ParseError)
                } else {
                    let (cells, v) = spec_verb(st2.arena.cells, POINT, seq![node, e]);
                    spec_apply_right(st2.with_cells(cells), v)
                },
            }
        },
    }
}

/// The number literals that follow one another, appended to `acc`.
pub open spec fn spec_numbers(st: PState, acc: Seq<AST>) -> (PState, Result<Seq<AST>, Error>)
    decreases st.text.len(), 0nat,
{
    match eat(st, Token::Number) {
        None => (st, Ok(acc)),
        Some((raw, st1)) => {
            let (arena, r) = spec_number(st1.arena, raw);
            match r {
                Err(e) => (st1.with_arena(arena), Err(e)),
                Ok(a) => if st1.shorter(st) {
                    spec_numbers(st1.with_arena(arena), acc.push(a))
                } else {
                    (st1.with_arena(arena), Err(Error::ParseError))
                },
            }
        },
    }
}

/// The symbols that follow one another, appended to `acc`.
pub open spec fn spec_symbols(st: PState, acc: Seq<AST>) -> (PState, Seq<AST>)
    decreases st.text.len(), 0nat,
{
    match eat(st, Token::Symbol) {
        None => (st, acc),
        Some((raw, st1)) => {
            let t = raw.skip(1);
            let a = AST::Symbol { value: spec_name_id(st1.arena.symbols, t) };
            let st2 = st1.with_arena(st1.arena.intern_symbol(t));
            if st1.shorter(st) {
                spec_symbols(st2, acc.push(a))
            } else {
                (st2, acc.push(a))
            }
        },
    }
}

/// The `name:expr` pairs of a dictionary literal, appended to `keys` and
/// `values`.
pub open spec fn spec_dict_items(st: PState, keys: Seq<AST>, values: Seq<AST>) -> (
    PState,
    Result<(Seq<AST>, Seq<AST>), Error>,
)
    decreases st.text.len(), 0nat,
{
    match eat(st, Token::Name) {
        None => (st, Err(Error::ParseError)),
        Some((key, st1)) => {
            let st2 = match eat(st1, Token::Colon) {
                Some((_, s)) => s,
                None => st1,
            };
            if !st2.shorter(st) {
                (st2, Err(Error::ParseError))
            } else {
                let (st3, r3) = spec_parse_noun(st2);
                match r3 {
                    Err(e) => (st3, Err(e)),
                    Ok(n) => if !st3.no_longer(st2) {
                        (st3, Err(Error::ParseError))
                    } else {
                        let (st4, r4) = spec_parse_ex(st3, n);
                        match r4 {
                            Err(e) => (st4, Err(e)),
                            Ok(value) => {
                                let kname = AST::Name { value: spec_name_id(st4.arena.names, key) };
                                let st5 = st4.with_arena(st4.arena.intern_name(key));
                                let keys1 = keys.push(kname);
                                let values1 = values.push(value);
                                match eat(st5, Token::Semi) {
                                    None => (st5, Ok((keys1, values1))),
                                    Some((_, st6)) => if st6.shorter(st) {
                                        spec_dict_items(st6, keys1, values1)
                                    } else {
                                        (st6, Err(Error::ParseError))
                                    },
                                }
                            },
                        }
                    },
                }
            }
        },
    }
}

/// The parameter names of a lambda header, appended to `args`. A header
/// holds at most eight.
pub open spec fn spec_params(st: PState, args: Args) -> (PState, Result<Args, Error>)
    decreases st.text.len(), 0nat,
{
    if spec_at(Token::CloseB, st.text) {
        (st, Ok(args))
    } else {
        match eat(st, Token::Name) {
            None => (st, Err(Error::ParseError)),
            Some((raw, st1)) => if !args.has_room() {
                (st1, Err(Error::ParseError))
            } else {
                let args1 = args.spec_push(spec_name_id(st1.arena.names, raw));
                let st2 = st1.with_arena(st1.arena.intern_name(raw));
                match eat(st2, Token::Semi) {
                    None => (st2, Ok(args1)),
                    Some((_, st3)) => if st3.shorter(st) {
                        spec_params(st3, args1)
                    } else {
                        (st3, Err(Error::ParseError))
                    },
                }
            },
        }
    }
}

/// The noun that begins with a name: a built-in function with its calls, a
/// binding `name:expr`, an indexed name `name[..]`, or the name itself.
pub open spec fn spec_noun_name(st: PState) -> Parsed
    decreases st.text.len(), 0nat,
{
    match eat(st, Token::Name) {
        None => failed(st, Error::ParseError),
        Some((t, st1)) => if !st1.shorter(st) {
            failed(st1, Error::ParseError)
        } else {
            match st1.arena.native_id(t) {
                Some(x) => spec_apply_right(st1, AST::Native { name: x }),
                None => match eat(st1, Token::Colon) {
                    Some((_, st2)) => {
                        let st3 = match eat(st2, Token::Colon) {
                            Some((_, s)) => s,
                            None => st2,
                        };
                        if !st3.shorter(st) {
                            failed(st3, Error::ParseError)
                        } else {
                            let (st4, r4) = spec_parse_noun(st3);
                            match r4 {
                                Err(e) => failed(st4, e),
                                Ok(n) => if !st4.no_longer(st3) {
                                    failed(st4, Error::ParseError)
                                } else {
                                    let (st5, r5) = spec_parse_ex(st4, n);
                                    match r5 {
                                        Err(e) => failed(st5, e),
                                        Ok(r) => if r is Nil {
                                            failed(st5, Error::ParseError)
                                        } else {
                                            let name = spec_name_id(st5.arena.names, t);
                                            let arena = st5.arena.intern_name(t);
                                            let (cells, id) = spec_atom(arena.cells, r);
                                            done(
                                                st5.with_arena(arena.with_cells(cells)),
                                                AST::Nameref { name: name, value: id },
                                            )
                                        },
                                    }
                                },
                            }
                        }
                    },
                    None => match eat(st1, Token::OpenB) {
                        Some((_, st2)) => if !st2.shorter(st) {
                            failed(st2, Error::ParseError)
                        } else {
                            let (st3, r3) = spec_parse_list(st2, Some(Token::CloseB));
                            match r3 {
                                Err(e) => failed(st3, e),
                                Ok(index) => {
                                    let u = AST::Name { value: spec_name_id(st3.arena.names, t) };
                                    let arena = st3.arena.intern_name(t);
                                    let (cells, a) = spec_verb(arena.cells, POINT, seq![u, index]);
                                    done(st3.with_arena(arena.with_cells(cells)), a)
                                },
                            }
                        },
                        None => done(
                            st1.with_arena(st1.arena.intern_name(t)),
                            AST::Name { value: spec_name_id(st1.arena.names, t) },
                        ),
                    },
                },
            }
        },
    }
}

/// A dictionary literal, after its opening bracket.
pub open spec fn spec_noun_dict(st: PState) -> Parsed
    decreases st.text.len(), 1nat,
{
    match eat(st, Token::CloseB) {
        Some((_, st1)) => {
            let (cells, a) = spec_dict(st1.arena.cells, Seq::empty(), Seq::empty());
            done(st1.with_cells(cells), a)
        },
        None => {
            let (st1, r1) = spec_dict_items(st, Seq::empty(), Seq::empty());
            match r1 {
                Err(e) => failed(st1, e),
                Ok((keys, values)) => match eat(st1, Token::CloseB) {
                    None => failed(st1, Error::ParseError),
                    Some((_, st2)) => {
                        let (cells, a) = spec_dict(st2.arena.cells, keys, values);
                        done(st2.with_cells(cells), a)
                    },
                },
            }
        },
    }
}

/// A lambda, after its opening brace: a header `[p;..]` or none, the body up
/// to the closing brace, and the calls that follow.
pub open spec fn spec_noun_lambda(st: PState) -> Parsed
    decreases st.text.len(), 7nat,
{
    let (st1, r1) = match eat(st, Token::OpenB) {
        None => (st, Ok::<Args, Error>(Args::spec_new())),
        Some((_, s1)) => if !s1.shorter(st) {
            (s1, Err(Error::ParseError))
        } else {
            let (s2, r2) = spec_params(s1, Args::spec_new());
            match r2 {
                Err(e) => (s2, Err(e)),
                Ok(args) => match eat(s2, Token::CloseB) {
                    None => (s2, Err(Error::ParseError)),
                    Some((_, s3)) => (s3, Ok(args)),
                },
            }
        },
    };
    match r1 {
        Err(e) => failed(st1, e),
        Ok(args) => if !st1.no_longer(st) {
            failed(st1, Error::ParseError)
        } else {
            let (st2, r2) = spec_parse_list(st1, Some(Token::CloseC));
            match r2 {
                Err(e) => failed(st2, e),
                Ok(r) => {
                    let (arena, args1) = if args@.len() == 0 {
                        spec_implicit_args(st2.arena, r)
                    } else {
                        (st2.arena, args)
                    };
                    let (cells, b) = spec_atom(arena.cells, r);
                    let st3 = st2.with_arena(arena.with_cells(cells));
                    if st3.no_longer(st) {
                        spec_apply_right(st3, AST::Lambda { args: args1, body: b })
                    } else {
                        failed(st3, Error::ParseError)
                    }
                },
            }
        },
    }
}

/// The noun that begins with `\\`, a bare `:` or an I/O verb, if one of them
/// stands at the head of the text.
pub open spec fn spec_noun_mark(st: PState) -> Option<Parsed> {
    if let Some((_, st1)) = eat(st, Token::Quit) {
        Some(done(st1, AST::Quit))
    } else if let Some((_, st1)) = eat(st, Token::Colon) {
        let b = AST::Name { value: spec_name_id(st1.arena.names, name_y()) };
        let a1 = st1.arena.intern_name(name_y());
        let x = spec_name_id(a1.names, name_x());
        let a2 = a1.intern_name(name_x());
        let y = spec_name_id(a2.names, name_y());
        let a3 = a2.intern_name(name_y());
        let (cells, id) = spec_atom(a3.cells, b);
        Some(
            done(
                st1.with_arena(a3.with_cells(cells)),
                AST::Lambda { args: Args::spec_new().spec_push(x).spec_push(y), body: id },
            ),
        )
    } else if let Some((raw, st1)) = eat(st, Token::Ioverb) {
        if ZERO <= raw[0] <= NINE {
            Some(done(st1, AST::Ioverb { fd: (raw[0] - ZERO) as u8 }))
        } else {
            Some(failed(st1, Error::UnexpectedToken))
        }
    } else {
        None
    }
}

/// The noun that begins with a bit string, a hexadecimal literal or `$[`, if
/// one of them stands at the head of the text.
pub open spec fn spec_noun_bits(st: PState) -> Option<Parsed>
    decreases st.text.len(), 1nat,
{
    if let Some((raw, st1)) = eat(st, Token::Bool) {
        let (cells, a) = spec_list(true, st1.arena.cells, bool_items(raw));
        if st1.shorter(st) {
            Some(spec_apply_right(st1.with_cells(cells), a))
        } else {
            Some(failed(st1, Error::ParseError))
        }
    } else if let Some((raw, st1)) = eat(st, Token::Hexlit) {
        let digits = if raw.len() >= 2 {
            spec_parse_hex(raw.skip(2))
        } else {
            None
        };
        match digits {
            Some(v) => Some(done(st1, AST::Int { value: v })),
            None => Some(failed(st1, Error::ParseError)),
        }
    } else if let Some((_, st1)) = eat(st, Token::Cond) {
        if !st1.shorter(st) {
            Some(failed(st1, Error::ParseError))
        } else {
            let (st2, r2) = spec_parse_list(st1, Some(Token::CloseB));
            match r2 {
                Err(e) => Some(failed(st2, e)),
                Ok(AST::Sequence { values }) => Some(done(st2, AST::Condition { list: values })),
                Ok(_) => Some(failed(st2, Error::InvalidCondition)),
            }
        }
    } else {
        None
    }
}

/// The noun that begins with a number or a verb, if one of them stands at
/// the head of the text.
pub open spec fn spec_noun_number(st: PState) -> Option<Parsed>
    decreases st.text.len(), 1nat,
{
    if spec_at(Token::Number, st.text) {
        let (st1, r1) = spec_numbers(st, Seq::empty());
        match r1 {
            Err(e) => Some(failed(st1, e)),
            Ok(items) => {
                let (arena, a) = spec_run(st1.arena, items);
                if st1.shorter(st) {
                    Some(spec_apply_right(st1.with_arena(arena), a))
                } else {
                    Some(failed(st1.with_arena(arena), Error::ParseError))
                }
            },
        }
    } else if let Some((raw, st1)) = eat(st, Token::Verb) {
        let st2 = match eat(st1, Token::Colon) {
            Some((_, s)) => s,
            None => st1,
        };
        if spec_at(Token::OpenB, st2.text) && !spec_at(Token::Dict, st2.text) {
            match eat(st2, Token::OpenB) {
                None => Some(failed(st2, Error::ParseError)),
                Some((_, st3)) => if !st3.shorter(st) {
                    Some(failed(st3, Error::ParseError))
                } else {
                    let (st4, r4) = spec_parse_list(st3, Some(Token::CloseB));
                    match r4 {
                        Err(e) => Some(failed(st4, e)),
                        Ok(r) => {
                            let (cells, a) = spec_verb(st4.arena.cells, raw[0], seq![r]);
                            Some(done(st4.with_cells(cells), a))
                        },
                    }
                },
            }
        } else {
            let (cells, a) = spec_verb(st2.arena.cells, raw[0], Seq::empty());
            Some(done(st2.with_cells(cells), a))
        }
    } else {
        None
    }
}

/// The noun that begins with a symbol or a string, if one of them stands at
/// the head of the text.
pub open spec fn spec_noun_text(st: PState) -> Option<Parsed>
    decreases st.text.len(), 1nat,
{
    if spec_at(Token::Symbol, st.text) {
        let (st1, items) = spec_symbols(st, Seq::empty());
        let (arena, a) = spec_run(st1.arena, items);
        if st1.shorter(st) {
            Some(spec_apply_right(st1.with_arena(arena), a))
        } else {
            Some(failed(st1.with_arena(arena), Error::ParseError))
        }
    } else if let Some((raw, st1)) = eat(st, Token::String) {
        if raw.len() < 2 || !st1.shorter(st) {
            Some(failed(st1, Error::ParseError))
        } else {
            match Chars::spec_new(raw.subrange(1, raw.len() - 1)) {
                Some(v) => Some(spec_apply_right(st1, AST::String { value: v })),
                None => Some(failed(st1, Error::StringSize)),
            }
        }
    } else {
        None
    }
}

/// The noun that begins with a name or an opening bracket; the empty node
/// where none does.
pub open spec fn spec_noun_group(st: PState) -> Parsed
    decreases st.text.len(), 1nat,
{
    if spec_at(Token::Name, st.text) {
        spec_noun_name(st)
    } else if let Some((_, st1)) = eat(st, Token::OpenB) {
        if st1.shorter(st) {
            spec_noun_dict(st1)
        } else {
            failed(st1, Error::ParseError)
        }
    } else if let Some((_, st1)) = eat(st, Token::OpenC) {
        if st1.shorter(st) {
            spec_noun_lambda(st1)
        } else {
            failed(st1, Error::ParseError)
        }
    } else if let Some((_, st1)) = eat(st, Token::OpenP) {
        if !st1.shorter(st) {
            failed(st1, Error::ParseError)
        } else {
            let (st2, r2) = spec_parse_list(st1, Some(Token::CloseP));
            match r2 {
                Err(e) => failed(st2, e),
                Ok(n) => {
                    let r = match n {
                        AST::Sequence { values } => AST::List { curry: false, values: values },
                        x => x,
                    };
                    if st2.no_longer(st1) {
                        spec_apply_right(st2, r)
                    } else {
                        failed(st2, Error::ParseError)
                    }
                },
            }
        }
    } else {
        done(st, AST::Nil)
    }
}

/// A noun: the literal, name, verb or bracketed form at the head of the
/// text, with the index lists that follow it. The kinds are tried in this
/// order: `\\`, a bare `:`, an I/O verb, a bit string, a hexadecimal literal,
/// `$[`, numbers, a verb, symbols, a string, a name, `[`, `{`, `(`. Where no
/// noun begins, the result is the empty node and nothing is read.
pub open spec fn spec_parse_noun(st: PState) -> Parsed
    decreases st.text.len(), 2nat,
{
    match spec_noun_mark(st) {
        Some(p) => p,
        None => match spec_noun_bits(st) {
            Some(p) => p,
            None => match spec_noun_number(st) {
                Some(p) => p,
                None => match spec_noun_text(st) {
                    Some(p) => p,
                    None => spec_noun_group(st),
                },
            },
        },
    }
}

} // verus!
