//! Parsing only adds: a cell keeps its id and its content, an interned text
//! keeps its id, and the text that is left never gets longer.

use vstd::prelude::*;
use crate::parse::ascii::{POINT};
use crate::parse::ast::{AST, Args, Chars, spec_atom, spec_list, spec_verb};
use crate::parse::error::Error;
use crate::parse::grammar::{
    PState, bool_items, eat, is_space, name_x, name_y, name_z, spec_apply_right, spec_at,
    spec_at_noun, spec_dict_items, spec_implicit_args, spec_items, spec_noun_bits, spec_noun_dict,
    spec_noun_group, spec_noun_lambda, spec_noun_mark, spec_noun_name, spec_noun_number,
    spec_noun_text, spec_number, spec_numbers, spec_params, spec_parse_adverb, spec_parse_ex,
    spec_parse_list, spec_parse_noun, spec_run, spec_symbols, trim_start,
};
use crate::parse::store::{ArenaView, spec_intern, spec_name_id};
use crate::parse::token::{Token, spec_canonical};

verus! {

/// Whether `new` begins with all of `old`.
pub open spec fn extends<T>(new: Seq<T>, old: Seq<T>) -> bool {
    old.len() <= new.len() && forall|i: int| 0 <= i < old.len() ==> #[trigger] new[i] == old[i]
}

/// Whether the store `new` holds all that `old` holds, at the same ids: the
/// cells, the names, the symbols and the decimal literals; and knows the
/// same built-in functions.
pub open spec fn store_extends(new: ArenaView, old: ArenaView) -> bool {
    &&& extends(new.cells, old.cells)
    &&& extends(new.names, old.names)
    &&& extends(new.symbols, old.symbols)
    &&& extends(new.floats, old.floats)
    &&& new.natives == old.natives
}

/// Whether `after` can follow `before` in a parse: the store only got more,
/// and the text that is left did not get longer.
pub open spec fn follows(after: PState, before: PState) -> bool {
    store_extends(after.arena, before.arena) && after.text.len() <= before.text.len()
}

/// Trimming never makes a text longer.
pub proof fn lemma_trim_start_len(text: Seq<u8>)
    ensures
        trim_start(text).len() <= text.len(),
    decreases text.len(),
{
    if text.len() > 0 && is_space(text[0]) {
        lemma_trim_start_len(text.skip(1));
    }
}

/// Reading a token leaves the store alone and less text.
pub proof fn lemma_eat(st: PState, t: Token)
    ensures
        eat(st, t) matches Some((raw, st1)) ==> st1.arena == st.arena && st1.text.len()
            < st.text.len() && raw.len() > 0,
{
    match t.spec_find(st.text) {
        Some(raw) => {
            lemma_trim_start_len(st.text.skip(raw.len() as int));
        },
        None => {},
    }
}

/// Interning leaves every text that was in the table at its place.
pub proof fn lemma_intern_extends(table: Seq<Seq<u8>>, s: Seq<u8>)
    ensures
        extends(spec_intern(table, s), table),
{
}

/// A run of number literals only adds to the store.
pub proof fn lemma_numbers(st: PState, acc: Seq<AST>)
    ensures
        follows(spec_numbers(st, acc).0, st),
    decreases st.text.len(),
{
    lemma_eat(st, Token::Number);
    if let Some((raw, st1)) = eat(st, Token::Number) {
        let (arena, r) = spec_number(st1.arena, raw);
        lemma_intern_extends(st1.arena.floats, spec_canonical(raw));
        if let Ok(a) = r {
            if st1.shorter(st) {
                lemma_numbers(st1.with_arena(arena), acc.push(a));
            }
        }
    }
}

/// A run of symbols only adds to the store.
pub proof fn lemma_symbols(st: PState, acc: Seq<AST>)
    ensures
        follows(spec_symbols(st, acc).0, st),
    decreases st.text.len(),
{
    lemma_eat(st, Token::Symbol);
    if let Some((raw, st1)) = eat(st, Token::Symbol) {
        let t = raw.skip(1);
        lemma_intern_extends(st1.arena.symbols, t);
        let st2 = st1.with_arena(st1.arena.intern_symbol(t));
        if st1.shorter(st) {
            lemma_symbols(
                st2,
                acc.push(AST::Symbol { value: spec_name_id(st1.arena.symbols, t) }),
            );
        }
    }
}

/// The parameter names of a lambda header only add to the store.
pub proof fn lemma_params(st: PState, args: Args)
    ensures
        follows(spec_params(st, args).0, st),
    decreases st.text.len(),
{
    if !spec_at(Token::CloseB, st.text) {
        lemma_eat(st, Token::Name);
        if let Some((raw, st1)) = eat(st, Token::Name) {
            if args.has_room() {
                lemma_intern_extends(st1.arena.names, raw);
                let args1 = args.spec_push(
                    spec_name_id(st1.arena.names, raw),
                );
                let st2 = st1.with_arena(st1.arena.intern_name(raw));
                lemma_eat(st2, Token::Semi);
                if let Some((_, st3)) = eat(st2, Token::Semi) {
                    if st3.shorter(st) {
                        lemma_params(st3, args1);
                    }
                }
            }
        }
    }
}

/// The implicit parameters of a lambda only add to the store.
pub proof fn lemma_implicit_args(arena: ArenaView, body: AST)
    ensures
        store_extends(spec_implicit_args(arena, body).0, arena),
{
    let a1 = arena.intern_name(name_x());
    let a2 = a1.intern_name(name_y());
    lemma_intern_extends(arena.names, name_x());
    lemma_intern_extends(a1.names, name_y());
    lemma_intern_extends(a2.names, name_z());
}

/// A list of expressions only adds to the store.
pub proof fn lemma_parse_list(st: PState, terminal: Option<Token>)
    ensures
        follows(spec_parse_list(st, terminal).0, st),
    decreases st.text.len(), 6nat, 0nat,
{
    lemma_items(st, terminal, Seq::empty());
    let (st1, r) = spec_items(st, terminal, Seq::empty());
    if let Some(t) = terminal {
        lemma_eat(st1, t);
    }
}

/// The expressions of a list only add to the store.
pub proof fn lemma_items(st: PState, terminal: Option<Token>, acc: Seq<AST>)
    ensures
        follows(spec_items(st, terminal, acc).0, st),
    decreases st.text.len(), 5nat, 0nat,
{
    if !(terminal.is_some() && spec_at(terminal.unwrap(), st.text)) {
        lemma_parse_noun(st);
        let (st1, r1) = spec_parse_noun(st);
        if let Ok(n) = r1 {
            if st1.no_longer(st) {
                lemma_parse_ex(st1, n);
                let (st2, r2) = spec_parse_ex(st1, n);
                if let Ok(a) = r2 {
                    lemma_eat(st2, Token::Semi);
                    if let Some((_, st3)) = eat(st2, Token::Semi) {
                        if st3.shorter(st) {
                            lemma_items(st3, terminal, acc.push(a));
                        }
                    }
                }
            }
        }
    }
}

/// A noun after a left operand, and what follows it, only add to the store.
proof fn lemma_ex_noun(st: PState, node: AST)
    requires
        !(node is Nil),
        !spec_at(Token::Adverb, st.text),
        spec_at_noun(st.text) && !spec_at(Token::Ioverb, st.text),
    ensures
        follows(spec_parse_ex(st, node).0, st),
    decreases st.text.len(), 4nat, 0nat,
{
    lemma_parse_noun(st);
    let (st1, r1) = spec_parse_noun(st);
    if let Ok(n) = r1 {
        if st1.no_longer(st) {
            if spec_at(Token::Adverb, st1.text) {
                lemma_parse_adverb(st1, node, n);
            } else if st1.shorter(st) {
                lemma_parse_ex(st1, n);
            }
        }
    }
}

/// A verb after a left operand, and its right operand, only add to the store.
proof fn lemma_ex_verb(st: PState, node: AST)
    requires
        !(node is Nil),
        !spec_at(Token::Adverb, st.text),
        !(spec_at_noun(st.text) && !spec_at(Token::Ioverb, st.text)),
        spec_at(Token::Verb, st.text),
    ensures
        follows(spec_parse_ex(st, node).0, st),
    decreases st.text.len(), 4nat, 0nat,
{
    lemma_eat(st, Token::Verb);
    if let Some((raw, st1)) = eat(st, Token::Verb) {
        if spec_at(Token::Adverb, st1.text) {
            let (cells, u) = spec_verb(st1.arena.cells, raw[0], Seq::empty());
            lemma_parse_adverb(st1.with_cells(cells), node, u);
        } else {
            lemma_parse_noun(st1);
            let (st2, r2) = spec_parse_noun(st1);
            if let Ok(x) = r2 {
                if st2.no_longer(st1) {
                    lemma_parse_ex(st2, x);
                }
            }
        }
    }
}

/// What follows a left operand only adds to the store.
pub proof fn lemma_parse_ex(st: PState, node: AST)
    ensures
        follows(spec_parse_ex(st, node).0, st),
    decreases st.text.len(), 4nat, 1nat,
{
    if node is Nil {
    } else if spec_at(Token::Adverb, st.text) {
        lemma_parse_adverb(st, AST::Nil, node);
    } else if spec_at_noun(st.text) && !spec_at(Token::Ioverb, st.text) {
        lemma_ex_noun(st, node);
    } else if spec_at(Token::Verb, st.text) {
        lemma_ex_verb(st, node);
    }
}

/// An adverb form only adds to the store.
pub proof fn lemma_parse_adverb(st: PState, left: AST, verb: AST)
    ensures
        follows(spec_parse_adverb(st, left, verb).0, st),
    decreases st.text.len(), 3nat, 0nat,
{
    lemma_eat(st, Token::Adverb);
    if let Some((a, st1)) = eat(st, Token::Adverb) {
        lemma_parse_noun(st1);
        let (st2, r2) = spec_parse_noun(st1);
        if let Ok(n) = r2 {
            if st2.no_longer(st1) {
                lemma_parse_ex(st2, n);
            }
        }
    }
}

/// The index lists after a noun only add to the store.
pub proof fn lemma_apply_right(st: PState, node: AST)
    ensures
        follows(spec_apply_right(st, node).0, st),
    decreases st.text.len(), 1nat, 0nat,
{
    lemma_eat(st, Token::OpenB);
    if let Some((_, st1)) = eat(st, Token::OpenB) {
        lemma_parse_list(st1, Some(Token::CloseB));
        let (st2, r2) = spec_parse_list(st1, Some(Token::CloseB));
        if let Ok(e) = r2 {
            if st2.no_longer(st1) {
                let (cells, v) = spec_verb(
                    st2.arena.cells,
                    POINT,
                    seq![node, e],
                );
                lemma_apply_right(st2.with_cells(cells), v);
            }
        }
    }
}

/// The pairs of a dictionary literal only add to the store.
pub proof fn lemma_dict_items(st: PState, keys: Seq<AST>, values: Seq<AST>)
    ensures
        follows(spec_dict_items(st, keys, values).0, st),
    decreases st.text.len(), 0nat, 0nat,
{
    lemma_eat(st, Token::Name);
    if let Some((key, st1)) = eat(st, Token::Name) {
        lemma_eat(st1, Token::Colon);
        let st2 = match eat(st1, Token::Colon) {
            Some((_, s)) => s,
            None => st1,
        };
        if st2.shorter(st) {
            lemma_parse_noun(st2);
            let (st3, r3) = spec_parse_noun(st2);
            if let Ok(n) = r3 {
                if st3.no_longer(st2) {
                    lemma_parse_ex(st3, n);
                    let (st4, r4) = spec_parse_ex(st3, n);
                    if let Ok(value) = r4 {
                        lemma_intern_extends(st4.arena.names, key);
                        let kname = AST::Name {
                            value: spec_name_id(st4.arena.names, key),
                        };
                        let st5 = st4.with_arena(st4.arena.intern_name(key));
                        lemma_eat(st5, Token::Semi);
                        if let Some((_, st6)) = eat(st5, Token::Semi) {
                            if st6.shorter(st) {
                                lemma_dict_items(st6, keys.push(kname), values.push(value));
                            }
                        }
                    }
                }
            }
        }
    }
}

/// A noun that begins with a name only adds to the store.
pub proof fn lemma_noun_name(st: PState)
    ensures
        follows(spec_noun_name(st).0, st),
    decreases st.text.len(), 0nat, 0nat,
{
    lemma_eat(st, Token::Name);
    if let Some((t, st1)) = eat(st, Token::Name) {
        match st1.arena.native_id(t) {
            Some(x) => {
                lemma_apply_right(st1, AST::Native { name: x });
            },
            None => {
                lemma_eat(st1, Token::Colon);
                lemma_eat(st1, Token::OpenB);
                match eat(st1, Token::Colon) {
                    Some((_, st2)) => {
                        lemma_eat(st2, Token::Colon);
                        let st3 = match eat(st2, Token::Colon) {
                            Some((_, s)) => s,
                            None => st2,
                        };
                        lemma_parse_noun(st3);
                        let (st4, r4) = spec_parse_noun(st3);
                        if let Ok(n) = r4 {
                            if st4.no_longer(st3) {
                                lemma_parse_ex(st4, n);
                                let (st5, r5) = spec_parse_ex(st4, n);
                                lemma_intern_extends(st5.arena.names, t);
                            }
                        }
                    },
                    None => {
                        if let Some((_, st2)) = eat(st1, Token::OpenB) {
                            lemma_parse_list(st2, Some(Token::CloseB));
                            let (st3, r3) = spec_parse_list(st2, Some(Token::CloseB));
                            lemma_intern_extends(st3.arena.names, t);
                        } else {
                            lemma_intern_extends(st1.arena.names, t);
                        }
                    },
                }
            },
        }
    }
}

/// A dictionary literal only adds to the store.
pub proof fn lemma_noun_dict(st: PState)
    ensures
        follows(spec_noun_dict(st).0, st),
    decreases st.text.len(), 1nat, 0nat,
{
    lemma_eat(st, Token::CloseB);
    if eat(st, Token::CloseB).is_none() {
        lemma_dict_items(st, Seq::empty(), Seq::empty());
        let (st1, r1) = spec_dict_items(st, Seq::empty(), Seq::empty());
        lemma_eat(st1, Token::CloseB);
    }
}

/// A lambda only adds to the store.
pub proof fn lemma_noun_lambda(st: PState)
    ensures
        follows(spec_noun_lambda(st).0, st),
    decreases st.text.len(), 7nat, 0nat,
{
    lemma_eat(st, Token::OpenB);
    let (st1, r1) = match eat(st, Token::OpenB) {
        None => (st, Ok::<Args, Error>(Args::spec_new())),
        Some((_, s1)) => if !s1.shorter(st) {
            (s1, Err(Error::ParseError))
        } else {
            let (s2, r2) = spec_params(s1, Args::spec_new());
            match r2 {
                Err(e) => (s2, Err(e)),
                Ok(args) => match eat(s2, Token::CloseB) {
                    None => (s2, Err(Error::ParseError)),
                    Some((_, s3)) => (s3, Ok(args)),
                },
            }
        },
    };
    if let Some((_, s1)) = eat(st, Token::OpenB) {
        lemma_params(s1, Args::spec_new());
        lemma_eat(spec_params(s1, Args::spec_new()).0, Token::CloseB);
    }
    assert(follows(st1, st));
    if let Ok(args) = r1 {
        if st1.no_longer(st) {
            lemma_parse_list(st1, Some(Token::CloseC));
            let (st2, r2) = spec_parse_list(st1, Some(Token::CloseC));
            if let Ok(r) = r2 {
                lemma_implicit_args(st2.arena, r);
                let (arena, args1) = if args@.len() == 0 {
                    spec_implicit_args(st2.arena, r)
                } else {
                    (st2.arena, args)
                };
                let (cells, b) = spec_atom(arena.cells, r);
                let st3 = st2.with_arena(arena.with_cells(cells));
                assert(follows(st3, st));
                if st3.no_longer(st) {
                    lemma_apply_right(st3, AST::Lambda { args: args1, body: b });
                }
            }
        }
    }
}

/// A noun that begins with a mark only adds to the store.
pub proof fn lemma_noun_mark(st: PState)
    ensures
        spec_noun_mark(st) matches Some(p) ==> follows(p.0, st),
{
    lemma_eat(st, Token::Quit);
    lemma_eat(st, Token::Colon);
    lemma_eat(st, Token::Ioverb);
    if let Some((_, st1)) = eat(st, Token::Colon) {
        let a1 = st1.arena.intern_name(name_y());
        let a2 = a1.intern_name(name_x());
        lemma_intern_extends(st1.arena.names, name_y());
        lemma_intern_extends(a1.names, name_x());
        lemma_intern_extends(a2.names, name_y());
    }
}

/// A noun that begins with a bit string, a hexadecimal literal or `$[` only
/// adds to the store.
pub proof fn lemma_noun_bits(st: PState)
    ensures
        spec_noun_bits(st) matches Some(p) ==> follows(p.0, st),
    decreases st.text.len(), 1nat, 0nat,
{
    lemma_eat(st, Token::Bool);
    lemma_eat(st, Token::Hexlit);
    lemma_eat(st, Token::Cond);
    if let Some((raw, st1)) = eat(st, Token::Bool) {
        let (cells, a) = spec_list(
            true,
            st1.arena.cells,
            bool_items(raw),
        );
        lemma_apply_right(st1.with_cells(cells), a);
    } else if let Some((raw, st1)) = eat(st, Token::Hexlit) {
    } else if let Some((_, st1)) = eat(st, Token::Cond) {
        lemma_parse_list(st1, Some(Token::CloseB));
    }
}

/// A noun that begins with a number or a verb only adds to the store.
pub proof fn lemma_noun_number(st: PState)
    ensures
        spec_noun_number(st) matches Some(p) ==> follows(p.0, st),
    decreases st.text.len(), 1nat, 0nat,
{
    if spec_at(Token::Number, st.text) {
        lemma_numbers(st, Seq::empty());
        let (st1, r1) = spec_numbers(st, Seq::empty());
        if let Ok(items) = r1 {
            let (arena, a) = spec_run(st1.arena, items);
            if st1.shorter(st) {
                lemma_apply_right(st1.with_arena(arena), a);
            }
        }
    } else {
        lemma_eat(st, Token::Verb);
        if let Some((raw, st1)) = eat(st, Token::Verb) {
            lemma_eat(st1, Token::Colon);
            let st2 = match eat(st1, Token::Colon) {
                Some((_, s)) => s,
                None => st1,
            };
            lemma_eat(st2, Token::OpenB);
            if let Some((_, st3)) = eat(st2, Token::OpenB) {
                lemma_parse_list(st3, Some(Token::CloseB));
            }
        }
    }
}

/// A noun that begins with a symbol or a string only adds to the store.
pub proof fn lemma_noun_text(st: PState)
    ensures
        spec_noun_text(st) matches Some(p) ==> follows(p.0, st),
    decreases st.text.len(), 1nat, 0nat,
{
    if spec_at(Token::Symbol, st.text) {
        lemma_symbols(st, Seq::empty());
        let (st1, items) = spec_symbols(st, Seq::empty());
        let (arena, a) = spec_run(st1.arena, items);
        if st1.shorter(st) {
            lemma_apply_right(st1.with_arena(arena), a);
        }
    } else {
        lemma_eat(st, Token::String);
        if let Some((raw, st1)) = eat(st, Token::String) {
            if raw.len() >= 2 && st1.shorter(st) {
                if let Some(v) = Chars::spec_new(
                    raw.subrange(1, raw.len() - 1),
                ) {
                    lemma_apply_right(st1, AST::String { value: v });
                }
            }
        }
    }
}

/// A noun that begins with a name or an opening bracket only adds to the
/// store.
pub proof fn lemma_noun_group(st: PState)
    ensures
        follows(spec_noun_group(st).0, st),
    decreases st.text.len(), 1nat, 0nat,
{
    lemma_eat(st, Token::OpenB);
    lemma_eat(st, Token::OpenC);
    lemma_eat(st, Token::OpenP);
    if spec_at(Token::Name, st.text) {
        lemma_noun_name(st);
    } else if let Some((_, st1)) = eat(st, Token::OpenB) {
        lemma_noun_dict(st1);
    } else if let Some((_, st1)) = eat(st, Token::OpenC) {
        lemma_noun_lambda(st1);
    } else if let Some((_, st1)) = eat(st, Token::OpenP) {
        lemma_parse_list(st1, Some(Token::CloseP));
        let (st2, r2) = spec_parse_list(st1, Some(Token::CloseP));
        if let Ok(n) = r2 {
            let r = match n {
                AST::Sequence { values } => AST::List { curry: false, values: values },
                x => x,
            };
            if st2.no_longer(st1) {
                lemma_apply_right(st2, r);
            }
        }
    }
}

/// Parsing a noun only adds to the store.
pub proof fn lemma_parse_noun(st: PState)
    ensures
        follows(spec_parse_noun(st).0, st),
    decreases st.text.len(), 2nat, 0nat,
{
    lemma_noun_mark(st);
    lemma_noun_bits(st);
    lemma_noun_number(st);
    lemma_noun_text(st);
    lemma_noun_group(st);
}

} // verus!
