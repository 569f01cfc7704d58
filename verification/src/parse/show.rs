//! The printed form of a node.

use vstd::prelude::*;
use crate::parse::arena::cell_at;
use crate::parse::ascii::{
    BACKQUOTE, BACKSLASH, BANG, BLANK, CLOSE_B, CLOSE_C, CLOSE_P, COLON, COMMA, DOLLAR, LOWER_B,
    MINUS, NEWLINE, ONE, OPEN_B, OPEN_C, OPEN_P, QUOTE, SEMI, ZERO,
};
use crate::parse::ast::{AST, Id, spec_is_flat, spec_is_unified};
use crate::parse::ast::{is_flat, is_unified};
use crate::parse::store::{Arena, ArenaView, spec_id_text, texts};
use crate::parse::token::{all_digits, digits_value, is_digit, spec_parse_int};
use crate::parse::vector::{Vector, cells_of};

verus! {

/// How deep the printed form follows the references between cells. What
/// lies deeper is left out.
pub const PRINT_DEPTH: usize = 4096;

/// The decimal digits of a natural number.
pub open spec fn digits(n: nat) -> Seq<u8>
    decreases n,
{
    if n < 10 {
        seq![(ZERO + n) as u8]
    } else {
        digits(n / 10).push((ZERO + n % 10) as u8)
    }
}

/// An integer in decimal, with a minus sign before it where it is negative.
pub open spec fn decimal(n: int) -> Seq<u8> {
    if n < 0 {
        seq![MINUS] + digits((-n) as nat)
    } else {
        digits(n as nat)
    }
}

/// The digits of a number are digits, at least one, and spell the number.
pub proof fn lemma_digits(n: nat)
    ensures
        digits(n).len() >= 1,
        all_digits(digits(n)),
        digits_value(digits(n)) == n,
    decreases n,
{
    if n >= 10 {
        lemma_digits(n / 10);
        let d = digits(n);
        assert(d.drop_last() =~= digits(n / 10));
        assert forall|i: int| 0 <= i < d.len() implies is_digit(#[trigger] d[i]) by {
            if i < d.len() - 1 {
                assert(d[i] == digits(n / 10)[i]);
            }
        }
    } else {
        let d = digits(n);
        assert(d.drop_last() =~= Seq::<u8>::empty());
        assert(digits_value(d.drop_last()) == 0);
    }
}

/// An integer that is written in decimal and read again is the same integer.
pub proof fn lemma_decimal_reads_back(v: i64)
    ensures
        spec_parse_int(decimal(v as int)) == Some(v),
{
    if v < 0 {
        let m = (-v) as nat;
        lemma_digits(m);
        let s = decimal(v as int);
        assert(s[0] == MINUS);
        assert(s.skip(1) =~= digits(m));
    } else {
        lemma_digits(v as nat);
        let s = decimal(v as int);
        assert(is_digit(s[0]));
    }
}

/// The texts joined, with `sep` between every two of them.
pub open spec fn joined(parts: Seq<Seq<u8>>, sep: Seq<u8>) -> Seq<u8>
    decreases parts.len(),
{
    if parts.len() == 0 {
        Seq::empty()
    } else if parts.len() == 1 {
        parts[0]
    } else {
        joined(parts.drop_last(), sep) + sep + parts.last()
    }
}

/// The names of the parameters, each by its text.
pub open spec fn arg_texts(arena: ArenaView, args: Seq<u16>) -> Seq<Seq<u8>> {
    Seq::new(args.len(), |i: int| spec_id_text(arena.names, args[i]))
}

/// The word `nyi`, which stands for a node that has no printed form.
pub open spec fn word_nyi() -> Seq<u8> {
    seq![0x6eu8, 0x79, 0x69]
}

/// The structural form of one node: a letter for its variant and its fields
/// as numbers between parentheses, without following any reference. The
/// letters are `B` for a boolean, `N` for a name, `S` for a symbol, `V` for a
/// verb, `O` for an I/O verb, `I` for an integer, `F` for a decimal literal,
/// `L` for a lambda, `X` for a built-in function, `Li` for a list, `Q` for a
/// sequence, `D` for a dictionary, `R` for a binding, `A` for an adverb form,
/// `C` for a condition and `G` for a debug node. A string stands between
/// quotes, the quit mark as it is written, and the empty node as nothing.
pub open spec fn spec_dump(a: AST) -> Seq<u8> {
    match a {
        AST::Bool { value } => seq![0x42u8, OPEN_P] + decimal(
            if value {
                1
            } else {
                0
            },
        ) + seq![CLOSE_P],
        AST::Name { value } => seq![0x4eu8, OPEN_P] + decimal(value as int) + seq![CLOSE_P],
        AST::Symbol { value } => seq![0x53u8, OPEN_P] + decimal(value as int) + seq![CLOSE_P],
        AST::String { value } => seq![QUOTE] + value@ + seq![QUOTE],
        AST::Verb { kind, args } => seq![0x56u8, OPEN_P] + decimal(kind as int) + seq![COMMA]
            + decimal(args.first as int) + seq![COMMA] + decimal(args.len as int) + seq![CLOSE_P],
        AST::Ioverb { fd } => seq![0x4fu8, OPEN_P] + decimal(fd as int) + seq![CLOSE_P],
        AST::Int { value } => seq![0x49u8, OPEN_P] + decimal(value as int) + seq![CLOSE_P],
        AST::Float { value } => seq![0x46u8, OPEN_P] + decimal(value as int) + seq![CLOSE_P],
        AST::Lambda { args, body } => seq![0x4cu8, OPEN_P] + decimal(args@.len() as int)
            + seq![COMMA] + decimal(body as int) + seq![CLOSE_P],
        AST::Native { name } => seq![0x58u8, OPEN_P] + decimal(name as int) + seq![CLOSE_P],
        AST::List { curry, values } => seq![0x4cu8, 0x69, OPEN_P] + decimal(
            if curry {
                1
            } else {
                0
            },
        ) + seq![COMMA] + decimal(values.first as int) + seq![COMMA] + decimal(
            values.len as int,
        ) + seq![CLOSE_P],
        AST::Sequence { values } => seq![0x51u8, OPEN_P] + decimal(values.first as int)
            + seq![COMMA] + decimal(values.len as int) + seq![CLOSE_P],
        AST::Dict { keys, values } => seq![0x44u8, OPEN_P] + decimal(keys.first as int)
            + seq![COMMA] + decimal(keys.len as int) + seq![COMMA] + decimal(
            values.first as int,
        ) + seq![COMMA] + decimal(values.len as int) + seq![CLOSE_P],
        AST::Nameref { name, value } => seq![0x52u8, OPEN_P] + decimal(name as int) + seq![COMMA]
            + decimal(value as int) + seq![CLOSE_P],
        AST::Adverb { kind, left, verb, right } => seq![0x41u8, OPEN_P] + kind.spec_text()
            + seq![COMMA] + decimal(left as int) + seq![COMMA] + decimal(verb as int)
            + seq![COMMA] + decimal(right as int) + seq![CLOSE_P],
        AST::Condition { list } => seq![0x43u8, OPEN_P] + decimal(list.first as int) + seq![COMMA]
            + decimal(list.len as int) + seq![CLOSE_P],
        AST::Debug { value } => seq![0x47u8, OPEN_P] + decimal(value as int) + seq![CLOSE_P],
        AST::Quit => seq![BACKSLASH, BACKSLASH],
        AST::Nil => Seq::empty(),
    }
}

/// The printed form of the node `a`, following references `depth` deep:
/// - an integer in decimal, a boolean as `0b` or `1b`, a decimal literal as
///   it was written, a symbol after a backquote, a string between quotes, a
///   name by its text;
/// - a verb alone, before its one argument, or between its first argument
///   and the others;
/// - a lambda as `{ [p;..] body }`;
/// - a curried list in one row where its cells are atoms, else between
///   parentheses or one cell a line; another list as `,x` or `(x;y;..)`;
/// - a dictionary as `[k:v;..]`, a condition as `$[a;b;c]`, an adverb form
///   as left, verb, adverb, right;
/// - the structural form of the node behind a `Debug`; nothing for the empty
///   node and for a reference that leads nowhere.
pub open spec fn spec_render(arena: ArenaView, a: AST, depth: nat) -> Seq<u8>
    decreases depth, 1nat, 0nat,
{
    match a {
        AST::Name { value } => spec_id_text(arena.names, value),
        AST::Bool { value } => if value {
            seq![ONE, LOWER_B]
        } else {
            seq![ZERO, LOWER_B]
        },
        AST::Symbol { value } => seq![BACKQUOTE] + spec_id_text(arena.symbols, value),
        AST::String { value } => seq![QUOTE] + value@ + seq![QUOTE],
        AST::Int { value } => decimal(value as int),
        AST::Float { value } => spec_id_text(arena.floats, value),
        AST::Verb { kind, args } => {
            let parts = spec_render_cells(arena, args, 0, depth);
            if parts.len() == 0 {
                seq![kind]
            } else if parts.len() == 1 {
                seq![kind] + parts[0]
            } else {
                parts[0] + seq![kind] + joined(parts.skip(1), Seq::empty())
            }
        },
        AST::Lambda { args, body } => seq![OPEN_C, BLANK, OPEN_B] + joined(
            arg_texts(arena, args@),
            seq![SEMI],
        ) + seq![CLOSE_B] + seq![BLANK] + spec_render_id(arena, body, depth) + seq![
            BLANK,
            CLOSE_C,
        ],
        AST::List { curry, values } => {
            let parts = spec_render_cells(arena, values, 0, depth);
            let items = match cells_of(arena.cells, values) {
                Some(c) => c,
                None => Seq::empty(),
            };
            if curry {
                if spec_is_unified(items) {
                    joined(parts, seq![BLANK])
                } else if spec_is_flat(items) {
                    seq![OPEN_P] + joined(parts, seq![SEMI]) + seq![CLOSE_P]
                } else {
                    joined(parts, seq![NEWLINE])
                }
            } else if parts.len() == 1 {
                seq![COMMA] + parts[0]
            } else {
                seq![OPEN_P] + joined(parts, seq![SEMI]) + seq![CLOSE_P]
            }
        },
        AST::Dict { keys, values } => seq![OPEN_B] + joined(
            pairs(
                spec_render_cells(arena, keys, 0, depth),
                spec_render_cells(arena, values, 0, depth),
            ),
            seq![SEMI],
        ) + seq![CLOSE_B],
        AST::Condition { list } => seq![DOLLAR, OPEN_B] + joined(
            spec_render_cells(arena, list, 0, depth),
            seq![SEMI],
        ) + seq![CLOSE_B],
        AST::Adverb { kind, left, verb, right } => spec_render_id(arena, left, depth)
            + spec_render_id(arena, verb, depth) + kind.spec_text() + spec_render_id(
            arena,
            right,
            depth,
        ),
        AST::Native { name } => seq![MINUS] + decimal(name as int) + seq![BANG],
        AST::Debug { value } => match cell_at(arena.cells, value) {
            Some(c) => spec_dump(c),
            None => Seq::empty(),
        },
        AST::Nil => Seq::empty(),
        _ => word_nyi(),
    }
}

/// The printed form of the cell `id`; nothing where there is no such cell or
/// the depth is used up.
pub open spec fn spec_render_id(arena: ArenaView, id: Id, depth: nat) -> Seq<u8>
    decreases depth, 0nat, 0nat,
{
    if depth == 0 {
        Seq::empty()
    } else {
        match cell_at(arena.cells, id) {
            Some(c) => spec_render(arena, c, (depth - 1) as nat),
            None => Seq::empty(),
        }
    }
}

/// The printed forms of the cells of `v` from position `i` on. A vector that
/// does not lie in the store has none.
pub open spec fn spec_render_cells(arena: ArenaView, v: Vector, i: nat, depth: nat) -> Seq<
    Seq<u8>,
>
    decreases depth, 0nat, v.len - i,
{
    if i >= v.len || !v.within(arena.cells.len()) {
        Seq::empty()
    } else {
        seq![spec_render_id(arena, (v.first + i) as Id, depth)] + spec_render_cells(
            arena,
            v,
            i + 1,
            depth,
        )
    }
}

/// The keys and values of a dictionary as `k:v`, as many as there are of both.
pub open spec fn pairs(keys: Seq<Seq<u8>>, values: Seq<Seq<u8>>) -> Seq<Seq<u8>> {
    Seq::new(
        if keys.len() <= values.len() {
            keys.len()
        } else {
            values.len()
        },
        |i: int| keys[i] + seq![COLON] + values[i],
    )
}

/// What printing a result writes: nothing for the empty node, else the
/// printed form and a line break.
pub open spec fn spec_print(arena: ArenaView, a: AST) -> Seq<u8> {
    if a is Nil {
        Seq::empty()
    } else {
        spec_render(arena, a, PRINT_DEPTH as nat).push(NEWLINE)
    }
}

fn push_digits(n: u64, out: &mut Vec<u8>)
    ensures
        final(out)@ == old(out)@ + digits(n as nat),
    decreases n,
{
    if n >= 10 {
        push_digits(n / 10, out);
    }
    out.push(ZERO + (n % 10) as u8);
    assert(out@ =~= old(out)@ + digits(n as nat));
}

/// Appends `n` in decimal to `out`.
pub fn push_decimal(n: i64, out: &mut Vec<u8>)
    ensures
        final(out)@ == old(out)@ + decimal(n as int),
{
    if n < 0 {
        out.push(MINUS);
        let m: u64 = (-(n + 1)) as u64 + 1;
        push_digits(m, out);
        assert(out@ =~= old(out)@ + (seq![MINUS] + digits((-n) as nat)));
    } else {
        push_digits(n as u64, out);
    }
}

/// Appends `n` in decimal to `out`.
pub fn push_number(n: u64, out: &mut Vec<u8>)
    ensures
        final(out)@ == old(out)@ + decimal(n as int),
{
    push_digits(n, out);
}

fn push_all(text: &Vec<u8>, out: &mut Vec<u8>)
    ensures
        final(out)@ == old(out)@ + text@,
{
    let mut i: usize = 0;
    assert(out@ =~= old(out)@ + text@.take(0));
    while i < text.len()
        invariant
            i <= text@.len(),
            out@ == old(out)@ + text@.take(i as int),
        decreases text@.len() - i,
    {
        out.push(text[i]);
        i = i + 1;
        assert(out@ =~= old(out)@ + text@.take(i as int));
    }
    assert(text@.take(i as int) =~= text@);
}

/// The texts joined, with `sep` between every two of them.
fn join(parts: &Vec<Vec<u8>>, sep: &Vec<u8>) -> (out: Vec<u8>)
    ensures
        out@ == joined(Seq::new(parts@.len(), |i: int| parts@[i]@), sep@),
{
    let ghost texts = Seq::new(parts@.len(), |i: int| parts@[i]@);
    let mut out: Vec<u8> = Vec::new();
    let mut i: usize = 0;
    while i < parts.len()
        invariant
            i <= parts@.len(),
            texts == Seq::new(parts@.len(), |i: int| parts@[i]@),
            out@ == joined(texts.take(i as int), sep@),
        decreases parts@.len() - i,
    {
        proof {
            assert(texts.take(i + 1).drop_last() =~= texts.take(i as int));
            assert(texts.take(i + 1).last() == parts@[i as int]@);
        }
        if i > 0 {
            push_all(sep, &mut out);
            push_all(&parts[i], &mut out);
        } else {
            push_all(&parts[i], &mut out);
            assert(out@ =~= parts@[0]@);
        }
        i = i + 1;
    }
    assert(texts.take(i as int) =~= texts);
    out
}

/// Appends a number in decimal and then the byte `close` to `out`.
fn push_field(n: u64, close: u8, out: &mut Vec<u8>)
    ensures
        final(out)@ == old(out)@ + decimal(n as int) + seq![close],
{
    push_digits(n, out);
    out.push(close);
    assert(out@ =~= old(out)@ + decimal(n as int) + seq![close]);
}

/// The structural form of the node `a`.
pub fn dump(a: &AST) -> (out: Vec<u8>)
    ensures
        out@ == spec_dump(*a),
{
    let mut out: Vec<u8> = Vec::new();
    match *a {
        AST::Bool { value } => {
            out.push(0x42);
            out.push(OPEN_P);
            push_field(if value { 1 } else { 0 }, CLOSE_P, &mut out);
        },
        AST::Name { value } => {
            out.push(0x4e);
            out.push(OPEN_P);
            push_field(value as u64, CLOSE_P, &mut out);
        },
        AST::Symbol { value } => {
            out.push(0x53);
            out.push(OPEN_P);
            push_field(value as u64, CLOSE_P, &mut out);
        },
        AST::String { value } => {
            out.push(QUOTE);
            let b = value.bytes();
            push_all(&b, &mut out);
            out.push(QUOTE);
        },
        AST::Verb { kind, args } => {
            out.push(0x56);
            out.push(OPEN_P);
            push_field(kind as u64, COMMA, &mut out);
            push_field(args.first, COMMA, &mut out);
            push_field(args.len as u64, CLOSE_P, &mut out);
        },
        AST::Ioverb { fd } => {
            out.push(0x4f);
            out.push(OPEN_P);
            push_field(fd as u64, CLOSE_P, &mut out);
        },
        AST::Int { value } => {
            out.push(0x49);
            out.push(OPEN_P);
            push_decimal(value, &mut out);
            out.push(CLOSE_P);
        },
        AST::Float { value } => {
            out.push(0x46);
            out.push(OPEN_P);
            push_field(value as u64, CLOSE_P, &mut out);
        },
        AST::Lambda { args, body } => {
            out.push(0x4c);
            out.push(OPEN_P);
            push_field(args.len() as u64, COMMA, &mut out);
            push_field(body, CLOSE_P, &mut out);
        },
        AST::Native { name } => {
            out.push(0x58);
            out.push(OPEN_P);
            push_field(name as u64, CLOSE_P, &mut out);
        },
        AST::List { curry, values } => {
            out.push(0x4c);
            out.push(0x69);
            out.push(OPEN_P);
            push_field(if curry { 1 } else { 0 }, COMMA, &mut out);
            push_field(values.first, COMMA, &mut out);
            push_field(values.len as u64, CLOSE_P, &mut out);
        },
        AST::Sequence { values } => {
            out.push(0x51);
            out.push(OPEN_P);
            push_field(values.first, COMMA, &mut out);
            push_field(values.len as u64, CLOSE_P, &mut out);
        },
        AST::Dict { keys, values } => {
            out.push(0x44);
            out.push(OPEN_P);
            push_field(keys.first, COMMA, &mut out);
            push_field(keys.len as u64, COMMA, &mut out);
            push_field(values.first, COMMA, &mut out);
            push_field(values.len as u64, CLOSE_P, &mut out);
        },
        AST::Nameref { name, value } => {
            out.push(0x52);
            out.push(OPEN_P);
            push_field(name as u64, COMMA, &mut out);
            push_field(value, CLOSE_P, &mut out);
        },
        AST::Adverb { kind, left, verb, right } => {
            out.push(0x41);
            out.push(OPEN_P);
            let k = kind.to_text();
            push_all(&k, &mut out);
            out.push(COMMA);
            push_field(left, COMMA, &mut out);
            push_field(verb, COMMA, &mut out);
            push_field(right, CLOSE_P, &mut out);
        },
        AST::Condition { list } => {
            out.push(0x43);
            out.push(OPEN_P);
            push_field(list.first, COMMA, &mut out);
            push_field(list.len as u64, CLOSE_P, &mut out);
        },
        AST::Debug { value } => {
            out.push(0x47);
            out.push(OPEN_P);
            push_field(value, CLOSE_P, &mut out);
        },
        AST::Quit => {
            out.push(BACKSLASH);
            out.push(BACKSLASH);
        },
        AST::Nil => {},
    }
    assert(out@ =~= spec_dump(*a));
    out
}

/// The printed forms of the cells of `v`.
fn render_cells(arena: &Arena, v: &Vector, depth: usize) -> (parts: Vec<Vec<u8>>)
    ensures
        texts(parts@) == spec_render_cells(arena@, *v, 0, depth as nat),
    decreases depth, 0nat, 1nat,
{
    let mut parts: Vec<Vec<u8>> = Vec::new();
    if !v.fits(&arena.ast) {
        assert(texts(parts@) =~= Seq::<Seq<u8>>::empty());
        return parts;
    }
    let mut i: usize = 0;
    assert(texts(parts@) + spec_render_cells(arena@, *v, 0, depth as nat) =~= spec_render_cells(
        arena@,
        *v,
        0,
        depth as nat,
    ));
    while i < v.len
        invariant
            i <= v.len,
            v.within(arena@.cells.len()),
            texts(parts@) + spec_render_cells(arena@, *v, i as nat, depth as nat)
                == spec_render_cells(arena@, *v, 0, depth as nat),
        decreases v.len - i,
    {
        let ghost before = texts(parts@);
        proof {
            arena.ast.lemma_len_fits();
        }
        let t = render_id(arena, v.first + i as u64, depth);
        parts.push(t);
        assert(texts(parts@) =~= before + seq![t@]);
        assert(texts(parts@) + spec_render_cells(arena@, *v, (i + 1) as nat, depth as nat)
            =~= before + spec_render_cells(arena@, *v, i as nat, depth as nat));
        i = i + 1;
    }
    assert(texts(parts@) + spec_render_cells(arena@, *v, i as nat, depth as nat) =~= texts(
        parts@,
    ));
    parts
}

/// The printed form of the cell `id`.
fn render_id(arena: &Arena, id: Id, depth: usize) -> (out: Vec<u8>)
    ensures
        out@ == spec_render_id(arena@, id, depth as nat),
    decreases depth, 0nat, 0nat,
{
    if depth == 0 {
        return Vec::new();
    }
    match arena.ast.cell(id) {
        Some(c) => render(arena, &c, depth - 1),
        None => Vec::new(),
    }
}

/// The printed form of a verb of kind `kind` with the printed arguments `parts`.
fn render_verb(kind: u8, parts: &Vec<Vec<u8>>) -> (out: Vec<u8>)
    ensures
        out@ == (if parts@.len() == 0 {
            seq![kind]
        } else if parts@.len() == 1 {
            seq![kind] + texts(parts@)[0]
        } else {
            texts(parts@)[0] + seq![kind] + joined(texts(parts@).skip(1), Seq::empty())
        }),
{
    let mut out: Vec<u8> = Vec::new();
    if parts.len() == 0 {
        out.push(kind);
        assert(out@ =~= seq![kind]);
    } else if parts.len() == 1 {
        out.push(kind);
        push_all(&parts[0], &mut out);
        assert(out@ =~= seq![kind] + texts(parts@)[0]);
    } else {
        push_all(&parts[0], &mut out);
        out.push(kind);
        let ghost head = out@;
        let ghost rest = texts(parts@).skip(1);
        let mut i: usize = 1;
        assert(rest.take(0) =~= Seq::<Seq<u8>>::empty());
        assert(out@ =~= head + joined(rest.take(0), Seq::empty()));
        while i < parts.len()
            invariant
                1 <= i <= parts@.len(),
                rest == texts(parts@).skip(1),
                out@ == head + joined(rest.take(i - 1), Seq::empty()),
            decreases parts@.len() - i,
        {
            proof {
                assert(rest.take(i as int).drop_last() =~= rest.take(i - 1));
                assert(rest.take(i as int).last() == parts@[i as int]@);
                assert(joined(rest.take(i as int), Seq::empty()) =~= joined(
                    rest.take(i - 1),
                    Seq::empty(),
                ) + parts@[i as int]@);
            }
            push_all(&parts[i], &mut out);
            i = i + 1;
        }
        assert(rest.take(i - 1) =~= rest);
        assert(head =~= texts(parts@)[0] + seq![kind]);
    }
    out
}

/// `open`, the parts joined by `sep`, and `close`.
fn wrap(open: &Vec<u8>, parts: &Vec<Vec<u8>>, sep: u8, close: u8) -> (out: Vec<u8>)
    ensures
        out@ == open@ + joined(texts(parts@), seq![sep]) + seq![close],
{
    let mut out: Vec<u8> = Vec::new();
    push_all(open, &mut out);
    let mut s: Vec<u8> = Vec::new();
    s.push(sep);
    assert(s@ =~= seq![sep]);
    let j = join(parts, &s);
    push_all(&j, &mut out);
    out.push(close);
    assert(out@ =~= open@ + joined(texts(parts@), seq![sep]) + seq![close]);
    out
}

/// The texts `k:v` of the printed keys and values of a dictionary.
fn pair_up(keys: &Vec<Vec<u8>>, values: &Vec<Vec<u8>>) -> (out: Vec<Vec<u8>>)
    ensures
        texts(out@) == pairs(texts(keys@), texts(values@)),
{
    let n = if keys.len() <= values.len() {
        keys.len()
    } else {
        values.len()
    };
    let mut out: Vec<Vec<u8>> = Vec::new();
    let mut i: usize = 0;
    while i < n
        invariant
            i <= n,
            n <= keys@.len(),
            n <= values@.len(),
            out@.len() == i,
            forall|j: int|
                0 <= j < i ==> (#[trigger] out@[j])@ == keys@[j]@ + seq![COLON] + values@[j]@,
        decreases n - i,
    {
        let mut t: Vec<u8> = Vec::new();
        push_all(&keys[i], &mut t);
        t.push(COLON);
        push_all(&values[i], &mut t);
        assert(t@ =~= keys@[i as int]@ + seq![COLON] + values@[i as int]@);
        out.push(t);
        i = i + 1;
    }
    assert(texts(out@) =~= pairs(texts(keys@), texts(values@)));
    out
}

/// The printed form of the node `a`, following references `depth` deep.
pub fn render(arena: &Arena, a: &AST, depth: usize) -> (out: Vec<u8>)
    ensures
        out@ == spec_render(arena@, *a, depth as nat),
    decreases depth, 1nat, 0nat,
{
    let mut out: Vec<u8> = Vec::new();
    match *a {
        AST::Name { value } => arena.id_name(value),
        AST::Bool { value } => {
            out.push(if value { ONE } else { ZERO });
            out.push(LOWER_B);
            assert(out@ =~= if value {
                seq![ONE, LOWER_B]
            } else {
                seq![ZERO, LOWER_B]
            });
            out
        },
        AST::Symbol { value } => {
            out.push(BACKQUOTE);
            let t = arena.id_symbol(value);
            push_all(&t, &mut out);
            assert(out@ =~= seq![BACKQUOTE] + spec_id_text(arena@.symbols, value));
            out
        },
        AST::String { value } => {
            out.push(QUOTE);
            let t = value.bytes();
            push_all(&t, &mut out);
            out.push(QUOTE);
            assert(out@ =~= seq![QUOTE] + value@ + seq![QUOTE]);
            out
        },
        AST::Int { value } => {
            push_decimal(value, &mut out);
            assert(out@ =~= decimal(value as int));
            out
        },
        AST::Float { value } => arena.id_float(value),
        AST::Verb { kind, args } => {
            let parts = render_cells(arena, &args, depth);
            render_verb(kind, &parts)
        },
        AST::Lambda { args, body } => {
            let ids = args.iter();
            let mut names: Vec<Vec<u8>> = Vec::new();
            let mut i: usize = 0;
            while i < ids.len()
                invariant
                    i <= ids@.len(),
                    ids@ == args@,
                    names@.len() == i,
                    forall|j: int|
                        0 <= j < i ==> (#[trigger] names@[j])@ == spec_id_text(
                            arena@.names,
                            ids@[j],
                        ),
                decreases ids@.len() - i,
            {
                names.push(arena.id_name(ids[i]));
                i = i + 1;
            }
            assert(texts(names@) =~= arg_texts(arena@, args@));
            out.push(OPEN_C);
            out.push(BLANK);
            out.push(OPEN_B);
            assert(out@ =~= seq![OPEN_C, BLANK, OPEN_B]);
            let mut w = wrap(&out, &names, SEMI, CLOSE_B);
            w.push(BLANK);
            let b = render_id(arena, body, depth);
            push_all(&b, &mut w);
            w.push(BLANK);
            w.push(CLOSE_C);
            assert(w@ =~= seq![OPEN_C, BLANK, OPEN_B] + joined(
                arg_texts(arena@, args@),
                seq![SEMI],
            ) + seq![CLOSE_B] + seq![BLANK] + spec_render_id(arena@, body, depth as nat) + seq![
                BLANK,
                CLOSE_C,
            ]);
            w
        },
        AST::List { curry, values } => {
            let parts = render_cells(arena, &values, depth);
            let mut sep: Vec<u8> = Vec::new();
            out.push(OPEN_P);
            assert(out@ =~= seq![OPEN_P]);
            if curry {
                let inside = values.fits(&arena.ast);
                let ghost items = match cells_of(arena@.cells, values) {
                    Some(c) => c,
                    None => Seq::empty(),
                };
                let unified = inside && is_unified(&arena.ast, &values);
                let flat = !inside || is_flat(&arena.ast, &values);
                if unified {
                    sep.push(BLANK);
                    assert(sep@ =~= seq![BLANK]);
                    join(&parts, &sep)
                } else if flat {
                    wrap(&out, &parts, SEMI, CLOSE_P)
                } else {
                    sep.push(NEWLINE);
                    assert(sep@ =~= seq![NEWLINE]);
                    join(&parts, &sep)
                }
            } else if parts.len() == 1 {
                let mut w: Vec<u8> = Vec::new();
                w.push(COMMA);
                push_all(&parts[0], &mut w);
                assert(w@ =~= seq![COMMA] + texts(parts@)[0]);
                w
            } else {
                wrap(&out, &parts, SEMI, CLOSE_P)
            }
        },
        AST::Dict { keys, values } => {
            let k = render_cells(arena, &keys, depth);
            let v = render_cells(arena, &values, depth);
            let kv = pair_up(&k, &v);
            out.push(OPEN_B);
            assert(out@ =~= seq![OPEN_B]);
            wrap(&out, &kv, SEMI, CLOSE_B)
        },
        AST::Condition { list } => {
            let parts = render_cells(arena, &list, depth);
            out.push(DOLLAR);
            out.push(OPEN_B);
            assert(out@ =~= seq![DOLLAR, OPEN_B]);
            wrap(&out, &parts, SEMI, CLOSE_B)
        },
        AST::Adverb { kind, left, verb, right } => {
            let l = render_id(arena, left, depth);
            let v = render_id(arena, verb, depth);
            let k = kind.to_text();
            let r = render_id(arena, right, depth);
            push_all(&l, &mut out);
            push_all(&v, &mut out);
            push_all(&k, &mut out);
            push_all(&r, &mut out);
            assert(out@ =~= spec_render_id(arena@, left, depth as nat) + spec_render_id(
                arena@,
                verb,
                depth as nat,
            ) + kind.spec_text() + spec_render_id(arena@, right, depth as nat));
            out
        },
        AST::Native { name } => {
            out.push(MINUS);
            push_field(name as u64, BANG, &mut out);
            assert(out@ =~= seq![MINUS] + decimal(name as int) + seq![BANG]);
            out
        },
        AST::Debug { value } => match arena.ast.cell(value) {
            Some(c) => dump(&c),
            None => out,
        },
        AST::Nil => out,
        _ => {
            out.push(0x6e);
            out.push(0x79);
            out.push(0x69);
            assert(out@ =~= word_nyi());
            out
        },
    }
}

/// What printing the result `ast` writes: nothing for the empty node, else
/// its printed form and a line break.
pub fn print(ast: &AST, arena: &Arena) -> (out: Vec<u8>)
    ensures
        out@ == spec_print(arena@, *ast),
{
    match ast {
        AST::Nil => Vec::new(),
        a => {
            let mut out = render(arena, a, PRINT_DEPTH);
            out.push(NEWLINE);
            out
        },
    }
}

} // verus!
