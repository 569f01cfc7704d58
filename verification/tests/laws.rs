use klang::exec::env::Environment;
use klang::exec::i10;
use klang::parse::arena::ArenaMem;
use klang::parse::ast::AST;
use klang::parse::parser;
use klang::parse::show::{render, PRINT_DEPTH};
use klang::parse::store::Arena;
use klang::parse::token::parse_int;
use klang::syntax::error::Error as SyntaxError;
use klang::syntax::ktree::{Adverb, Appliance, Dyad, Monad, Verb};

/// Whether two nodes are the same tree, whatever cells they lie in.
fn same(arena: &Arena, a: &AST, b: &AST) -> bool {
    let all = |x: &klang::parse::vector::Vector, y: &klang::parse::vector::Vector| {
        x.len == y.len
            && x.as_slice(&arena.ast)
                .iter()
                .zip(y.as_slice(&arena.ast).iter())
                .all(|(p, q)| same(arena, p, q))
    };
    match (a, b) {
        (AST::List { curry: c, values: x }, AST::List { curry: d, values: y }) => c == d && all(x, y),
        (AST::Condition { list: x }, AST::Condition { list: y }) => all(x, y),
        (AST::Lambda { args: p, body: x }, AST::Lambda { args: q, body: y }) => {
            p == q && same(arena, arena.ast.deref(*x), arena.ast.deref(*y))
        }
        (x, y) => x == y,
    }
}

/// Whether the node is an integer, a curried list of at least two integers,
/// a lambda whose body is an integer, or a condition over such nodes.
fn in_the_subset(arena: &Arena, a: &AST) -> bool {
    match a {
        AST::Int { .. } => true,
        AST::List { curry: true, values } => {
            values.len >= 2
                && values.as_slice(&arena.ast).iter().all(|c| matches!(c, AST::Int { .. }))
        }
        AST::Lambda { body, .. } => matches!(arena.ast.deref(*body), AST::Int { .. }),
        AST::Condition { list } => {
            list.as_slice(&arena.ast).iter().all(|c| in_the_subset(arena, c))
        }
        _ => false,
    }
}

#[test]
fn a_pushed_cell_is_read_back_whatever_follows() {
    let mut a = ArenaMem::new();
    let mut ids = Vec::new();
    for v in 0..100i64 {
        ids.push(a.push(AST::Int { value: v * v }));
    }
    for (v, id) in ids.iter().enumerate() {
        assert_eq!(*id, v as u64);
        assert_eq!(*a.deref(*id), AST::Int { value: (v * v) as i64 });
    }
}

#[test]
fn a_text_keeps_its_id_and_two_texts_have_two_ids() {
    let mut arena = Arena::new();
    let words: Vec<String> = (0..50).map(|k| format!("w{}", k)).collect();
    let first: Vec<u16> = words.iter().map(|w| arena.intern_name_id(w.as_bytes())).collect();
    let again: Vec<u16> = words.iter().rev().map(|w| arena.intern_name_id(w.as_bytes())).collect();
    for (k, id) in first.iter().enumerate() {
        assert_eq!(*id, k as u16);
        assert_eq!(again[49 - k], *id);
        assert_eq!(arena.id_name(*id), words[k].as_bytes().to_vec());
    }
}

#[test]
fn a_lookup_finds_what_a_scope_on_the_way_up_defines() {
    let mut env = Environment::new_root();
    let a = env.new_child(0);
    let b = env.new_child(a);
    let c = env.new_child(0);
    env.define(a, 1, 11);
    env.define(c, 2, 22);
    for (scope, key, found) in [
        (0, 1, false),
        (a, 1, true),
        (b, 1, true),
        (c, 1, false),
        (0, 2, false),
        (a, 2, false),
        (b, 2, false),
        (c, 2, true),
    ] {
        assert_eq!(env.get(key, scope).is_some(), found);
    }
}

#[test]
fn sums_can_be_regrouped_also_where_they_wrap() {
    let mut i = i10::new();
    let values = [0, 1, -1, 7, i64::MAX, i64::MIN, i64::MAX - 3, i64::MIN + 5];
    for a in values {
        for b in values {
            for c in values {
                let ab = i.add(&AST::Int { value: a }, &AST::Int { value: b }, 1).unwrap();
                let left = i.add(&ab, &AST::Int { value: c }, 1).unwrap();
                let bc = i.add(&AST::Int { value: b }, &AST::Int { value: c }, 1).unwrap();
                let right = i.add(&AST::Int { value: a }, &bc, 1).unwrap();
                assert_eq!(left, right);
                assert_eq!(left, AST::Int { value: a.wrapping_add(b).wrapping_add(c) });
            }
        }
    }
}

#[test]
fn a_list_and_a_scalar_give_a_list_of_the_same_shape() {
    let mut i = i10::new();
    let list = i.parse(b"5 -3 0 9223372036854775807").unwrap();
    let items = match list {
        AST::List { curry: true, values } => values.as_slice(&i.arena().ast),
        other => panic!("unexpected {:?}", other),
    };
    for s in [0, 1, -7, i64::MIN] {
        let r = i.add(&list, &AST::Int { value: s }, 0).unwrap();
        match r {
            AST::List { curry: true, values } => {
                let got = values.as_slice(&i.arena().ast);
                assert_eq!(got.len(), items.len());
                for (g, l) in got.iter().zip(items.iter()) {
                    match l {
                        AST::Int { value } => {
                            assert_eq!(*g, AST::Int { value: value.wrapping_add(s) })
                        }
                        other => panic!("unexpected {:?}", other),
                    }
                }
            }
            other => panic!("unexpected {:?}", other),
        }
    }
}

#[test]
fn an_empty_list_and_a_scalar_give_an_empty_list() {
    let mut i = i10::new();
    let none = AST::List { curry: true, values: klang::parse::vector::Vector { first: 0, len: 0 } };
    for depth in [0, 1, 5] {
        assert_eq!(i.add(&none, &AST::Int { value: 3 }, depth), Ok(none));
        assert_eq!(i.prod(&AST::Int { value: 3 }, &none, depth), Ok(none));
    }
}

#[test]
fn what_is_printed_parses_to_the_same_tree() {
    for line in [
        "0",
        "7",
        "-7",
        "9223372036854775807",
        "-9223372036854775808",
        "1 2 3",
        "-1 0 1",
        "{5}",
        "{[a]5}",
        "{[a;b;c] -12}",
        "{ -3}",
        "$[1;2;3]",
        "$[-1;-2;-3]",
        "$[1 2;{3};4]",
        "$[$[1;2;3];4 5;{[q]6}]",
    ] {
        let mut arena = Arena::new();
        let mut p = parser::new();
        let n = p.parse(line.as_bytes(), &mut arena).unwrap();
        assert!(in_the_subset(&arena, &n), "{}", line);
        let printed = render(&arena, &n, PRINT_DEPTH);
        let m = p.parse(&printed, &mut arena).unwrap();
        assert!(same(&arena, &n, &m), "{} printed as {:?}", line, String::from_utf8(printed));
    }
}

#[test]
fn an_integer_written_in_decimal_reads_back() {
    let arena = Arena::new();
    for v in [0, 1, -1, 10, -10, 99, 100, 12345, i64::MAX, i64::MIN, i64::MIN + 1] {
        let t = render(&arena, &AST::Int { value: v }, 0);
        assert_eq!(t, v.to_string().into_bytes());
        assert_eq!(parse_int(&t), Some(v));
    }
}

#[test]
fn a_literal_is_its_own_value() {
    let mut i = i10::new();
    for line in ["5", "-5", "1.25", "`s", "\"text\"", "type", "", "\\\\"] {
        let n = i.parse(line.as_bytes()).unwrap();
        let cells = i.arena().ast.len();
        let scopes = i.env().len();
        assert_eq!(i.run(&n), Ok(n));
        assert_eq!(i.exec(&n, 0, 0), Ok(n));
        assert_eq!(i.arena().ast.len(), cells);
        assert_eq!(i.env().len(), scopes);
    }
    assert_eq!(i.run(&AST::Bool { value: true }), Ok(AST::Bool { value: true }));
}

#[test]
fn a_sequence_is_its_last_expression_after_the_others() {
    let mut i = i10::new();
    let n = i.parse(b"a:2;b:a*3;c:b+a;c*c").unwrap();
    assert_eq!(i.run(&n), Ok(AST::Int { value: 64 }));
    for (name, value) in [("a", 2), ("b", 6), ("c", 8)] {
        let id = i.arena().name_id(name.as_bytes());
        assert_eq!(i.get(id, 0), Ok(AST::Int { value: value }));
    }
}

#[test]
fn factorial() {
    let mut i = i10::new();
    let def = i.parse(b"fac:{$[x=1;1;x*fac[x-1]]}").unwrap();
    assert!(matches!(i.run(&def), Ok(AST::Lambda { .. })));
    let five = i.parse(b"fac[5]").unwrap();
    assert_eq!(i.run(&five), Ok(AST::Int { value: 120 }));
    let one = i.parse(b"fac[1]").unwrap();
    assert_eq!(i.run(&one), Ok(AST::Int { value: 1 }));
}

#[test]
fn verbs_by_their_role() {
    assert_eq!(Verb::construct(b"+", Appliance::Monadic), Ok(Verb::Monad(Monad::Flip)));
    assert_eq!(Verb::construct(b"+", Appliance::Dyadic), Ok(Verb::Dyad(Dyad::Plus)));
    assert_eq!(Verb::construct(b"-", Appliance::Monadic), Ok(Verb::Monad(Monad::Negate)));
    assert_eq!(Verb::construct(b"=", Appliance::Dyadic), Ok(Verb::Dyad(Dyad::Equal)));
    assert_eq!(Verb::construct(b",", Appliance::Dyadic), Ok(Verb::Dyad(Dyad::Concat)));
    assert_eq!(Verb::construct(b"@", Appliance::Dyadic), Ok(Verb::Dyad(Dyad::At)));
    assert_eq!(Verb::construct(b".", Appliance::Monadic), Ok(Verb::Monad(Monad::Eval)));
    assert_eq!(Verb::construct(b".", Appliance::Dyadic), Ok(Verb::Dyad(Dyad::Dot)));
    assert_eq!(Verb::construct(b"$", Appliance::Monadic), Ok(Verb::Monad(Monad::STring)));
    assert_eq!(Verb::construct(b"a", Appliance::Dyadic), Err(SyntaxError::ParseError));
    assert_eq!(Verb::construct(b"++", Appliance::Dyadic), Err(SyntaxError::ParseError));
    assert_eq!(Verb::construct(b"", Appliance::Monadic), Err(SyntaxError::ParseError));
    assert_eq!(Adverb::construct(b"'"), Ok(Adverb::Each));
    assert_eq!(Adverb::construct(b"':"), Ok(Adverb::Eachprior));
    assert_eq!(Adverb::construct(b"/:"), Ok(Adverb::Eachright));
    assert_eq!(Adverb::construct(b"\\:"), Ok(Adverb::Eachleft));
    assert_eq!(Adverb::construct(b"x"), Err(SyntaxError::ParseError));
}
