use klang::parse::ast::{self, Adverb, Args, Chars, AST};
use klang::parse::parser;
use klang::parse::show::{dump, print, push_decimal, push_number, render, PRINT_DEPTH};
use klang::parse::store::Arena;
use klang::parse::vector::Vector;

fn text(arena: &Arena, a: &AST) -> String {
    String::from_utf8(render(arena, a, PRINT_DEPTH)).unwrap()
}

fn round(line: &str) -> String {
    let mut arena = Arena::new();
    let mut p = parser::new();
    let n = p.parse(line.as_bytes(), &mut arena).unwrap();
    text(&arena, &n)
}

#[test]
fn integers_in_decimal() {
    let mut out = Vec::new();
    push_decimal(0, &mut out);
    out.push(b' ');
    push_decimal(-1, &mut out);
    out.push(b' ');
    push_decimal(1234567890, &mut out);
    out.push(b' ');
    push_decimal(i64::MAX, &mut out);
    out.push(b' ');
    push_decimal(i64::MIN, &mut out);
    out.push(b' ');
    push_number(u64::MAX, &mut out);
    assert_eq!(
        String::from_utf8(out).unwrap(),
        "0 -1 1234567890 9223372036854775807 -9223372036854775808 18446744073709551615"
    );
}

#[test]
fn atoms() {
    let mut arena = Arena::new();
    assert_eq!(text(&arena, &AST::Int { value: -12 }), "-12");
    assert_eq!(text(&arena, &AST::Bool { value: true }), "1b");
    assert_eq!(text(&arena, &AST::Bool { value: false }), "0b");
    let s = arena.intern_symbol(b"sym");
    assert_eq!(text(&arena, &s), "`sym");
    let n = arena.intern_name(b"nam");
    assert_eq!(text(&arena, &n), "nam");
    let f = arena.intern_float(b"2.50");
    assert_eq!(text(&arena, &f), "2.50");
    assert_eq!(text(&arena, &AST::String { value: Chars::new(b"hi").unwrap() }), "\"hi\"");
    assert_eq!(text(&arena, &AST::Nil), "");
    assert_eq!(text(&arena, &AST::Native { name: 2 }), "-2!");
    assert_eq!(text(&arena, &AST::Name { value: 99 }), "");
}

#[test]
fn nodes_without_a_printed_form() {
    let arena = Arena::new();
    assert_eq!(text(&arena, &AST::Quit), "nyi");
    assert_eq!(text(&arena, &AST::Ioverb { fd: 1 }), "nyi");
    assert_eq!(text(&arena, &AST::Nameref { name: 0, value: 0 }), "nyi");
    assert_eq!(text(&arena, &AST::Sequence { values: Vector { first: 0, len: 0 } }), "nyi");
}

#[test]
fn verbs() {
    assert_eq!(round("+"), "+");
    assert_eq!(round("-[5]"), "-5");
    assert_eq!(round("1+2"), "1+2");
    assert_eq!(round("1+2*3"), "1+2*3");
    assert_eq!(round("f[1]"), "f.1");
    let mut arena = Arena::new();
    let one = AST::Int { value: 1 };
    let v = ast::verb(&mut arena.ast, b',', vec![one, one, one]);
    assert_eq!(text(&arena, &v), "1,11");
}

#[test]
fn lists() {
    assert_eq!(round("1 2 3"), "1 2 3");
    assert_eq!(round("`a`b"), "`a `b");
    assert_eq!(round("1 2.50"), "1 2.5");
    assert_eq!(round("1b"), "1");
    assert_eq!(round("(1;2)"), "(1;2)");
    assert_eq!(round("(1;(2;3))"), "(1;(2;3))");
    assert_eq!(round("(1 2;3)"), "(1 2;3)");
    let mut arena = Arena::new();
    let one = AST::Int { value: 1 };
    let single = ast::list(false, &mut arena.ast, vec![one]);
    assert_eq!(text(&arena, &single), ",1");
    let none = ast::list(false, &mut arena.ast, vec![]);
    assert_eq!(text(&arena, &none), "()");
    let curried_none = ast::list(true, &mut arena.ast, vec![]);
    assert_eq!(text(&arena, &curried_none), "()");
    let inner = ast::list(true, &mut arena.ast, vec![one, one]);
    let rows = ast::list(true, &mut arena.ast, vec![inner, one]);
    assert_eq!(text(&arena, &rows), "1 1\n1");
    let b = AST::Bool { value: true };
    let mixed = ast::list(true, &mut arena.ast, vec![one, b]);
    assert_eq!(text(&arena, &mixed), "1\n1b");
}

#[test]
fn lambdas_dictionaries_conditions_and_adverbs() {
    assert_eq!(round("{x+y}"), "{ [x;y] x+y }");
    assert_eq!(round("{[a]7}"), "{ [a] 7 }");
    assert_eq!(round("{7}"), "{ [] 7 }");
    assert_eq!(round("[a:1;b:2]"), "[a:1;b:2]");
    assert_eq!(round("[]"), "[]");
    assert_eq!(round("$[1;2;3]"), "$[1;2;3]");
    assert_eq!(round("+/1 2"), "+/1 2");
    assert_eq!(round("1+\\:2"), "1+\\:2");
}

#[test]
fn a_reference_that_leads_nowhere_prints_as_nothing() {
    let arena = Arena::new();
    let lambda = AST::Lambda { args: Args::new(), body: 5 };
    assert_eq!(text(&arena, &lambda), "{ []  }");
    let list = AST::List { curry: false, values: Vector { first: 3, len: 2 } };
    assert_eq!(text(&arena, &list), "()");
    let verb = AST::Verb { kind: b'+', args: Vector { first: 3, len: 2 } };
    assert_eq!(text(&arena, &verb), "+");
    let adverb = AST::Adverb { kind: Adverb::Each, left: 1, verb: 2, right: 3 };
    assert_eq!(text(&arena, &adverb), "'");
    assert_eq!(text(&arena, &AST::Debug { value: 0 }), "");
}

#[test]
fn the_depth_of_the_printed_form_is_bounded() {
    let mut arena = Arena::new();
    let one = AST::Int { value: 1 };
    let inner = ast::list(false, &mut arena.ast, vec![one, one]);
    let outer = ast::list(false, &mut arena.ast, vec![inner, one]);
    assert_eq!(String::from_utf8(render(&arena, &outer, 2)).unwrap(), "((1;1);1)");
    assert_eq!(String::from_utf8(render(&arena, &outer, 1)).unwrap(), "((;);1)");
    assert_eq!(String::from_utf8(render(&arena, &outer, 0)).unwrap(), "(;)");
    // A list that holds itself ends where the depth ends.
    let cell = arena.ast.push(AST::Nil);
    let knot = AST::List { curry: false, values: Vector { first: cell, len: 1 } };
    arena.ast.store(cell, knot);
    assert_eq!(String::from_utf8(render(&arena, &knot, 3)).unwrap(), ",,,,");
}

#[test]
fn the_structural_form() {
    assert_eq!(dump(&AST::Int { value: -5 }), b"I(-5)".to_vec());
    assert_eq!(dump(&AST::Bool { value: true }), b"B(1)".to_vec());
    assert_eq!(dump(&AST::Name { value: 3 }), b"N(3)".to_vec());
    assert_eq!(dump(&AST::Symbol { value: 4 }), b"S(4)".to_vec());
    assert_eq!(dump(&AST::Float { value: 1 }), b"F(1)".to_vec());
    assert_eq!(dump(&AST::String { value: Chars::new(b"ab").unwrap() }), b"\"ab\"".to_vec());
    assert_eq!(dump(&AST::Ioverb { fd: 2 }), b"O(2)".to_vec());
    assert_eq!(dump(&AST::Native { name: 1 }), b"X(1)".to_vec());
    let v = Vector { first: 7, len: 2 };
    assert_eq!(dump(&AST::Verb { kind: b'+', args: v }), b"V(43,7,2)".to_vec());
    assert_eq!(dump(&AST::List { curry: true, values: v }), b"Li(1,7,2)".to_vec());
    assert_eq!(dump(&AST::Sequence { values: v }), b"Q(7,2)".to_vec());
    assert_eq!(dump(&AST::Dict { keys: v, values: v }), b"D(7,2,7,2)".to_vec());
    assert_eq!(dump(&AST::Condition { list: v }), b"C(7,2)".to_vec());
    assert_eq!(dump(&AST::Nameref { name: 1, value: 9 }), b"R(1,9)".to_vec());
    assert_eq!(dump(&AST::Debug { value: 9 }), b"G(9)".to_vec());
    let mut args = Args::new();
    args.push(5);
    assert_eq!(dump(&AST::Lambda { args: args, body: 8 }), b"L(1,8)".to_vec());
    assert_eq!(
        dump(&AST::Adverb { kind: Adverb::EachPrior, left: 1, verb: 2, right: 3 }),
        b"A(':,1,2,3)".to_vec()
    );
    assert_eq!(dump(&AST::Quit), b"\\\\".to_vec());
    assert_eq!(dump(&AST::Nil), b"".to_vec());
}

#[test]
fn printing_a_result_ends_the_line() {
    let arena = Arena::new();
    assert_eq!(print(&AST::Int { value: 5 }, &arena), b"5\n".to_vec());
    assert_eq!(print(&AST::Nil, &arena), b"".to_vec());
}
