use klang::parse::ast::AST;
use klang::parse::parser;
use klang::parse::store::Arena;

#[test]
fn parses_a_sum() {
    let mut arena = Arena::new();
    let mut p = parser::new();
    let r = p.parse(b"2+3", &mut arena).unwrap();
    match r {
        AST::Verb { kind, args } => {
            assert_eq!(kind, b'+');
            assert_eq!(args.len(), 2);
            assert_eq!(*args.get(0, &arena.ast), AST::Int { value: 2 });
            assert_eq!(*args.get(1, &arena.ast), AST::Int { value: 3 });
        }
        other => panic!("unexpected {:?}", other),
    }
}

#[test]
fn parses_a_vector() {
    let mut arena = Arena::new();
    let mut p = parser::new();
    let r = p.parse(b"1 2 3", &mut arena).unwrap();
    match r {
        AST::List { curry, values } => {
            assert!(curry);
            assert_eq!(values.as_slice(&arena.ast), vec![AST::Int { value: 1 }, AST::Int { value: 2 }, AST::Int { value: 3 }]);
        }
        other => panic!("unexpected {:?}", other),
    }
}

use klang::parse::ast::{Adverb, Args, Chars};
use klang::parse::error::Error;
use klang::parse::token::Token;
use klang::parse::vector::Vector;

fn parse(line: &[u8]) -> (Arena, Result<AST, Error>) {
    let mut arena = Arena::new();
    let mut p = parser::new();
    let r = p.parse(line, &mut arena);
    (arena, r)
}

fn args_of(ids: &[u16]) -> Args {
    let mut a = Args::new();
    for i in ids {
        a.push(*i);
    }
    a
}

#[test]
fn an_empty_line_is_the_empty_node() {
    assert_eq!(parse(b"").1, Ok(AST::Nil));
    assert_eq!(parse(b"   ").1, Ok(AST::Nil));
}

#[test]
fn number_literals() {
    assert_eq!(parse(b"42").1, Ok(AST::Int { value: 42 }));
    assert_eq!(parse(b"-42").1, Ok(AST::Int { value: -42 }));
    assert_eq!(parse(b"0x1F").1, Ok(AST::Int { value: 31 }));
    assert_eq!(parse(b"0xZZ").1, Err(Error::ParseError));
    assert_eq!(parse(b"0w").1, Err(Error::ParseError));
    assert_eq!(parse(b"0N").1, Err(Error::ParseError));
    let (arena, r) = parse(b"1.5");
    assert_eq!(r, Ok(AST::Float { value: 0 }));
    assert_eq!(arena.id_float(0), b"1.5".to_vec());
    let (arena, r) = parse(b"01.500 1.5 2.0 2");
    assert_eq!(
        r.map(|l| match l {
            AST::List { curry: true, values } => values.as_slice(&arena.ast),
            other => panic!("unexpected {:?}", other),
        }),
        Ok(vec![
            AST::Float { value: 0 },
            AST::Float { value: 0 },
            AST::Float { value: 1 },
            AST::Int { value: 2 }
        ])
    );
    assert_eq!(arena.id_float(0), b"1.5".to_vec());
    assert_eq!(arena.id_float(1), b"2".to_vec());
    let (arena, r) = parse(b"99999999999999999999");
    assert_eq!(r, Ok(AST::Float { value: 0 }));
    assert_eq!(arena.id_float(0), b"99999999999999999999".to_vec());
}

#[test]
fn a_run_of_numbers_is_a_curried_list() {
    let (arena, r) = parse(b"1 2.5 3 2.5");
    let v = Vector { first: 0, len: 4 };
    assert_eq!(r, Ok(AST::List { curry: true, values: v }));
    assert_eq!(
        v.as_slice(&arena.ast),
        vec![
            AST::Int { value: 1 },
            AST::Float { value: 0 },
            AST::Int { value: 3 },
            AST::Float { value: 0 }
        ]
    );
}

#[test]
fn a_bit_string_is_a_curried_list_of_its_digits() {
    let (arena, r) = parse(b"101b");
    let v = Vector { first: 0, len: 3 };
    assert_eq!(r, Ok(AST::List { curry: true, values: v }));
    assert_eq!(
        v.as_slice(&arena.ast),
        vec![AST::Int { value: 1 }, AST::Int { value: 0 }, AST::Int { value: 1 }]
    );
}

#[test]
fn symbols_and_strings() {
    let (arena, r) = parse(b"`abc");
    assert_eq!(r, Ok(AST::Symbol { value: 0 }));
    assert_eq!(arena.id_symbol(0), b"abc".to_vec());
    let (arena, r) = parse(b"`a`b`a");
    let v = Vector { first: 0, len: 3 };
    assert_eq!(r, Ok(AST::List { curry: true, values: v }));
    assert_eq!(
        v.as_slice(&arena.ast),
        vec![AST::Symbol { value: 0 }, AST::Symbol { value: 1 }, AST::Symbol { value: 0 }]
    );
    assert_eq!(arena.id_symbol(1), b"b".to_vec());
    assert_eq!(parse(b"\"abc\"").1, Ok(AST::String { value: Chars::new(b"abc").unwrap() }));
    assert_eq!(parse(b"\"\"").1, Ok(AST::String { value: Chars::new(b"").unwrap() }));
}

#[test]
fn a_string_of_more_than_64_bytes_is_refused() {
    let mut line = vec![b'"'];
    line.extend(std::iter::repeat(b'a').take(64));
    line.push(b'"');
    assert!(parse(&line).1.is_ok());
    let mut line = vec![b'"'];
    line.extend(std::iter::repeat(b'a').take(65));
    line.push(b'"');
    assert_eq!(parse(&line).1, Err(Error::StringSize));
}

#[test]
fn names_bindings_and_indexed_names() {
    let (arena, r) = parse(b"abc");
    assert_eq!(r, Ok(AST::Name { value: 0 }));
    assert_eq!(arena.id_name(0), b"abc".to_vec());
    let (arena, r) = parse(b"x:5");
    assert_eq!(r, Ok(AST::Nameref { name: 0, value: 0 }));
    assert_eq!(arena.ast.cell(0), Some(AST::Int { value: 5 }));
    assert_eq!(parse(b"x:").1, Err(Error::ParseError));
    let (arena, r) = parse(b"f[1;2]");
    assert_eq!(r, Ok(AST::Verb { kind: b'.', args: Vector { first: 2, len: 2 } }));
    assert_eq!(arena.ast.cell(2), Some(AST::Name { value: 0 }));
    assert_eq!(arena.ast.cell(3), Some(AST::Sequence { values: Vector { first: 0, len: 2 } }));
    let (arena, r) = parse(b"(f)[7][8]");
    assert_eq!(r, Ok(AST::Verb { kind: b'.', args: Vector { first: 2, len: 2 } }));
    assert_eq!(
        arena.ast.cell(2),
        Some(AST::Verb { kind: b'.', args: Vector { first: 0, len: 2 } })
    );
    assert_eq!(arena.ast.cell(3), Some(AST::Int { value: 8 }));
}

#[test]
fn an_indexed_name_takes_one_index_list() {
    let mut arena = Arena::new();
    let mut p = parser::new();
    let r = p.parse(b"f[7][8]", &mut arena);
    assert_eq!(r, Ok(AST::Verb { kind: b'.', args: Vector { first: 0, len: 2 } }));
    assert_eq!(arena.ast.cell(1), Some(AST::Int { value: 7 }));
    assert_eq!(p.rest(), b"[8]");
}

#[test]
fn verbs_alone_with_one_argument_and_between_two() {
    assert_eq!(parse(b"+").1, Ok(AST::Verb { kind: b'+', args: Vector { first: 0, len: 0 } }));
    let (arena, r) = parse(b"+[1]");
    assert_eq!(r, Ok(AST::Verb { kind: b'+', args: Vector { first: 0, len: 1 } }));
    assert_eq!(arena.ast.cell(0), Some(AST::Int { value: 1 }));
    let (arena, r) = parse(b"1+2*3");
    assert_eq!(r, Ok(AST::Verb { kind: b'+', args: Vector { first: 2, len: 2 } }));
    assert_eq!(arena.ast.cell(2), Some(AST::Int { value: 1 }));
    assert_eq!(
        arena.ast.cell(3),
        Some(AST::Verb { kind: b'*', args: Vector { first: 0, len: 2 } })
    );
    let (arena, r) = parse(b"-x");
    assert_eq!(r, Ok(AST::Verb { kind: b'-', args: Vector { first: 0, len: 1 } }));
    assert_eq!(arena.ast.cell(0), Some(AST::Name { value: 0 }));
}

#[test]
fn a_noun_after_a_noun_is_an_application() {
    let (arena, r) = parse(b"f 1");
    assert_eq!(r, Ok(AST::Verb { kind: b'@', args: Vector { first: 0, len: 2 } }));
    assert_eq!(arena.ast.cell(0), Some(AST::Name { value: 0 }));
    assert_eq!(arena.ast.cell(1), Some(AST::Int { value: 1 }));
}

#[test]
fn lambdas_with_and_without_a_header() {
    let (arena, r) = parse(b"{x+y}");
    assert_eq!(r, Ok(AST::Lambda { args: args_of(&[0, 1]), body: 2 }));
    assert_eq!(
        arena.ast.cell(2),
        Some(AST::Verb { kind: b'+', args: Vector { first: 0, len: 2 } })
    );
    let (arena, r) = parse(b"{[a;b]a+b}");
    assert_eq!(r, Ok(AST::Lambda { args: args_of(&[0, 1]), body: 2 }));
    assert_eq!(arena.id_name(1), b"b".to_vec());
    assert_eq!(parse(b"{5}").1, Ok(AST::Lambda { args: args_of(&[]), body: 0 }));
    assert_eq!(parse(b"{[]5}").1, Ok(AST::Lambda { args: args_of(&[]), body: 0 }));
    let (arena, r) = parse(b"{z}");
    assert_eq!(r, Ok(AST::Lambda { args: args_of(&[1, 2, 0]), body: 0 }));
    assert_eq!(arena.id_name(0), b"z".to_vec());
    assert_eq!(arena.id_name(1), b"x".to_vec());
    assert_eq!(arena.id_name(2), b"y".to_vec());
    assert_eq!(parse(b"{x}").1, Ok(AST::Lambda { args: args_of(&[0]), body: 0 }));
    assert_eq!(parse(b"{y}").1, Ok(AST::Lambda { args: args_of(&[1, 0]), body: 0 }));
    assert!(parse(b"{[a;b;c;d;e;f;g;h]1}").1.is_ok());
    assert_eq!(parse(b"{[a;b;c;d;e;f;g;h;i]1}").1, Err(Error::ParseError));
    assert_eq!(parse(b"{[a;1]1}").1, Err(Error::ParseError));
    assert_eq!(parse(b"{1").1, Err(Error::ParseError));
}

#[test]
fn a_bare_colon_is_the_identity_lambda() {
    let (arena, r) = parse(b":");
    assert_eq!(r, Ok(AST::Lambda { args: args_of(&[1, 0]), body: 0 }));
    assert_eq!(arena.id_name(0), b"y".to_vec());
    assert_eq!(arena.id_name(1), b"x".to_vec());
    assert_eq!(arena.ast.cell(0), Some(AST::Name { value: 0 }));
}

#[test]
fn groups_dictionaries_and_conditions() {
    assert_eq!(parse(b"(1)").1, Ok(AST::Int { value: 1 }));
    assert_eq!(parse(b"()").1, Ok(AST::Nil));
    let (arena, r) = parse(b"(1;`a)");
    assert_eq!(r, Ok(AST::List { curry: false, values: Vector { first: 0, len: 2 } }));
    assert_eq!(arena.ast.cell(1), Some(AST::Symbol { value: 0 }));
    let (arena, r) = parse(b"[a:1;b:2]");
    assert_eq!(
        r,
        Ok(AST::Dict { keys: Vector { first: 0, len: 2 }, values: Vector { first: 2, len: 2 } })
    );
    assert_eq!(arena.ast.cell(1), Some(AST::Name { value: 1 }));
    assert_eq!(arena.ast.cell(3), Some(AST::Int { value: 2 }));
    assert_eq!(
        parse(b"[]").1,
        Ok(AST::Dict { keys: Vector { first: 0, len: 0 }, values: Vector { first: 0, len: 0 } })
    );
    assert_eq!(parse(b"$[1;2;3]").1, Ok(AST::Condition { list: Vector { first: 0, len: 3 } }));
    assert_eq!(parse(b"$[1]").1, Err(Error::InvalidCondition));
    assert_eq!(parse(b"$[1;2").1, Err(Error::ParseError));
    assert_eq!(parse(b"(1").1, Err(Error::ParseError));
}

#[test]
fn adverb_forms() {
    let (arena, r) = parse(b"+/1 2 3");
    assert_eq!(r, Ok(AST::Adverb { kind: Adverb::OverJoin, left: 3, verb: 4, right: 5 }));
    assert_eq!(arena.ast.cell(3), Some(AST::Nil));
    assert_eq!(
        arena.ast.cell(4),
        Some(AST::Verb { kind: b'+', args: Vector { first: 0, len: 0 } })
    );
    assert_eq!(
        arena.ast.cell(5),
        Some(AST::List { curry: true, values: Vector { first: 0, len: 3 } })
    );
    assert_eq!(parse(b"1//2").1, Err(Error::UnexpectedToken));
}

#[test]
fn marks() {
    assert_eq!(parse(b"\\\\").1, Ok(AST::Quit));
    assert_eq!(parse(b"0:").1, Ok(AST::Ioverb { fd: 0 }));
    assert_eq!(parse(b"7:").1, Ok(AST::Ioverb { fd: 7 }));
}

#[test]
fn a_sequence_of_expressions() {
    let (arena, r) = parse(b"1;2;3");
    assert_eq!(r, Ok(AST::Sequence { values: Vector { first: 0, len: 3 } }));
    assert_eq!(arena.ast.cell(2), Some(AST::Int { value: 3 }));
    let (_, r) = parse(b"1\n2");
    assert_eq!(r, Ok(AST::Sequence { values: Vector { first: 0, len: 2 } }));
}

#[test]
fn what_no_expression_begins_with_stays_unread() {
    let mut arena = Arena::new();
    let mut p = parser::new();
    assert_eq!(p.parse(b"1) 2", &mut arena), Ok(AST::Int { value: 1 }));
    assert_eq!(p.rest(), b") 2");
    assert!(!p.done());
    assert!(p.at(Token::CloseP));
    assert!(!p.at_noun());
    assert_eq!(p.expect(Token::Semi).map(|r| r.0), Err(Error::ParseError));
    assert_eq!(p.rest(), b") 2");
    assert_eq!(p.expect(Token::CloseP).map(|r| r.0), Ok(b")".to_vec()));
    assert_eq!(p.rest(), b"2");
    assert!(p.at_noun());
    assert!(p.matches(Token::Name).is_none());
    assert_eq!(p.matches(Token::Number).map(|r| r.0), Some(b"2".to_vec()));
    assert!(p.done());
    assert!(!p.at_noun());
}

#[test]
fn parse_str_reads_a_string_slice() {
    let mut arena = Arena::new();
    let mut p = parser::new();
    assert_eq!(p.parse_str("2+3", &mut arena), p.parse(b"2+3", &mut arena).map(|_| {
        AST::Verb { kind: b'+', args: Vector { first: 0, len: 2 } }
    }));
    p.begin(b"  x  ");
    assert_eq!(p.rest(), b"x");
}
