use klang::exec::error::Error;
use klang::exec::i10::{self, arith_kind, Interpreter};
use klang::exec::semantics::Arith;
use klang::parse::ast::AST;
use klang::parse::vector::Vector;

fn run(i: &mut Interpreter, line: &[u8]) -> Result<AST, Error> {
    let n = i.parse(line).expect("the line parses");
    let r = i.run(&n);
    i.gc();
    r
}

fn show(i: &mut Interpreter, line: &[u8]) -> String {
    match run(i, line) {
        Ok(r) => String::from_utf8(i.print(&r)).unwrap(),
        Err(e) => format!("'{}\n", e.name()),
    }
}

fn one(line: &[u8]) -> String {
    show(&mut i10::new(), line)
}

#[test]
fn arithmetic_on_integers() {
    assert_eq!(one(b"2+3"), "5\n");
    assert_eq!(one(b"2-3"), "-1\n");
    assert_eq!(one(b"2*3"), "6\n");
    assert_eq!(one(b"1+2*3"), "7\n");
    assert_eq!(one(b"2*3+1"), "8\n");
    assert_eq!(one(b"(2*3)+1"), "7\n");
    assert_eq!(one(b"0x10+1"), "17\n");
}

#[test]
fn arithmetic_wraps() {
    assert_eq!(one(b"9223372036854775807+1"), "-9223372036854775808\n");
    assert_eq!(one(b"-9223372036854775808-1"), "9223372036854775807\n");
    assert_eq!(one(b"9223372036854775807*2"), "-2\n");
    assert_eq!(one(b"4611686018427387904*4"), "0\n");
}

#[test]
fn arithmetic_goes_cell_by_cell() {
    assert_eq!(one(b"1 2 3*2"), "2 4 6\n");
    assert_eq!(one(b"2-1 2 3"), "1 0 -1\n");
    assert_eq!(one(b"10 20-1 2"), "9 18\n");
    assert_eq!(one(b"1 2 3*4 5 6"), "4 10 18\n");
    assert_eq!(one(b"101b+1"), "2 1 2\n");
    assert_eq!(one(b"1 2+(1;2)"), "'type\n");
    assert_eq!(one(b"1 2+`a`b"), "'type\n");
    assert_eq!(one(b"1 2 3+1 2"), "'length\n");
}

#[test]
fn equality_of_integers() {
    assert_eq!(one(b"1=1"), "1b\n");
    assert_eq!(one(b"1=2"), "0b\n");
    assert_eq!(one(b"1=`a"), "'type\n");
    assert_eq!(one(b"1 2=1 2"), "'type\n");
}

#[test]
fn literals_stand_for_themselves() {
    assert_eq!(one(b"42"), "42\n");
    assert_eq!(one(b"-42"), "-42\n");
    assert_eq!(one(b"1.50"), "1.5\n");
    assert_eq!(one(b"-.5"), "-0.5\n");
    assert_eq!(one(b"5."), "5\n");
    assert_eq!(one(b"`abc"), "`abc\n");
    assert_eq!(one(b"\"hello\""), "\"hello\"\n");
    assert_eq!(one(b""), "");
    assert_eq!(one(b"+"), "+\n");
}

#[test]
fn conditions() {
    assert_eq!(one(b"$[1=1;42;0]"), "42\n");
    assert_eq!(one(b"$[1=2;42;0]"), "0\n");
    assert_eq!(one(b"$[1;2;3]"), "'condition\n");
    assert_eq!(one(b"$[1=1;2]"), "'condition\n");
    assert_eq!(one(b"$[1=1;2;3;4]"), "'condition\n");
    assert_eq!(one(b"$[1=1;a;3]"), "'undefined\n");
    assert_eq!(one(b"$[1=2;a;3]"), "3\n");
}

#[test]
fn bindings_and_names() {
    let mut i = i10::new();
    assert_eq!(show(&mut i, b"a:5"), "5\n");
    assert_eq!(show(&mut i, b"a+1"), "6\n");
    assert_eq!(show(&mut i, b"a:a+1"), "6\n");
    assert_eq!(show(&mut i, b"a"), "6\n");
    assert_eq!(show(&mut i, b"b"), "'undefined\n");
    assert_eq!(show(&mut i, b"b:b+1"), "'undefined\n");
    assert_eq!(show(&mut i, b"b"), "'undefined\n");
}

#[test]
fn a_sequence_gives_its_last_value_and_keeps_its_bindings() {
    let mut i = i10::new();
    assert_eq!(show(&mut i, b"a:1;b:2;a+b"), "3\n");
    assert_eq!(show(&mut i, b"a"), "1\n");
    assert_eq!(show(&mut i, b"b"), "2\n");
    assert_eq!(show(&mut i, b"c:1;d;e:2"), "'undefined\n");
    assert_eq!(show(&mut i, b"c"), "1\n");
    assert_eq!(show(&mut i, b"e"), "'undefined\n");
}

#[test]
fn lists_are_evaluated_in_place() {
    let mut i = i10::new();
    let n = i.parse(b"(1+1;2*3)").unwrap();
    let v = match n {
        AST::List { curry: false, values } => values,
        other => panic!("unexpected {:?}", other),
    };
    assert!(matches!(i.arena().ast.cell(v.first), Some(AST::Verb { kind: b'+', .. })));
    assert_eq!(i.run(&n), Ok(n));
    assert_eq!(v.as_slice(&i.arena().ast), vec![AST::Int { value: 2 }, AST::Int { value: 6 }]);
    assert_eq!(String::from_utf8(i.print(&n)).unwrap(), "(2;6)\n");
}

#[test]
fn lambdas_and_calls() {
    assert_eq!(one(b"{x+y}[3;4]"), "7\n");
    assert_eq!(one(b"{[a;b]a*b}[3;4]"), "12\n");
    assert_eq!(one(b"{x*x}[5]"), "25\n");
    assert_eq!(one(b"{5}[1]"), "5\n");
    assert_eq!(one(b"{x+y+z}[1;2;3]"), "6\n");
    assert_eq!(one(b"{x+y+z}[1 2 3]"), "6\n");
    assert_eq!(one(b"f:{x+1};f[f[1]]"), "3\n");
    assert_eq!(one(b"f:{x+1};f 1"), "2\n");
}

#[test]
fn missing_arguments_fail_only_when_they_are_used() {
    assert_eq!(one(b"{x+y}[3]"), "'undefined\n");
    assert_eq!(one(b"{[a;b]a}[3]"), "3\n");
}

#[test]
fn further_arguments_are_left_out() {
    assert_eq!(one(b"{x}[1;2]"), "1\n");
    assert_eq!(one(b"{x}[1;a]"), "1\n");
}

#[test]
fn a_lambda_sees_the_scope_it_is_called_from() {
    let mut i = i10::new();
    assert_eq!(show(&mut i, b"a:10"), "10\n");
    assert_eq!(show(&mut i, b"f:{a+x}"), "{ [x] a+x }\n");
    assert_eq!(show(&mut i, b"f[1]"), "11\n");
    assert_eq!(show(&mut i, b"g:{[x]a:x;a+1}"), "{ [x] nyi }\n");
    assert_eq!(show(&mut i, b"g[5]"), "6\n");
    let a = i.arena().name_id(b"a");
    assert_eq!(i.get(a, 0), Ok(AST::Int { value: 10 }));
}

#[test]
fn a_line_is_evaluated_in_the_scope_that_was_created_last() {
    let mut i = i10::new();
    assert_eq!(show(&mut i, b"x"), "'undefined\n");
    assert_eq!(show(&mut i, b"{x+1}[5]"), "6\n");
    assert_eq!(i.env().last(), 1);
    assert_eq!(show(&mut i, b"x"), "5\n");
    let x = i.arena().name_id(b"x");
    assert_eq!(i.get(x, 0), Err(Error::Undefined));
}

#[test]
fn implicit_parameters_are_looked_for_in_verbs_conditions_and_lists() {
    assert_eq!(one(b"{x+1}"), "{ [x] x+1 }\n");
    assert_eq!(one(b"{$[y;1;2]}"), "{ [x;y] $[y;1;2] }\n");
    assert_eq!(one(b"{(1;z)}"), "{ [x;y;z] (1;z) }\n");
    assert_eq!(one(b"{a:x;a}"), "{ [] nyi }\n");
}

#[test]
fn recursion_by_name() {
    let mut i = i10::new();
    run(&mut i, b"fac:{$[x=1;1;x*fac[x-1]]}").unwrap();
    assert_eq!(run(&mut i, b"fac[1]"), Ok(AST::Int { value: 1 }));
    assert_eq!(run(&mut i, b"fac[5]"), Ok(AST::Int { value: 120 }));
    assert_eq!(run(&mut i, b"fac[10]"), Ok(AST::Int { value: 3628800 }));
    assert_eq!(run(&mut i, b"fac[20]"), Ok(AST::Int { value: 2432902008176640000 }));
    run(&mut i, b"fib:{$[x=0;0;$[x=1;1;fib[x-1]+fib[x-2]]]}").unwrap();
    assert_eq!(run(&mut i, b"fib[10]"), Ok(AST::Int { value: 55 }));
}

#[test]
fn the_depth_of_an_evaluation_is_bounded() {
    let mut i = i10::new();
    run(&mut i, b"fac:{$[x=1;1;x*fac[x-1]]}").unwrap();
    i.set_depth(12);
    assert_eq!(run(&mut i, b"fac[5]"), Err(Error::Stack));
    assert_eq!(run(&mut i, b"fac[1]"), Ok(AST::Int { value: 1 }));
    i.set_depth(100);
    assert_eq!(run(&mut i, b"fac[5]"), Ok(AST::Int { value: 120 }));
    i.set_depth(0);
    assert_eq!(run(&mut i, b"1+1"), Err(Error::Stack));
    assert_eq!(run(&mut i, b"1"), Ok(AST::Int { value: 1 }));
}

#[test]
fn endless_recursion_ends_in_a_stack_error() {
    let mut i = i10::new();
    run(&mut i, b"f:{f[x]}").unwrap();
    i.set_depth(3000);
    assert_eq!(run(&mut i, b"f[1]"), Err(Error::Stack));
    assert_eq!(run(&mut i, b"1+1"), Ok(AST::Int { value: 2 }));
}

#[test]
fn a_deep_recursion_grows_the_stack() {
    let mut i = i10::new();
    run(&mut i, b"count:{$[x=0;0;1+count[x-1]]}").unwrap();
    assert_eq!(run(&mut i, b"count[20000]"), Ok(AST::Int { value: 20000 }));
}

#[test]
fn lists_are_made_by_the_comma() {
    assert_eq!(one(b"1,2"), "(1;2)\n");
    assert_eq!(one(b",[5]"), ",5\n");
    assert_eq!(one(b"1,`a"), "(1;`a)\n");
    assert_eq!(one(b"(1+1),2"), "(2;2)\n");
    assert_eq!(one(b","), ",\n");
}

#[test]
fn what_cannot_be_called_or_is_no_verb() {
    assert_eq!(one(b"1[2]"), "'call\n");
    assert_eq!(one(b"`a[2]"), "'call\n");
    assert_eq!(one(b"1%2"), "'undefined\n");
    assert_eq!(one(b"1<2"), "'undefined\n");
    assert_eq!(one(b"+[1]"), "'rank\n");
    assert_eq!(one(b"+/1 2 3"), "'notimplemented\n");
}

#[test]
fn too_many_arguments_for_the_comma() {
    let mut i = i10::new();
    let first = i.store(AST::Int { value: 1 });
    i.store(AST::Int { value: 2 });
    i.store(AST::Int { value: 3 });
    let v = AST::Verb { kind: b',', args: Vector { first: first, len: 3 } };
    assert_eq!(i.run(&v), Err(Error::Rank));
}

#[test]
fn a_reference_that_leads_nowhere() {
    let mut i = i10::new();
    assert_eq!(i.run(&AST::Nameref { name: 0, value: 99 }), Err(Error::RuntimeError));
    let v = AST::Verb { kind: b'+', args: Vector { first: 50, len: 2 } };
    assert_eq!(i.run(&v), Err(Error::RuntimeError));
    assert_eq!(i.run(&AST::List { curry: true, values: Vector { first: 7, len: 1 } }), Err(Error::RuntimeError));
    assert_eq!(i.run(&AST::Condition { list: Vector { first: 7, len: 3 } }), Err(Error::RuntimeError));
}

#[test]
fn the_built_in_functions() {
    assert_eq!(one(b"type[1]"), "-7\n");
    assert_eq!(one(b"type[1.5]"), "-8\n");
    assert_eq!(one(b"type[`a]"), "-9\n");
    assert_eq!(one(b"type[1+1]"), "-7\n");
    assert_eq!(one(b"type[\"a\"]"), "127\n");
    assert_eq!(one(b"type[1=1]"), "127\n");
    assert_eq!(one(b"type[(1;2)]"), "127\n");
    assert_eq!(one(b"type[{x}]"), "127\n");
    assert_eq!(one(b"type[1 2 3]"), "-7\n");
    assert_eq!(one(b"type[,[1]]"), "127\n");
    assert_eq!(one(b"exec[parse[\"1+2\"]]"), "3\n");
    assert_eq!(one(b"parse[\"1+2\"]"), "1+2\n");
    assert_eq!(one(b"parse[1]"), "'invalidnativecall\n");
    assert_eq!(one(b"parse[\"(1\"]"), "'invalidnativecall\n");
    assert_eq!(one(b"exec[1+1]"), "2\n");
    assert_eq!(one(b"debug[5]"), "I(5)\n");
    assert_eq!(one(b"debug[1+1]"), "V(43,0,2)\n");
}

#[test]
fn a_built_in_function_without_arguments_is_itself() {
    let mut i = i10::new();
    let t = i.parse(b"type").unwrap();
    assert_eq!(t, AST::Native { name: 0 });
    assert_eq!(i.run(&t), Ok(t));
    assert_eq!(i.call(&t, &vec![], 0, 10), Ok(t));
    assert_eq!(i.apply(&t, &vec![AST::Int { value: 3 }], 0, 10), Ok(AST::Int { value: -7 }));
    assert_eq!(i.call(&AST::Native { name: 77 }, &vec![], 0, 10), Err(Error::InvalidNativeCall));
    assert_eq!(i.call(&AST::Int { value: 1 }, &vec![], 0, 10), Err(Error::Call));
}

#[test]
fn the_parts_of_the_evaluator() {
    let mut i = i10::new();
    let a = AST::Int { value: 7 };
    let b = AST::Int { value: 5 };
    assert_eq!(i.add(&a, &b, 1), Ok(AST::Int { value: 12 }));
    assert_eq!(i.sub(&a, &b, 1), Ok(AST::Int { value: 2 }));
    assert_eq!(i.prod(&a, &b, 1), Ok(AST::Int { value: 35 }));
    assert_eq!(i.arith(Arith::Sub, &b, &a, 0), Ok(AST::Int { value: -2 }));
    assert_eq!(arith_kind(b'+'), Some(Arith::Add));
    assert_eq!(arith_kind(b'*'), Some(Arith::Prod));
    assert_eq!(arith_kind(b'='), None);
    assert_eq!(i.eq(&a, &b), Ok(AST::Bool { value: false }));
    assert_eq!(i.eq(&a, &AST::Nil), Err(Error::Type));
    assert_eq!(i.add(&a, &AST::Nil, 1), Err(Error::Type));
    let list = i.parse(b"1 2 3").unwrap();
    let sum = i.add(&list, &a, 0).unwrap();
    assert_eq!(String::from_utf8(i.print(&sum)).unwrap(), "8 9 10\n");
    let diff = i.sub(&a, &list, 1).unwrap();
    assert_eq!(String::from_utf8(i.print(&diff)).unwrap(), "6 5 4\n");
    let id = i.define(9, &a, 0);
    assert_eq!(i.arena().ast.cell(id), Some(a));
    assert_eq!(i.get(9, 0), Ok(a));
    assert_eq!(i.get(10, 0), Err(Error::Undefined));
    assert_eq!(i.env().get(9, 0), Some((id, 0)));
    assert_eq!(i.parse_ast(&AST::Int { value: 1 }), Err(Error::InvalidNativeCall));
    let c = i.parse(b"$[1=1;2;3]").unwrap();
    match c {
        AST::Condition { list } => assert_eq!(i.cond(&list, 0, 5), Ok(AST::Int { value: 2 })),
        other => panic!("unexpected {:?}", other),
    }
}

#[test]
fn nested_curried_lists_are_combined_cell_by_cell() {
    let mut i = i10::new();
    let inner = i.parse(b"1 2").unwrap();
    let first = i.store(inner);
    i.store(AST::Int { value: 10 });
    let outer = AST::List { curry: true, values: Vector { first: first, len: 2 } };
    let r = i.add(&outer, &AST::Int { value: 1 }, 2).unwrap();
    assert_eq!(String::from_utf8(i.print(&r)).unwrap(), "2 3\n11\n");
    let again = i.add(&outer, &AST::Int { value: 1 }, 1).unwrap();
    assert_eq!(String::from_utf8(i.print(&again)).unwrap(), "2 3\n11\n");
    assert_eq!(i.add(&outer, &AST::Int { value: 1 }, 0), Err(Error::Stack));
}

#[test]
fn errors_have_their_names() {
    assert_eq!(Error::RuntimeError.name(), "runtimeerror");
    assert_eq!(Error::Rank.name(), "rank");
    assert_eq!(Error::Type.name(), "type");
    assert_eq!(Error::Length.name(), "length");
    assert_eq!(Error::Condition.name(), "condition");
    assert_eq!(Error::Call.name(), "call");
    assert_eq!(Error::Undefined.name(), "undefined");
    assert_eq!(Error::Stack.name(), "stack");
    assert_eq!(Error::InvalidString.name(), "invalidstring");
    assert_eq!(Error::NotImplemented.name(), "notimplemented");
    assert_eq!(Error::InvalidType.name(), "invalidtype");
    assert_eq!(Error::InvalidNativeCall.name(), "invalidnativecall");
}

#[test]
fn compaction_keeps_what_is_defined() {
    let mut i = i10::new();
    run(&mut i, b"a:1").unwrap();
    run(&mut i, b"f:{x+a}").unwrap();
    for _ in 0..5 {
        assert_eq!(run(&mut i, b"f[1]"), Ok(AST::Int { value: 2 }));
    }
    assert!(i.env().len().0 <= 7);
    assert_eq!(run(&mut i, b"a"), Ok(AST::Int { value: 1 }));
}
