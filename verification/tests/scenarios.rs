use klang::exec::error::Error as ExecError;
use klang::exec::i10;
use klang::parse::ast::AST;

fn eval(line: &[u8]) -> Result<Vec<u8>, ExecError> {
    let mut i = i10::new();
    let n = i.parse(line).expect("the line parses");
    let r = i.run(&n)?;
    Ok(i.print(&r))
}

#[test]
fn sum_of_two_integers() {
    assert_eq!(eval(b"2+3"), Ok(b"5\n".to_vec()));
}

#[test]
fn scalar_plus_vector() {
    assert_eq!(eval(b"1+1 2 3"), Ok(b"2 3 4\n".to_vec()));
}

#[test]
fn vector_plus_vector() {
    assert_eq!(eval(b"1 2 3+10 20 30"), Ok(b"11 22 33\n".to_vec()));
}

#[test]
fn condition_takes_the_true_branch() {
    assert_eq!(eval(b"$[1=1;42;0]"), Ok(b"42\n".to_vec()));
}

#[test]
fn factorial_in_one_line() {
    assert_eq!(eval(b"fac:{$[x=1;1;x*fac[x-1]]};fac[5]"), Ok(b"120\n".to_vec()));
}

#[test]
fn lambda_with_two_implicit_parameters() {
    assert_eq!(eval(b"{x+y}[3;4]"), Ok(b"7\n".to_vec()));
}

#[test]
fn unknown_name_is_undefined() {
    assert_eq!(eval(b"a+1"), Err(ExecError::Undefined));
}

#[test]
fn vectors_of_different_lengths() {
    assert_eq!(eval(b"1 2+1 2 3"), Err(ExecError::Length));
}

#[test]
fn integer_plus_symbol_is_a_type_error() {
    assert_eq!(eval(b"1+`a"), Err(ExecError::Type));
}

#[test]
fn two_backslashes_quit() {
    let mut i = i10::new();
    let n = i.parse(b"\\\\").unwrap();
    assert_eq!(i.run(&n), Ok(AST::Quit));
}

#[test]
fn factorial_across_lines() {
    let mut i = i10::new();
    let def = i.parse(b"fac:{$[x=1;1;x*fac[x-1]]}").unwrap();
    i.run(&def).unwrap();
    let five = i.parse(b"fac[5]").unwrap();
    assert_eq!(i.run(&five), Ok(AST::Int { value: 120 }));
    i.gc();
    let one = i.parse(b"fac[1]").unwrap();
    assert_eq!(i.run(&one), Ok(AST::Int { value: 1 }));
}
