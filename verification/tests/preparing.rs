use klang::parse::source::{prepare, prepare_with, trimmed};

#[test]
fn white_space_at_the_ends_goes() {
    assert_eq!(trimmed(b"  1+1 \t\n"), b"1+1");
    assert_eq!(trimmed(b""), b"");
    assert_eq!(trimmed(b" \n "), b"");
    assert_eq!(trimmed(b"a b"), b"a b");
    assert_eq!(prepare(b"  1+1  "), b"1+1".to_vec());
    assert_eq!(prepare(b""), b"".to_vec());
}

#[test]
fn a_comment_after_blanks_goes() {
    assert_eq!(prepare(b"1+1 / the sum"), b"1+1 ".to_vec());
    assert_eq!(prepare(b"abc  /x"), b"abc  ".to_vec());
    assert_eq!(prepare(b"1 // two slashes"), b"1 ".to_vec());
}

#[test]
fn a_slash_without_a_blank_before_it_stays() {
    assert_eq!(prepare(b"+/1 2 3"), b"+/1 2 3".to_vec());
    assert_eq!(prepare(b"1//2"), b"1//2".to_vec());
}

#[test]
fn a_minus_sign_after_an_operand_is_set_apart() {
    assert_eq!(prepare(b"a-1"), b"a- 1".to_vec());
    assert_eq!(prepare(b"1-1"), b"1- 1".to_vec());
    assert_eq!(prepare(b"x-.5"), b"x- .5".to_vec());
    assert_eq!(prepare(b"(1)-2"), b"(1)- 2".to_vec());
    assert_eq!(prepare(b"a[0]-2"), b"a[0]- 2".to_vec());
    assert_eq!(prepare(b"5-x"), b"5- x".to_vec());
    assert_eq!(prepare(b"10 20-1 2"), b"10 20- 1 2".to_vec());
    assert_eq!(prepare(b"fac[x-1]"), b"fac[x- 1]".to_vec());
}

#[test]
fn a_minus_sign_before_a_number_stays() {
    assert_eq!(prepare(b"-1"), b"-1".to_vec());
    assert_eq!(prepare(b"1 -1"), b"1 -1".to_vec());
    assert_eq!(prepare(b"x -1"), b"x -1".to_vec());
    assert_eq!(prepare(b"1+-2"), b"1+-2".to_vec());
}

#[test]
fn a_string_literal_stays_as_it_is() {
    assert_eq!(prepare(b"\"a-1\""), b"\"a-1\"".to_vec());
    assert_eq!(prepare(b"\"1 /2\""), b"\"1 /2\"".to_vec());
}

#[test]
fn a_line_break_becomes_a_separator() {
    assert_eq!(prepare(b"1\n2"), b"1;2".to_vec());
    assert_eq!(prepare(b"a:1\nb:2\na+b"), b"a:1;b:2;a+b".to_vec());
    assert_eq!(prepare(b"1 / one\n2"), b"1 ;2".to_vec());
}

#[test]
fn the_matches_decide_what_is_prepared() {
    let text = b"ab-c\nd";
    // No match at all: only the line break leaves something behind.
    assert_eq!(prepare_with(text, &vec![]), b";".to_vec());
    // One plain match over the first two bytes.
    let plain = (Some((0, 2)), None, None, None);
    assert_eq!(prepare_with(text, &vec![plain]), b"ab;".to_vec());
    // A match with its third group set gets a blank after the minus sign.
    let minus = (Some((1, 4)), None, None, Some((1, 4)));
    assert_eq!(prepare_with(text, &vec![minus]), b"b- c;".to_vec());
    // A match with a comment loses the comment.
    let comment = (Some((0, 4)), None, Some((2, 4)), None);
    assert_eq!(prepare_with(text, &vec![comment]), b"ab;".to_vec());
    // A string match stays as it is.
    let string = (Some((0, 4)), Some((0, 4)), None, None);
    assert_eq!(prepare_with(text, &vec![string]), b"ab-c;".to_vec());
    // A match that overlaps the one before it, or leaves the text, is passed over.
    let first = (Some((0, 3)), None, None, None);
    let overlapping = (Some((2, 4)), None, None, None);
    let outside = (Some((5, 9)), None, None, None);
    let nothing = (None, None, None, None);
    assert_eq!(
        prepare_with(text, &vec![first, overlapping, outside, nothing]),
        b"ab-;".to_vec()
    );
    // After a digit a minus sign gets a blank also in a plain match.
    let digits = b"1-x";
    let one = (Some((0, 1)), None, None, None);
    let dash = (Some((1, 2)), None, None, None);
    let x = (Some((2, 3)), None, None, None);
    assert_eq!(prepare_with(digits, &vec![one, dash, x]), b"1- x".to_vec());
}
