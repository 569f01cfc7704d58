use klang::parse::error::Error;
use klang::parse::token::{
    canonical, is_decimal, lexeme_at_head, parse_hex, parse_int, Raw, Token,
};

fn lexeme(t: Token, s: &[u8]) -> Option<Vec<u8>> {
    t.find(s).map(|r| r.value().to_vec())
}

#[test]
fn each_kind_finds_its_lexeme_at_the_head() {
    assert_eq!(lexeme(Token::Bool, b"101b rest"), Some(b"101b".to_vec()));
    assert_eq!(lexeme(Token::Hexlit, b"0x1F+2"), Some(b"0x1F".to_vec()));
    assert_eq!(lexeme(Token::Number, b"12.5;3"), Some(b"12.5".to_vec()));
    assert_eq!(lexeme(Token::Number, b"-3+1"), Some(b"-3".to_vec()));
    assert_eq!(lexeme(Token::Number, b".5"), Some(b".5".to_vec()));
    assert_eq!(lexeme(Token::Number, b"7."), Some(b"7.".to_vec()));
    assert_eq!(lexeme(Token::Number, b"0w"), Some(b"0w".to_vec()));
    assert_eq!(lexeme(Token::Number, b"0N"), Some(b"0N".to_vec()));
    assert_eq!(lexeme(Token::Number, b"123"), Some(b"123".to_vec()));
    assert_eq!(lexeme(Token::Name, b"abc1 x"), Some(b"abc1".to_vec()));
    assert_eq!(lexeme(Token::Symbol, b"`a.b c"), Some(b"`a.b".to_vec()));
    assert_eq!(lexeme(Token::Symbol, b"`"), Some(b"`".to_vec()));
    assert_eq!(lexeme(Token::String, b"\"hi\" x"), Some(b"\"hi\"".to_vec()));
    assert_eq!(lexeme(Token::String, b"\"a\\\"b\""), Some(b"\"a\\\"b\"".to_vec()));
    assert_eq!(lexeme(Token::Verb, b"+1"), Some(b"+".to_vec()));
    assert_eq!(lexeme(Token::Verb, b"-1"), Some(b"-".to_vec()));
    assert_eq!(lexeme(Token::Assign, b"+:1"), Some(b"+:".to_vec()));
    assert_eq!(lexeme(Token::Ioverb, b"0:x"), Some(b"0:".to_vec()));
    assert_eq!(lexeme(Token::Adverb, b"/:x"), Some(b"/:".to_vec()));
    assert_eq!(lexeme(Token::Adverb, b"'x"), Some(b"'".to_vec()));
    assert_eq!(lexeme(Token::Adverb, b"\\x"), Some(b"\\".to_vec()));
    assert_eq!(lexeme(Token::Semi, b";1"), Some(b";".to_vec()));
    assert_eq!(lexeme(Token::Colon, b":1"), Some(b":".to_vec()));
    assert_eq!(lexeme(Token::View, b"::1"), Some(b"::".to_vec()));
    assert_eq!(lexeme(Token::Cond, b"$[1"), Some(b"$[".to_vec()));
    assert_eq!(lexeme(Token::Dict, b"[ab:1]"), Some(b"[ab:".to_vec()));
    assert_eq!(lexeme(Token::OpenB, b"[1]"), Some(b"[".to_vec()));
    assert_eq!(lexeme(Token::OpenP, b"(1)"), Some(b"(".to_vec()));
    assert_eq!(lexeme(Token::OpenC, b"{1}"), Some(b"{".to_vec()));
    assert_eq!(lexeme(Token::CloseB, b"]"), Some(b"]".to_vec()));
    assert_eq!(lexeme(Token::CloseP, b")"), Some(b")".to_vec()));
    assert_eq!(lexeme(Token::CloseC, b"}"), Some(b"}".to_vec()));
    assert_eq!(lexeme(Token::Quit, b"\\\\"), Some(b"\\\\".to_vec()));
}

#[test]
fn a_lexeme_has_to_stand_at_the_head() {
    assert_eq!(lexeme(Token::Name, b"1abc"), None);
    assert_eq!(lexeme(Token::Name, b" abc"), None);
    assert_eq!(lexeme(Token::Name, b"Abc"), None);
    assert_eq!(lexeme(Token::Bool, b"102b"), None);
    assert_eq!(lexeme(Token::Bool, b"b"), None);
    assert_eq!(lexeme(Token::Hexlit, b"0x"), None);
    assert_eq!(lexeme(Token::Hexlit, "0x\u{0661}".as_bytes()), None);
    assert_eq!(lexeme(Token::Hexlit, "0x1\u{0661}".as_bytes()), Some(b"0x1".to_vec()));
    assert_eq!(lexeme(Token::Number, b"abc"), None);
    assert_eq!(lexeme(Token::Number, b"-"), None);
    assert_eq!(lexeme(Token::String, b"\"open"), None);
    assert_eq!(lexeme(Token::Quit, b"\\"), None);
    assert_eq!(lexeme(Token::Semi, b""), None);
    assert_eq!(lexeme(Token::Nil, b"anything"), None);
}

#[test]
fn is_match_says_whether_find_finds() {
    assert!(Token::Number.is_match(b"1+1"));
    assert!(!Token::Number.is_match(b"+1"));
    assert!(Token::Verb.is_match(b"+1"));
    assert!(!Token::Nil.is_match(b""));
}

#[test]
fn a_match_gives_a_lexeme_only_at_the_head_and_not_empty() {
    let s = b"abcdef";
    assert_eq!(lexeme_at_head(Some((0, 2)), s).map(|r| r.0), Some(b"ab".to_vec()));
    assert_eq!(lexeme_at_head(Some((0, 6)), s).map(|r| r.0), Some(b"abcdef".to_vec()));
    assert!(lexeme_at_head(Some((1, 2)), s).is_none());
    assert!(lexeme_at_head(Some((0, 0)), s).is_none());
    assert!(lexeme_at_head(Some((0, 7)), s).is_none());
    assert!(lexeme_at_head(None, s).is_none());
}

#[test]
fn integers_are_read_in_decimal() {
    assert_eq!(parse_int(b"0"), Some(0));
    assert_eq!(parse_int(b"-0"), Some(0));
    assert_eq!(parse_int(b"+5"), Some(5));
    assert_eq!(parse_int(b"007"), Some(7));
    assert_eq!(parse_int(b"120"), Some(120));
    assert_eq!(parse_int(b"-42"), Some(-42));
    assert_eq!(parse_int(b"9223372036854775807"), Some(i64::MAX));
    assert_eq!(parse_int(b"9223372036854775808"), None);
    assert_eq!(parse_int(b"-9223372036854775808"), Some(i64::MIN));
    assert_eq!(parse_int(b"-9223372036854775809"), None);
    assert_eq!(parse_int(b"99999999999999999999999"), None);
    assert_eq!(parse_int(b""), None);
    assert_eq!(parse_int(b"-"), None);
    assert_eq!(parse_int(b"+"), None);
    assert_eq!(parse_int(b"1a"), None);
    assert_eq!(parse_int(b"12.5"), None);
    assert_eq!(parse_int(b"--1"), None);
}

#[test]
fn integers_are_read_in_hexadecimal() {
    assert_eq!(parse_hex(b"0"), Some(0));
    assert_eq!(parse_hex(b"ff"), Some(255));
    assert_eq!(parse_hex(b"FF"), Some(255));
    assert_eq!(parse_hex(b"1F"), Some(31));
    assert_eq!(parse_hex(b"7fffffffffffffff"), Some(i64::MAX));
    assert_eq!(parse_hex(b"8000000000000000"), None);
    assert_eq!(parse_hex(b"00000000000000000001"), Some(1));
    assert_eq!(parse_hex(b"g"), None);
    assert_eq!(parse_hex(b"1z"), None);
    assert_eq!(parse_hex(b""), None);
}

#[test]
fn decimal_literals_are_told_apart() {
    assert!(is_decimal(b"1.5"));
    assert!(is_decimal(b"5."));
    assert!(is_decimal(b".5"));
    assert!(is_decimal(b"-.5"));
    assert!(is_decimal(b"5"));
    assert!(is_decimal(b"-12.25"));
    assert!(!is_decimal(b"."));
    assert!(!is_decimal(b"-"));
    assert!(!is_decimal(b"-."));
    assert!(!is_decimal(b""));
    assert!(!is_decimal(b"1.2.3"));
    assert!(!is_decimal(b"0w"));
    assert!(!is_decimal(b"1e5"));
    assert!(!is_decimal(b"+1.5"));
}

#[test]
fn a_lexeme_gives_its_text_its_length_and_its_integer() {
    let r = Raw(b"-17".to_vec());
    assert_eq!(r.len(), 3);
    assert_eq!(r.value(), b"-17");
    assert_eq!(r.parse(), Ok(-17));
    assert_eq!(Raw(b"x".to_vec()).parse(), Err(Error::ParseError));
}

#[test]
fn parse_errors_have_their_names() {
    assert_eq!(Error::ParseError.name(), "parseerror");
    assert_eq!(Error::UnparsedText.name(), "unparsedtext");
    assert_eq!(Error::NotImplemented.name(), "notimplemented");
    assert_eq!(Error::Assign.name(), "assign");
    assert_eq!(Error::UnexpectedToken.name(), "unexpectedtoken");
    assert_eq!(Error::InvalidCondition.name(), "invalidcondition");
    assert_eq!(Error::Type.name(), "type");
    assert_eq!(Error::StringSize.name(), "stringsize");
}

#[test]
fn decimal_literals_have_a_canonical_form() {
    for (written, form) in [
        ("1.5", "1.5"),
        ("1.50", "1.5"),
        ("01.5", "1.5"),
        ("5.", "5"),
        ("5.0", "5"),
        (".5", "0.5"),
        ("-.5", "-0.5"),
        ("0.0", "0"),
        ("-0.0", "-0"),
        ("000", "0"),
        ("100", "100"),
        ("10.010", "10.01"),
        ("99999999999999999999", "99999999999999999999"),
        ("", "0"),
        ("-", "-0"),
        (".", "0"),
        ("1.2.30", "1.2.3"),
    ] {
        assert_eq!(canonical(written.as_bytes()), form.as_bytes().to_vec(), "{}", written);
    }
}
