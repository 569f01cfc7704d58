//! The tokens: a fixed list of patterns that classify the lexeme at the head
//! of the input, and the reading of literals from their lexemes.

use vstd::prelude::*;
use crate::parse::ascii::{MINUS, NINE, PLUS, POINT, ZERO};
use crate::parse::error::Error;
use crate::parse::store::bytes_copy;

verus! {

/// The span of the leftmost match of the regular expression `pattern` in
/// `text`, as the regex engine finds it: the offsets of its first byte and of
/// the byte after its last. `None` where nothing matches or `pattern` is no
/// regular expression.
pub uninterp spec fn regex_first_match(pattern: Seq<char>, text: Seq<u8>) -> Option<(usize, usize)>;

/// Calls `regex::bytes::Regex::new` and then `find` on the compiled
/// expression. The contract names the span that comes back and claims, as the
/// documentation of `Match` does, that the span lies in the text.
#[verifier::external_body]
fn regex_find(pattern: &str, text: &[u8]) -> (r: Option<(usize, usize)>)
    ensures
        r == regex_first_match(pattern@, text@),
        r matches Some((s, e)) ==> s <= e <= text@.len(),
{
    match regex::bytes::Regex::new(pattern) {
        Ok(re) => re.find(text).map(|m| (m.start(), m.end())),
        Err(_) => None,
    }
}

/// The kinds of token.
#[derive(Debug, Clone, Copy, PartialEq, Eq)]
pub enum Token {
    Bool,
    Hexlit,
    Number,
    Name,
    Symbol,
    String,
    Verb,
    Assign,
    Ioverb,
    Adverb,
    Semi,
    Colon,
    View,
    Cond,
    Dict,
    OpenB,
    OpenP,
    OpenC,
    CloseB,
    CloseP,
    CloseC,
    Quit,
    Nil,
}

/// The lexeme that a match gives at the head of `text`: the match has to
/// begin at the first byte and to hold at least one byte.
pub open spec fn head_lexeme(m: Option<(usize, usize)>, text: Seq<u8>) -> Option<Seq<u8>> {
    match m {
        Some((s, e)) => if s == 0 && 0 < e <= text.len() {
            Some(text.take(e as int))
        } else {
            None
        },
        None => None,
    }
}

/// The lexeme that the match `m` gives at the head of `s`: the bytes of the
/// match where it begins at the first byte and holds at least one, else none.
pub fn lexeme_at_head(m: Option<(usize, usize)>, s: &[u8]) -> (r: Option<Raw>)
    ensures
        (match r {
            Some(raw) => head_lexeme(m, s@) == Some(raw@),
            None => head_lexeme(m, s@).is_none(),
        }),
{
    match m {
        Some((start, end)) => {
            if start == 0 && 0 < end && end <= s.len() {
                let head = vstd::slice::slice_subrange(s, 0, end);
                assert(head@ =~= s@.take(end as int));
                Some(Raw(bytes_copy(head)))
            } else {
                None
            }
        },
        None => None,
    }
}

impl Token {
    /// The regular expression of the token kind. `Nil` has none.
    pub open spec fn pattern(self) -> Option<Seq<char>> {
        match self {
            Token::Bool => Some("^[01]+b"@),
            Token::Hexlit => Some("^0x[0-9a-zA-Z]+"@),
            Token::Number => Some("^-?(0w|0N|\\d+\\.\\d*|\\d*\\.?\\d)"@),
            Token::Name => Some("^[a-z][a-z\\d]*"@),
            Token::Symbol => Some("^`([A-Za-z0-9.]*)?"@),
            Token::String => Some("^\"(\\\\.|[^\\\\\"])*\""@),
            Token::Verb => Some("^[+\\-*%!&|<>=~,^#_$?@.]"@),
            Token::Assign => Some("^[+\\-*%!&|<>=~,^#_$?@.]:"@),
            Token::Ioverb => Some("^\\d:"@),
            Token::Adverb => Some("^['\\\\/]+:?"@),
            Token::Semi => Some("^;"@),
            Token::Colon => Some("^:"@),
            Token::View => Some("^::"@),
            Token::Cond => Some("^\\$\\["@),
            Token::Dict => Some("^\\[[a-z]+:"@),
            Token::OpenB => Some("^\\["@),
            Token::OpenP => Some("^\\("@),
            Token::OpenC => Some("^\\{"@),
            Token::CloseB => Some("^\\]"@),
            Token::CloseP => Some("^\\)"@),
            Token::CloseC => Some("^\\}"@),
            Token::Quit => Some("^\\\\\\\\"@),
            Token::Nil => None,
        }
    }

    /// The lexeme of this kind at the head of `text`, if there is one.
    pub open spec fn spec_find(self, text: Seq<u8>) -> Option<Seq<u8>> {
        match self.pattern() {
            Some(p) => head_lexeme(regex_first_match(p, text), text),
            None => None,
        }
    }

    fn re(&self) -> (p: Option<&'static str>)
        ensures
            (match p {
                Some(s) => self.pattern() == Some(s@),
                None => self.pattern().is_none(),
            }),
    {
        match self {
            Token::Bool => Some("^[01]+b"),
            Token::Hexlit => Some("^0x[0-9a-zA-Z]+"),
            Token::Number => Some("^-?(0w|0N|\\d+\\.\\d*|\\d*\\.?\\d)"),
            Token::Name => Some("^[a-z][a-z\\d]*"),
            Token::Symbol => Some("^`([A-Za-z0-9.]*)?"),
            Token::String => Some("^\"(\\\\.|[^\\\\\"])*\""),
            Token::Verb => Some("^[+\\-*%!&|<>=~,^#_$?@.]"),
            Token::Assign => Some("^[+\\-*%!&|<>=~,^#_$?@.]:"),
            Token::Ioverb => Some("^\\d:"),
            Token::Adverb => Some("^['\\\\/]+:?"),
            Token::Semi => Some("^;"),
            Token::Colon => Some("^:"),
            Token::View => Some("^::"),
            Token::Cond => Some("^\\$\\["),
            Token::Dict => Some("^\\[[a-z]+:"),
            Token::OpenB => Some("^\\["),
            Token::OpenP => Some("^\\("),
            Token::OpenC => Some("^\\{"),
            Token::CloseB => Some("^\\]"),
            Token::CloseP => Some("^\\)"),
            Token::CloseC => Some("^\\}"),
            Token::Quit => Some("^\\\\\\\\"),
            Token::Nil => None,
        }
    }

    /// The lexeme of this kind at the head of `s`.
    pub fn find(&self, s: &[u8]) -> (r: Option<Raw>)
        ensures
            (match r {
                Some(raw) => self.spec_find(s@) == Some(raw@),
                None => self.spec_find(s@).is_none(),
            }),
            r matches Some(raw) ==> 0 < raw@.len() <= s@.len() && raw@ == s@.take(
                raw@.len() as int,
            ),
    {
        match self.re() {
            Some(p) => lexeme_at_head(regex_find(p, s), s),
            None => None,
        }
    }

    /// Whether a lexeme of this kind stands at the head of `s`.
    pub fn is_match(&self, s: &[u8]) -> (b: bool)
        ensures
            b == self.spec_find(s@).is_some(),
    {
        self.find(s).is_some()
    }
}

/// Whether the byte is an ASCII digit.
pub open spec fn is_digit(b: u8) -> bool {
    ZERO <= b <= NINE
}

/// Whether every byte is an ASCII digit.
pub open spec fn all_digits(s: Seq<u8>) -> bool {
    forall|i: int| 0 <= i < s.len() ==> is_digit(#[trigger] s[i])
}

/// The number that the decimal digits spell.
pub open spec fn digits_value(s: Seq<u8>) -> nat
    decreases s.len(),
{
    if s.len() == 0 {
        0
    } else {
        digits_value(s.drop_last()) * 10 + (s.last() - ZERO) as nat
    }
}

/// The integer that `s` spells in decimal, with a sign before it or none, if
/// it spells one that a signed 64-bit integer holds.
pub open spec fn spec_parse_int(s: Seq<u8>) -> Option<i64> {
    let signed = s.len() > 0 && (s[0] == MINUS || s[0] == PLUS);
    let body = if signed {
        s.skip(1)
    } else {
        s
    };
    if body.len() == 0 || !all_digits(body) {
        None
    } else if s[0] == MINUS {
        if digits_value(body) <= 0x8000_0000_0000_0000 {
            Some((-digits_value(body)) as i64)
        } else {
            None
        }
    } else {
        if digits_value(body) <= 0x7fff_ffff_ffff_ffff {
            Some(digits_value(body) as i64)
        } else {
            None
        }
    }
}

/// The value of a hexadecimal digit.
pub open spec fn hex_digit(b: u8) -> Option<nat> {
    if ZERO <= b <= NINE {
        Some((b - ZERO) as nat)
    } else if 0x61 <= b <= 0x66 {
        Some((b - 0x61 + 10) as nat)
    } else if 0x41 <= b <= 0x46 {
        Some((b - 0x41 + 10) as nat)
    } else {
        None
    }
}

/// Whether every byte is a hexadecimal digit.
pub open spec fn all_hex(s: Seq<u8>) -> bool {
    forall|i: int| 0 <= i < s.len() ==> hex_digit(#[trigger] s[i]).is_some()
}

/// The number that the hexadecimal digits spell.
pub open spec fn hex_value(s: Seq<u8>) -> nat
    decreases s.len(),
{
    if s.len() == 0 {
        0
    } else {
        hex_value(s.drop_last()) * 16 + hex_digit(s.last()).unwrap_or(0)
    }
}

/// The integer that the hexadecimal digits `s` spell, if they are digits, at
/// least one, and spell a number that a signed 64-bit integer holds.
pub open spec fn spec_parse_hex(s: Seq<u8>) -> Option<i64> {
    if s.len() == 0 || !all_hex(s) || hex_value(s) > 0x7fff_ffff_ffff_ffff {
        None
    } else {
        Some(hex_value(s) as i64)
    }
}

/// How many of the bytes are ASCII digits.
pub open spec fn digit_count(s: Seq<u8>) -> nat
    decreases s.len(),
{
    if s.len() == 0 {
        0
    } else {
        digit_count(s.drop_last()) + if is_digit(s.last()) {
            1nat
        } else {
            0nat
        }
    }
}

/// How many of the bytes are decimal points.
pub open spec fn point_count(s: Seq<u8>) -> nat
    decreases s.len(),
{
    if s.len() == 0 {
        0
    } else {
        point_count(s.drop_last()) + if s.last() == POINT {
            1nat
        } else {
            0nat
        }
    }
}

/// Whether `s` is a decimal literal: nothing but digits and at most one
/// point, at least one digit, and a minus sign before them or none.
pub open spec fn spec_is_decimal(s: Seq<u8>) -> bool {
    let body = if s.len() > 0 && s[0] == MINUS {
        s.skip(1)
    } else {
        s
    };
    &&& digit_count(body) + point_count(body) == body.len()
    &&& digit_count(body) >= 1
    &&& point_count(body) <= 1
}

/// Digits and points are counted once each, and a longer text has no fewer.
pub proof fn lemma_counts_grow(s: Seq<u8>, k: int)
    requires
        0 <= k <= s.len(),
    ensures
        digit_count(s.take(k)) <= digit_count(s),
        point_count(s.take(k)) <= point_count(s),
        digit_count(s) + point_count(s) - (digit_count(s.take(k)) + point_count(s.take(k)))
            <= s.len() - k,
    decreases s.len() - k,
{
    if k < s.len() {
        lemma_counts_grow(s, k + 1);
        assert(s.take(k + 1).drop_last() =~= s.take(k));
    } else {
        assert(s.take(k) =~= s);
    }
}

/// How many zeros stand at the beginning of `s`.
pub open spec fn leading_zeros(s: Seq<u8>) -> nat
    decreases s.len(),
{
    if s.len() > 0 && s[0] == ZERO {
        1 + leading_zeros(s.skip(1))
    } else {
        0
    }
}

/// How many zeros stand at the end of `s`.
pub open spec fn trailing_zeros(s: Seq<u8>) -> nat
    decreases s.len(),
{
    if s.len() > 0 && s.last() == ZERO {
        1 + trailing_zeros(s.drop_last())
    } else {
        0
    }
}

/// The place of the first decimal point in `s`; the length of `s` where it
/// has none.
pub open spec fn point_place(s: Seq<u8>) -> nat
    decreases s.len(),
{
    if s.len() > 0 && s[0] != POINT {
        1 + point_place(s.skip(1))
    } else {
        0
    }
}

/// The canonical form of a decimal literal: the sign where there is one, the
/// digits before the point without zeros at their beginning but at least
/// one digit, and the digits after the point without zeros at their end,
/// with the point only where such digits are left. `1.50` becomes `1.5`,
/// `5.` becomes `5`, `-.5` becomes `-0.5`.
pub open spec fn spec_canonical(s: Seq<u8>) -> Seq<u8> {
    let negative = s.len() > 0 && s[0] == MINUS;
    let body = if negative {
        s.skip(1)
    } else {
        s
    };
    let p = point_place(body);
    let whole = body.take(p as int);
    let fraction = if p < body.len() {
        body.skip(p as int + 1)
    } else {
        Seq::empty()
    };
    let w = whole.skip(leading_zeros(whole) as int);
    let f = fraction.take(fraction.len() - trailing_zeros(fraction));
    (if negative {
        seq![MINUS]
    } else {
        Seq::empty()
    }) + (if w.len() == 0 {
        seq![ZERO]
    } else {
        w
    }) + (if f.len() == 0 {
        Seq::empty()
    } else {
        seq![POINT] + f
    })
}

/// The place of the first decimal point in `s` from `from` on, or the
/// length of `s`.
fn find_point(s: &[u8], from: usize) -> (p: usize)
    requires
        from <= s@.len(),
    ensures
        from <= p <= s@.len(),
        p - from == point_place(s@.skip(from as int)),
{
    let ghost body = s@.skip(from as int);
    let mut p: usize = from;
    assert(body.skip(0) =~= body);
    while p < s.len() && s[p] != POINT
        invariant
            from <= p <= s@.len(),
            body == s@.skip(from as int),
            point_place(body) == (p - from) + point_place(body.skip(p - from)),
        decreases s@.len() - p,
    {
        assert(body.skip(p - from)[0] == s@[p as int]);
        assert(body.skip(p - from).skip(1) =~= body.skip(p - from + 1));
        p = p + 1;
    }
    if p < s.len() {
        assert(body.skip(p - from)[0] == s@[p as int]);
    }
    p
}

/// The place of the first byte of `s` in `from .. to` that is no zero, or `to`.
fn skip_zeros(s: &[u8], from: usize, to: usize) -> (a: usize)
    requires
        from <= to <= s@.len(),
    ensures
        from <= a <= to,
        a - from == leading_zeros(s@.subrange(from as int, to as int)),
{
    let ghost part = s@.subrange(from as int, to as int);
    let mut a: usize = from;
    assert(part.skip(0) =~= part);
    while a < to && s[a] == ZERO
        invariant
            from <= a <= to <= s@.len(),
            part == s@.subrange(from as int, to as int),
            leading_zeros(part) == (a - from) + leading_zeros(part.skip(a - from)),
        decreases to - a,
    {
        assert(part.skip(a - from)[0] == s@[a as int]);
        assert(part.skip(a - from).skip(1) =~= part.skip(a - from + 1));
        a = a + 1;
    }
    if a < to {
        assert(part.skip(a - from)[0] == s@[a as int]);
    }
    a
}

/// The place after the last byte of `s` in `from .. to` that is no zero, or
/// `from`.
fn drop_zeros(s: &[u8], from: usize, to: usize) -> (b: usize)
    requires
        from <= to <= s@.len(),
    ensures
        from <= b <= to,
        to - b == trailing_zeros(s@.subrange(from as int, to as int)),
{
    let ghost part = s@.subrange(from as int, to as int);
    let mut b: usize = to;
    assert(part.take(part.len() as int) =~= part);
    while b > from && s[b - 1] == ZERO
        invariant
            from <= b <= to <= s@.len(),
            part == s@.subrange(from as int, to as int),
            trailing_zeros(part) == (to - b) + trailing_zeros(part.take(b - from)),
        decreases b,
    {
        assert(part.take(b - from).last() == s@[b - 1]);
        assert(part.take(b - from).drop_last() =~= part.take(b - from - 1));
        b = b - 1;
    }
    if b > from {
        assert(part.take(b - from).last() == s@[b - 1]);
    }
    b
}

/// Appends the bytes `from .. to` of `s` to `out`.
fn append(s: &[u8], from: usize, to: usize, out: &mut Vec<u8>)
    requires
        from <= to <= s@.len(),
    ensures
        final(out)@ == old(out)@ + s@.subrange(from as int, to as int),
{
    let mut i: usize = from;
    assert(out@ =~= old(out)@ + s@.subrange(from as int, from as int));
    while i < to
        invariant
            from <= i <= to <= s@.len(),
            out@ == old(out)@ + s@.subrange(from as int, i as int),
        decreases to - i,
    {
        out.push(s[i]);
        i = i + 1;
        assert(out@ =~= old(out)@ + s@.subrange(from as int, i as int));
    }
}

/// The canonical form by the places of its parts: `from` is where the
/// digits begin, `p` where the point stands, `a` where the digits before the
/// point begin that are kept and `b` where those after it end.
proof fn lemma_canonical_parts(s: Seq<u8>, from: int, p: int, a: int, b: int)
    requires
        from == (if s.len() > 0 && s[0] == MINUS {
            1int
        } else {
            0int
        }),
        from <= a <= p <= s.len(),
        p - from == point_place(s.skip(from)),
        a - from == leading_zeros(s.subrange(from, p)),
        (if p < s.len() {
            p + 1
        } else {
            p
        }) <= b <= s.len(),
        s.len() - b == trailing_zeros(
            s.subrange(
                if p < s.len() {
                    p + 1
                } else {
                    p
                },
                s.len() as int,
            ),
        ),
    ensures
        spec_canonical(s) == s.take(from) + (if a == p {
            seq![ZERO]
        } else {
            s.subrange(a, p)
        }) + (if b > p + 1 {
            seq![POINT] + s.subrange(p + 1, b)
        } else {
            Seq::empty()
        }),
{
    let start = if p < s.len() {
        p + 1
    } else {
        p
    };
    let body = s.skip(from);
    assert(s.skip(0) =~= s);
    let whole = body.take(p - from);
    assert(whole =~= s.subrange(from, p));
    let fraction = if p - from < body.len() {
        body.skip(p - from + 1)
    } else {
        Seq::empty()
    };
    assert(fraction =~= s.subrange(start, s.len() as int));
    let w = whole.skip(leading_zeros(whole) as int);
    assert(w =~= s.subrange(a, p));
    let f = fraction.take(fraction.len() - trailing_zeros(fraction));
    assert(f =~= s.subrange(start, b));
    assert(s.take(from) =~= (if from == 1 {
        seq![MINUS]
    } else {
        Seq::empty()
    }));
}

/// The canonical form of the decimal literal `s`.
pub fn canonical(s: &[u8]) -> (out: Vec<u8>)
    ensures
        out@ == spec_canonical(s@),
{
    let negative = s.len() > 0 && s[0] == MINUS;
    let from: usize = if negative {
        1
    } else {
        0
    };
    let p = find_point(s, from);
    let start: usize = if p < s.len() {
        p + 1
    } else {
        p
    };
    let a = skip_zeros(s, from, p);
    let b = drop_zeros(s, start, s.len());
    proof {
        lemma_canonical_parts(s@, from as int, p as int, a as int, b as int);
    }
    let mut out: Vec<u8> = Vec::new();
    append(s, 0, from, &mut out);
    if a == p {
        out.push(ZERO);
    } else {
        append(s, a, p, &mut out);
    }
    if b > start {
        out.push(POINT);
        append(s, start, b, &mut out);
    }
    assert(out@ =~= s@.take(from as int) + (if a == p {
        seq![ZERO]
    } else {
        s@.subrange(a as int, p as int)
    }) + (if b > p + 1 {
        seq![POINT] + s@.subrange(p + 1, b as int)
    } else {
        Seq::empty()
    }));
    out
}

/// A number that begins with the digits of another is no smaller.
pub proof fn lemma_digits_value_grows(s: Seq<u8>, k: int)
    requires
        0 <= k <= s.len(),
    ensures
        digits_value(s.take(k)) <= digits_value(s),
    decreases s.len() - k,
{
    if k < s.len() {
        lemma_digits_value_grows(s, k + 1);
        assert(s.take(k + 1).drop_last() =~= s.take(k));
    } else {
        assert(s.take(k) =~= s);
    }
}

/// A hexadecimal number that begins with the digits of another is no smaller.
pub proof fn lemma_hex_value_grows(s: Seq<u8>, k: int)
    requires
        0 <= k <= s.len(),
    ensures
        hex_value(s.take(k)) <= hex_value(s),
    decreases s.len() - k,
{
    if k < s.len() {
        lemma_hex_value_grows(s, k + 1);
        assert(s.take(k + 1).drop_last() =~= s.take(k));
    } else {
        assert(s.take(k) =~= s);
    }
}

/// Reads a run of decimal digits: their number, as long as it is at most
/// `limit`.
fn read_digits(s: &[u8], from: usize, limit: u64) -> (r: Option<u64>)
    requires
        from <= s@.len(),
    ensures
        r.is_some() == (all_digits(s@.skip(from as int)) && digits_value(s@.skip(from as int))
            <= limit),
        r matches Some(v) ==> v == digits_value(s@.skip(from as int)),
{
    let ghost body = s@.skip(from as int);
    let mut acc: u64 = 0;
    let mut i: usize = from;
    while i < s.len()
        invariant
            from <= i <= s@.len(),
            body == s@.skip(from as int),
            all_digits(body.take(i - from)),
            acc == digits_value(body.take(i - from)),
            acc <= limit,
        decreases s@.len() - i,
    {
        let b = s[i];
        assert(body[i - from] == b);
        if b < ZERO || b > NINE {
            return None;
        }
        let d = (b - ZERO) as u64;
        proof {
            assert(body.take(i - from + 1).drop_last() =~= body.take(i - from));
            assert(body.take(i - from + 1).last() == b);
            lemma_digits_value_grows(body, i - from + 1);
        }
        if d > limit || acc > (limit - d) / 10 {
            proof {
                assert(acc * 10 + d > limit) by (nonlinear_arith)
                    requires
                        d > limit || acc > (limit - d) / 10,
                        0 <= d,
                        limit >= 0,
                        acc >= 0,
                ;
            }
            return None;
        }
        assert(acc * 10 + d <= limit) by (nonlinear_arith)
            requires
                acc <= (limit - d) / 10,
                d <= limit,
        ;
        acc = acc * 10 + d;
        i = i + 1;
        assert(all_digits(body.take(i - from))) by {
            assert forall|j: int| 0 <= j < body.take(i - from).len() implies is_digit(
                #[trigger] body.take(i - from)[j],
            ) by {
                if j < i - from - 1 {
                    assert(body.take(i - from - 1)[j] == body.take(i - from)[j]);
                }
            }
        }
    }
    assert(body.take(i - from) =~= body);
    Some(acc)
}

/// The integer that `s` spells in decimal.
pub fn parse_int(s: &[u8]) -> (r: Option<i64>)
    ensures
        r == spec_parse_int(s@),
{
    if s.len() == 0 {
        return None;
    }
    let negative = s[0] == MINUS;
    let from: usize = if negative || s[0] == PLUS {
        1
    } else {
        0
    };
    if from == s.len() {
        return None;
    }
    assert(s@.skip(0) =~= s@);
    if negative {
        match read_digits(s, from, 0x8000_0000_0000_0000) {
            Some(v) => {
                if v == 0x8000_0000_0000_0000 {
                    Some(i64::MIN)
                } else {
                    Some(-(v as i64))
                }
            },
            None => None,
        }
    } else {
        match read_digits(s, from, 0x7fff_ffff_ffff_ffff) {
            Some(v) => Some(v as i64),
            None => None,
        }
    }
}

/// The integer that the hexadecimal digits `s` spell.
pub fn parse_hex(s: &[u8]) -> (r: Option<i64>)
    ensures
        r == spec_parse_hex(s@),
{
    if s.len() == 0 {
        return None;
    }
    let mut acc: u64 = 0;
    let mut i: usize = 0;
    while i < s.len()
        invariant
            i <= s@.len(),
            all_hex(s@.take(i as int)),
            acc == hex_value(s@.take(i as int)),
            acc <= 0x7fff_ffff_ffff_ffff,
        decreases s@.len() - i,
    {
        let b = s[i];
        let d: u64 = if ZERO <= b && b <= NINE {
            (b - ZERO) as u64
        } else if 0x61 <= b && b <= 0x66 {
            (b - 0x61 + 10) as u64
        } else if 0x41 <= b && b <= 0x46 {
            (b - 0x41 + 10) as u64
        } else {
            assert(hex_digit(s@[i as int]).is_none());
            return None;
        };
        proof {
            assert(s@.take(i + 1).drop_last() =~= s@.take(i as int));
            assert(s@.take(i + 1).last() == b);
            lemma_hex_value_grows(s@, i + 1);
        }
        if acc > 0x07ff_ffff_ffff_ffff {
            return None;
        }
        acc = acc * 16 + d;
        i = i + 1;
        assert(all_hex(s@.take(i as int))) by {
            assert forall|j: int| 0 <= j < s@.take(i as int).len() implies hex_digit(
                #[trigger] s@.take(i as int)[j],
            ).is_some() by {
                if j < i - 1 {
                    assert(s@.take(i - 1)[j] == s@.take(i as int)[j]);
                }
            }
        }
    }
    assert(s@.take(i as int) =~= s@);
    Some(acc as i64)
}

/// Whether `s` is a decimal literal.
pub fn is_decimal(s: &[u8]) -> (b: bool)
    ensures
        b == spec_is_decimal(s@),
{
    let from: usize = if s.len() > 0 && s[0] == MINUS {
        1
    } else {
        0
    };
    let ghost body = s@.skip(from as int);
    assert(s@.skip(0) =~= s@);
    let mut digits: usize = 0;
    let mut points: usize = 0;
    let mut i: usize = from;
    while i < s.len()
        invariant
            from <= i <= s@.len(),
            body == s@.skip(from as int),
            body == if s@.len() > 0 && s@[0] == MINUS {
                s@.skip(1)
            } else {
                s@
            },
            digits == digit_count(body.take(i - from)),
            points == point_count(body.take(i - from)),
            digits + points == i - from,
            points <= 1,
        decreases s@.len() - i,
    {
        let b = s[i];
        proof {
            assert(body[i - from] == b);
            assert(body.take(i - from + 1).drop_last() =~= body.take(i - from));
            assert(body.take(i - from + 1).last() == b);
            lemma_counts_grow(body, i - from + 1);
            assert(digit_count(body.take(i - from + 1)) == digits + if is_digit(b) {
                1nat
            } else {
                0nat
            });
            assert(point_count(body.take(i - from + 1)) == points + if b == POINT {
                1nat
            } else {
                0nat
            });
        }
        if ZERO <= b && b <= NINE {
            digits = digits + 1;
        } else if b == POINT {
            if points == 1 {
                return false;
            }
            points = 1;
        } else {
            return false;
        }
        i = i + 1;
    }
    assert(body.take(i - from) =~= body);
    digits > 0
}

/// A lexeme: the text of one token.
#[derive(Debug)]
pub struct Raw(pub Vec<u8>);

impl View for Raw {
    type V = Seq<u8>;

    open spec fn view(&self) -> Seq<u8> {
        self.0@
    }
}

impl Raw {
    /// The integer that the lexeme spells in decimal.
    pub fn parse(&self) -> (r: Result<i64, Error>)
        ensures
            r == (match spec_parse_int(self@) {
                Some(v) => Ok::<i64, Error>(v),
                None => Err(Error::ParseError),
            }),
    {
        match parse_int(self.0.as_slice()) {
            Some(v) => Ok(v),
            None => Err(Error::ParseError),
        }
    }

    pub fn len(&self) -> (n: usize)
        ensures
            n == self@.len(),
    {
        self.0.len()
    }

    /// The text of the lexeme.
    pub fn value(&self) -> (s: &[u8])
        ensures
            s@ == self@,
    {
        self.0.as_slice()
    }
}

} // verus!
