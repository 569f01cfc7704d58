//! The preparation of a source line: white space at the ends goes, comments
//! go, a minus sign after an operand is set apart from the digits after it,
//! and line breaks become separators.

use vstd::prelude::*;
use crate::parse::ascii::{BLANK, MINUS, NEWLINE, NINE, RETURN, SEMI, TAB, ZERO};
use crate::parse::grammar::{trim, trim_end, trim_start};
use crate::parse::token::is_digit;

verus! {

/// The offsets of the first byte of a match and of the byte after its last.
pub type Span = (usize, usize);

/// One match of the preparation pattern: the whole match, then its three
/// groups, each where it took part.
pub type Capture = (Option<Span>, Option<Span>, Option<Span>, Option<Span>);

/// The successive matches of the regular expression `pattern` in `text` that
/// do not overlap, as the regex engine finds them from left to right, each
/// with the spans of its first three groups. Empty where `pattern` is no
/// regular expression.
pub uninterp spec fn regex_captures(pattern: Seq<char>, text: Seq<u8>) -> Seq<Capture>;

/// Calls `regex::bytes::Regex::new` and then `captures_iter` on the compiled
/// expression, and reads the spans of the whole match and of the groups 1 to
/// 3 from each `Captures`. The contract names what comes back and claims
/// nothing more of it.
#[verifier::external_body]
fn regex_captures_iter(pattern: &str, text: &[u8]) -> (r: Vec<Capture>)
    ensures
        r@ == regex_captures(pattern@, text@),
{
    match regex::bytes::Regex::new(pattern) {
        Ok(re) => re.captures_iter(text).map(
            |c| {
                let span = |i: usize| c.get(i).map(|m| (m.start(), m.end()));
                (span(0), span(1), span(2), span(3))
            },
        ).collect(),
        Err(_) => Vec::new(),
    }
}

/// The pattern of the preparation: a string literal (group 1), a comment
/// after blanks (group 2), a minus sign between an operand and digits
/// (group 3), or any one character.
pub open spec fn prepare_pattern() -> Seq<char> {
    "(\\x22(?:[^\\x22\\x5C\\n]|\\.)*\\x22)|[a-zA-Z]*[ ]+(/.*)|([a-z\\d\\]\\)]-\\.?\\d+)|."@
}

/// Whether the span lies in a text of `n` bytes.
pub open spec fn span_in(s: Span, n: nat) -> bool {
    s.0 <= s.1 <= n
}

/// What the bytes `from .. to` of `text` that no match covers leave behind:
/// a `;` for each line break.
pub open spec fn gap(text: Seq<u8>, from: int, to: int) -> Seq<u8>
    decreases to - from,
{
    if from >= to {
        Seq::empty()
    } else {
        (if text[from] == NEWLINE {
            seq![SEMI]
        } else {
            Seq::empty()
        }) + gap(text, from + 1, to)
    }
}

/// The bytes `from .. to` of `text` with a blank after each minus sign.
pub open spec fn respaced(text: Seq<u8>, from: int, to: int) -> Seq<u8>
    decreases to - from,
{
    if from >= to {
        Seq::empty()
    } else {
        (if text[from] == MINUS {
            seq![MINUS, BLANK]
        } else {
            seq![text[from]]
        }) + respaced(text, from + 1, to)
    }
}

/// What one match contributes, with `acc` prepared before it: a string
/// literal as it stands; of a match with a comment, what stands before the
/// comment; a minus sign between an operand and digits with a blank after
/// it; any other character as it stands, but that a minus sign after a digit
/// gets a blank after it.
pub open spec fn piece(text: Seq<u8>, c: Capture, whole: Span, acc: Seq<u8>) -> Seq<u8> {
    if c.1.is_some() {
        text.subrange(whole.0 as int, whole.1 as int)
    } else if c.2.is_some() {
        let comment = c.2.unwrap();
        if whole.0 <= comment.0 <= comment.1 <= whole.1 {
            text.subrange(whole.0 as int, comment.0 as int) + text.subrange(
                comment.1 as int,
                whole.1 as int,
            )
        } else {
            text.subrange(whole.0 as int, whole.1 as int)
        }
    } else if c.3.is_some() {
        respaced(text, whole.0 as int, whole.1 as int)
    } else if acc.len() > 0 && is_digit(acc.last()) {
        respaced(text, whole.0 as int, whole.1 as int)
    } else {
        text.subrange(whole.0 as int, whole.1 as int)
    }
}

/// The prepared text, with the matches before `i` done: `acc` is what they
/// gave and `pos` is where the last of them ended. A match that does not lie
/// in the text after `pos` is passed over.
pub open spec fn prepared_from(
    text: Seq<u8>,
    caps: Seq<Capture>,
    i: int,
    pos: int,
    acc: Seq<u8>,
) -> Seq<u8>
    decreases caps.len() - i,
{
    if i < 0 || i >= caps.len() {
        acc + gap(text, pos, text.len() as int)
    } else {
        match caps[i].0 {
            Some(whole) => if pos <= whole.0 && span_in(whole, text.len()) {
                let acc1 = acc + gap(text, pos, whole.0 as int);
                prepared_from(
                    text,
                    caps,
                    i + 1,
                    whole.1 as int,
                    acc1 + piece(text, caps[i], whole, acc1),
                )
            } else {
                prepared_from(text, caps, i + 1, pos, acc)
            },
            None => prepared_from(text, caps, i + 1, pos, acc),
        }
    }
}

/// The prepared form of a source line.
pub open spec fn spec_prepare(line: Seq<u8>) -> Seq<u8> {
    let text = trim(line);
    prepared_from(text, regex_captures(prepare_pattern(), text), 0, 0, Seq::empty())
}

/// The text without the white space at both ends.
pub fn trimmed(text: &[u8]) -> (out: &[u8])
    ensures
        out@ == trim(text@),
{
    let mut a: usize = 0;
    assert(text@.skip(0) =~= text@);
    while a < text.len() && (text[a] == BLANK || (TAB <= text[a] && text[a] <= RETURN))
        invariant
            a <= text@.len(),
            trim_start(text@.skip(a as int)) == trim_start(text@),
        decreases text@.len() - a,
    {
        assert(text@.skip(a as int).skip(1) =~= text@.skip(a + 1));
        a = a + 1;
    }
    let mut b: usize = text.len();
    assert(text@.subrange(a as int, b as int) =~= text@.skip(a as int));
    while b > a && (text[b - 1] == BLANK || (TAB <= text[b - 1] && text[b - 1] <= RETURN))
        invariant
            a <= b <= text@.len(),
            trim_start(text@) == text@.skip(a as int),
            trim_end(text@.subrange(a as int, b as int)) == trim_end(text@.skip(a as int)),
        decreases b,
    {
        assert(text@.subrange(a as int, b as int).drop_last() =~= text@.subrange(
            a as int,
            b - 1,
        ));
        b = b - 1;
    }
    vstd::slice::slice_subrange(text, a, b)
}

/// Appends the bytes `from .. to` of `text` to `acc`.
fn push_range(text: &[u8], from: usize, to: usize, acc: &mut Vec<u8>)
    requires
        from <= to <= text@.len(),
    ensures
        final(acc)@ == old(acc)@ + text@.subrange(from as int, to as int),
{
    let mut i: usize = from;
    assert(acc@ =~= old(acc)@ + text@.subrange(from as int, from as int));
    while i < to
        invariant
            from <= i <= to <= text@.len(),
            acc@ == old(acc)@ + text@.subrange(from as int, i as int),
        decreases to - i,
    {
        acc.push(text[i]);
        i = i + 1;
        assert(acc@ =~= old(acc)@ + text@.subrange(from as int, i as int));
    }
}

/// Appends a `;` to `acc` for each line break among the bytes `from .. to`.
fn push_gap(text: &[u8], from: usize, to: usize, acc: &mut Vec<u8>)
    requires
        from <= to <= text@.len(),
    ensures
        final(acc)@ == old(acc)@ + gap(text@, from as int, to as int),
{
    let mut i: usize = from;
    while i < to
        invariant
            from <= i <= to <= text@.len(),
            acc@ + gap(text@, i as int, to as int) == old(acc)@ + gap(
                text@,
                from as int,
                to as int,
            ),
        decreases to - i,
    {
        let ghost before = acc@;
        if text[i] == NEWLINE {
            acc.push(SEMI);
            assert(acc@ =~= before + seq![SEMI]);
        }
        assert(acc@ + gap(text@, i + 1, to as int) =~= before + gap(text@, i as int, to as int));
        i = i + 1;
    }
    assert(acc@ + gap(text@, i as int, to as int) =~= acc@);
}

/// Appends the bytes `from .. to` of `text` to `acc`, with a blank after
/// each minus sign.
fn push_respaced(text: &[u8], from: usize, to: usize, acc: &mut Vec<u8>)
    requires
        from <= to <= text@.len(),
    ensures
        final(acc)@ == old(acc)@ + respaced(text@, from as int, to as int),
{
    let mut i: usize = from;
    while i < to
        invariant
            from <= i <= to <= text@.len(),
            acc@ + respaced(text@, i as int, to as int) == old(acc)@ + respaced(
                text@,
                from as int,
                to as int,
            ),
        decreases to - i,
    {
        let ghost before = acc@;
        if text[i] == MINUS {
            acc.push(MINUS);
            acc.push(BLANK);
            assert(acc@ =~= before + seq![MINUS, BLANK]);
        } else {
            acc.push(text[i]);
            assert(acc@ =~= before + seq![text@[i as int]]);
        }
        assert(acc@ + respaced(text@, i + 1, to as int) =~= before + respaced(
            text@,
            i as int,
            to as int,
        ));
        i = i + 1;
    }
    assert(acc@ + respaced(text@, i as int, to as int) =~= acc@);
}

/// Appends to `acc` what the match `c` with the span `whole` contributes.
fn push_piece(text: &[u8], c: &Capture, whole: Span, acc: &mut Vec<u8>)
    requires
        span_in(whole, text@.len()),
    ensures
        final(acc)@ == old(acc)@ + piece(text@, *c, whole, old(acc)@),
{
    if c.1.is_some() {
        push_range(text, whole.0, whole.1, acc);
    } else if let Some(comment) = c.2 {
        if whole.0 <= comment.0 && comment.0 <= comment.1 && comment.1 <= whole.1 {
            push_range(text, whole.0, comment.0, acc);
            push_range(text, comment.1, whole.1, acc);
            assert(acc@ =~= old(acc)@ + (text@.subrange(whole.0 as int, comment.0 as int)
                + text@.subrange(comment.1 as int, whole.1 as int)));
        } else {
            push_range(text, whole.0, whole.1, acc);
        }
    } else if c.3.is_some() {
        push_respaced(text, whole.0, whole.1, acc);
    } else if acc.len() > 0 && ZERO <= acc[acc.len() - 1] && acc[acc.len() - 1] <= NINE {
        push_respaced(text, whole.0, whole.1, acc);
    } else {
        push_range(text, whole.0, whole.1, acc);
    }
}

/// The prepared form of `text`, which has no white space at its ends, with
/// `caps` the matches of the preparation pattern in it.
pub fn prepare_with(text: &[u8], caps: &Vec<Capture>) -> (out: Vec<u8>)
    ensures
        out@ == prepared_from(text@, caps@, 0, 0, Seq::empty()),
{
    let mut acc: Vec<u8> = Vec::new();
    let mut pos: usize = 0;
    let mut i: usize = 0;
    while i < caps.len()
        invariant
            i <= caps@.len(),
            pos <= text@.len(),
            prepared_from(text@, caps@, i as int, pos as int, acc@) == prepared_from(
                text@,
                caps@,
                0,
                0,
                Seq::empty(),
            ),
        decreases caps@.len() - i,
    {
        let c = caps[i];
        match c.0 {
            Some(whole) => {
                if pos <= whole.0 && whole.0 <= whole.1 && whole.1 <= text.len() {
                    push_gap(text, pos, whole.0, &mut acc);
                    push_piece(text, &c, whole, &mut acc);
                    pos = whole.1;
                }
            },
            None => {},
        }
        i = i + 1;
    }
    push_gap(text, pos, text.len(), &mut acc);
    acc
}

/// The prepared form of the source line `line`.
pub fn prepare(line: &[u8]) -> (out: Vec<u8>)
    ensures
        out@ == spec_prepare(line@),
{
    let text = trimmed(line);
    let caps = regex_captures_iter(
        "(\\x22(?:[^\\x22\\x5C\\n]|\\.)*\\x22)|[a-zA-Z]*[ ]+(/.*)|([a-z\\d\\]\\)]-\\.?\\d+)|.",
        text,
    );
    prepare_with(text, &caps)
}

} // verus!
