//! Verbs by their role. One character names two verbs, one for each role:
//! `+` is `Flip` with one operand and `Plus` with two.

use vstd::prelude::*;
use crate::parse::ascii::{
    AMPERSAND, AT, BANG, BAR, CARET, COMMA, DOLLAR, EQUALS, GREATER, HASH, LESS, MINUS, PERCENT,
    PLUS, POINT, QUESTION, STAR, TILDE, UNDERSCORE,
};
use crate::syntax::error::Error;

verus! {

/// The verbs of one operand, in the order of their characters.
#[derive(Debug, Clone, Copy, PartialEq, Eq)]
pub enum Monad {
    Flip,
    Negate,
    First,
    Sqrt,
    EnumKey,
    Where,
    Reverse,
    Asc,
    Desc,
    Group,
    Not,
    Enlist,
    Null,
    Count,
    Floor,
    STring,
    Distinct,
    Type,
    Eval,
}

/// The verbs of two operands, in the order of their characters.
#[derive(Debug, Clone, Copy, PartialEq, Eq)]
pub enum Dyad {
    Plus,
    Minus,
    Times,
    Divide,
    ModMap,
    MinAnd,
    MaxOr,
    Less,
    More,
    Equal,
    Match,
    Concat,
    Except,
    TakeRsh,
    DropCut,
    CastSum,
    FindRnd,
    At,
    Dot,
}

/// The role of a verb: with one operand or with two.
#[derive(Debug, Clone, Copy, PartialEq, Eq)]
pub enum Appliance {
    Monadic,
    Dyadic,
}

/// A verb.
#[derive(Debug, Clone, Copy, PartialEq, Eq)]
pub enum Verb {
    Monad(Monad),
    Dyad(Dyad),
    IoVerb(u8),
}

/// The characters of the verbs, `+-*%!&|<>=~,^#_$?@.`, in order.
pub open spec fn verb_chars() -> Seq<u8> {
    seq![
        PLUS,
        MINUS,
        STAR,
        PERCENT,
        BANG,
        AMPERSAND,
        BAR,
        LESS,
        GREATER,
        EQUALS,
        TILDE,
        COMMA,
        CARET,
        HASH,
        UNDERSCORE,
        DOLLAR,
        QUESTION,
        AT,
        POINT,
    ]
}

/// The place of the character `c` among the characters of the verbs.
pub open spec fn verb_place(c: u8) -> Option<int> {
    if exists|i: int| 0 <= i < 19 && verb_chars()[i] == c {
        Some(choose|i: int| 0 <= i < 19 && verb_chars()[i] == c)
    } else {
        None
    }
}

/// The verb of one operand at place `i`.
pub open spec fn monad_at(i: int) -> Monad {
    if i == 0 {
        Monad::Flip
    } else if i == 1 {
        Monad::Negate
    } else if i == 2 {
        Monad::First
    } else if i == 3 {
        Monad::Sqrt
    } else if i == 4 {
        Monad::EnumKey
    } else if i == 5 {
        Monad::Where
    } else if i == 6 {
        Monad::Reverse
    } else if i == 7 {
        Monad::Asc
    } else if i == 8 {
        Monad::Desc
    } else if i == 9 {
        Monad::Group
    } else if i == 10 {
        Monad::Not
    } else if i == 11 {
        Monad::Enlist
    } else if i == 12 {
        Monad::Null
    } else if i == 13 {
        Monad::Count
    } else if i == 14 {
        Monad::Floor
    } else if i == 15 {
        Monad::STring
    } else if i == 16 {
        Monad::Distinct
    } else if i == 17 {
        Monad::Type
    } else {
        Monad::Eval
    }
}

/// The verb of two operands at place `i`.
pub open spec fn dyad_at(i: int) -> Dyad {
    if i == 0 {
        Dyad::Plus
    } else if i == 1 {
        Dyad::Minus
    } else if i == 2 {
        Dyad::Times
    } else if i == 3 {
        Dyad::Divide
    } else if i == 4 {
        Dyad::ModMap
    } else if i == 5 {
        Dyad::MinAnd
    } else if i == 6 {
        Dyad::MaxOr
    } else if i == 7 {
        Dyad::Less
    } else if i == 8 {
        Dyad::More
    } else if i == 9 {
        Dyad::Equal
    } else if i == 10 {
        Dyad::Match
    } else if i == 11 {
        Dyad::Concat
    } else if i == 12 {
        Dyad::Except
    } else if i == 13 {
        Dyad::TakeRsh
    } else if i == 14 {
        Dyad::DropCut
    } else if i == 15 {
        Dyad::CastSum
    } else if i == 16 {
        Dyad::FindRnd
    } else if i == 17 {
        Dyad::At
    } else {
        Dyad::Dot
    }
}

/// The verb that the text `s` names in the role `a`: `s` has to be one of
/// the characters of the verbs.
pub open spec fn spec_construct(s: Seq<u8>, a: Appliance) -> Result<Verb, Error> {
    if s.len() != 1 {
        Err(Error::ParseError)
    } else {
        match verb_place(s[0]) {
            Some(i) => match a {
                Appliance::Monadic => Ok(Verb::Monad(monad_at(i))),
                Appliance::Dyadic => Ok(Verb::Dyad(dyad_at(i))),
            },
            None => Err(Error::ParseError),
        }
    }
}

/// No character stands twice among the characters of the verbs.
proof fn lemma_verb_chars_differ()
    ensures
        forall|i: int, j: int|
            0 <= i < 19 && 0 <= j < 19 && verb_chars()[i] == verb_chars()[j] ==> i == j,
{
    let c = verb_chars();
    assert(c[0] == PLUS && c[1] == MINUS && c[2] == STAR && c[3] == PERCENT && c[4] == BANG);
    assert(c[5] == AMPERSAND && c[6] == BAR && c[7] == LESS && c[8] == GREATER && c[9] == EQUALS);
    assert(c[10] == TILDE && c[11] == COMMA && c[12] == CARET && c[13] == HASH);
    assert(c[14] == UNDERSCORE && c[15] == DOLLAR && c[16] == QUESTION && c[17] == AT);
    assert(c[18] == POINT);
}

impl Verb {
    /// The verb that `s` names in the role `a`.
    pub fn construct(s: &[u8], a: Appliance) -> (r: Result<Self, Error>)
        ensures
            r == spec_construct(s@, a),
    {
        if s.len() != 1 {
            return Err(Error::ParseError);
        }
        let chars: [u8; 19] = [
            PLUS,
            MINUS,
            STAR,
            PERCENT,
            BANG,
            AMPERSAND,
            BAR,
            LESS,
            GREATER,
            EQUALS,
            TILDE,
            COMMA,
            CARET,
            HASH,
            UNDERSCORE,
            DOLLAR,
            QUESTION,
            AT,
            POINT,
        ];
        assert(chars@ =~= verb_chars());
        let mut i: usize = 0;
        while i < 19
            invariant
                i <= 19,
                chars@ == verb_chars(),
                forall|j: int| 0 <= j < i ==> verb_chars()[j] != s@[0],
                s@.len() == 1,
            decreases 19 - i,
        {
            if chars[i] == s[0] {
                proof {
                    lemma_verb_chars_differ();
                    assert(verb_chars()[i as int] == s@[0]);
                }
                return match a {
                    Appliance::Monadic => Ok(Verb::Monad(monad(i))),
                    Appliance::Dyadic => Ok(Verb::Dyad(dyad(i))),
                };
            }
            i = i + 1;
        }
        Err(Error::ParseError)
    }
}

fn monad(i: usize) -> (m: Monad)
    ensures
        m == monad_at(i as int),
{
    if i == 0 {
        Monad::Flip
    } else if i == 1 {
        Monad::Negate
    } else if i == 2 {
        Monad::First
    } else if i == 3 {
        Monad::Sqrt
    } else if i == 4 {
        Monad::EnumKey
    } else if i == 5 {
        Monad::Where
    } else if i == 6 {
        Monad::Reverse
    } else if i == 7 {
        Monad::Asc
    } else if i == 8 {
        Monad::Desc
    } else if i == 9 {
        Monad::Group
    } else if i == 10 {
        Monad::Not
    } else if i == 11 {
        Monad::Enlist
    } else if i == 12 {
        Monad::Null
    } else if i == 13 {
        Monad::Count
    } else if i == 14 {
        Monad::Floor
    } else if i == 15 {
        Monad::STring
    } else if i == 16 {
        Monad::Distinct
    } else if i == 17 {
        Monad::Type
    } else {
        Monad::Eval
    }
}

fn dyad(i: usize) -> (d: Dyad)
    ensures
        d == dyad_at(i as int),
{
    if i == 0 {
        Dyad::Plus
    } else if i == 1 {
        Dyad::Minus
    } else if i == 2 {
        Dyad::Times
    } else if i == 3 {
        Dyad::Divide
    } else if i == 4 {
        Dyad::ModMap
    } else if i == 5 {
        Dyad::MinAnd
    } else if i == 6 {
        Dyad::MaxOr
    } else if i == 7 {
        Dyad::Less
    } else if i == 8 {
        Dyad::More
    } else if i == 9 {
        Dyad::Equal
    } else if i == 10 {
        Dyad::Match
    } else if i == 11 {
        Dyad::Concat
    } else if i == 12 {
        Dyad::Except
    } else if i == 13 {
        Dyad::TakeRsh
    } else if i == 14 {
        Dyad::DropCut
    } else if i == 15 {
        Dyad::CastSum
    } else if i == 16 {
        Dyad::FindRnd
    } else if i == 17 {
        Dyad::At
    } else {
        Dyad::Dot
    }
}

/// The six adverbs.
#[derive(Debug, Clone, Copy, PartialEq, Eq)]
pub enum Adverb {
    Each,
    OverJoin,
    ScanSplit,
    Eachprior,
    Eachright,
    Eachleft,
}

impl Adverb {
    /// The adverb that `s` spells: `'`, `/`, `\`, `':`, `/:` or `\:`.
    pub open spec fn spec_construct(s: Seq<u8>) -> Result<Adverb, Error> {
        match crate::parse::ast::Adverb::spec_from_str(s) {
            Some(crate::parse::ast::Adverb::Each) => Ok(Adverb::Each),
            Some(crate::parse::ast::Adverb::OverJoin) => Ok(Adverb::OverJoin),
            Some(crate::parse::ast::Adverb::ScanSplit) => Ok(Adverb::ScanSplit),
            Some(crate::parse::ast::Adverb::EachPrior) => Ok(Adverb::Eachprior),
            Some(crate::parse::ast::Adverb::Eachright) => Ok(Adverb::Eachright),
            Some(crate::parse::ast::Adverb::Eachleft) => Ok(Adverb::Eachleft),
            None => Err(Error::ParseError),
        }
    }

    /// The adverb that `s` spells.
    pub fn construct(s: &[u8]) -> (r: Result<Self, Error>)
        ensures
            r == Adverb::spec_construct(s@),
    {
        match crate::parse::ast::Adverb::from_str(s) {
            Some(crate::parse::ast::Adverb::Each) => Ok(Adverb::Each),
            Some(crate::parse::ast::Adverb::OverJoin) => Ok(Adverb::OverJoin),
            Some(crate::parse::ast::Adverb::ScanSplit) => Ok(Adverb::ScanSplit),
            Some(crate::parse::ast::Adverb::EachPrior) => Ok(Adverb::Eachprior),
            Some(crate::parse::ast::Adverb::Eachright) => Ok(Adverb::Eachright),
            Some(crate::parse::ast::Adverb::Eachleft) => Ok(Adverb::Eachleft),
            None => Err(Error::ParseError),
        }
    }
}

} // verus!
