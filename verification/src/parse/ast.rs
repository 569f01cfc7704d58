//! The expression tree: one tagged node type whose children live in the store.

use vstd::prelude::*;
use vstd::string::StringSliceAdditionalSpecFns;
use vstd::utf8::valid_utf8;
use crate::parse::arena::ArenaMem;
use crate::parse::ascii::{BACKSLASH, COLON, SLASH, TICK};
use crate::parse::vector::Vector;

verus! {

/// The id of a cell in the node store.
pub type Id = u64;

/// The six adverbs.
#[derive(Debug, Clone, Copy, PartialEq, Eq)]
pub enum Adverb {
    Each,
    OverJoin,
    ScanSplit,
    EachPrior,
    Eachright,
    Eachleft,
}

impl Adverb {
    /// The adverb that `s` spells, if it spells one.
    pub open spec fn spec_from_str(s: Seq<u8>) -> Option<Adverb> {
        if s == seq![TICK] {
            Some(Adverb::Each)
        } else if s == seq![SLASH] {
            Some(Adverb::OverJoin)
        } else if s == seq![BACKSLASH] {
            Some(Adverb::ScanSplit)
        } else if s == seq![TICK, COLON] {
            Some(Adverb::EachPrior)
        } else if s == seq![SLASH, COLON] {
            Some(Adverb::Eachright)
        } else if s == seq![BACKSLASH, COLON] {
            Some(Adverb::Eachleft)
        } else {
            None
        }
    }

    /// How the adverb is written: `'`, `/`, `\`, `':`, `/:` or `\:`.
    pub open spec fn spec_text(self) -> Seq<u8> {
        match self {
            Adverb::Each => seq![TICK],
            Adverb::OverJoin => seq![SLASH],
            Adverb::ScanSplit => seq![BACKSLASH],
            Adverb::EachPrior => seq![TICK, COLON],
            Adverb::Eachright => seq![SLASH, COLON],
            Adverb::Eachleft => seq![BACKSLASH, COLON],
        }
    }

    /// Reads an adverb from its spelling.
    pub fn from_str(s: &[u8]) -> (r: Option<Adverb>)
        ensures
            r == Adverb::spec_from_str(s@),
    {
        let colon = s.len() == 2 && s[1] == COLON;
        if s.len() == 1 || colon {
            let r = if s[0] == TICK {
                if colon {
                    Some(Adverb::EachPrior)
                } else {
                    Some(Adverb::Each)
                }
            } else if s[0] == SLASH {
                if colon {
                    Some(Adverb::Eachright)
                } else {
                    Some(Adverb::OverJoin)
                }
            } else if s[0] == BACKSLASH {
                if colon {
                    Some(Adverb::Eachleft)
                } else {
                    Some(Adverb::ScanSplit)
                }
            } else {
                None
            };
            proof {
                if colon {
                    assert(s@ =~= seq![s@[0], COLON]);
                } else {
                    assert(s@ =~= seq![s@[0]]);
                }
                assert(seq![TICK][0] == TICK);
                assert(seq![SLASH][0] == SLASH);
                assert(seq![BACKSLASH][0] == BACKSLASH);
                assert(seq![TICK, COLON][0] == TICK);
                assert(seq![SLASH, COLON][0] == SLASH);
                assert(seq![BACKSLASH, COLON][0] == BACKSLASH);
            }
            r
        } else {
            proof {
                assert(seq![TICK].len() == 1);
                assert(seq![SLASH].len() == 1);
                assert(seq![BACKSLASH].len() == 1);
                assert(seq![TICK, COLON][1] == COLON);
                assert(seq![SLASH, COLON][1] == COLON);
                assert(seq![BACKSLASH, COLON][1] == COLON);
            }
            None
        }
    }

    /// The spelling of the adverb.
    pub fn to_text(&self) -> (out: Vec<u8>)
        ensures
            out@ == self.spec_text(),
    {
        let mut out: Vec<u8> = Vec::new();
        match self {
            Adverb::Each => {
                out.push(TICK);
            },
            Adverb::OverJoin => {
                out.push(SLASH);
            },
            Adverb::ScanSplit => {
                out.push(BACKSLASH);
            },
            Adverb::EachPrior => {
                out.push(TICK);
                out.push(COLON);
            },
            Adverb::Eachright => {
                out.push(SLASH);
                out.push(COLON);
            },
            Adverb::Eachleft => {
                out.push(BACKSLASH);
                out.push(COLON);
            },
        }
        assert(out@ =~= self.spec_text());
        out
    }
}

/// Reading back the spelling of an adverb gives the adverb.
pub proof fn lemma_adverb_round_trip(a: Adverb)
    ensures
        Adverb::spec_from_str(a.spec_text()) == Some(a),
{
    assert(seq![TICK][0] == TICK);
    assert(seq![SLASH][0] == SLASH);
    assert(seq![BACKSLASH][0] == BACKSLASH);
    assert(seq![TICK, COLON][0] == TICK);
    assert(seq![SLASH, COLON][0] == SLASH);
    assert(seq![BACKSLASH, COLON][0] == BACKSLASH);
    assert(seq![TICK, COLON].len() == 2);
    assert(seq![SLASH, COLON].len() == 2);
    assert(seq![BACKSLASH, COLON].len() == 2);
    assert(seq![TICK].len() == 1);
    assert(seq![SLASH].len() == 1);
    assert(seq![BACKSLASH].len() == 1);
}

/// The parameter names of a lambda: up to eight name ids.
#[derive(Debug, Clone, Copy, PartialEq, Eq)]
pub struct Args {
    args: [u16; 8],
    len: u8,
}

impl View for Args {
    type V = Seq<u16>;

    closed spec fn view(&self) -> Seq<u16> {
        self.args@.take(if self.len <= 8 { self.len as int } else { 8 })
    }
}

impl Args {
    /// No parameters.
    pub closed spec fn spec_new() -> Args {
        Args { args: vstd::array::spec_array_fill_for_copy_type::<u16, 8>(0u16), len: 0 }
    }

    /// The parameters of `self` and then `a`.
    pub closed spec fn spec_push(self, a: u16) -> Args {
        Args {
            args: vstd::array::spec_array_update(self.args, self.len as int, a),
            len: (self.len + 1) as u8,
        }
    }

    /// Whether there is room for one more parameter.
    pub closed spec fn has_room(&self) -> bool {
        self.len < 8
    }

    pub fn new() -> (r: Self)
        ensures
            r == Args::spec_new(),
            r@ == Seq::<u16>::empty(),
            r.has_room(),
    {
        let r = Args { args: [0u16;8], len: 0 };
        assert(r@ =~= Seq::<u16>::empty());
        r
    }

    /// Appends a parameter. There is room for eight.
    pub fn push(&mut self, a: u16)
        requires
            old(self).has_room(),
        ensures
            *final(self) == old(self).spec_push(a),
            final(self)@ == old(self)@.push(a),
            final(self).has_room() == (old(self)@.len() < 7),
    {
        broadcast use vstd::array::axiom_spec_array_update;

        self.args[self.len as usize] = a;
        self.len = self.len + 1;
        assert(self@ =~= old(self)@.push(a));
    }

    pub fn len(&self) -> (n: usize)
        ensures
            n == self@.len(),
            n <= 8,
            self.has_room() == (n < 8),
    {
        if self.len <= 8 {
            self.len as usize
        } else {
            8
        }
    }

    /// Whether one more parameter can be pushed.
    pub fn can_push(&self) -> (b: bool)
        ensures
            b == self.has_room(),
    {
        self.len < 8
    }

    /// The parameters, in order.
    pub fn iter(&self) -> (out: Vec<u16>)
        ensures
            out@ == self@,
    {
        let mut out: Vec<u16> = Vec::new();
        let mut i: usize = 0;
        let n: usize = if self.len <= 8 {
            self.len as usize
        } else {
            8
        };
        while i < n
            invariant
                i <= n <= 8,
                n == if self.len <= 8 {
                    self.len as int
                } else {
                    8
                },
                out@ == self.args@.take(i as int),
            decreases n - i,
        {
            out.push(self.args[i]);
            i = i + 1;
            assert(out@ =~= self.args@.take(i as int));
        }
        assert(out@ =~= self@);
        out
    }
}

/// The text of a string literal: up to 64 bytes.
#[derive(Debug, Clone, Copy, PartialEq, Eq)]
pub struct Chars {
    raw: [u8; 64],
    len: u8,
}

impl View for Chars {
    type V = Seq<u8>;

    closed spec fn view(&self) -> Seq<u8> {
        self.raw@.take(if self.len <= 64 { self.len as int } else { 64 })
    }
}

/// Calls `std::str::from_utf8`. The contract says what the documentation of
/// that function says: the bytes come back as a string slice exactly where
/// they are valid UTF-8.
#[verifier::external_body]
fn utf8_text(b: &[u8]) -> (r: Option<&str>)
    ensures
        r.is_some() == valid_utf8(b@),
        r matches Some(s) ==> s.spec_bytes() == b@,
{
    std::str::from_utf8(b).ok()
}

/// `raw` with the bytes of `r` from position `i` on written over it.
pub closed spec fn filled(raw: [u8; 64], r: Seq<u8>, i: nat) -> [u8; 64]
    decreases r.len() - i,
{
    if i >= r.len() {
        raw
    } else {
        filled(vstd::array::spec_array_update(raw, i as int, r[i as int]), r, i + 1)
    }
}

impl Chars {
    /// The text `r` as a literal, or `None` where it is longer than 64 bytes.
    pub closed spec fn spec_new(r: Seq<u8>) -> Option<Chars> {
        if r.len() > 64 {
            None
        } else {
            Some(
                Chars {
                    raw: filled(vstd::array::spec_array_fill_for_copy_type::<u8, 64>(0u8), r, 0),
                    len: r.len() as u8,
                },
            )
        }
    }

    pub fn new(r: &[u8]) -> (c: Option<Self>)
        ensures
            c == Chars::spec_new(r@),
            c.is_some() == (r@.len() <= 64),
            c matches Some(x) ==> x@ == r@,
    {
        broadcast use vstd::array::axiom_spec_array_update;

        if r.len() > 64 {
            return None;
        }
        let mut raw = [0u8;64];
        let mut i: usize = 0;
        while i < r.len()
            invariant
                i <= r@.len() <= 64,
                filled(raw, r@, i as nat) == filled(
                    vstd::array::spec_array_fill_for_copy_type::<u8, 64>(0u8),
                    r@,
                    0,
                ),
                raw@.take(i as int) == r@.take(i as int),
            decreases r@.len() - i,
        {
            raw[i] = r[i];
            i = i + 1;
            assert(raw@.take(i as int) =~= r@.take(i as int));
        }
        let c = Chars { raw: raw, len: r.len() as u8 };
        assert(c@ =~= r@);
        Some(c)
    }

    /// The number of bytes of the text.
    pub fn len(&self) -> (n: usize)
        ensures
            n == self@.len(),
            n <= 64,
    {
        if self.len <= 64 {
            self.len as usize
        } else {
            64
        }
    }

    /// The text as a string; the empty string where the bytes are no UTF-8.
    pub fn to_string(&self) -> (out: String)
        ensures
            valid_utf8(self@) ==> out@ == vstd::utf8::decode_utf8(self@),
            !valid_utf8(self@) ==> out@ == Seq::<char>::empty(),
    {
        broadcast use vstd::utf8::decode_utf8_encode_utf8;
        broadcast use vstd::utf8::encode_utf8_decode_utf8;

        let b = self.bytes();
        match utf8_text(b.as_slice()) {
            Some(s) => {
                assert(vstd::utf8::decode_utf8(vstd::utf8::encode_utf8(s@)) == s@);
                s.to_owned()
            },
            None => String::new(),
        }
    }

    /// The bytes of the text.
    pub fn bytes(&self) -> (out: Vec<u8>)
        ensures
            out@ == self@,
    {
        let mut out: Vec<u8> = Vec::new();
        let mut i: usize = 0;
        let n: usize = if self.len <= 64 {
            self.len as usize
        } else {
            64
        };
        while i < n
            invariant
                i <= n <= 64,
                n == if self.len <= 64 {
                    self.len as int
                } else {
                    64
                },
                out@ == self.raw@.take(i as int),
            decreases n - i,
        {
            out.push(self.raw[i]);
            i = i + 1;
            assert(out@ =~= self.raw@.take(i as int));
        }
        assert(out@ =~= self@);
        out
    }
}

/// A tree node. Children are referenced by id or by child vector.
#[allow(inconsistent_fields)]
#[derive(Debug, Clone, Copy, PartialEq, Eq)]
pub enum AST {
    Bool { value: bool },
    Name { value: u16 },
    Symbol { value: u16 },
    String { value: Chars },
    Verb { kind: u8, args: Vector },
    Ioverb { fd: u8 },
    Int { value: i64 },
    /// A decimal literal that is no integer, by the id of its interned
    /// canonical form.
    Float { value: u16 },
    Lambda { args: Args, body: Id },
    Native { name: u16 },
    List { curry: bool, values: Vector },
    Sequence { values: Vector },
    Dict { keys: Vector, values: Vector },
    Nameref { name: u16, value: Id },
    Adverb { kind: Adverb, left: Id, verb: Id, right: Id },
    Condition { list: Vector },
    Debug { value: Id },
    Quit,
    Nil,
}

impl AST {
    /// The type tag of an atom: -7 for an integer, -8 for a float, -9 for a
    /// symbol; every other node has the tag 127.
    pub open spec fn spec_type_id(&self) -> i8 {
        match *self {
            AST::Int { .. } => -7i8,
            AST::Float { .. } => -8i8,
            AST::Symbol { .. } => -9i8,
            _ => i8::MAX,
        }
    }

    /// Whether the node is an integer, a float or a symbol.
    pub open spec fn spec_is_atom(&self) -> bool {
        self is Int || self is Float || self is Symbol
    }

    pub fn type_id(&self) -> (t: i8)
        ensures
            t == self.spec_type_id(),
    {
        match *self {
            AST::Int { .. } => -7,
            AST::Float { .. } => -8,
            AST::Symbol { .. } => -9,
            _ => i8::MAX,
        }
    }

    pub fn is_atom(&self) -> (b: bool)
        ensures
            b == self.spec_is_atom(),
    {
        match *self {
            AST::Int { .. } => true,
            AST::Float { .. } => true,
            AST::Symbol { .. } => true,
            _ => false,
        }
    }

    /// Whether both nodes are atoms.
    pub fn type_eq(&self, other: &AST) -> (b: bool)
        ensures
            b == (self.spec_is_atom() && other.spec_is_atom()),
    {
        self.is_atom() && other.is_atom()
    }

    /// Whether the node is the empty node.
    pub fn is_nil(&self) -> (b: bool)
        ensures
            b == (*self is Nil),
    {
        match *self {
            AST::Nil => true,
            _ => false,
        }
    }

    /// The names that occur in the node, in reading order. The search goes
    /// through verbs, conditions and lists, and from a cell only into cells
    /// with a smaller id, such as the parser lays them out.
    pub open spec fn names_in(&self, cells: Seq<AST>, bound: nat) -> Seq<u16>
        decreases bound, 1nat, 0nat,
    {
        match *self {
            AST::Name { value } => seq![value],
            AST::Verb { args, .. } => names_in_cells(cells, args, 0, bound),
            AST::Condition { list } => names_in_cells(cells, list, 0, bound),
            AST::List { values, .. } => names_in_cells(cells, values, 0, bound),
            _ => Seq::empty(),
        }
    }

    /// Appends the names that occur in the node to `v` and returns how many
    /// there are.
    pub fn find_names(&self, arena: &ArenaMem, v: &mut Vec<u16>) -> (n: usize)
        ensures
            final(v)@ == old(v)@ + self.names_in(arena@, arena@.len()),
            n == self.names_in(arena@, arena@.len()).len(),
    {
        let before = v.len();
        find_names_below(self, arena, arena.len(), v);
        v.len() - before
    }
}

/// The names in the cells of `v` from position `i` on, as `names_in` finds them.
pub open spec fn names_in_cells(cells: Seq<AST>, v: Vector, i: nat, bound: nat) -> Seq<u16>
    decreases bound, 0nat, v.len - i,
{
    if i >= v.len {
        Seq::empty()
    } else {
        let id = v.first + i;
        let head = if id < bound && id < cells.len() {
            cells[id].names_in(cells, id as nat)
        } else {
            Seq::empty()
        };
        head + names_in_cells(cells, v, i + 1, bound)
    }
}

fn find_names_below(node: &AST, arena: &ArenaMem, bound: usize, v: &mut Vec<u16>)
    ensures
        final(v)@ == old(v)@ + node.names_in(arena@, bound as nat),
    decreases bound, 1nat, 0nat,
{
    match *node {
        AST::Name { value } => {
            v.push(value);
            assert(v@ =~= old(v)@ + seq![value]);
        },
        AST::Verb { args, .. } => find_names_cells(&args, arena, bound, v),
        AST::Condition { list } => find_names_cells(&list, arena, bound, v),
        AST::List { values, .. } => find_names_cells(&values, arena, bound, v),
        _ => {
            assert(v@ =~= old(v)@ + Seq::<u16>::empty());
        },
    }
}

fn find_names_cells(x: &Vector, arena: &ArenaMem, bound: usize, v: &mut Vec<u16>)
    ensures
        final(v)@ == old(v)@ + names_in_cells(arena@, *x, 0, bound as nat),
    decreases bound, 0nat, x.len + 1,
{
    let mut i: usize = 0;
    let n = arena.len();
    while i < x.len
        invariant
            i <= x.len,
            n == arena@.len(),
            v@ + names_in_cells(arena@, *x, i as nat, bound as nat) == old(v)@ + names_in_cells(
                arena@,
                *x,
                0,
                bound as nat,
            ),
        decreases x.len - i,
    {
        let ghost before = v@;
        if x.first < bound as u64 && i < bound - x.first as usize && x.first + (i as u64)
            < n as u64 {
            let id = x.first + i as u64;
            find_names_below(arena.deref(id), arena, id as usize, v);
        }
        proof {
            let id = x.first + i;
            let head = if id < bound && id < arena@.len() {
                arena@[id].names_in(arena@, id as nat)
            } else {
                Seq::empty()
            };
            assert(v@ =~= before + head);
            assert(names_in_cells(arena@, *x, i as nat, bound as nat) == head + names_in_cells(
                arena@,
                *x,
                (i + 1) as nat,
                bound as nat,
            ));
            assert(v@ + names_in_cells(arena@, *x, (i + 1) as nat, bound as nat) =~= before
                + names_in_cells(arena@, *x, i as nat, bound as nat));
        }
        i = i + 1;
    }
    assert(v@ =~= v@ + names_in_cells(arena@, *x, i as nat, bound as nat));
}

/// The store and the handle after `items` were laid out as a new child vector.
pub open spec fn spec_vector(cells: Seq<AST>, items: Seq<AST>) -> (Seq<AST>, Vector) {
    (
        cells + items,
        Vector {
            first: if items.len() > 0 {
                cells.len() as Id
            } else {
                0
            },
            len: items.len() as usize,
        },
    )
}

/// The store and the id after `ast` was stored in a new cell.
pub open spec fn spec_atom(cells: Seq<AST>, ast: AST) -> (Seq<AST>, Id) {
    (cells.push(ast), cells.len() as Id)
}

/// The store and the verb node of kind `c` over the arguments `args`.
pub open spec fn spec_verb(cells: Seq<AST>, c: u8, args: Seq<AST>) -> (Seq<AST>, AST) {
    let (cells1, v) = spec_vector(cells, args);
    (cells1, AST::Verb { kind: c, args: v })
}

/// The store and the list node over `items`.
pub open spec fn spec_list(curry: bool, cells: Seq<AST>, items: Seq<AST>) -> (Seq<AST>, AST) {
    let (cells1, v) = spec_vector(cells, items);
    (cells1, AST::List { curry: curry, values: v })
}

/// The store and the sequence node over `items`.
pub open spec fn spec_sequence(cells: Seq<AST>, items: Seq<AST>) -> (Seq<AST>, AST) {
    let (cells1, v) = spec_vector(cells, items);
    (cells1, AST::Sequence { values: v })
}

/// The store and the dictionary node with the given keys and values.
pub open spec fn spec_dict(cells: Seq<AST>, keys: Seq<AST>, values: Seq<AST>) -> (Seq<AST>, AST) {
    let (cells1, k) = spec_vector(cells, keys);
    let (cells2, v) = spec_vector(cells1, values);
    (cells2, AST::Dict { keys: k, values: v })
}

/// The store and the adverb node: the three operands go into new cells, in
/// the order left, verb, right.
pub open spec fn spec_adverb(cells: Seq<AST>, kind: Adverb, left: AST, verb: AST, right: AST) -> (
    Seq<AST>,
    AST,
) {
    (
        cells.push(left).push(verb).push(right),
        AST::Adverb {
            kind: kind,
            left: cells.len() as Id,
            verb: (cells.len() + 1) as Id,
            right: (cells.len() + 2) as Id,
        },
    )
}

/// A verb node of kind `c` over `args`, which are laid out in new cells.
pub fn verb(arena: &mut ArenaMem, c: u8, args: Vec<AST>) -> (r: AST)
    ensures
        (final(arena)@, r) == spec_verb(old(arena)@, c, args@),
{
    AST::Verb { kind: c, args: vector(arena, args) }
}

/// An adverb node. `s` spells the adverb.
pub fn adverb(arena: &mut ArenaMem, s: &[u8], left: AST, verb: AST, right: AST) -> (r: AST)
    requires
        Adverb::spec_from_str(s@).is_some(),
    ensures
        (final(arena)@, r) == spec_adverb(
            old(arena)@,
            Adverb::spec_from_str(s@).unwrap(),
            left,
            verb,
            right,
        ),
{
    let kind = match Adverb::from_str(s) {
        Some(k) => k,
        None => Adverb::Each,
    };
    let l = atom(arena, left);
    let v = atom(arena, verb);
    let r = atom(arena, right);
    AST::Adverb { kind: kind, left: l, verb: v, right: r }
}

/// Lays `v` out in new cells and returns the handle to them.
pub fn vector(arena: &mut ArenaMem, v: Vec<AST>) -> (r: Vector)
    ensures
        (final(arena)@, r) == spec_vector(old(arena)@, v@),
{
    let vec = arena.alloc_vec(v.len());
    if v.len() > 0 {
        vec.from_iter(&v, arena);
    }
    assert(arena@ =~= old(arena)@ + v@);
    vec
}

/// A list node over `v`.
pub fn list(curry: bool, arena: &mut ArenaMem, v: Vec<AST>) -> (r: AST)
    ensures
        (final(arena)@, r) == spec_list(curry, old(arena)@, v@),
{
    AST::List { curry: curry, values: vector(arena, v) }
}

/// A curried list of the cells of `left` followed by those of `right`.
pub fn concat(arena: &mut ArenaMem, left: &Vector, right: &Vector) -> (r: AST)
    requires
        left.within(old(arena)@.len()),
        right.within(old(arena)@.len()),
    ensures
        (final(arena)@, r) == spec_list(
            true,
            old(arena)@,
            old(arena)@.subrange(left.first as int, left.first + left.len) + old(arena)@.subrange(
                right.first as int,
                right.first + right.len,
            ),
        ),
{
    let mut items = left.as_slice(arena);
    let mut more = right.as_slice(arena);
    items.append(&mut more);
    list(true, arena, items)
}

/// A sequence node over `v`.
pub fn sequence(arena: &mut ArenaMem, v: Vec<AST>) -> (r: AST)
    ensures
        (final(arena)@, r) == spec_sequence(old(arena)@, v@),
{
    AST::Sequence { values: vector(arena, v) }
}

/// A dictionary node with the given keys and values.
pub fn dict(arena: &mut ArenaMem, keys: Vec<AST>, values: Vec<AST>) -> (r: AST)
    ensures
        (final(arena)@, r) == spec_dict(old(arena)@, keys@, values@),
{
    let kvec = vector(arena, keys);
    let vvec = vector(arena, values);
    AST::Dict { keys: kvec, values: vvec }
}

/// Stores `ast` in a new cell and returns its id.
pub fn atom(arena: &mut ArenaMem, ast: AST) -> (id: Id)
    ensures
        (final(arena)@, id) == spec_atom(old(arena)@, ast),
{
    arena.push(ast)
}

/// Whether a list of these cells prints as one row: it has a first cell, and
/// every further cell is an atom beside an atom.
pub open spec fn spec_is_unified(items: Seq<AST>) -> bool {
    items.len() > 0 && forall|i: int|
        1 <= i < items.len() ==> (#[trigger] items[i]).spec_is_atom() && items[0].spec_is_atom()
}

/// Whether every cell is an atom.
pub open spec fn spec_is_flat(items: Seq<AST>) -> bool {
    forall|i: int| 0 <= i < items.len() ==> (#[trigger] items[i]).spec_is_atom()
}

pub fn is_unified(arena: &ArenaMem, vec: &Vector) -> (b: bool)
    requires
        vec.within(arena@.len()),
    ensures
        b == spec_is_unified(arena@.subrange(vec.first as int, vec.first + vec.len)),
{
    let ghost items = arena@.subrange(vec.first as int, vec.first + vec.len);
    if vec.len == 0 {
        return false;
    }
    let t = *vec.get(0, arena);
    let mut i: usize = 1;
    while i < vec.len
        invariant
            1 <= i <= vec.len,
            vec.within(arena@.len()),
            items == arena@.subrange(vec.first as int, vec.first + vec.len),
            t == items[0],
            forall|j: int| 1 <= j < i ==> (#[trigger] items[j]).spec_is_atom() && t.spec_is_atom(),
        decreases vec.len - i,
    {
        if !vec.get(i, arena).type_eq(&t) {
            assert(!(items[i as int].spec_is_atom() && items[0].spec_is_atom()));
            return false;
        }
        i = i + 1;
    }
    true
}

pub fn is_flat(arena: &ArenaMem, vec: &Vector) -> (b: bool)
    requires
        vec.within(arena@.len()),
    ensures
        b == spec_is_flat(arena@.subrange(vec.first as int, vec.first + vec.len)),
{
    let ghost items = arena@.subrange(vec.first as int, vec.first + vec.len);
    let mut i: usize = 0;
    while i < vec.len
        invariant
            i <= vec.len,
            vec.within(arena@.len()),
            items == arena@.subrange(vec.first as int, vec.first + vec.len),
            forall|j: int| 0 <= j < i ==> (#[trigger] items[j]).spec_is_atom(),
        decreases vec.len - i,
    {
        if !vec.get(i, arena).is_atom() {
            assert(!items[i as int].spec_is_atom());
            return false;
        }
        i = i + 1;
    }
    true
}

} // verus!
