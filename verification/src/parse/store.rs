//! The interpreter's store: the node cells, the tables of interned names,
//! symbols and decimal literals, and the registry of built-in functions.

use vstd::prelude::*;
use std::collections::HashMap;
use crate::parse::arena::ArenaMem;
use crate::parse::ast::AST;

verus! {

broadcast use vstd::std_specs::hash::group_hash_axioms;

/// The texts of a table, in the order of their ids.
pub open spec fn texts(table: Seq<Vec<u8>>) -> Seq<Seq<u8>> {
    Seq::new(table.len(), |i: int| table[i]@)
}

/// The first place at or after `from` where `table` holds `s`.
pub open spec fn position(table: Seq<Seq<u8>>, s: Seq<u8>, from: nat) -> Option<nat>
    decreases table.len() - from,
{
    if from >= table.len() {
        None
    } else if table[from as int] == s {
        Some(from)
    } else {
        position(table, s, from + 1)
    }
}

/// The id that stands for the entry at place `i`: ids have 16 bits.
pub open spec fn id_of(i: nat) -> u16 {
    (i % 0x10000) as u16
}

/// The id that `s` has in `table` or, where it has none, the one it would get next.
pub open spec fn spec_name_id(table: Seq<Seq<u8>>, s: Seq<u8>) -> u16 {
    match position(table, s, 0) {
        Some(i) => id_of(i),
        None => id_of(table.len()),
    }
}

/// The table after `s` was interned: a text that is new goes to the end.
pub open spec fn spec_intern(table: Seq<Seq<u8>>, s: Seq<u8>) -> Seq<Seq<u8>> {
    match position(table, s, 0) {
        Some(_) => table,
        None => table.push(s),
    }
}

/// The text that the id stands for; the empty text where the table has no such id.
pub open spec fn spec_id_text(table: Seq<Seq<u8>>, id: u16) -> Seq<u8> {
    if id < table.len() {
        table[id as int]
    } else {
        Seq::empty()
    }
}

/// What is known of `position`: the place it gives holds `s` and no earlier
/// place from `from` on does; where it gives none, no place from `from` on does.
pub proof fn lemma_position(table: Seq<Seq<u8>>, s: Seq<u8>, from: nat)
    ensures
        (match position(table, s, from) {
            Some(i) => from <= i < table.len() && table[i as int] == s && forall|j: int|
                from <= j < i ==> table[j] != s,
            None => forall|j: int| from <= j < table.len() ==> table[j] != s,
        }),
    decreases table.len() - from,
{
    if from < table.len() && table[from as int] != s {
        lemma_position(table, s, from + 1);
    }
}

/// A place that holds `s` with none before it is the place `position` gives.
pub proof fn lemma_position_is(table: Seq<Seq<u8>>, s: Seq<u8>, from: nat, i: nat)
    requires
        from <= i < table.len(),
        table[i as int] == s,
        forall|j: int| from <= j < i ==> table[j] != s,
    ensures
        position(table, s, from) == Some(i),
    decreases table.len() - from,
{
    if from < i {
        lemma_position_is(table, s, from + 1, i);
    }
}

/// Interning gives a text the same id on every call, whatever was interned in
/// between, and gives two different texts two different ids, as long as the
/// table stays within the 65536 ids that there are.
pub proof fn lemma_intern_ids(table: Seq<Seq<u8>>, s: Seq<u8>, t: Seq<u8>)
    requires
        table.len() + 2 <= 0x10000,
    ensures
        ({
            let first = spec_name_id(table, s);
            let table1 = spec_intern(table, s);
            let other = spec_name_id(table1, t);
            let table2 = spec_intern(table1, t);
            let again = spec_name_id(table2, s);
            &&& again == first
            &&& spec_intern(table2, s) == table2
            &&& spec_id_text(table2, first) == s
            &&& (s != t ==> first != other)
            &&& (s == t ==> first == other)
        }),
{
    let table1 = spec_intern(table, s);
    let table2 = spec_intern(table1, t);
    lemma_position(table, s, 0);
    lemma_position(table1, t, 0);
    let i: nat = match position(table, s, 0) {
        Some(i) => i,
        None => table.len(),
    };
    assert(table1[i as int] == s);
    assert(forall|j: int| 0 <= j < i ==> table1[j] != s);
    lemma_position_is(table1, s, 0, i);
    assert(table2[i as int] == s);
    assert(forall|j: int| 0 <= j < i ==> table2[j] != s);
    lemma_position_is(table2, s, 0, i);
    lemma_position(table1, s, 0);
}

/// Whether the two texts are equal.
pub fn bytes_eq(a: &[u8], b: &[u8]) -> (r: bool)
    ensures
        r == (a@ == b@),
{
    if a.len() != b.len() {
        return false;
    }
    let mut i: usize = 0;
    while i < a.len()
        invariant
            i <= a@.len(),
            a@.len() == b@.len(),
            a@.take(i as int) == b@.take(i as int),
        decreases a@.len() - i,
    {
        if a[i] != b[i] {
            return false;
        }
        i = i + 1;
        assert(a@.take(i as int) =~= a@.take(i - 1).push(a@[i - 1]));
        assert(b@.take(i as int) =~= b@.take(i - 1).push(b@[i - 1]));
    }
    assert(a@ =~= a@.take(i as int));
    assert(b@ =~= b@.take(i as int));
    true
}

/// A copy of the text.
pub fn bytes_copy(a: &[u8]) -> (r: Vec<u8>)
    ensures
        r@ == a@,
{
    let mut out: Vec<u8> = Vec::new();
    let mut i: usize = 0;
    while i < a.len()
        invariant
            i <= a@.len(),
            out@ == a@.take(i as int),
        decreases a@.len() - i,
    {
        out.push(a[i]);
        i = i + 1;
        assert(out@ =~= a@.take(i as int));
    }
    assert(a@ =~= a@.take(i as int));
    out
}

/// The first place where `table` holds `s`.
fn table_find(table: &Vec<Vec<u8>>, s: &[u8]) -> (r: Option<usize>)
    ensures
        r.is_some() == position(texts(table@), s@, 0).is_some(),
        r matches Some(i) ==> position(texts(table@), s@, 0) == Some(i as nat),
{
    let mut i: usize = 0;
    while i < table.len()
        invariant
            i <= table@.len(),
            position(texts(table@), s@, i as nat) == position(texts(table@), s@, 0),
        decreases table@.len() - i,
    {
        if bytes_eq(table[i].as_slice(), s) {
            return Some(i);
        }
        i = i + 1;
    }
    None
}

/// The id of `s` in `table`, which gets `s` as a new last entry if it is not in it.
fn table_intern(table: &mut Vec<Vec<u8>>, s: &[u8]) -> (id: u16)
    ensures
        id == spec_name_id(texts(old(table)@), s@),
        texts(final(table)@) == spec_intern(texts(old(table)@), s@),
{
    match table_find(table, s) {
        Some(i) => (i % 0x10000) as u16,
        None => {
            let n = table.len();
            table.push(bytes_copy(s));
            assert(texts(table@) =~= texts(old(table)@).push(s@));
            (n % 0x10000) as u16
        },
    }
}

/// The text of `id` in `table`.
fn table_text(table: &Vec<Vec<u8>>, id: u16) -> (r: Vec<u8>)
    ensures
        r@ == spec_id_text(texts(table@), id),
{
    if (id as usize) < table.len() {
        bytes_copy(table[id as usize].as_slice())
    } else {
        Vec::new()
    }
}

/// The store as a value: the tables by their texts, the cells, and the
/// built-in functions by name id.
pub struct ArenaView {
    pub names: Seq<Seq<u8>>,
    pub symbols: Seq<Seq<u8>>,
    pub floats: Seq<Seq<u8>>,
    pub cells: Seq<AST>,
    pub natives: Map<u16, u8>,
}

impl ArenaView {
    /// The name id of a built-in function called `s`, if there is one.
    pub open spec fn native_id(self, s: Seq<u8>) -> Option<u16> {
        match position(self.names, s, 0) {
            Some(i) => if self.natives.contains_key(id_of(i)) {
                Some(id_of(i))
            } else {
                None
            },
            None => None,
        }
    }

    /// The code of the built-in function with the name id `id`, if there is one.
    pub open spec fn native_code(self, id: u16) -> Option<u8> {
        if self.natives.contains_key(id) {
            Some(self.natives[id])
        } else {
            None
        }
    }

    /// The store with other cells.
    pub open spec fn with_cells(self, cells: Seq<AST>) -> ArenaView {
        ArenaView { cells: cells, ..self }
    }

    /// The store after the name `s` was interned.
    pub open spec fn intern_name(self, s: Seq<u8>) -> ArenaView {
        ArenaView { names: spec_intern(self.names, s), ..self }
    }

    /// The store after the symbol `s` was interned.
    pub open spec fn intern_symbol(self, s: Seq<u8>) -> ArenaView {
        ArenaView { symbols: spec_intern(self.symbols, s), ..self }
    }

    /// The store after the decimal literal `s` was interned.
    pub open spec fn intern_float(self, s: Seq<u8>) -> ArenaView {
        ArenaView { floats: spec_intern(self.floats, s), ..self }
    }

    /// The store after the built-in function `name` was registered under `funid`.
    pub open spec fn add_native(self, name: Seq<u8>, funid: u8) -> ArenaView {
        ArenaView {
            names: spec_intern(self.names, name),
            natives: self.natives.insert(spec_name_id(self.names, name), funid),
            ..self
        }
    }
}

/// The store of an interpreter.
pub struct Arena {
    pub names: Vec<Vec<u8>>,
    pub symbols: Vec<Vec<u8>>,
    pub floats: Vec<Vec<u8>>,
    pub ast: ArenaMem,
    pub natives: HashMap<u16, u8>,
}

impl View for Arena {
    type V = ArenaView;

    open spec fn view(&self) -> ArenaView {
        ArenaView {
            names: texts(self.names@),
            symbols: texts(self.symbols@),
            floats: texts(self.floats@),
            cells: self.ast@,
            natives: self.natives@,
        }
    }
}

impl Arena {
    /// An empty store.
    pub fn new() -> (arena: Arena)
        ensures
            arena@.names == Seq::<Seq<u8>>::empty(),
            arena@.symbols == Seq::<Seq<u8>>::empty(),
            arena@.floats == Seq::<Seq<u8>>::empty(),
            arena@.cells == Seq::<AST>::empty(),
            arena@.natives == Map::<u16, u8>::empty(),
    {
        let arena = Arena {
            names: Vec::new(),
            symbols: Vec::new(),
            floats: Vec::new(),
            ast: ArenaMem::with_capacity(100),
            natives: HashMap::new(),
        };
        assert(arena@.names =~= Seq::<Seq<u8>>::empty());
        assert(arena@.symbols =~= Seq::<Seq<u8>>::empty());
        assert(arena@.floats =~= Seq::<Seq<u8>>::empty());
        arena
    }

    /// Interns the symbol `s` and returns the node for it.
    pub fn intern_symbol(&mut self, s: &[u8]) -> (r: AST)
        ensures
            r == (AST::Symbol { value: spec_name_id(old(self)@.symbols, s@) }),
            final(self)@ == old(self)@.intern_symbol(s@),
    {
        AST::Symbol { value: table_intern(&mut self.symbols, s) }
    }

    /// Interns the name `s` and returns the node for it.
    pub fn intern_name(&mut self, s: &[u8]) -> (r: AST)
        ensures
            r == (AST::Name { value: spec_name_id(old(self)@.names, s@) }),
            final(self)@ == old(self)@.intern_name(s@),
    {
        AST::Name { value: table_intern(&mut self.names, s) }
    }

    /// Interns the name `s` and returns its id.
    pub fn intern_name_id(&mut self, s: &[u8]) -> (id: u16)
        ensures
            id == spec_name_id(old(self)@.names, s@),
            final(self)@ == old(self)@.intern_name(s@),
    {
        table_intern(&mut self.names, s)
    }

    /// Interns the text `s` of a decimal literal and returns the node for it.
    pub fn intern_float(&mut self, s: &[u8]) -> (r: AST)
        ensures
            r == (AST::Float { value: spec_name_id(old(self)@.floats, s@) }),
            final(self)@ == old(self)@.intern_float(s@),
    {
        AST::Float { value: table_intern(&mut self.floats, s) }
    }

    /// The id of the name `s`, or the id that it would get next.
    pub fn name_id(&self, s: &[u8]) -> (id: u16)
        ensures
            id == spec_name_id(self@.names, s@),
    {
        match table_find(&self.names, s) {
            Some(i) => (i % 0x10000) as u16,
            None => (self.names.len() % 0x10000) as u16,
        }
    }

    /// The name id of the built-in function called `s`.
    pub fn native_id(&self, s: &[u8]) -> (r: Option<u16>)
        ensures
            r == self@.native_id(s@),
    {
        match table_find(&self.names, s) {
            Some(i) => {
                let id = (i % 0x10000) as u16;
                if self.natives.get(&id).is_some() {
                    Some(id)
                } else {
                    None
                }
            },
            None => None,
        }
    }

    /// The code of the built-in function with the name id `id`.
    pub fn native_id_id(&self, id: u16) -> (r: Option<u8>)
        ensures
            r == self@.native_code(id),
    {
        match self.natives.get(&id) {
            Some(x) => Some(*x),
            None => None,
        }
    }

    /// Registers the built-in function `name` under the code `funid`.
    pub fn add_native(&mut self, name: &[u8], funid: u8)
        ensures
            final(self)@ == old(self)@.add_native(name@, funid),
    {
        let id = self.intern_name_id(name);
        self.natives.insert(id, funid);
    }

    /// Whether the name `s` was interned.
    pub fn has_name(&self, s: &[u8]) -> (b: bool)
        ensures
            b == position(self@.names, s@, 0).is_some(),
    {
        table_find(&self.names, s).is_some()
    }

    /// The text of the name `id`.
    pub fn id_name(&self, id: u16) -> (r: Vec<u8>)
        ensures
            r@ == spec_id_text(self@.names, id),
    {
        table_text(&self.names, id)
    }

    /// The text of the symbol `id`.
    pub fn id_symbol(&self, id: u16) -> (r: Vec<u8>)
        ensures
            r@ == spec_id_text(self@.symbols, id),
    {
        table_text(&self.symbols, id)
    }

    /// The text of the decimal literal `id`.
    pub fn id_float(&self, id: u16) -> (r: Vec<u8>)
        ensures
            r@ == spec_id_text(self@.floats, id),
    {
        table_text(&self.floats, id)
    }
}

} // verus!
