//! The scope tree: name bindings with lexical lookup up the parent chain.

use vstd::prelude::*;
use crate::parse::ascii::{BLANK, CARET, COLON, EQUALS, NEWLINE};
use crate::parse::ast::Id;
use crate::parse::show::{decimal, push_number};

verus! {

/// The id of a scope: its place in the order of creation.
pub type ScopeId = usize;

/// A binding: a name id and the id of the cell that holds its value.
#[derive(Debug, Clone, Copy, PartialEq, Eq)]
pub struct Entry(pub u16, pub Id);

#[derive(Debug)]
struct Scope {
    parent: Option<ScopeId>,
    entries: Vec<Entry>,
}

/// A scope as a value: its parent and its bindings, oldest first.
pub struct ScopeView {
    pub parent: Option<nat>,
    pub entries: Seq<Entry>,
}

/// The value that the newest binding of `key` among `entries` gives it.
pub open spec fn newest(entries: Seq<Entry>, key: u16) -> Option<Id>
    decreases entries.len(),
{
    if entries.len() == 0 {
        None
    } else if entries.last().0 == key {
        Some(entries.last().1)
    } else {
        newest(entries.drop_last(), key)
    }
}

/// The parent of the scope `s`, where it has one that was created before it.
pub open spec fn parent_of(env: Seq<ScopeView>, s: nat) -> Option<nat> {
    if s < env.len() {
        match env[s as int].parent {
            Some(p) => if p < s {
                Some(p)
            } else {
                None
            },
            None => None,
        }
    } else {
        None
    }
}

/// The binding of `key` that is seen from `scope`: the newest one in the
/// nearest scope that has one, going from `scope` to its parent and on to the
/// root. The result is the value and the scope that holds the binding.
pub open spec fn spec_get(env: Seq<ScopeView>, key: u16, scope: nat) -> Option<(Id, ScopeId)>
    decreases scope,
{
    if scope >= env.len() {
        None
    } else {
        match newest(env[scope as int].entries, key) {
            Some(v) => Some((v, scope as ScopeId)),
            None => match parent_of(env, scope) {
                Some(p) => spec_get(env, key, p),
                None => None,
            },
        }
    }
}

/// The id of the scope that was created last.
pub open spec fn spec_last(env: Seq<ScopeView>) -> ScopeId {
    if env.len() > 0 {
        (env.len() - 1) as ScopeId
    } else {
        0
    }
}

/// The scope tree after a new, empty scope was appended under `parent`.
pub open spec fn spec_new_child(env: Seq<ScopeView>, parent: ScopeId) -> Seq<ScopeView> {
    env.push(ScopeView { parent: Some(parent as nat), entries: Seq::empty() })
}

/// The scope tree after `key` was bound to `value` in `scope`. Where there is
/// no such scope, nothing changes.
pub open spec fn spec_define(env: Seq<ScopeView>, scope: ScopeId, key: u16, value: Id) -> Seq<
    ScopeView,
> {
    if scope < env.len() {
        env.update(
            scope as int,
            ScopeView {
                parent: env[scope as int].parent,
                entries: env[scope as int].entries.push(Entry(key, value)),
            },
        )
    } else {
        env
    }
}

/// The scopes from `s` up to the root: `s`, its parent, and so on.
pub open spec fn up_chain(env: Seq<ScopeView>, s: nat) -> Seq<nat>
    decreases s,
{
    if s >= env.len() {
        Seq::empty()
    } else {
        match parent_of(env, s) {
            Some(p) => seq![s] + up_chain(env, p),
            None => seq![s],
        }
    }
}

/// The scope tree after compaction: the scopes from the root down to the last
/// one, each the child of the one before it, with their bindings.
pub open spec fn spec_clean(env: Seq<ScopeView>) -> Seq<ScopeView> {
    let up = up_chain(env, spec_last(env) as nat);
    Seq::new(
        up.len(),
        |i: int|
            ScopeView {
                parent: if i == 0 {
                    None
                } else {
                    Some((i - 1) as nat)
                },
                entries: env[up[up.len() - 1 - i] as int].entries,
            },
    )
}

/// Whether `a` is `s` or lies on the way from `s` up to the root.
pub open spec fn is_ancestor(env: Seq<ScopeView>, s: nat, a: nat) -> bool
    decreases s,
{
    s < env.len() && (a == s || match parent_of(env, s) {
        Some(p) => is_ancestor(env, p, a),
        None => false,
    })
}

/// Whether the scope `a` holds a binding of `key`.
pub open spec fn defines(env: Seq<ScopeView>, a: nat, key: u16) -> bool {
    a < env.len() && exists|i: int|
        0 <= i < env[a as int].entries.len() && (#[trigger] env[a as int].entries[i]).0 == key
}

/// `newest` finds a value exactly where some binding has the key.
pub proof fn lemma_newest(entries: Seq<Entry>, key: u16)
    ensures
        newest(entries, key).is_some() <==> exists|i: int|
            0 <= i < entries.len() && (#[trigger] entries[i]).0 == key,
    decreases entries.len(),
{
    if entries.len() > 0 {
        let rest = entries.drop_last();
        lemma_newest(rest, key);
        if entries.last().0 == key {
            assert(entries[entries.len() - 1].0 == key);
        } else {
            if newest(rest, key).is_some() {
                let i = choose|i: int| 0 <= i < rest.len() && (#[trigger] rest[i]).0 == key;
                assert(entries[i].0 == key);
            }
            if exists|i: int| 0 <= i < entries.len() && (#[trigger] entries[i]).0 == key {
                let i = choose|i: int| 0 <= i < entries.len() && (#[trigger] entries[i]).0 == key;
                assert(rest[i].0 == key);
            }
        }
    }
}

/// A lookup from a scope finds a binding exactly where the scope itself or
/// one of the scopes above it holds one for the name.
pub proof fn lemma_get_iff_defined(env: Seq<ScopeView>, key: u16, s: nat)
    ensures
        spec_get(env, key, s).is_some() <==> exists|a: nat|
            is_ancestor(env, s, a) && defines(env, a, key),
    decreases s,
{
    if s < env.len() {
        lemma_newest(env[s as int].entries, key);
        match parent_of(env, s) {
            Some(p) => {
                lemma_get_iff_defined(env, key, p);
                if spec_get(env, key, s).is_some() {
                    if newest(env[s as int].entries, key).is_some() {
                        assert(is_ancestor(env, s, s) && defines(env, s, key));
                    } else {
                        let a = choose|a: nat| is_ancestor(env, p, a) && defines(env, a, key);
                        assert(is_ancestor(env, s, a) && defines(env, a, key));
                    }
                }
                if exists|a: nat| is_ancestor(env, s, a) && defines(env, a, key) {
                    let a = choose|a: nat| is_ancestor(env, s, a) && defines(env, a, key);
                    if a != s {
                        assert(is_ancestor(env, p, a) && defines(env, a, key));
                    }
                }
            },
            None => {
                if spec_get(env, key, s).is_some() {
                    assert(is_ancestor(env, s, s) && defines(env, s, key));
                }
            },
        }
    }
}

/// The binding that a lookup finds lies in a scope on the way up from where
/// the lookup began, and is the newest binding of the name in that scope.
pub proof fn lemma_get_is_nearest(env: Seq<ScopeView>, key: u16, s: nat)
    requires
        env.len() <= usize::MAX,
    ensures
        spec_get(env, key, s) matches Some((v, a)) ==> is_ancestor(env, s, a as nat) && newest(
            env[a as int].entries,
            key,
        ) == Some(v),
    decreases s,
{
    if s < env.len() {
        if newest(env[s as int].entries, key).is_none() {
            match parent_of(env, s) {
                Some(p) => {
                    lemma_get_is_nearest(env, key, p);
                    if let Some((v, a)) = spec_get(env, key, p) {
                        assert(is_ancestor(env, s, a as nat));
                    }
                },
                None => {},
            }
        } else {
            assert(is_ancestor(env, s, s));
        }
    }
}

/// A binding is seen at once from the scope that it was made in, and it
/// hides every older binding of the same name.
pub proof fn lemma_define_then_get(env: Seq<ScopeView>, scope: ScopeId, key: u16, value: Id)
    requires
        scope < env.len(),
    ensures
        spec_get(spec_define(env, scope, key, value), key, scope as nat) == Some((value, scope)),
{
    let after = spec_define(env, scope, key, value);
    assert(after[scope as int].entries.last() == Entry(key, value));
}

/// The value that `key` has when seen from `scope`, whichever scope holds it.
pub open spec fn value_seen(env: Seq<ScopeView>, key: u16, scope: nat) -> Option<Id> {
    match spec_get(env, key, scope) {
        Some((v, _)) => Some(v),
        None => None,
    }
}

/// Whether the scope at place `m + 1` of `up` is the parent of the one at
/// place `m`.
pub open spec fn linked(env: Seq<ScopeView>, up: Seq<nat>, m: int) -> bool {
    parent_of(env, up[m]) == Some(up[m + 1])
}

/// What is known of the way up from a scope: it begins with the scope, goes
/// from each scope to its parent, and ends at a scope without one.
pub proof fn lemma_up_chain(env: Seq<ScopeView>, s: nat)
    ensures
        s < env.len() ==> up_chain(env, s).len() >= 1 && up_chain(env, s)[0] == s,
        s >= env.len() ==> up_chain(env, s).len() == 0,
        up_chain(env, s).len() <= s + 1,
        forall|m: int|
            0 <= m < up_chain(env, s).len() ==> (#[trigger] up_chain(env, s)[m]) < env.len(),
        forall|m: int|
            0 <= m < up_chain(env, s).len() - 1 ==> #[trigger] linked(env, up_chain(env, s), m),
        up_chain(env, s).len() >= 1 ==> parent_of(env, up_chain(env, s).last()).is_none(),
    decreases s,
{
    if s < env.len() {
        match parent_of(env, s) {
            Some(p) => {
                lemma_up_chain(env, p);
                let rest = up_chain(env, p);
                let up = up_chain(env, s);
                assert(up =~= seq![s] + rest);
                assert forall|m: int| 0 <= m < up.len() implies (#[trigger] up[m]) < env.len() by {
                    if m > 0 {
                        assert(up[m] == rest[m - 1]);
                    }
                }
                assert forall|m: int| 0 <= m < up.len() - 1 implies #[trigger] linked(
                    env,
                    up,
                    m,
                ) by {
                    if m > 0 {
                        assert(linked(env, rest, m - 1));
                        assert(up[m] == rest[m - 1]);
                        assert(up[m + 1] == rest[m]);
                    } else {
                        assert(up[1] == rest[0]);
                    }
                }
                assert(up.last() == rest.last());
            },
            None => {},
        }
    }
}

/// From the scope at place `j` of a compacted tree a name has the value
/// that it has from the scope that now stands at that place.
pub proof fn lemma_clean_keeps_scope(env: Seq<ScopeView>, key: u16, j: nat)
    requires
        j < up_chain(env, spec_last(env) as nat).len(),
    ensures
        value_seen(spec_clean(env), key, j) == value_seen(
            env,
            key,
            up_chain(env, spec_last(env) as nat)[up_chain(env, spec_last(env) as nat).len() - 1
                - j],
        ),
    decreases j,
{
    let up = up_chain(env, spec_last(env) as nat);
    let after = spec_clean(env);
    let k = up.len();
    lemma_up_chain(env, spec_last(env) as nat);
    let s = up[k - 1 - j];
    assert(after[j as int].entries == env[s as int].entries);
    if j > 0 {
        lemma_clean_keeps_scope(env, key, (j - 1) as nat);
        assert(parent_of(after, j) == Some((j - 1) as nat));
        assert(linked(env, up, k - 1 - j));
    } else {
        assert(parent_of(after, j).is_none());
        assert(s == up.last());
    }
}

/// Compaction changes nothing that is seen from the last scope: every name
/// has there the value that it had before.
pub proof fn lemma_clean_keeps_lookups(env: Seq<ScopeView>, key: u16)
    requires
        0 < env.len() <= usize::MAX,
    ensures
        value_seen(spec_clean(env), key, spec_last(spec_clean(env)) as nat) == value_seen(
            env,
            key,
            spec_last(env) as nat,
        ),
{
    let up = up_chain(env, spec_last(env) as nat);
    lemma_up_chain(env, spec_last(env) as nat);
    assert(spec_clean(env).len() == up.len());
    assert(spec_last(spec_clean(env)) == up.len() - 1);
    assert(up[0] == spec_last(env));
    lemma_clean_keeps_scope(env, key, (up.len() - 1) as nat);
}

/// The bindings from place `i` on as text: a blank, the name id, `=` and
/// the id of the value, for each.
pub open spec fn entries_text(entries: Seq<Entry>, i: int) -> Seq<u8>
    decreases entries.len() - i,
{
    if i < 0 || i >= entries.len() {
        Seq::empty()
    } else {
        seq![BLANK] + decimal(entries[i].0 as int) + seq![EQUALS] + decimal(entries[i].1 as int)
            + entries_text(entries, i + 1)
    }
}

/// The scopes from place `i` on as text, a line for each: the id of the
/// scope, `^` and the id of its parent where it has one, `:`, and the
/// bindings, oldest first.
pub open spec fn scopes_text(env: Seq<ScopeView>, i: int) -> Seq<u8>
    decreases env.len() - i,
{
    if i < 0 || i >= env.len() {
        Seq::empty()
    } else {
        decimal(i) + (match env[i].parent {
            Some(p) => seq![CARET] + decimal(p as int),
            None => Seq::empty(),
        }) + seq![COLON] + entries_text(env[i].entries, 0) + seq![NEWLINE] + scopes_text(
            env,
            i + 1,
        )
    }
}

/// The scope tree of an interpreter.
#[derive(Debug)]
pub struct Environment {
    tree: Vec<Scope>,
}

/// The scopes as values.
closed spec fn scope_views(tree: Seq<Scope>) -> Seq<ScopeView> {
    Seq::new(
        tree.len(),
        |i: int|
            ScopeView {
                parent: match tree[i].parent {
                    Some(p) => Some(p as nat),
                    None => None,
                },
                entries: tree[i].entries@,
            },
    )
}

impl View for Environment {
    type V = Seq<ScopeView>;

    closed spec fn view(&self) -> Seq<ScopeView> {
        scope_views(self.tree@)
    }
}

/// The sum of the numbers of bindings of the scopes before `n`.
pub open spec fn entry_count(env: Seq<ScopeView>, n: nat) -> nat
    decreases n,
{
    if n == 0 || n > env.len() {
        0
    } else {
        entry_count(env, (n - 1) as nat) + env[n - 1].entries.len()
    }
}

fn newest_in(entries: &Vec<Entry>, key: u16) -> (r: Option<Id>)
    ensures
        r == newest(entries@, key),
{
    let mut i: usize = entries.len();
    assert(entries@.take(i as int) =~= entries@);
    while i > 0
        invariant
            i <= entries@.len(),
            newest(entries@, key) == newest(entries@.take(i as int), key),
        decreases i,
    {
        i = i - 1;
        assert(entries@.take(i + 1).last() == entries@[i as int]);
        assert(entries@.take(i + 1).drop_last() =~= entries@.take(i as int));
        if entries[i].0 == key {
            return Some(entries[i].1);
        }
    } 
    assert(entries@.take(0).len() == 0);
    None
}

fn copy_entries(entries: &Vec<Entry>) -> (out: Vec<Entry>)
    ensures
        out@ == entries@,
{
    let mut out: Vec<Entry> = Vec::new();
    let mut i: usize = 0;
    while i < entries.len()
        invariant
            i <= entries@.len(),
            out@ == entries@.take(i as int),
        decreases entries@.len() - i,
    {
        out.push(entries[i]);
        i = i + 1;
        assert(out@ =~= entries@.take(i as int));
    }
    assert(entries@ =~= entries@.take(i as int));
    out
}

impl Environment {
    /// A scope tree that has its root and nothing else.
    pub fn new_root() -> (env: Environment)
        ensures
            env@ == seq![(ScopeView { parent: None, entries: Seq::empty() })],
    {
        let mut tree: Vec<Scope> = Vec::with_capacity(10000);
        tree.push(Scope { parent: None, entries: Vec::new() });
        let env = Environment { tree: tree };
        assert(env@ =~= seq![ScopeView { parent: None, entries: Seq::empty() }]);
        env
    }

    /// The scope that was created last.
    pub fn last(&self) -> (s: ScopeId)
        ensures
            s == spec_last(self@),
    {
        if self.tree.len() > 0 {
            self.tree.len() - 1
        } else {
            0
        }
    }

    /// The scope tree as text, a line for each scope.
    pub fn dump(&self) -> (out: Vec<u8>)
        ensures
            out@ == scopes_text(self@, 0),
    {
        let mut out: Vec<u8> = Vec::new();
        let mut i: usize = 0;
        assert(out@ + scopes_text(self@, 0) =~= scopes_text(self@, 0));
        while i < self.tree.len()
            invariant
                i <= self.tree@.len(),
                self@.len() == self.tree@.len(),
                out@ + scopes_text(self@, i as int) == scopes_text(self@, 0),
            decreases self.tree@.len() - i,
        {
            let ghost before = out@;
            let ghost scope = self@[i as int];
            assert(scope.entries == self.tree@[i as int].entries@);
            push_number(i as u64, &mut out);
            match self.tree[i].parent {
                Some(p) => {
                    out.push(CARET);
                    push_number(p as u64, &mut out);
                },
                None => {},
            }
            out.push(COLON);
            let ghost head = out@;
            assert(head =~= before + decimal(i as int) + (match scope.parent {
                Some(p) => seq![CARET] + decimal(p as int),
                None => Seq::empty(),
            }) + seq![COLON]);
            let entries = &self.tree[i].entries;
            let mut j: usize = 0;
            assert(out@ + entries_text(entries@, 0) =~= head + entries_text(entries@, 0));
            while j < entries.len()
                invariant
                    j <= entries@.len(),
                    out@ + entries_text(entries@, j as int) == head + entries_text(entries@, 0),
                decreases entries@.len() - j,
            {
                let ghost prior = out@;
                out.push(BLANK);
                push_number(entries[j].0 as u64, &mut out);
                out.push(EQUALS);
                push_number(entries[j].1, &mut out);
                assert(out@ =~= prior + (seq![BLANK] + decimal(entries@[j as int].0 as int)
                    + seq![EQUALS] + decimal(entries@[j as int].1 as int)));
                assert(out@ + entries_text(entries@, j + 1) =~= prior + entries_text(
                    entries@,
                    j as int,
                ));
                j = j + 1;
            }
            assert(out@ =~= head + entries_text(entries@, 0));
            out.push(NEWLINE);
            assert(out@ + scopes_text(self@, i + 1) =~= before + scopes_text(self@, i as int));
            i = i + 1;
        }
        assert(out@ + scopes_text(self@, i as int) =~= out@);
        out
    }

    /// The number of scopes, and the number of bindings in all of them
    /// (`usize::MAX` where that number is greater).
    pub fn len(&self) -> (n: (usize, usize))
        ensures
            n.0 == self@.len(),
            n.1 == (if entry_count(self@, self@.len()) <= usize::MAX {
                entry_count(self@, self@.len())
            } else {
                usize::MAX as nat
            }),
    {
        let mut total: usize = 0;
        let mut i: usize = 0;
        while i < self.tree.len()
            invariant
                i <= self@.len(),
                self@.len() == self.tree@.len(),
                total == if entry_count(self@, i as nat) <= usize::MAX {
                    entry_count(self@, i as nat)
                } else {
                    usize::MAX as nat
                },
            decreases self@.len() - i,
        {
            let k = self.tree[i].entries.len();
            assert(self@[i as int].entries.len() == k);
            total = if k <= usize::MAX - total {
                total + k
            } else {
                usize::MAX
            };
            i = i + 1;
        }
        (self.tree.len(), total)
    }

    /// Whether `n` is a scope of the tree.
    pub fn contains(&self, n: ScopeId) -> (b: bool)
        ensures
            b == (n < self@.len()),
    {
        n < self.tree.len()
    }

    /// Appends a new, empty scope under `n` and returns its id.
    pub fn new_child(&mut self, n: ScopeId) -> (id: ScopeId)
        ensures
            id == old(self)@.len(),
            final(self)@ == spec_new_child(old(self)@, n),
    {
        let id = self.tree.len();
        self.tree.push(Scope { parent: Some(n), entries: Vec::new() });
        assert(self@ =~= spec_new_child(old(self)@, n));
        id
    }

    /// Binds `key` to `value` in the scope `scope`. The new binding hides the
    /// older ones of the same name.
    pub fn define(&mut self, scope: ScopeId, key: u16, value: Id)
        ensures
            final(self)@ == spec_define(old(self)@, scope, key, value),
    {
        if scope < self.tree.len() {
            self.tree[scope].entries.push(Entry(key, value));
            assert(self@ =~= spec_define(old(self)@, scope, key, value));
        }
    }

    /// Looks `key` up from the scope `n`: the value and the scope of the
    /// nearest binding on the way up to the root.
    pub fn get(&self, key: u16, n: ScopeId) -> (r: Option<(Id, ScopeId)>)
        ensures
            r == spec_get(self@, key, n as nat),
    {
        let mut s = n;
        loop
            invariant
                spec_get(self@, key, s as nat) == spec_get(self@, key, n as nat),
            decreases s,
        {
            if s >= self.tree.len() {
                return None;
            }
            assert(self@[s as int].entries == self.tree@[s as int].entries@);
            match newest_in(&self.tree[s].entries, key) {
                Some(v) => {
                    return Some((v, s));
                },
                None => {},
            }
            match self.tree[s].parent {
                Some(p) => {
                    if p < s {
                        s = p;
                    } else {
                        return None;
                    }
                },
                None => {
                    return None;
                },
            }
        }
    }

    /// Compacts the tree: only the scopes from the root down to the last one
    /// stay. Returns how many scopes were dropped.
    pub fn clean(&mut self) -> (dropped: usize)
        ensures
            final(self)@ == spec_clean(old(self)@),
            dropped == old(self)@.len() - final(self)@.len(),
    {
        let last = self.last();
        let mut rev: Vec<usize> = Vec::new();
        let mut s = last;
        let ghost up = up_chain(self@, last as nat);
        let ghost mut done = false;
        loop
            invariant_except_break
                !done,
                rev@.map_values(|x: usize| x as nat) + up_chain(self@, s as nat) == up,
                rev@.len() > 0 ==> rev@.last() > s,
            invariant
                self@ == old(self)@,
                forall|i: int| 0 <= i < rev@.len() ==> rev@[i] < self.tree@.len(),
                rev@.len() <= self.tree@.len(),
                rev@.len() > 0 ==> rev@.last() + rev@.len() <= self.tree@.len(),
            ensures
                rev@.map_values(|x: usize| x as nat) == up,
            decreases s,
        {
            if s >= self.tree.len() {
                proof {
                    let so_far = rev@.map_values(|x: usize| x as nat);
                    assert(so_far =~= so_far + Seq::<nat>::empty());
                    done = true;
                }
                break;
            }
            let ghost before = rev@.map_values(|x: usize| x as nat);
            rev.push(s);
            assert(rev@.map_values(|x: usize| x as nat) =~= before + seq![s as nat]);
            let next = match self.tree[s].parent {
                Some(p) => if p < s {
                    Some(p)
                } else {
                    None
                },
                None => None,
            };
            assert(next == match parent_of(self@, s as nat) {
                Some(p) => Some(p as usize),
                None => None,
            });
            match next {
                Some(p) => {
                    assert(before + (seq![s as nat] + up_chain(self@, p as nat)) =~= (before
                        + seq![s as nat]) + up_chain(self@, p as nat));
                    s = p;
                },
                None => {
                    proof {
                        done = true;
                    }
                    break;
                },
            }
        }
        let k = rev.len();
        let n = self.tree.len();
        let mut out: Vec<Scope> = Vec::new();
        let mut i: usize = 0;
        while i < k
            invariant
                i <= k,
                k == rev@.len(),
                k <= n,
                n == self.tree@.len(),
                self@ == old(self)@,
                rev@.map_values(|x: usize| x as nat) == up,
                up == up_chain(old(self)@, spec_last(old(self)@) as nat),
                forall|j: int| 0 <= j < rev@.len() ==> rev@[j] < self.tree@.len(),
                out@.len() == i,
                scope_views(out@) == spec_clean(old(self)@).take(i as int),
            decreases k - i,
        {
            let idx = rev[k - 1 - i];
            assert(up[k - 1 - i] == idx as nat);
            assert(self@[idx as int].entries == self.tree@[idx as int].entries@);
            let parent = if i == 0 {
                None
            } else {
                Some(i - 1)
            };
            out.push(Scope { parent: parent, entries: copy_entries(&self.tree[idx].entries) });
            i = i + 1;
            assert(scope_views(out@) =~= spec_clean(old(self)@).take(i as int));
        }
        assert(spec_clean(old(self)@).take(k as int) =~= spec_clean(old(self)@));
        self.tree = out;
        n - k
    }
}

} // verus!
