//! Name/value option lists (PostgreSQL `OPTIONS (...)`, header maps) and the
//! process environment as a snapshot of plain values.
use vstd::prelude::*;

use crate::sorting::{
    lemma_lex_irreflexive, lemma_lex_total, lemma_lex_transitive, lex_lt, lex_lt_exec,
};
use crate::text::{chars_of, seq_eq, str_eq};

verus! {

pub open spec fn pairs_view(s: Seq<(String, String)>) -> Seq<(Seq<char>, Seq<char>)> {
    s.map_values(|p: (String, String)| (p.0@, p.1@))
}

/// Names in strictly ascending order, as a `BTreeMap` keeps them.
pub open spec fn keys_sorted(m: Seq<(Seq<char>, Seq<char>)>) -> bool {
    forall|i: int, j: int| 0 <= i < j < m.len() ==> lex_lt(m[i].0, m[j].0)
}

/// Index of the first pair named `key`, or the length when there is none.
pub open spec fn key_index(m: Seq<(Seq<char>, Seq<char>)>, key: Seq<char>) -> int
    decreases m.len(),
{
    if m.len() == 0 {
        0
    } else if m[0].0 == key {
        0
    } else {
        1 + key_index(m.drop_first(), key)
    }
}

pub proof fn lemma_key_index(m: Seq<(Seq<char>, Seq<char>)>, key: Seq<char>)
    ensures
        0 <= key_index(m, key) <= m.len(),
        key_index(m, key) < m.len() ==> m[key_index(m, key)].0 == key,
        forall|j: int| 0 <= j < key_index(m, key) ==> m[j].0 != key,
    decreases m.len(),
{
    if m.len() > 0 && m[0].0 != key {
        lemma_key_index(m.drop_first(), key);
        assert forall|j: int| 0 <= j < key_index(m, key) implies m[j].0 != key by {
            if j > 0 {
                assert(m[j] == m.drop_first()[j - 1]);
            }
        }
    }
}

pub proof fn lemma_key_index_unique(m: Seq<(Seq<char>, Seq<char>)>, key: Seq<char>, i: int)
    requires
        0 <= i < m.len(),
        m[i].0 == key,
        forall|j: int| 0 <= j < i ==> m[j].0 != key,
    ensures
        key_index(m, key) == i,
{
    lemma_key_index(m, key);
}

/// The value of the first pair named `key` (`HashMap::get`/`BTreeMap::get`).
pub open spec fn map_lookup(m: Seq<(Seq<char>, Seq<char>)>, key: Seq<char>) -> Option<Seq<char>> {
    let i = key_index(m, key);
    if i < m.len() {
        Some(m[i].1)
    } else {
        None
    }
}

/// `insert`: replaces the value of an existing name, or appends the pair.
pub open spec fn map_insert(m: Seq<(Seq<char>, Seq<char>)>, key: Seq<char>, value: Seq<char>) -> Seq<
    (Seq<char>, Seq<char>),
> {
    let i = key_index(m, key);
    if i < m.len() {
        m.update(i, (key, value))
    } else {
        m.push((key, value))
    }
}

pub proof fn lemma_map_insert(m: Seq<(Seq<char>, Seq<char>)>, key: Seq<char>, value: Seq<char>)
    ensures
        map_lookup(map_insert(m, key, value), key) == Some(value),
        forall|k: Seq<char>| k != key ==> map_lookup(map_insert(m, key, value), k) == map_lookup(m, k),
{
    lemma_key_index(m, key);
    let n = map_insert(m, key, value);
    let i = key_index(m, key);
    if i < m.len() {
        lemma_key_index_unique(n, key, i);
    } else {
        lemma_key_index_unique(n, key, m.len() as int);
    }
    assert forall|k: Seq<char>| k != key implies map_lookup(n, k) == map_lookup(m, k) by {
        lemma_key_index(m, k);
        let j = key_index(m, k);
        if j < m.len() {
            lemma_key_index_unique(n, k, j);
        } else {
            lemma_key_index(n, k);
            let t = key_index(n, k);
            if t < n.len() {
                if t < m.len() {
                    assert(n[t] == m[t] || t == i);
                } else {
                    assert(n[t].0 == key);
                }
            }
        }
    }
}

#[derive(Debug)]
pub struct OptionMap {
    pub entries: Vec<(String, String)>,
}

impl OptionMap {
    pub open spec fn pairs(&self) -> Seq<(Seq<char>, Seq<char>)> {
        pairs_view(self.entries@)
    }

    pub open spec fn lookup(&self, key: Seq<char>) -> Option<Seq<char>> {
        map_lookup(self.pairs(), key)
    }

    pub fn new() -> (r: OptionMap)
        ensures
            r.pairs() == Seq::<(Seq<char>, Seq<char>)>::empty(),
    {
        let r = OptionMap { entries: Vec::new() };
        assert(r.pairs() =~= Seq::<(Seq<char>, Seq<char>)>::empty());
        r
    }

    fn index_of(&self, key: &Vec<char>) -> (r: usize)
        ensures
            r == key_index(self.pairs(), key@),
            r <= self.entries.len(),
    {
        proof {
            lemma_key_index(self.pairs(), key@);
        }
        let mut i: usize = 0;
        while i < self.entries.len()
            invariant
                i <= self.entries.len(),
                key_index(self.pairs(), key@) >= i,
                self.pairs().len() == self.entries.len(),
                0 <= key_index(self.pairs(), key@) <= self.pairs().len(),
                key_index(self.pairs(), key@) < self.pairs().len() ==> self.pairs()[key_index(
                    self.pairs(),
                    key@,
                )].0 == key@,
                forall|j: int| 0 <= j < key_index(self.pairs(), key@) ==> self.pairs()[j].0 != key@,
            decreases self.entries.len() - i,
        {
            let k = chars_of(self.entries[i].0.as_str());
            if seq_eq(&k, key) {
                assert(self.pairs()[i as int].0 == key@);
                return i;
            }
            assert(self.pairs()[i as int].0 != key@);
            i = i + 1;
        }
        i
    }

    pub fn get(&self, key: &str) -> (r: Option<&String>)
        ensures
            r is Some == self.lookup(key@) is Some,
            r matches Some(v) ==> self.lookup(key@) == Some(v@),
    {
        let k = chars_of(key);
        let i = self.index_of(&k);
        if i < self.entries.len() {
            Some(&self.entries[i].1)
        } else {
            None
        }
    }

    pub fn contains(&self, key: &str) -> (r: bool)
        ensures
            r == self.lookup(key@) is Some,
    {
        self.get(key).is_some()
    }

    pub fn insert(&mut self, key: String, value: String)
        ensures
            final(self).pairs() == map_insert(old(self).pairs(), key@, value@),
    {
        let k = chars_of(key.as_str());
        let i = self.index_of(&k);
        let ghost kv = key@;
        let ghost vv = value@;
        let ghost before = self.entries@;
        if i < self.entries.len() {
            self.entries.set(i, (key, value));
            assert(self.entries@ == before.update(i as int, self.entries@[i as int]));
            assert(self.pairs() =~= old(self).pairs().update(i as int, (kv, vv)));
        } else {
            self.entries.push((key, value));
            assert(self.pairs() =~= old(self).pairs().push((kv, vv)));
        }
    }

    /// `BTreeMap::insert`: the names stay in ascending order.
    pub fn insert_sorted(&mut self, key: String, value: String)
        requires
            keys_sorted(old(self).pairs()),
        ensures
            keys_sorted(final(self).pairs()),
            final(self).pairs().len() == map_insert(old(self).pairs(), key@, value@).len(),
            forall|k: Seq<char>|
                #[trigger] map_lookup(final(self).pairs(), k) == map_lookup(
                    map_insert(old(self).pairs(), key@, value@),
                    k,
                ),
    {
        proof {
            lemma_map_insert(self.pairs(), key@, value@);
            lemma_key_index(self.pairs(), key@);
        }
        let k = chars_of(key.as_str());
        let ghost m = self.pairs();
        let ghost kv = key@;
        let ghost vv = value@;
        let mut i: usize = 0;
        while i < self.entries.len()
            invariant
                i <= self.entries.len(),
                m == self.pairs(),
                m.len() == self.entries.len(),
                k@ == kv,
                forall|j: int| 0 <= j < i ==> lex_lt(m[j].0, kv),
            ensures
                i <= self.entries.len(),
                m == self.pairs(),
                forall|j: int| 0 <= j < i ==> lex_lt(m[j].0, kv),
                i < self.entries.len() ==> !lex_lt(m[i as int].0, kv),
            decreases self.entries.len() - i,
        {
            let e = chars_of(self.entries[i].0.as_str());
            if !lex_lt_exec(&e, &k) {
                break;
            }
            i = i + 1;
        }
        proof {
            lemma_lex_irreflexive(kv);
            assert forall|j: int| 0 <= j < i implies m[j].0 != kv by {
                assert(lex_lt(m[j].0, kv));
            }
        }
        if i < self.entries.len() {
            let e = chars_of(self.entries[i].0.as_str());
            if seq_eq(&e, &k) {
                proof {
                    lemma_key_index_unique(m, kv, i as int);
                }
                self.entries.set(i, (key, value));
                assert(self.pairs() =~= m.update(i as int, (kv, vv)));
                return;
            }
        }
        proof {
            assert(forall|j: int| i <= j < m.len() ==> m[j].0 != kv && lex_lt(kv, m[j].0)) by {
                if i < m.len() {
                    lemma_lex_total(kv, m[i as int].0);
                }
                assert forall|j: int| i <= j < m.len() implies m[j].0 != kv && lex_lt(kv, m[j].0) by {
                    if j > i {
                        assert(lex_lt(m[i as int].0, m[j].0));
                        lemma_lex_transitive(kv, m[i as int].0, m[j].0);
                    }
                }
            }
        }
        self.entries.insert(i, (key, value));
        proof {
            let t = self.pairs();
            assert(t =~= m.subrange(0, i as int).push((kv, vv)) + m.subrange(i as int, m.len() as int));
            assert forall|a: int, b: int| 0 <= a < b < t.len() implies lex_lt(t[a].0, t[b].0) by {
                if b < i {
                    assert(t[a] == m[a] && t[b] == m[b]);
                } else if b == i {
                    assert(t[a] == m[a]);
                } else if a < i {
                    assert(t[a] == m[a] && t[b] == m[b - 1]);
                } else if a == i {
                    assert(t[b] == m[b - 1]);
                } else {
                    assert(t[a] == m[a - 1] && t[b] == m[b - 1]);
                }
            }
            assert forall|j: int| 0 <= j < i implies t[j].0 != kv by {
                assert(t[j] == m[j]);
            }
            lemma_key_index_unique(t, kv, i as int);
            assert(map_lookup(t, kv) == Some(vv));
            assert forall|q: Seq<char>| #[trigger] map_lookup(t, q) == map_lookup(
                map_insert(m, kv, vv),
                q,
            ) by {
                if q != kv {
                    lemma_key_index(m, q);
                    let j0 = key_index(m, q);
                    if j0 < m.len() {
                        let tj = if j0 < i { j0 } else { j0 + 1 };
                        assert forall|j: int| 0 <= j < tj implies t[j].0 != q by {
                            if j < i {
                                assert(t[j] == m[j]);
                            } else if j > i {
                                assert(t[j] == m[j - 1]);
                            }
                        }
                        assert(t[tj] == m[j0]);
                        lemma_key_index_unique(t, q, tj);
                        assert(map_lookup(t, q) == map_lookup(m, q));
                    } else {
                        lemma_key_index(t, q);
                        let x = key_index(t, q);
                        if x < t.len() {
                            if x < i {
                                assert(t[x] == m[x]);
                            } else if x > i {
                                assert(t[x] == m[x - 1]);
                            }
                        }
                        assert(map_lookup(t, q) == map_lookup(m, q));
                    }
                }
            }
        }
    }

    pub fn insert_str(&mut self, key: &str, value: &str)
        ensures
            final(self).pairs() == map_insert(old(self).pairs(), key@, value@),
    {
        let k = chars_of(key);
        let v = chars_of(value);
        self.insert(crate::text::string_of(&k), crate::text::string_of(&v));
    }

    pub fn duplicate(&self) -> (r: OptionMap)
        ensures
            r.pairs() == self.pairs(),
    {
        let mut out: Vec<(String, String)> = Vec::new();
        let mut i: usize = 0;
        while i < self.entries.len()
            invariant
                i <= self.entries.len(),
                out@.len() == i,
                pairs_view(out@) == pairs_view(self.entries@.subrange(0, i as int)),
            decreases self.entries.len() - i,
        {
            let ghost prev = out@;
            out.push((self.entries[i].0.clone(), self.entries[i].1.clone()));
            proof {
                let a = pairs_view(out@);
                let b = pairs_view(self.entries@.subrange(0, i + 1));
                assert forall|j: int| 0 <= j < a.len() implies a[j] == b[j] by {
                    if j < i {
                        assert(out@[j] == prev[j]);
                        assert(pairs_view(prev)[j] == pairs_view(
                            self.entries@.subrange(0, i as int),
                        )[j]);
                    }
                }
                assert(a =~= b);
            }
            i = i + 1;
        }
        assert(self.entries@.subrange(0, self.entries.len() as int) =~= self.entries@);
        OptionMap { entries: out }
    }
}

/// How the process environment answers for one variable name.
pub enum EnvLookup {
    Present(Seq<char>),
    NotPresent,
    NotUnicode,
}

/// The environment of the process: its UTF-8 variables, and the names of the
/// variables whose values are not UTF-8.
pub struct Environment {
    pub vars: OptionMap,
    pub non_unicode: Vec<String>,
}

impl Environment {
    pub open spec fn var(&self, name: Seq<char>) -> EnvLookup {
        match self.vars.lookup(name) {
            Some(v) => EnvLookup::Present(v),
            None => if views_contain(self.non_unicode@, name) {
                EnvLookup::NotUnicode
            } else {
                EnvLookup::NotPresent
            },
        }
    }

    pub fn empty() -> (r: Environment)
        ensures
            forall|n: Seq<char>| r.var(n) == EnvLookup::NotPresent,
    {
        let r = Environment { vars: OptionMap::new(), non_unicode: Vec::new() };
        r
    }
}

pub open spec fn views_contain(s: Seq<String>, x: Seq<char>) -> bool {
    exists|i: int| 0 <= i < s.len() && s[i]@ == x
}

pub fn contains_string(v: &Vec<String>, x: &str) -> (r: bool)
    ensures
        r == views_contain(v@, x@),
{
    let mut i: usize = 0;
    while i < v.len()
        invariant
            i <= v.len(),
            forall|j: int| 0 <= j < i ==> v@[j]@ != x@,
        decreases v.len() - i,
    {
        if str_eq(v[i].as_str(), x) {
            return true;
        }
        i = i + 1;
    }
    false
}

} // verus!
