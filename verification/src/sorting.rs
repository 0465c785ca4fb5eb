//! Ordered sets of strings, as `BTreeSet<String>` keeps them, and the
//! longest-first order in which secrets are redacted.
use vstd::prelude::*;

use crate::text::{chars_of, str_eq, utf8_len, utf8_len_exec};

verus! {

/// `str`'s `Ord`: lexicographic by code point (which is byte order in UTF-8).
pub open spec fn lex_lt(a: Seq<char>, b: Seq<char>) -> bool
    decreases a.len(),
{
    if a.len() == 0 {
        b.len() > 0
    } else if b.len() == 0 {
        false
    } else if a[0] != b[0] {
        a[0] < b[0]
    } else {
        lex_lt(a.drop_first(), b.drop_first())
    }
}

/// The order used for secrets: longer in UTF-8 bytes first, then
/// lexicographic.
pub open spec fn longest_first_lt(a: Seq<char>, b: Seq<char>) -> bool {
    utf8_len(a) > utf8_len(b) || (utf8_len(a) == utf8_len(b) && lex_lt(a, b))
}

pub open spec fn order_lt(longest_first: bool, a: Seq<char>, b: Seq<char>) -> bool {
    if longest_first {
        longest_first_lt(a, b)
    } else {
        lex_lt(a, b)
    }
}

pub proof fn lemma_lex_irreflexive(a: Seq<char>)
    ensures
        !lex_lt(a, a),
    decreases a.len(),
{
    if a.len() > 0 {
        lemma_lex_irreflexive(a.drop_first());
    }
}

pub proof fn lemma_lex_asymmetric(a: Seq<char>, b: Seq<char>)
    ensures
        lex_lt(a, b) ==> !lex_lt(b, a),
    decreases a.len(),
{
    if a.len() > 0 && b.len() > 0 && a[0] == b[0] {
        lemma_lex_asymmetric(a.drop_first(), b.drop_first());
    }
}

pub proof fn lemma_lex_transitive(a: Seq<char>, b: Seq<char>, c: Seq<char>)
    ensures
        lex_lt(a, b) && lex_lt(b, c) ==> lex_lt(a, c),
    decreases a.len(),
{
    if a.len() > 0 && b.len() > 0 && c.len() > 0 {
        lemma_lex_transitive(a.drop_first(), b.drop_first(), c.drop_first());
    }
}

pub proof fn lemma_lex_total(a: Seq<char>, b: Seq<char>)
    ensures
        a != b ==> lex_lt(a, b) || lex_lt(b, a),
    decreases a.len(),
{
    if a.len() > 0 && b.len() > 0 {
        lemma_lex_total(a.drop_first(), b.drop_first());
        if a[0] == b[0] && a != b {
            assert(a.drop_first() != b.drop_first()) by {
                if a.drop_first() == b.drop_first() {
                    assert(a =~= seq![a[0]] + a.drop_first());
                    assert(b =~= seq![b[0]] + b.drop_first());
                }
            }
        }
    } else if a.len() == 0 && b.len() == 0 {
        assert(a =~= b);
    }
}

pub proof fn lemma_order(longest_first: bool)
    ensures
        forall|a: Seq<char>| !order_lt(longest_first, a, a),
        forall|a: Seq<char>, b: Seq<char>|
            order_lt(longest_first, a, b) ==> !order_lt(longest_first, b, a),
        forall|a: Seq<char>, b: Seq<char>, c: Seq<char>|
            order_lt(longest_first, a, b) && order_lt(longest_first, b, c) ==> order_lt(
                longest_first,
                a,
                c,
            ),
        forall|a: Seq<char>, b: Seq<char>|
            a != b ==> order_lt(longest_first, a, b) || order_lt(longest_first, b, a),
{
    assert forall|a: Seq<char>| !order_lt(longest_first, a, a) by {
        lemma_lex_irreflexive(a);
    }
    assert forall|a: Seq<char>, b: Seq<char>|
        order_lt(longest_first, a, b) implies !order_lt(longest_first, b, a) by {
        lemma_lex_asymmetric(a, b);
    }
    assert forall|a: Seq<char>, b: Seq<char>, c: Seq<char>|
        order_lt(longest_first, a, b) && order_lt(longest_first, b, c) implies order_lt(
        longest_first,
        a,
        c,
    ) by {
        lemma_lex_transitive(a, b, c);
    }
    assert forall|a: Seq<char>, b: Seq<char>| a != b implies order_lt(longest_first, a, b)
        || order_lt(longest_first, b, a) by {
        lemma_lex_total(a, b);
    }
}

pub fn lex_lt_exec(a: &Vec<char>, b: &Vec<char>) -> (r: bool)
    ensures
        r == lex_lt(a@, b@),
{
    let mut i: usize = 0;
    assert(a@.skip(0) == a@ && b@.skip(0) == b@);
    while i < a.len() && i < b.len() && a[i] == b[i]
        invariant
            i <= a.len(),
            i <= b.len(),
            lex_lt(a@, b@) == lex_lt(a@.skip(i as int), b@.skip(i as int)),
        decreases a.len() - i,
    {
        assert(a@.skip(i as int).drop_first() =~= a@.skip(i + 1));
        assert(b@.skip(i as int).drop_first() =~= b@.skip(i + 1));
        i = i + 1;
    }
    if i == a.len() {
        i < b.len()
    } else if i == b.len() {
        false
    } else {
        a[i] < b[i]
    }
}

pub fn order_lt_exec(longest_first: bool, a: &Vec<char>, b: &Vec<char>) -> (r: bool)
    ensures
        r == order_lt(longest_first, a@, b@),
{
    if longest_first {
        let la = utf8_len_exec(a);
        let lb = utf8_len_exec(b);
        la > lb || (la == lb && lex_lt_exec(a, b))
    } else {
        lex_lt_exec(a, b)
    }
}

fn order_lt_string(longest_first: bool, a: &String, b: &Vec<char>) -> (r: bool)
    ensures
        r == order_lt(longest_first, a@, b@),
{
    let e = chars_of(a.as_str());
    order_lt_exec(longest_first, &e, b)
}

pub open spec fn views(s: Seq<String>) -> Seq<Seq<char>> {
    s.map_values(|x: String| x@)
}

pub open spec fn strictly_sorted(longest_first: bool, s: Seq<Seq<char>>) -> bool {
    forall|i: int, j: int| 0 <= i < j < s.len() ==> order_lt(longest_first, s[i], s[j])
}

/// Inserts a string into a strictly ordered vector unless it is already there.
pub fn insert_ordered(longest_first: bool, v: &mut Vec<String>, x: String)
    requires
        strictly_sorted(longest_first, views(old(v)@)),
    ensures
        strictly_sorted(longest_first, views(final(v)@)),
        views(final(v)@).to_set() == views(old(v)@).to_set().insert(x@),
{
    proof {
        lemma_order(longest_first);
    }
    let xs = chars_of(x.as_str());
    let ghost s = views(v@);
    let mut i: usize = 0;
    while i < v.len() && order_lt_string(longest_first, &v[i], &xs)
        invariant
            i <= v.len(),
            s == views(v@),
            xs@ == x@,
            forall|j: int| 0 <= j < i ==> order_lt(longest_first, s[j], x@),
        decreases v.len() - i,
    {
        i = i + 1;
    }
    if i < v.len() {
        let e = chars_of(v[i].as_str());
        if crate::text::seq_eq(&e, &xs) {
            assert(s.to_set().insert(x@) =~= s.to_set()) by {
                assert(s[i as int] == x@);
            }
            return;
        }
    }
    proof {
        assert forall|j: int| i <= j < s.len() implies order_lt(longest_first, x@, s[j]) by {
            assert(!order_lt(longest_first, s[i as int], x@));
            assert(s[i as int] != x@);
            if j > i {
                assert(order_lt(longest_first, s[i as int], s[j]));
            }
        }
    }
    v.insert(i, x);
    proof {
        let t = views(v@);
        assert(t =~= s.subrange(0, i as int).push(x@) + s.subrange(i as int, s.len() as int));
        assert(t.to_set() =~= s.to_set().insert(x@)) by {
            assert forall|y: Seq<char>| t.to_set().contains(y) implies s.to_set().insert(
                x@,
            ).contains(y) by {
                let k = choose|k: int| 0 <= k < t.len() && t[k] == y;
                if k < i {
                    assert(s[k] == y);
                } else if k > i {
                    assert(s[k - 1] == y);
                }
            }
            assert forall|y: Seq<char>| s.to_set().insert(x@).contains(y) implies t.to_set().contains(
                y,
            ) by {
                if y == x@ {
                    assert(t[i as int] == y);
                } else {
                    let k = choose|k: int| 0 <= k < s.len() && s[k] == y;
                    if k < i {
                        assert(t[k] == y);
                    } else {
                        assert(t[k + 1] == y);
                    }
                }
            }
        }
        assert forall|a: int, b: int| 0 <= a < b < t.len() implies order_lt(
            longest_first,
            t[a],
            t[b],
        ) by {
            if b < i {
                assert(t[a] == s[a] && t[b] == s[b]);
            } else if b == i {
                assert(t[a] == s[a]);
            } else if a < i {
                assert(t[a] == s[a] && t[b] == s[b - 1]);
            } else if a == i {
                assert(t[b] == s[b - 1]);
            } else {
                assert(t[a] == s[a - 1] && t[b] == s[b - 1]);
            }
        }
    }
}

/// The strictly ordered vector holding exactly the given strings: what
/// collecting into a `BTreeSet<String>` (lexicographic) or sorting with the
/// longest-first order and removing duplicates gives.
pub fn ordered_set(longest_first: bool, items: &Vec<String>) -> (r: Vec<String>)
    ensures
        strictly_sorted(longest_first, views(r@)),
        views(r@).to_set() == views(items@).to_set(),
{
    let mut out: Vec<String> = Vec::new();
    let mut i: usize = 0;
    assert(views(out@) =~= Seq::<Seq<char>>::empty());
    assert(views(items@.subrange(0, 0)) =~= Seq::<Seq<char>>::empty());
    while i < items.len()
        invariant
            i <= items.len(),
            strictly_sorted(longest_first, views(out@)),
            views(out@).to_set() == views(items@.subrange(0, i as int)).to_set(),
        decreases items.len() - i,
    {
        insert_ordered(longest_first, &mut out, items[i].clone());
        proof {
            assert(views(items@.subrange(0, i + 1)) =~= views(items@.subrange(0, i as int)).push(
                items@[i as int]@,
            ));
            views(items@.subrange(0, i as int)).lemma_push_to_set_commute(items@[i as int]@);
        }
        i = i + 1;
    }
    assert(items@.subrange(0, items.len() as int) =~= items@);
    out
}

} // verus!

verus! {

pub proof fn lemma_views_push(s: Seq<String>, x: String)
    ensures
        views(s.push(x)) == views(s).push(x@),
{
    assert(views(s.push(x)) =~= views(s).push(x@));
}

/// Appends clones of `b` to `a`.
pub fn extend_strings(a: &mut Vec<String>, b: &Vec<String>)
    ensures
        views(final(a)@) == views(old(a)@) + views(b@),
{
    let ghost start = views(a@);
    let mut i: usize = 0;
    while i < b.len()
        invariant
            i <= b.len(),
            views(a@) == start + views(b@).take(i as int),
        decreases b.len() - i,
    {
        let ghost before = a@;
        let x = b[i].clone();
        a.push(x);
        proof {
            lemma_views_push(before, x);
            assert(views(b@).take(i + 1) =~= views(b@).take(i as int).push(b@[i as int]@));
            assert(start + views(b@).take(i + 1) =~= (start + views(b@).take(i as int)).push(
                b@[i as int]@,
            ));
        }
        i = i + 1;
    }
    assert(views(b@).take(b.len() as int) =~= views(b@));
}

pub fn views_contains(v: &Vec<String>, x: &str) -> (r: bool)
    ensures
        r == views(v@).contains(x@),
{
    let mut i: usize = 0;
    while i < v.len()
        invariant
            i <= v.len(),
            forall|j: int| 0 <= j < i ==> views(v@)[j] != x@,
        decreases v.len() - i,
    {
        if str_eq(v[i].as_str(), x) {
            assert(views(v@)[i as int] == x@);
            return true;
        }
        i = i + 1;
    }
    false
}

} // verus!
