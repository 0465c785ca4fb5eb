//! Importing an OpenAPI document: one foreign table per readable operation,
//! with columns inferred from the response schema.
use vstd::prelude::*;

use crate::json::{insert_member, or_insert_member, remove_member, Json, JsonV};
use crate::text::{
    append, append_str, ascii_lower, chars_of, decimal, decimal_of, is_alnum, is_digit, is_lower,
    is_upper, string_of, trim_char, trim_char_exec,
};

verus! {

// ---------------------------------------------------------------------------
// Identifiers
// ---------------------------------------------------------------------------

/// Whether an upper-case letter at `i` starts a new word: after a lower-case
/// letter or digit, or as the last capital of a run followed by lower case.
pub open spec fn word_break(cs: Seq<char>, i: int) -> bool {
    i > 0 && ((is_lower(cs[i - 1]) || is_digit(cs[i - 1])) || (is_upper(cs[i - 1]) && i + 1
        < cs.len() && is_lower(cs[i + 1])))
}

/// The first `n` characters of `cs` in snake case: words separated by `_`,
/// every other character a single `_`.
pub open spec fn snake_prefix(cs: Seq<char>, n: int) -> Seq<char>
    decreases n,
{
    if n <= 0 {
        Seq::empty()
    } else {
        let r = snake_prefix(cs, n - 1);
        let i = n - 1;
        let c = cs[i];
        if is_upper(c) {
            (if word_break(cs, i) {
                r.push('_')
            } else {
                r
            }).push(ascii_lower(c))
        } else if is_alnum(c) || c == '_' {
            r.push(ascii_lower(c))
        } else if r.len() > 0 && r.last() == '_' {
            r
        } else {
            r.push('_')
        }
    }
}

/// `sanitize_identifier`: snake case, no leading or trailing `_`, a `_` before
/// a leading digit, at most 63 characters.
pub open spec fn sanitize_spec(raw: Seq<char>) -> Seq<char> {
    let t = trim_char(snake_prefix(raw, raw.len() as int), '_');
    let u = if t.len() > 0 && is_digit(t[0]) {
        seq!['_'] + t
    } else {
        t
    };
    if u.len() > 63 {
        u.take(63)
    } else {
        u
    }
}

fn word_break_exec(cs: &Vec<char>, i: usize) -> (r: bool)
    requires
        i < cs.len(),
    ensures
        r == word_break(cs@, i as int),
{
    if i == 0 {
        return false;
    }
    let p = cs[i - 1];
    if ('a' <= p && p <= 'z') || ('0' <= p && p <= '9') {
        return true;
    }
    'A' <= p && p <= 'Z' && i + 1 < cs.len() && 'a' <= cs[i + 1] && cs[i + 1] <= 'z'
}

pub fn sanitize_identifier(raw: &str) -> (r: String)
    ensures
        r@ == sanitize_spec(raw@),
{
    let cs = chars_of(raw);
    let mut out: Vec<char> = Vec::new();
    let mut i: usize = 0;
    while i < cs.len()
        invariant
            i <= cs.len(),
            cs@ == raw@,
            out@ == snake_prefix(cs@, i as int),
        decreases cs.len() - i,
    {
        let c = cs[i];
        if 'A' <= c && c <= 'Z' {
            if word_break_exec(&cs, i) {
                out.push('_');
            }
            out.push(crate::text::char_lower(c));
        } else if crate::text::char_is_alnum(c) || c == '_' {
            out.push(crate::text::char_lower(c));
        } else if !(out.len() > 0 && out[out.len() - 1] == '_') {
            out.push('_');
        }
        i = i + 1;
    }
    let t = trim_char_exec(&out, '_');
    let mut u: Vec<char> = Vec::new();
    if t.len() > 0 && '0' <= t[0] && t[0] <= '9' {
        u.push('_');
    }
    append(&mut u, &t);
    if u.len() > 63 {
        let v = crate::text::subrange(&u, 0, 63);
        return string_of(&v);
    }
    string_of(&u)
}

proof fn lemma_snake_chars(cs: Seq<char>, n: int)
    ensures
        forall|i: int|
            0 <= i < snake_prefix(cs, n).len() ==> crate::control::model::identifier_rest(
                #[trigger] snake_prefix(cs, n)[i],
            ),
    decreases n,
{
    if n > 0 {
        lemma_snake_chars(cs, n - 1);
        let r = snake_prefix(cs, n - 1);
        let c = cs[n - 1];
        assert(is_upper(c) ==> is_lower(ascii_lower(c)));
        assert((is_alnum(c) || c == '_') && !is_upper(c) ==> ascii_lower(c) == c);
        let s = snake_prefix(cs, n);
        assert forall|i: int| 0 <= i < s.len() implies crate::control::model::identifier_rest(
            #[trigger] s[i],
        ) by {
            if i < r.len() {
                if is_upper(c) && word_break(cs, n - 1) {
                    assert(s[i] == r.push('_')[i]);
                } else {
                    assert(s[i] == r[i]);
                }
            }
        }
    }
}

proof fn lemma_trim_char_start_chars(s: Seq<char>, c: char)
    ensures
        exists|k: int| 0 <= k <= s.len() && crate::text::trim_char_start(s, c) == s.skip(k),
    decreases s.len(),
{
    if s.len() > 0 && s[0] == c {
        lemma_trim_char_start_chars(s.drop_first(), c);
        let k = choose|k: int|
            0 <= k <= s.drop_first().len() && crate::text::trim_char_start(s.drop_first(), c)
                == s.drop_first().skip(k);
        assert(s.drop_first().skip(k) =~= s.skip(k + 1));
    } else {
        assert(s.skip(0) =~= s);
    }
}

proof fn lemma_trim_char_end_chars(s: Seq<char>, c: char)
    ensures
        exists|k: int| 0 <= k <= s.len() && crate::text::trim_char_end(s, c) == s.take(k),
    decreases s.len(),
{
    if s.len() > 0 && s.last() == c {
        lemma_trim_char_end_chars(s.drop_last(), c);
        let k = choose|k: int|
            0 <= k <= s.drop_last().len() && crate::text::trim_char_end(s.drop_last(), c)
                == s.drop_last().take(k);
        assert(s.drop_last().take(k) =~= s.take(k));
    } else {
        assert(s.take(s.len() as int) =~= s);
    }
}

/// A non-empty sanitized name is a lowercase PostgreSQL identifier of at most
/// 63 bytes: `[_a-z][_a-z0-9]*`.
pub proof fn lemma_sanitized_is_identifier(raw: Seq<char>)
    ensures
        sanitize_spec(raw).len() <= 63,
        sanitize_spec(raw).len() > 0 ==> crate::control::model::valid_identifier(
            sanitize_spec(raw),
        ),
        forall|i: int|
            0 <= i < sanitize_spec(raw).len() ==> crate::control::model::identifier_rest(
                #[trigger] sanitize_spec(raw)[i],
            ),
        is_ascii_text(sanitize_spec(raw)),
{
    let sp = snake_prefix(raw, raw.len() as int);
    lemma_snake_chars(raw, raw.len() as int);
    let a = crate::text::trim_char_start(sp, '_');
    lemma_trim_char_start_chars(sp, '_');
    let k1 = choose|k: int| 0 <= k <= sp.len() && a == sp.skip(k);
    lemma_trim_char_end_chars(a, '_');
    let t = trim_char(sp, '_');
    let k2 = choose|k: int| 0 <= k <= a.len() && t == a.take(k);
    assert forall|i: int| 0 <= i < t.len() implies crate::control::model::identifier_rest(
        #[trigger] t[i],
    ) by {
        assert(t[i] == sp[i + k1]);
    }
    let u = if t.len() > 0 && is_digit(t[0]) {
        seq!['_'] + t
    } else {
        t
    };
    assert forall|i: int| 0 <= i < u.len() implies crate::control::model::identifier_rest(
        #[trigger] u[i],
    ) by {
        if t.len() > 0 && is_digit(t[0]) && i > 0 {
            assert(u[i] == t[i - 1]);
        }
    }
    let r = sanitize_spec(raw);
    assert forall|i: int| 0 <= i < r.len() implies crate::control::model::identifier_rest(
        #[trigger] r[i],
    ) by {
        assert(r[i] == u[i]);
    }
    if r.len() > 0 {
        assert(r[0] == u[0]);
        assert(crate::control::model::identifier_rest(u[0]));
        assert(!is_digit(u[0]));
    }
    assert forall|i: int| 0 <= i < r.len() implies (#[trigger] r[i] as u32) < 128 by {
        assert(crate::control::model::identifier_rest(r[i]));
    }
}

/// How often a name occurs in a list.
pub open spec fn occurrences(names: Seq<Seq<char>>, name: Seq<char>) -> nat
    decreases names.len(),
{
    if names.len() == 0 {
        0
    } else {
        occurrences(names.drop_last(), name) + if names.last() == name {
            1nat
        } else {
            0nat
        }
    }
}

proof fn lemma_occurrences_bound(names: Seq<Seq<char>>, name: Seq<char>)
    ensures
        occurrences(names, name) <= names.len(),
    decreases names.len(),
{
    if names.len() > 0 {
        lemma_occurrences_bound(names.drop_last(), name);
    }
}

/// The names handed out so far, to number repeated ones.
pub struct NameCounts {
    seen: Vec<String>,
}

impl NameCounts {
    pub closed spec fn count(&self, name: Seq<char>) -> nat {
        occurrences(crate::sorting::views(self.seen@), name)
    }

    pub fn new() -> (r: NameCounts)
        ensures
            forall|name: Seq<char>| #[trigger] r.count(name) == 0,
    {
        NameCounts { seen: Vec::new() }
    }

    /// Records one more use of `name` and returns how often it has been used.
    pub fn bump(&mut self, name: &str) -> (r: usize)
        ensures
            r == final(self).count(name@),
            final(self).count(name@) == old(self).count(name@) + 1,
            forall|other: Seq<char>|
                other != name@ ==> #[trigger] final(self).count(other) == old(self).count(other),
    {
        let ghost before = self.seen@;
        self.seen.push(crate::text::str_to_string(name));
        proof {
            crate::sorting::lemma_views_push(before, self.seen@.last());
            assert(crate::sorting::views(self.seen@).drop_last() =~= crate::sorting::views(before));
            lemma_occurrences_bound(crate::sorting::views(self.seen@), name@);
        }
        let mut n: usize = 0;
        let mut i: usize = 0;
        while i < self.seen.len()
            invariant
                i <= self.seen.len(),
                n == occurrences(crate::sorting::views(self.seen@).take(i as int), name@),
                n <= i,
            decreases self.seen.len() - i,
        {
            assert(crate::sorting::views(self.seen@).take(i + 1).drop_last()
                =~= crate::sorting::views(self.seen@).take(i as int));
            if crate::text::str_eq(self.seen[i].as_str(), name) {
                n = n + 1;
            }
            i = i + 1;
        }
        assert(crate::sorting::views(self.seen@).take(self.seen.len() as int) =~= crate::sorting::views(
            self.seen@,
        ));
        n
    }
}

pub open spec fn is_ascii_text(s: Seq<char>) -> bool {
    forall|i: int| 0 <= i < s.len() ==> (#[trigger] s[i] as u32) < 128
}

pub open spec fn clip(s: Seq<char>, n: int) -> Seq<char> {
    if s.len() > n {
        s.take(n)
    } else {
        s
    }
}

/// The base name of `unique_identifier`: the fallback for an empty name,
/// cut to 63 characters.
pub open spec fn identifier_base(base: Seq<char>, fallback: Seq<char>) -> Seq<char> {
    clip(if base.len() == 0 { fallback } else { base }, 63)
}

/// The `n`-th use of a base name: the name itself the first time, then the
/// name cut short enough to carry `_n` within 63 characters.
pub open spec fn numbered(base: Seq<char>, n: nat) -> Seq<char> {
    if n == 1 {
        base
    } else {
        let suffix = "_"@ + decimal(n);
        let room = if suffix.len() <= 63 { 63 - suffix.len() } else { 0 };
        clip(base, room) + suffix
    }
}

/// How many characters, from the `i`-th on, still fit within `k` bytes.
pub open spec fn fit_from(s: Seq<char>, i: nat, k: nat) -> nat
    decreases s.len() - i,
{
    if i < s.len() && crate::text::utf8_len(s.take(i + 1 as int)) <= k {
        fit_from(s, i + 1, k)
    } else {
        i
    }
}

/// The longest prefix of a text that takes at most `k` bytes.
pub open spec fn clip_bytes(s: Seq<char>, k: nat) -> Seq<char> {
    s.take(fit_from(s, 0, k) as int)
}

/// Whether cutting a text at byte `k` falls between two characters (or the
/// text is not longer than that).
pub open spec fn cut_on_boundary(s: Seq<char>, k: nat) -> bool {
    crate::text::utf8_len(s) <= k || crate::text::utf8_len(clip_bytes(s, k)) == k
}

/// The name of `unique_identifier` before numbering: `base`, or `fallback`
/// when it is empty.
pub open spec fn identifier_start(base: Seq<char>, fallback: Seq<char>) -> Seq<char> {
    if base.len() == 0 {
        fallback
    } else {
        base
    }
}

/// How many bytes of the base name the `n`-th use keeps before `_n`.
pub open spec fn suffix_room(n: nat) -> nat {
    let suffix = "_"@ + decimal(n);
    if suffix.len() <= 63 {
        (63 - suffix.len()) as nat
    } else {
        0
    }
}

/// The base name of `unique_identifier`, cut to 63 bytes.
pub open spec fn identifier_base_bytes(base: Seq<char>, fallback: Seq<char>) -> Seq<char> {
    clip_bytes(identifier_start(base, fallback), 63)
}

/// The `n`-th use of a base name, cut by bytes: the name itself the first
/// time, then the name cut short enough to carry `_n` within 63 bytes.
pub open spec fn numbered_bytes(base: Seq<char>, n: nat) -> Seq<char> {
    if n == 1 {
        base
    } else {
        clip_bytes(base, suffix_room(n)) + "_"@ + decimal(n)
    }
}

proof fn lemma_ascii_utf8_len(s: Seq<char>, j: int)
    requires
        is_ascii_text(s),
        0 <= j <= s.len(),
    ensures
        crate::text::utf8_len(s.take(j)) == j,
    decreases j,
{
    if j > 0 {
        assert(s.take(j - 1).push(s[j - 1]) =~= s.take(j));
        assert((s[j - 1] as u32) < 128);
        crate::text::lemma_utf8_push(s.take(j - 1), s[j - 1]);
        lemma_ascii_utf8_len(s, j - 1);
    }
}

proof fn lemma_ascii_fit(s: Seq<char>, i: nat, k: nat)
    requires
        is_ascii_text(s),
        i <= s.len(),
        i <= k,
    ensures
        fit_from(s, i, k) == if s.len() <= k { s.len() } else { k },
    decreases s.len() - i,
{
    if i < s.len() {
        lemma_ascii_utf8_len(s, i + 1 as int);
        if i + 1 <= k {
            lemma_ascii_fit(s, i + 1, k);
        }
    }
}

/// On ASCII text bytes and characters agree: the byte cut is the character
/// cut, and it always falls between two characters.
pub proof fn lemma_ascii_clip(s: Seq<char>, k: nat)
    requires
        is_ascii_text(s),
    ensures
        clip_bytes(s, k) == clip(s, k as int),
        cut_on_boundary(s, k),
        is_ascii_text(clip_bytes(s, k)),
{
    lemma_ascii_fit(s, 0, k);
    lemma_ascii_utf8_len(s, s.len() as int);
    assert(s.take(s.len() as int) =~= s);
    if s.len() > k {
        lemma_ascii_utf8_len(s, k as int);
    }
}

fn clip_bytes_exec(s: &Vec<char>, k: usize) -> (r: Vec<char>)
    ensures
        r@ == clip_bytes(s@, k as nat),
{
    let mut out: Vec<char> = Vec::new();
    let mut total: usize = 0;
    let mut i: usize = 0;
    assert(s@.take(0) =~= Seq::<char>::empty());
    loop
        invariant
            i <= s.len(),
            total == crate::text::utf8_len(s@.take(i as int)),
            total <= k,
            out@ == s@.take(i as int),
            fit_from(s@, 0, k as nat) == fit_from(s@, i as nat, k as nat),
        ensures
            out@ == clip_bytes(s@, k as nat),
        decreases s.len() - i,
    {
        if i >= s.len() {
            break;
        }
        proof {
            assert(s@.take(i as int).push(s@[i as int]) =~= s@.take(i + 1));
            crate::text::lemma_utf8_push(s@.take(i as int), s@[i as int]);
        }
        let w = crate::text::char_width_exec(s[i]);
        if w > k - total {
            assert(crate::text::utf8_len(s@.take(i + 1)) > k);
            break;
        }
        total = total + w;
        out.push(s[i]);
        i = i + 1;
        assert(out@ =~= s@.take(i as int));
    }
    out
}

/// A unique, PostgreSQL-sized name: `base` (or `fallback` when it is empty),
/// cut to 63 bytes and numbered from its second use on. A cut must fall
/// between two characters, which it always does in ASCII names.
pub fn unique_identifier(base: String, fallback: &str, seen: &mut NameCounts) -> (r: String)
    requires
        (is_ascii_text(base@) && is_ascii_text(fallback@)) || (cut_on_boundary(
            identifier_start(base@, fallback@),
            63,
        ) && (old(seen).count(identifier_base_bytes(base@, fallback@)) >= 1 ==> cut_on_boundary(
            identifier_base_bytes(base@, fallback@),
            suffix_room(old(seen).count(identifier_base_bytes(base@, fallback@)) + 1),
        ))),
    ensures
        final(seen).count(identifier_base_bytes(base@, fallback@)) == old(seen).count(
            identifier_base_bytes(base@, fallback@),
        ) + 1,
        forall|other: Seq<char>|
            other != identifier_base_bytes(base@, fallback@) ==> #[trigger] final(seen).count(other)
                == old(seen).count(other),
        r@ == numbered_bytes(
            identifier_base_bytes(base@, fallback@),
            final(seen).count(identifier_base_bytes(base@, fallback@)),
        ),
        is_ascii_text(base@) && is_ascii_text(fallback@) ==> identifier_base_bytes(base@, fallback@)
            == identifier_base(base@, fallback@) && r@ == numbered(
            identifier_base(base@, fallback@),
            final(seen).count(identifier_base(base@, fallback@)),
        ),
{
    let b = chars_of(base.as_str());
    let start = if b.len() == 0 {
        chars_of(fallback)
    } else {
        b
    };
    let trimmed = clip_bytes_exec(&start, 63);
    let name = string_of(&trimmed);
    let n = seen.bump(name.as_str());
    proof {
        if is_ascii_text(base@) && is_ascii_text(fallback@) {
            lemma_ascii_clip(start@, 63);
        }
    }
    if n == 1 {
        return name;
    }
    let mut suffix = chars_of("_");
    let d = decimal_of(n as u64);
    append(&mut suffix, &d);
    let room: usize = if suffix.len() <= 63 {
        63 - suffix.len()
    } else {
        0
    };
    let mut out = clip_bytes_exec(&trimmed, room);
    proof {
        reveal_strlit("_");
        assert(suffix@ == "_"@ + decimal(n as nat));
        assert(room == suffix_room(n as nat));
        if is_ascii_text(base@) && is_ascii_text(fallback@) {
            lemma_ascii_clip(trimmed@, room as nat);
        }
    }
    append(&mut out, &suffix);
    proof {
        assert(out@ =~= clip_bytes(trimmed@, suffix_room(n as nat)) + "_"@ + decimal(n as nat));
    }
    string_of(&out)
}

/// Every use of a non-empty base name of at most 63 characters gets a
/// non-empty name of at most 63 characters.
pub proof fn lemma_numbered_sized(base: Seq<char>, n: nat)
    requires
        0 < base.len() <= 63,
        n >= 1,
        decimal(n).len() <= 62,
    ensures
        0 < numbered(base, n).len() <= 63,
{
    crate::text::lemma_decimal_value(n);
    reveal_strlit("_");
}

/// Two later uses of the same base name get different names.
pub proof fn lemma_numbered_distinct(base: Seq<char>, k: nat, m: nat)
    requires
        0 < base.len() <= 63,
        2 <= k,
        2 <= m,
        k != m,
        decimal(k).len() <= 62,
        decimal(m).len() <= 62,
    ensures
        numbered(base, k) != numbered(base, m),
{
    crate::text::lemma_decimal_value(k);
    crate::text::lemma_decimal_value(m);
    let sk = "_"@ + decimal(k);
    let sm = "_"@ + decimal(m);
    let a = numbered(base, k);
    let b = numbered(base, m);
    reveal_strlit("_");
    if a == b {
        let dk = decimal(k);
        let dm = decimal(m);
        if dk.len() == dm.len() {
            assert(a.skip(a.len() - sk.len()) =~= sk);
            assert(b.skip(b.len() - sm.len()) =~= sm);
            assert(dk =~= sk.drop_first());
            assert(dm =~= sm.drop_first());
            crate::text::lemma_decimal_injective(k, m);
        } else if dk.len() < dm.len() {
            let p = a.len() - sk.len();
            assert(a[p] == sk[0]);
            assert(b[p] == dm[p - (b.len() - sm.len()) - 1]);
            assert(crate::text::is_digit(dm[p - (b.len() - sm.len()) - 1]));
        } else {
            let p = b.len() - sm.len();
            assert(b[p] == sm[0]);
            assert(a[p] == dk[p - (a.len() - sk.len()) - 1]);
            assert(crate::text::is_digit(dk[p - (a.len() - sk.len()) - 1]));
        }
    }
}

/// The first use of a base name differs from every later one, unless the
/// name fills all 63 characters and already ends with that later suffix.
pub proof fn lemma_first_use_distinct(base: Seq<char>, m: nat)
    requires
        0 < base.len() <= 63,
        2 <= m,
        decimal(m).len() <= 62,
        !(base.len() == 63 && crate::text::ends_with(base, "_"@ + decimal(m))),
    ensures
        numbered(base, 1) != numbered(base, m),
{
    crate::text::lemma_decimal_value(m);
    let sm = "_"@ + decimal(m);
    reveal_strlit("_");
    let b = numbered(base, m);
    if b == base {
        if base.len() == 63 {
            assert(base.skip(63 - sm.len()) =~= sm);
        }
    }
}

/// The table name of an operation without an `operationId`: the path in snake
/// case (`root` for `/`), with `_post` for `POST`.
pub open spec fn table_name_from_path_spec(path: Seq<char>, method: Seq<char>) -> Seq<char> {
    let name = sanitize_spec(trim_char(path, '/'));
    let name = if name.len() == 0 { "root"@ } else { name };
    if method == "POST"@ {
        name + "_post"@
    } else {
        name
    }
}

pub fn table_name_from_path(path: &str, method: &str) -> (r: String)
    ensures
        r@ == table_name_from_path_spec(path@, method@),
{
    let p = chars_of(path);
    let t = trim_char_exec(&p, '/');
    let ts = string_of(&t);
    let s = sanitize_identifier(ts.as_str());
    let mut name = chars_of(s.as_str());
    if name.len() == 0 {
        name = chars_of("root");
    }
    if crate::text::str_eq(method, "POST") {
        append_str(&mut name, "_post");
    }
    string_of(&name)
}

// ---------------------------------------------------------------------------
// Generated DDL
// ---------------------------------------------------------------------------

#[derive(Debug)]
pub struct ImportedColumn {
    pub name: String,
    pub json_name: String,
    pub pg_type: &'static str,
}

#[derive(Debug)]
pub struct ImportedEndpoint {
    pub table_name: String,
    pub endpoint: String,
    pub method: String,
    pub response_path: Option<String>,
    pub object_path: Option<String>,
    pub columns: Vec<ImportedColumn>,
}

pub open spec fn quote_ident_spec(raw: Seq<char>) -> Seq<char> {
    "\""@ + crate::text::replace(raw, "\""@, "\"\""@) + "\""@
}

pub open spec fn quote_literal_spec(raw: Seq<char>) -> Seq<char> {
    "'"@ + crate::text::replace(raw, "'"@, "''"@) + "'"@
}

pub fn quote_ident(raw: &str) -> (r: String)
    ensures
        r@ == quote_ident_spec(raw@),
{
    proof {
        reveal_strlit("\"");
    }
    let v = chars_of(raw);
    let mut out = chars_of("\"");
    let inner = crate::text::replace_str(&v, "\"", "\"\"");
    append(&mut out, &inner);
    append_str(&mut out, "\"");
    string_of(&out)
}

pub fn quote_literal(raw: &str) -> (r: String)
    ensures
        r@ == quote_literal_spec(raw@),
{
    proof {
        reveal_strlit("'");
    }
    let v = chars_of(raw);
    let mut out = chars_of("'");
    let inner = crate::text::replace_str(&v, "'", "''");
    append(&mut out, &inner);
    append_str(&mut out, "'");
    string_of(&out)
}

/// The `k`-th name tried for the catch-all column: `attrs`, `_attrs`,
/// `_attrs_2`, `_attrs_3`, ...
pub open spec fn attrs_candidate(k: nat) -> Seq<char> {
    if k == 0 {
        "attrs"@
    } else if k == 1 {
        "_attrs"@
    } else {
        "_attrs_"@ + decimal(k)
    }
}

proof fn lemma_attrs_candidates_distinct(a: nat, b: nat)
    requires
        attrs_candidate(a) == attrs_candidate(b),
    ensures
        a == b,
{
    reveal_strlit("attrs");
    reveal_strlit("_attrs");
    reveal_strlit("_attrs_");
    crate::text::lemma_decimal_value(a);
    crate::text::lemma_decimal_value(b);
    assert("attrs"@[0] == 'a');
    assert("_attrs"@[0] == '_' && "_attrs"@.len() == 6);
    assert("_attrs_"@[0] == '_' && "_attrs_"@.len() == 7);
    if a >= 2 && b >= 2 {
        assert(attrs_candidate(a).skip(7) =~= decimal(a));
        assert(attrs_candidate(b).skip(7) =~= decimal(b));
        crate::text::lemma_decimal_injective(a, b);
    } else if a == 0 && b != 0 {
        assert(attrs_candidate(a)[0] != attrs_candidate(b)[0]);
    } else if b == 0 && a != 0 {
        assert(attrs_candidate(a)[0] != attrs_candidate(b)[0]);
    } else if a == 1 && b >= 2 {
        assert(attrs_candidate(a).len() != attrs_candidate(b).len());
    } else if b == 1 && a >= 2 {
        assert(attrs_candidate(a).len() != attrs_candidate(b).len());
    }
}

/// Among the first `names.len() + 1` candidates one is free.
proof fn lemma_attrs_candidate_free(names: Seq<Seq<char>>)
    ensures
        exists|k: nat| k <= names.len() && !names.contains(#[trigger] attrs_candidate(k)),
{
    let m = names.len();
    let xs = vstd::set_lib::set_int_range(0, m as int + 1);
    vstd::set_lib::lemma_int_range(0, m as int + 1);
    let f = |k: int| attrs_candidate(k as nat);
    assert(vstd::relations::injective_on(f, xs)) by {
        assert forall|a: int, b: int| xs.contains(a) && xs.contains(b) && #[trigger] f(a) == #[trigger] f(b)
            implies a == b by {
            lemma_attrs_candidates_distinct(a as nat, b as nat);
        }
    }
    let ys = xs.map(f);
    vstd::set_lib::lemma_map_size(xs, ys, f);
    let ns = names.to_set();
    names.lemma_cardinality_of_set();
    if forall|k: nat| k <= m ==> names.contains(#[trigger] attrs_candidate(k)) {
        assert(ys.subset_of(ns)) by {
            assert forall|y: Seq<char>| ys.contains(y) implies ns.contains(y) by {
                let k = choose|k: int| xs.contains(k) && f(k) == y;
                assert(names.contains(attrs_candidate(k as nat)));
            }
        }
        vstd::set_lib::lemma_len_subset(ys, ns);
        assert(false);
    }
}

/// The catch-all column's name: the first candidate that no column uses.
pub open spec fn attrs_name(names: Seq<Seq<char>>) -> Seq<char> {
    attrs_candidate(
        choose|k: nat|
            !names.contains(#[trigger] attrs_candidate(k)) && forall|j: nat|
                j < k ==> names.contains(#[trigger] attrs_candidate(j)),
    )
}

pub open spec fn column_names(columns: Seq<ImportedColumn>) -> Seq<Seq<char>> {
    columns.map_values(|c: ImportedColumn| c.name@)
}

fn name_used(columns: &Vec<ImportedColumn>, candidate: &Vec<char>) -> (r: bool)
    ensures
        r == column_names(columns@).contains(candidate@),
{
    let ghost names = column_names(columns@);
    let mut i: usize = 0;
    while i < columns.len()
        invariant
            i <= columns.len(),
            names == column_names(columns@),
            names.len() == columns.len(),
            forall|j: int| 0 <= j < i ==> names[j] != candidate@,
        decreases columns.len() - i,
    {
        let n = chars_of(columns[i].name.as_str());
        assert(names[i as int] == columns@[i as int].name@);
        if crate::text::seq_eq(&n, candidate) {
            assert(names[i as int] == candidate@);
            return true;
        }
        i = i + 1;
    }
    false
}

fn attrs_name_exec(columns: &Vec<ImportedColumn>) -> (r: Vec<char>)
    ensures
        r@ == attrs_name(column_names(columns@)),
{
    let ghost names = column_names(columns@);
    proof {
        lemma_attrs_candidate_free(names);
    }
    let mut k: usize = 0;
    loop
        invariant
            names == column_names(columns@),
            names.len() == columns.len(),
            k <= columns.len(),
            exists|f: nat| f <= names.len() && !names.contains(#[trigger] attrs_candidate(f)),
            forall|j: nat| j < k ==> names.contains(#[trigger] attrs_candidate(j)),
        decreases columns.len() - k,
    {
        let candidate = if k == 0 {
            chars_of("attrs")
        } else if k == 1 {
            chars_of("_attrs")
        } else {
            let mut c = chars_of("_attrs_");
            let d = decimal_of(k as u64);
            append(&mut c, &d);
            c
        };
        assert(candidate@ == attrs_candidate(k as nat));
        let used = name_used(columns, &candidate);
        if !used {
            proof {
                assert(!names.contains(attrs_candidate(k as nat)));
                let k0 = k as nat;
                assert(!names.contains(attrs_candidate(k0)) && forall|j: nat|
                    j < k0 ==> names.contains(#[trigger] attrs_candidate(j)));
                let c = choose|c: nat|
                    !names.contains(#[trigger] attrs_candidate(c)) && forall|j: nat|
                        j < c ==> names.contains(#[trigger] attrs_candidate(j));
                if c < k0 {
                    assert(names.contains(attrs_candidate(c)));
                } else if c > k0 {
                    assert(names.contains(attrs_candidate(k0)));
                }
            }
            return candidate;
        }
        proof {
            let w = choose|f: nat| f <= names.len() && !names.contains(#[trigger] attrs_candidate(f));
            if w <= k {
                if w < k {
                    assert(names.contains(attrs_candidate(w)));
                }
                assert(names.contains(attrs_candidate(k as nat)));
            }
        }
        k = k + 1;
    }
}

pub open spec fn column_definition(c: ImportedColumn) -> Seq<char> {
    "    "@ + quote_ident_spec(c.name@) + " "@ + c.pg_type@
}

/// The members of `column_map`: each column whose SQL name differs from its
/// JSON name.
pub open spec fn renamed_members(columns: Seq<ImportedColumn>) -> Seq<(Seq<char>, JsonV)>
    decreases columns.len(),
{
    if columns.len() == 0 {
        Seq::empty()
    } else {
        let rest = renamed_members(columns.drop_last());
        let c = columns.last();
        if c.name@ != c.json_name@ {
            rest.push((c.name@, JsonV::Str(c.json_name@)))
        } else {
            rest
        }
    }
}

/// One `OPTIONS` line: `    name 'value'`.
pub open spec fn option_text(name: Seq<char>, value: Seq<char>) -> Seq<char> {
    "    "@ + name + " "@ + quote_literal_spec(value)
}

pub open spec fn opt_line(name: Seq<char>, value: Option<String>) -> Seq<Seq<char>> {
    match value {
        Some(v) => seq![option_text(name, v@)],
        None => Seq::empty(),
    }
}

pub open spec fn create_sql_spec(
    e: ImportedEndpoint,
    local_schema: Seq<char>,
    server_name: Seq<char>,
    include_attrs: bool,
) -> Seq<char> {
    create_table_sql(e, local_schema, server_name, include_attrs, Seq::empty())
}

/// `CREATE FOREIGN TABLE` with further option lines after the read options.
pub open spec fn create_table_sql(
    e: ImportedEndpoint,
    local_schema: Seq<char>,
    server_name: Seq<char>,
    include_attrs: bool,
    extra: Seq<Seq<char>>,
) -> Seq<char> {
    let attrs = attrs_name(column_names(e.columns@));
    let attrs_line = "    "@ + quote_ident_spec(attrs) + " jsonb"@;
    let definitions = e.columns@.map_values(|c: ImportedColumn| column_definition(c)) + if include_attrs
        || e.columns.len() == 0 {
        seq![attrs_line]
    } else {
        Seq::empty()
    };
    let members = renamed_members(e.columns@);
    let options = seq![option_text("endpoint"@, e.endpoint@)] + (if e.method@ != "GET"@ {
        seq![option_text("method"@, e.method@)]
    } else {
        Seq::empty()
    }) + opt_line("response_path"@, e.response_path) + opt_line("object_path"@, e.object_path) + (
    if members.len() > 0 {
        seq![option_text("column_map"@, crate::json::json_text(JsonV::Object(members)))]
    } else {
        Seq::empty()
    }) + (if include_attrs && attrs != "attrs"@ {
        seq![option_text("attrs_column"@, attrs)]
    } else {
        Seq::empty()
    }) + extra;
    "CREATE FOREIGN TABLE "@ + quote_ident_spec(local_schema) + "."@ + quote_ident_spec(
        e.table_name@,
    ) + " (\n"@ + crate::text::join(definitions, ",\n"@) + "\n)\nSERVER "@ + quote_ident_spec(
        server_name,
    ) + " OPTIONS (\n"@ + crate::text::join(options, ",\n"@) + "\n)"@
}

fn push_line(lines: &mut Vec<Vec<char>>, line: Vec<char>)
    ensures
        final(lines)@.map_values(|v: Vec<char>| v@) == old(lines)@.map_values(|v: Vec<char>| v@).push(
            line@,
        ),
{
    lines.push(line);
    assert(lines@.map_values(|v: Vec<char>| v@) =~= old(lines)@.map_values(|v: Vec<char>| v@).push(
        line@,
    ));
}

pub(crate) fn option_line(name: &str, value: &str) -> (r: Vec<char>)
    ensures
        r@ == option_text(name@, value@),
{
    let mut l = chars_of("    ");
    append_str(&mut l, name);
    append_str(&mut l, " ");
    let q = quote_literal(value);
    append_str(&mut l, q.as_str());
    l
}

impl ImportedEndpoint {
    /// `CREATE FOREIGN TABLE` for an imported operation. The catch-all
    /// `jsonb` column takes the first of `attrs`, `_attrs`, `_attrs_2`, ...
    /// that no column uses.
    pub fn create_sql(&self, local_schema: &str, server_name: &str, include_attrs: bool) -> (r:
        String)
        ensures
            r@ == create_sql_spec(*self, local_schema@, server_name@, include_attrs),
    {
        let none: Vec<Vec<char>> = Vec::new();
        assert(none@.map_values(|v: Vec<char>| v@) =~= Seq::<Seq<char>>::empty());
        self.create_sql_with(local_schema, server_name, include_attrs, &none)
    }

    /// `create_sql` with further option lines (such as write options) after
    /// the read options.
    pub fn create_sql_with(
        &self,
        local_schema: &str,
        server_name: &str,
        include_attrs: bool,
        extra: &Vec<Vec<char>>,
    ) -> (r: String)
        ensures
            r@ == create_table_sql(
                *self,
                local_schema@,
                server_name@,
                include_attrs,
                extra@.map_values(|v: Vec<char>| v@),
            ),
    {
        let attrs = attrs_name_exec(&self.columns);
        let attrs_s = string_of(&attrs);
        let mut attrs_line = chars_of("    ");
        let qa = quote_ident(attrs_s.as_str());
        append_str(&mut attrs_line, qa.as_str());
        append_str(&mut attrs_line, " jsonb");
        let ghost cols = self.columns@;
        let mut definitions: Vec<Vec<char>> = Vec::new();
        let mut members: Vec<(String, Json)> = Vec::new();
        let mut i: usize = 0;
        assert(definitions@.map_values(|v: Vec<char>| v@) =~= Seq::<Seq<char>>::empty());
        assert(cols.take(0) =~= Seq::<ImportedColumn>::empty());
        while i < self.columns.len()
            invariant
                i <= self.columns.len(),
                cols == self.columns@,
                definitions@.map_values(|v: Vec<char>| v@) == cols.take(i as int).map_values(
                    |c: ImportedColumn| column_definition(c),
                ),
                crate::json::members_view(members@) == renamed_members(cols.take(i as int)),
            decreases self.columns.len() - i,
        {
            let c = &self.columns[i];
            let mut line = chars_of("    ");
            let q = quote_ident(c.name.as_str());
            append_str(&mut line, q.as_str());
            append_str(&mut line, " ");
            append_str(&mut line, c.pg_type);
            proof {
                assert(cols.take(i + 1).drop_last() =~= cols.take(i as int));
                assert(cols.take(i + 1).map_values(|c: ImportedColumn| column_definition(c))
                    =~= cols.take(i as int).map_values(|c: ImportedColumn| column_definition(c)).push(
                    column_definition(cols[i as int]),
                ));
            }
            push_line(&mut definitions, line);
            if !crate::text::str_eq(c.name.as_str(), c.json_name.as_str()) {
                let member = (c.name.clone(), Json::Str(c.json_name.clone()));
                let ghost before = members@;
                members.push(member);
                proof {
                    crate::json::lemma_members_view_push(before, member);
                }
            }
            i = i + 1;
        }
        assert(cols.take(self.columns.len() as int) =~= cols);
        let ghost attrs_v = attrs_name(column_names(cols));
        assert(attrs_line@ == "    "@ + quote_ident_spec(attrs_v) + " jsonb"@);
        let ghost defs_spec = cols.map_values(|c: ImportedColumn| column_definition(c)) + if include_attrs
            || cols.len() == 0 {
            seq![attrs_line@]
        } else {
            Seq::<Seq<char>>::empty()
        };
        if include_attrs || self.columns.len() == 0 {
            push_line(&mut definitions, attrs_line);
        }
        assert(definitions@.map_values(|v: Vec<char>| v@) =~= defs_spec);
        let ghost o1 = seq![option_text("endpoint"@, self.endpoint@)];
        let ghost o2 = o1 + if self.method@ != "GET"@ {
            seq![option_text("method"@, self.method@)]
        } else {
            Seq::<Seq<char>>::empty()
        };
        let ghost o3 = o2 + opt_line("response_path"@, self.response_path);
        let ghost o4 = o3 + opt_line("object_path"@, self.object_path);
        let ghost mem = renamed_members(cols);
        let ghost o5 = o4 + if mem.len() > 0 {
            seq![option_text("column_map"@, crate::json::json_text(JsonV::Object(mem)))]
        } else {
            Seq::<Seq<char>>::empty()
        };
        let mut options: Vec<Vec<char>> = Vec::new();
        assert(options@.map_values(|v: Vec<char>| v@) =~= Seq::<Seq<char>>::empty());
        push_line(&mut options, option_line("endpoint", self.endpoint.as_str()));
        assert(options@.map_values(|v: Vec<char>| v@) =~= o1);
        if !crate::text::str_eq(self.method.as_str(), "GET") {
            push_line(&mut options, option_line("method", self.method.as_str()));
        }
        assert(options@.map_values(|v: Vec<char>| v@) =~= o2);
        match &self.response_path {
            Some(p) => push_line(&mut options, option_line("response_path", p.as_str())),
            None => {},
        }
        assert(options@.map_values(|v: Vec<char>| v@) =~= o3);
        match &self.object_path {
            Some(p) => push_line(&mut options, option_line("object_path", p.as_str())),
            None => {},
        }
        assert(options@.map_values(|v: Vec<char>| v@) =~= o4);
        proof {
            crate::json::lemma_members_view(members@);
        }
        if members.len() > 0 {
            let text = crate::json::to_json_text(&Json::Object(members));
            push_line(&mut options, option_line("column_map", text.as_str()));
        }
        assert(options@.map_values(|v: Vec<char>| v@) =~= o5);
        if include_attrs && !crate::text::str_eq(attrs_s.as_str(), "attrs") {
            push_line(&mut options, option_line("attrs_column", attrs_s.as_str()));
        }
        let ghost o6 = o5 + if include_attrs && attrs_v != "attrs"@ {
            seq![option_text("attrs_column"@, attrs_v)]
        } else {
            Seq::<Seq<char>>::empty()
        };
        assert(options@.map_values(|v: Vec<char>| v@) =~= o6);
        let ghost ev = extra@.map_values(|v: Vec<char>| v@);
        let mut k: usize = 0;
        while k < extra.len()
            invariant
                k <= extra.len(),
                ev == extra@.map_values(|v: Vec<char>| v@),
                options@.map_values(|v: Vec<char>| v@) == o6 + ev.take(k as int),
            decreases extra.len() - k,
        {
            let line = extra[k].clone();
            assert(ev.take(k + 1) =~= ev.take(k as int).push(ev[k as int]));
            push_line(&mut options, line);
            k = k + 1;
        }
        assert(ev.take(k as int) =~= ev);
        let mut out = chars_of("CREATE FOREIGN TABLE ");
        let qs = quote_ident(local_schema);
        append_str(&mut out, qs.as_str());
        append_str(&mut out, ".");
        let qt = quote_ident(self.table_name.as_str());
        append_str(&mut out, qt.as_str());
        append_str(&mut out, " (\n");
        let defs = crate::text::join_exec(&definitions, ",\n");
        append(&mut out, &defs);
        append_str(&mut out, "\n)\nSERVER ");
        let qsv = quote_ident(server_name);
        append_str(&mut out, qsv.as_str());
        append_str(&mut out, " OPTIONS (\n");
        let opts = crate::text::join_exec(&options, ",\n");
        append(&mut out, &opts);
        append_str(&mut out, "\n)");
        string_of(&out)
    }
}

// ---------------------------------------------------------------------------
// Schema types
// ---------------------------------------------------------------------------

pub open spec fn value_as_string_spec(v: JsonV) -> Option<Seq<char>> {
    match v {
        JsonV::Str(s) => Some(s),
        JsonV::Number(n) => Some(n),
        JsonV::Bool(b) => Some(crate::json::bool_text(b)),
        _ => None,
    }
}

/// A scalar as the text that `to_string` gives it (strings as they are).
pub fn value_as_string(v: &Json) -> (r: Option<String>)
    ensures
        crate::options::opt_str(r) == value_as_string_spec(v@),
{
    match v {
        Json::Str(s) => Some(s.clone()),
        Json::Number(n) => Some(n.clone()),
        Json::Bool(b) => {
            let t = if *b {
                crate::text::str_to_string("true")
            } else {
                crate::text::str_to_string("false")
            };
            proof {
                reveal_strlit("true");
                reveal_strlit("false");
                assert("true"@ =~= seq!['t', 'r', 'u', 'e']);
                assert("false"@ =~= seq!['f', 'a', 'l', 's', 'e']);
            }
            Some(t)
        },
        _ => None,
    }
}

/// The first string of a `type` array that is not `null`.
pub open spec fn first_type_name(vs: Seq<JsonV>) -> Option<Seq<char>>
    decreases vs.len(),
{
    if vs.len() == 0 {
        None
    } else {
        match vs[0] {
            JsonV::Str(s) => if s != "null"@ {
                Some(s)
            } else {
                first_type_name(vs.drop_first())
            },
            _ => first_type_name(vs.drop_first()),
        }
    }
}

/// A schema's type: its `type` (the first non-null one of a list), or
/// `object` where it only has `properties`.
pub open spec fn schema_type_spec(schema: JsonV) -> Option<Seq<char>> {
    let explicit = match crate::json::get(schema, "type"@) {
        Some(JsonV::Str(v)) => Some(v),
        Some(JsonV::Array(vs)) => first_type_name(vs),
        _ => None,
    };
    match explicit {
        Some(t) => Some(t),
        None => match crate::json::get(schema, "properties"@) {
            Some(p) => if p is Object {
                Some("object"@)
            } else {
                None
            },
            None => None,
        },
    }
}

fn first_type_name_exec(vs: &Vec<Json>) -> (r: Option<String>)
    ensures
        crate::options::opt_str(r) == first_type_name(crate::json::items_view(vs@)),
{
    proof {
        crate::json::lemma_items_view(vs@);
    }
    let ghost iv = crate::json::items_view(vs@);
    let mut i: usize = 0;
    assert(iv.skip(0) =~= iv);
    while i < vs.len()
        invariant
            i <= vs.len(),
            iv == crate::json::items_view(vs@),
            iv.len() == vs.len(),
            forall|k: int| 0 <= k < vs@.len() ==> #[trigger] iv[k] == vs@[k].view_of(),
            first_type_name(iv) == first_type_name(iv.skip(i as int)),
        decreases vs.len() - i,
    {
        assert(iv.skip(i as int).drop_first() =~= iv.skip(i + 1));
        assert(iv.skip(i as int)[0] == vs@[i as int].view_of());
        match &vs[i] {
            Json::Str(t) => {
                if !crate::text::str_eq(t.as_str(), "null") {
                    return Some(t.clone());
                }
            },
            _ => {},
        }
        i = i + 1;
    }
    None
}

pub fn schema_type(schema: &Json) -> (r: Option<String>)
    ensures
        crate::options::opt_str(r) == schema_type_spec(schema@),
{
    let explicit: Option<String> = match schema.get_str("type") {
        Some(Json::Str(v)) => Some(v.clone()),
        Some(Json::Array(vs)) => first_type_name_exec(vs),
        _ => None,
    };
    match explicit {
        Some(t) => Some(t),
        None => match schema.get_str("properties") {
            Some(p) => if p.is_obj() {
                Some(crate::text::str_to_string("object"))
            } else {
                None
            },
            None => None,
        },
    }
}

pub open spec fn format_of(schema: JsonV) -> Option<Seq<char>> {
    crate::json::as_str(crate::json::get(schema, "format"@))
}

/// The column type of a schema that is not an array (`jsonb` for arrays and
/// objects).
pub open spec fn element_type(schema: JsonV) -> Seq<char> {
    match schema_type_spec(schema) {
        Some(t) => if t == "string"@ {
            match format_of(schema) {
                Some(f) => if f == "date"@ {
                    "date"@
                } else if f == "date-time"@ {
                    "timestamptz"@
                } else if f == "time"@ {
                    "time"@
                } else if f == "uuid"@ {
                    "uuid"@
                } else {
                    "text"@
                },
                None => "text"@,
            }
        } else if t == "integer"@ {
            if format_of(schema) == Some("int32"@) {
                "integer"@
            } else {
                "bigint"@
            }
        } else if t == "number"@ {
            if format_of(schema) == Some("float"@) {
                "real"@
            } else {
                "double precision"@
            }
        } else if t == "boolean"@ {
            "boolean"@
        } else {
            "jsonb"@
        },
        None => "jsonb"@,
    }
}

/// The array type of an element type; arrays of anything but these scalars
/// are `jsonb`.
pub open spec fn array_of(t: Seq<char>) -> Seq<char> {
    if t == "boolean"@ {
        "boolean[]"@
    } else if t == "integer"@ {
        "integer[]"@
    } else if t == "bigint"@ {
        "bigint[]"@
    } else if t == "real"@ {
        "real[]"@
    } else if t == "double precision"@ {
        "double precision[]"@
    } else if t == "text"@ {
        "text[]"@
    } else {
        "jsonb"@
    }
}

/// The PostgreSQL type of a column with this schema.
pub open spec fn postgres_type_spec(schema: JsonV) -> Seq<char> {
    if schema_type_spec(schema) == Some("array"@) {
        match crate::json::get(schema, "items"@) {
            Some(items) => array_of(element_type(items)),
            None => "jsonb"@,
        }
    } else {
        element_type(schema)
    }
}

/// A string schema's `format` decides its column type: `date-time` is
/// `timestamptz`, `date` is `date`, `time` is `time` and `uuid` is `uuid`;
/// a string without a format is `text`.
pub proof fn law_string_formats(ms: Members)
    requires
        crate::json::members_get(ms, "type"@) == Some(JsonV::Str("string"@)),
    ensures
        crate::json::members_get(ms, "format"@) == Some(JsonV::Str("date-time"@)) ==> postgres_type_spec(
            JsonV::Object(ms),
        ) == "timestamptz"@,
        crate::json::members_get(ms, "format"@) == Some(JsonV::Str("date"@)) ==> postgres_type_spec(
            JsonV::Object(ms),
        ) == "date"@,
        crate::json::members_get(ms, "format"@) == Some(JsonV::Str("time"@)) ==> postgres_type_spec(
            JsonV::Object(ms),
        ) == "time"@,
        crate::json::members_get(ms, "format"@) == Some(JsonV::Str("uuid"@)) ==> postgres_type_spec(
            JsonV::Object(ms),
        ) == "uuid"@,
        crate::json::members_get(ms, "format"@) is None ==> postgres_type_spec(JsonV::Object(ms)) == "text"@,
{
    reveal_strlit("string");
    reveal_strlit("array");
    reveal_strlit("date-time");
    reveal_strlit("date");
    reveal_strlit("time");
    reveal_strlit("uuid");
    reveal_strlit("timestamptz");
    let schema = JsonV::Object(ms);
    assert(schema_type_spec(schema) == Some("string"@));
    assert("string"@.len() != "array"@.len());
    assert("date-time"@.len() != "date"@.len());
    assert(postgres_type_spec(schema) == element_type(schema));
}

fn format_is(schema: &Json, value: &str) -> (r: bool)
    ensures
        r == (format_of(schema@) == Some(value@)),
{
    match schema.get_str("format") {
        Some(Json::Str(f)) => crate::text::str_eq(f.as_str(), value),
        _ => false,
    }
}

fn element_type_exec(schema: &Json) -> (r: &'static str)
    ensures
        r@ == element_type(schema@),
{
    let t = match schema_type(schema) {
        Some(t) => t,
        None => return "jsonb",
    };
    if crate::text::str_eq(t.as_str(), "string") {
        if format_is(schema, "date") {
            "date"
        } else if format_is(schema, "date-time") {
            "timestamptz"
        } else if format_is(schema, "time") {
            "time"
        } else if format_is(schema, "uuid") {
            "uuid"
        } else {
            "text"
        }
    } else if crate::text::str_eq(t.as_str(), "integer") {
        if format_is(schema, "int32") {
            "integer"
        } else {
            "bigint"
        }
    } else if crate::text::str_eq(t.as_str(), "number") {
        if format_is(schema, "float") {
            "real"
        } else {
            "double precision"
        }
    } else if crate::text::str_eq(t.as_str(), "boolean") {
        "boolean"
    } else {
        "jsonb"
    }
}

fn array_of_exec(t: &'static str) -> (r: &'static str)
    ensures
        r@ == array_of(t@),
{
    if crate::text::str_eq(t, "boolean") {
        "boolean[]"
    } else if crate::text::str_eq(t, "integer") {
        "integer[]"
    } else if crate::text::str_eq(t, "bigint") {
        "bigint[]"
    } else if crate::text::str_eq(t, "real") {
        "real[]"
    } else if crate::text::str_eq(t, "double precision") {
        "double precision[]"
    } else if crate::text::str_eq(t, "text") {
        "text[]"
    } else {
        "jsonb"
    }
}

pub fn postgres_type(schema: &Json) -> (r: &'static str)
    ensures
        r@ == postgres_type_spec(schema@),
{
    let is_array = match schema_type(schema) {
        Some(t) => crate::text::str_eq(t.as_str(), "array"),
        None => false,
    };
    if is_array {
        match schema.get_str("items") {
            Some(items) => array_of_exec(element_type_exec(items)),
            None => "jsonb",
        }
    } else {
        element_type_exec(schema)
    }
}

pub open spec fn spec_err(m: Seq<char>) -> crate::error::ErrV {
    crate::error::ErrV::Spec(m)
}

/// An OpenAPI 3.x document with a `paths` object.
pub open spec fn validate_spec_spec(doc: JsonV) -> Result<(), crate::error::ErrV> {
    match crate::json::as_str(crate::json::get(doc, "openapi"@)) {
        None => Err(spec_err("document has no `openapi` version"@)),
        Some(version) => if !crate::text::starts_with(version, "3."@) {
            Err(
                spec_err(
                    "unsupported OpenAPI version `"@ + version
                        + "`; only 3.0 and 3.1 are supported"@,
                ),
            )
        } else {
            match crate::json::get(doc, "paths"@) {
                Some(p) => if p is Object {
                    Ok(())
                } else {
                    Err(spec_err("document has no OpenAPI `paths` object"@))
                },
                None => Err(spec_err("document has no OpenAPI `paths` object"@)),
            }
        },
    }
}

pub fn validate_spec(doc: &Json) -> (r: Result<(), crate::error::OpenApiFdwError>)
    ensures
        match r {
            Ok(()) => validate_spec_spec(doc@) is Ok,
            Err(e) => validate_spec_spec(doc@) == Err::<(), crate::error::ErrV>(e@),
        },
{
    let version = match doc.get_str("openapi") {
        Some(Json::Str(v)) => v,
        _ => return Err(crate::error::spec_error("document has no `openapi` version")),
    };
    let vc = chars_of(version.as_str());
    if !crate::text::starts_with_str(&vc, "3.") {
        let mut m = chars_of("unsupported OpenAPI version `");
        append(&mut m, &vc);
        append_str(&mut m, "`; only 3.0 and 3.1 are supported");
        return Err(crate::error::OpenApiFdwError::Spec(string_of(&m)));
    }
    match doc.get_str("paths") {
        Some(p) => if p.is_obj() {
            Ok(())
        } else {
            Err(crate::error::spec_error("document has no OpenAPI `paths` object"))
        },
        None => Err(crate::error::spec_error("document has no OpenAPI `paths` object")),
    }
}

// ---------------------------------------------------------------------------
// References
// ---------------------------------------------------------------------------

pub open spec fn empty_obj() -> JsonV {
    JsonV::Object(Seq::empty())
}

/// The members of a `$ref` object other than `$ref` itself, laid over the
/// resolved target.
pub open spec fn insert_siblings(
    target: Seq<(Seq<char>, JsonV)>,
    siblings: Seq<(Seq<char>, JsonV)>,
) -> Seq<(Seq<char>, JsonV)>
    decreases siblings.len(),
{
    if siblings.len() == 0 {
        target
    } else {
        let t = if siblings[0].0 != "$ref"@ {
            crate::json::members_insert(target, siblings[0].0, siblings[0].1)
        } else {
            target
        };
        insert_siblings(t, siblings.drop_first())
    }
}

pub open spec fn with_siblings(resolved: JsonV, value: JsonV) -> JsonV {
    match (resolved, value) {
        (JsonV::Object(t), JsonV::Object(vs)) => JsonV::Object(insert_siblings(t, vs)),
        _ => resolved,
    }
}

/// `resolve_ref`: follows local `$ref`s (`#/...`) up to a depth of 32,
/// cutting cycles (`{}`), keeping an unresolvable reference as it is, and
/// laying the reference's other members over the target.
pub open spec fn resolve_ref_spec(doc: JsonV, value: JsonV, depth: nat, seen: Seq<Seq<char>>) -> JsonV
    decreases 32 - depth,
{
    if depth >= 32 {
        empty_obj()
    } else {
        match crate::json::as_str(crate::json::get(value, "$ref"@)) {
            None => value,
            Some(reference) => if reference.len() == 0 || reference[0] != '#' {
                value
            } else if seen.contains(reference) {
                empty_obj()
            } else {
                match crate::json::pointer(doc, reference.drop_first()) {
                    None => value,
                    Some(target) => with_siblings(
                        resolve_ref_spec(doc, target, depth + 1, seen.push(reference)),
                        value,
                    ),
                }
            },
        }
    }
}

fn lay_siblings(target: &mut Vec<(String, Json)>, siblings: &Vec<(String, Json)>)
    ensures
        crate::json::members_view(final(target)@) == insert_siblings(
            crate::json::members_view(old(target)@),
            crate::json::members_view(siblings@),
        ),
{
    let ghost sv = crate::json::members_view(siblings@);
    proof {
        crate::json::lemma_members_view(siblings@);
    }
    let ghost start = crate::json::members_view(target@);
    let mut i: usize = 0;
    assert(sv.skip(0) =~= sv);
    while i < siblings.len()
        invariant
            i <= siblings.len(),
            sv == crate::json::members_view(siblings@),
            sv.len() == siblings.len(),
            forall|k: int| 0 <= k < siblings@.len() ==> #[trigger] sv[k] == (
                siblings@[k].0@,
                siblings@[k].1.view_of(),
            ),
            insert_siblings(start, sv) == insert_siblings(
                crate::json::members_view(target@),
                sv.skip(i as int),
            ),
        decreases siblings.len() - i,
    {
        assert(sv.skip(i as int).drop_first() =~= sv.skip(i + 1));
        assert(sv.skip(i as int)[0] == sv[i as int]);
        if !crate::text::str_eq(siblings[i].0.as_str(), "$ref") {
            let value = siblings[i].1.copy();
            insert_member(target, siblings[i].0.clone(), value);
        }
        i = i + 1;
    }
    assert(sv.skip(i as int) =~= Seq::<(Seq<char>, JsonV)>::empty());
}

pub fn resolve_ref(doc: &Json, value: &Json, depth: usize, seen: &mut Vec<String>) -> (r: Json)
    ensures
        r@ == resolve_ref_spec(doc@, value@, depth as nat, crate::sorting::views(old(seen)@)),
        crate::sorting::views(final(seen)@) == crate::sorting::views(old(seen)@),
    decreases 32 - depth,
{
    if depth >= 32 {
        return crate::json::empty_object();
    }
    let reference = match value.get_str("$ref") {
        Some(Json::Str(r)) => r,
        _ => return value.copy(),
    };
    let rc = chars_of(reference.as_str());
    if rc.len() == 0 || rc[0] != '#' {
        return value.copy();
    }
    if crate::sorting::views_contains(seen, reference.as_str()) {
        return crate::json::empty_object();
    }
    let pointer = crate::text::subrange(&rc, 1, rc.len());
    assert(pointer@ =~= rc@.drop_first());
    let target = match doc.pointer(&pointer) {
        Some(t) => t,
        None => return value.copy(),
    };
    let ghost before = seen@;
    seen.push(reference.clone());
    proof {
        crate::sorting::lemma_views_push(before, seen@.last());
    }
    let mut resolved = resolve_ref(doc, target, depth + 1, seen);
    let ghost mid = seen@;
    seen.pop();
    proof {
        assert(crate::sorting::views(seen@) =~= crate::sorting::views(mid).drop_last());
        assert(crate::sorting::views(mid).drop_last() =~= crate::sorting::views(before));
    }
    match (&mut resolved, value) {
        (Json::Object(t), Json::Object(vs)) => {
            lay_siblings(t, vs);
        },
        _ => {},
    }
    resolved
}

// ---------------------------------------------------------------------------
// Merging schemas (`allOf`, `oneOf`, `anyOf`)
// ---------------------------------------------------------------------------

pub type Members = Seq<(Seq<char>, JsonV)>;

/// A member schema of a union is nullable.
pub open spec fn nullable(schema: JsonV, union: bool) -> JsonV {
    if union {
        match schema {
            JsonV::Object(o) => JsonV::Object(
                crate::json::members_insert(o, "nullable"@, JsonV::Bool(true)),
            ),
            _ => schema,
        }
    } else {
        schema
    }
}

/// Properties that the target does not have yet, in order.
pub open spec fn add_properties(tp: Members, props: Members, union: bool) -> Members
    decreases props.len(),
{
    if props.len() == 0 {
        tp
    } else {
        add_properties(
            crate::json::members_or_insert(tp, props[0].0, nullable(props[0].1, union)),
            props.drop_first(),
            union,
        )
    }
}

/// Members that the target does not have yet, in order.
pub open spec fn or_insert_all(t: Members, src: Members) -> Members
    decreases src.len(),
{
    if src.len() == 0 {
        t
    } else {
        or_insert_all(crate::json::members_or_insert(t, src[0].0, src[0].1), src.drop_first())
    }
}

/// The strings of an array value (other items and other values give none).
pub open spec fn strings_of(items: Seq<JsonV>) -> Seq<Seq<char>>
    decreases items.len(),
{
    if items.len() == 0 {
        Seq::empty()
    } else {
        let rest = strings_of(items.drop_last());
        match items.last() {
            JsonV::Str(s) => rest.push(s),
            _ => rest,
        }
    }
}

pub open spec fn array_strings(v: Option<JsonV>) -> Seq<Seq<char>> {
    match v {
        Some(JsonV::Array(items)) => strings_of(items),
        _ => Seq::empty(),
    }
}

/// Where `x` goes in an ascending list: before the first item not below it.
pub open spec fn sorted_position(s: Seq<Seq<char>>, x: Seq<char>) -> int
    decreases s.len(),
{
    if s.len() == 0 {
        0
    } else if !crate::sorting::lex_lt(s[0], x) {
        0
    } else {
        1 + sorted_position(s.drop_first(), x)
    }
}

/// `BTreeSet::insert` on an ascending list.
pub open spec fn sorted_insert(s: Seq<Seq<char>>, x: Seq<char>) -> Seq<Seq<char>> {
    let i = sorted_position(s, x);
    if i < s.len() && s[i] == x {
        s
    } else {
        s.insert(i, x)
    }
}

/// The distinct strings in ascending order (collecting into a `BTreeSet`).
pub open spec fn sorted_unique(xs: Seq<Seq<char>>) -> Seq<Seq<char>>
    decreases xs.len(),
{
    if xs.len() == 0 {
        Seq::empty()
    } else {
        sorted_insert(sorted_unique(xs.drop_last()), xs.last())
    }
}

pub open spec fn string_values(xs: Seq<Seq<char>>) -> Seq<JsonV> {
    xs.map_values(|x: Seq<char>| JsonV::Str(x))
}

/// `merge_schema_objects`: the members of `source` laid under `target`.
/// Properties are unioned (a union's properties become nullable) and make
/// the result an object; outside a union, `required` lists are joined. `None`
/// where the target's `properties` is not an object, where the crate stops
/// with "properties initialized as object".
pub open spec fn merge_spec(target: Members, source: JsonV, union: bool) -> Option<Members> {
    match source {
        JsonV::Object(src) => {
            let src1 = crate::json::members_remove(src, "properties"@);
            let t1 = match crate::json::members_get(src, "properties"@) {
                Some(JsonV::Object(p)) => match crate::json::members_get(target, "properties"@) {
                    Some(JsonV::Object(tp)) => Some(
                        crate::json::members_insert(
                            crate::json::members_insert(
                                target,
                                "properties"@,
                                JsonV::Object(add_properties(tp, p, union)),
                            ),
                            "type"@,
                            JsonV::Str("object"@),
                        ),
                    ),
                    None => Some(
                        crate::json::members_insert(
                            crate::json::members_insert(
                                target,
                                "properties"@,
                                JsonV::Object(add_properties(Seq::empty(), p, union)),
                            ),
                            "type"@,
                            JsonV::Str("object"@),
                        ),
                    ),
                    Some(_) => None,
                },
                _ => Some(target),
            };
            match t1 {
                None => None,
                Some(t1) => if union {
                    Some(or_insert_all(t1, src1))
                } else {
                    let required = array_strings(crate::json::members_get(t1, "required"@))
                        + array_strings(crate::json::members_get(src1, "required"@));
                    let t2 = crate::json::members_insert(
                        crate::json::members_remove(t1, "required"@),
                        "required"@,
                        JsonV::Array(string_values(sorted_unique(required))),
                    );
                    Some(or_insert_all(t2, crate::json::members_remove(src1, "required"@)))
                },
            }
        },
        _ => Some(target),
    }
}

fn strings_exec(v: Option<&Json>) -> (r: Vec<String>)
    ensures
        crate::sorting::views(r@) == array_strings(
            match v {
                Some(j) => Some(j@),
                None => None,
            },
        ),
{
    let mut out: Vec<String> = Vec::new();
    match v {
        Some(Json::Array(items)) => {
            proof {
                crate::json::lemma_items_view(items@);
            }
            let ghost iv = crate::json::items_view(items@);
            let mut i: usize = 0;
            assert(crate::sorting::views(out@) =~= strings_of(iv.take(0)));
            while i < items.len()
                invariant
                    i <= items.len(),
                    iv == crate::json::items_view(items@),
                    iv.len() == items.len(),
                    forall|k: int| 0 <= k < items@.len() ==> #[trigger] iv[k] == items@[k].view_of(),
                    crate::sorting::views(out@) == strings_of(iv.take(i as int)),
                decreases items.len() - i,
            {
                assert(iv.take(i + 1).drop_last() =~= iv.take(i as int));
                assert(iv.take(i + 1).last() == items@[i as int].view_of());
                match &items[i] {
                    Json::Str(x) => {
                        let ghost before = out@;
                        out.push(x.clone());
                        proof {
                            crate::sorting::lemma_views_push(before, out@.last());
                        }
                    },
                    _ => {},
                }
                i = i + 1;
            }
            assert(iv.take(items.len() as int) =~= iv);
        },
        _ => {
            assert(crate::sorting::views(out@) =~= Seq::<Seq<char>>::empty());
        },
    }
    out
}

fn sorted_insert_exec(s: &mut Vec<String>, x: String)
    ensures
        crate::sorting::views(final(s)@) == sorted_insert(crate::sorting::views(old(s)@), x@),
{
    let ghost sv = crate::sorting::views(s@);
    let xc = chars_of(x.as_str());
    let mut i: usize = 0;
    assert(sv.skip(0) =~= sv);
    while i < s.len()
        invariant
            i <= s.len(),
            sv == crate::sorting::views(s@),
            sv.len() == s.len(),
            xc@ == x@,
            sorted_position(sv, x@) == i + sorted_position(sv.skip(i as int), x@),
        ensures
            i <= s.len(),
            sv == crate::sorting::views(s@),
            sorted_position(sv, x@) == i,
        decreases s.len() - i,
    {
        let e = chars_of(s[i].as_str());
        assert(sv.skip(i as int)[0] == sv[i as int]);
        if !crate::sorting::lex_lt_exec(&e, &xc) {
            break;
        }
        assert(sv.skip(i as int).drop_first() =~= sv.skip(i + 1));
        i = i + 1;
    }
    if i < s.len() && crate::text::str_eq(s[i].as_str(), x.as_str()) {
        return;
    }
    s.insert(i, x);
    assert(crate::sorting::views(s@) =~= sv.insert(i as int, x@));
}

fn sorted_unique_exec(xs: &Vec<String>) -> (r: Vec<String>)
    ensures
        crate::sorting::views(r@) == sorted_unique(crate::sorting::views(xs@)),
{
    let ghost xv = crate::sorting::views(xs@);
    let mut out: Vec<String> = Vec::new();
    let mut i: usize = 0;
    assert(crate::sorting::views(out@) =~= sorted_unique(xv.take(0)));
    while i < xs.len()
        invariant
            i <= xs.len(),
            xv == crate::sorting::views(xs@),
            xv.len() == xs.len(),
            crate::sorting::views(out@) == sorted_unique(xv.take(i as int)),
        decreases xs.len() - i,
    {
        assert(xv.take(i + 1).drop_last() =~= xv.take(i as int));
        assert(xv.take(i + 1).last() == xs@[i as int]@);
        sorted_insert_exec(&mut out, xs[i].clone());
        i = i + 1;
    }
    assert(xv.take(xs.len() as int) =~= xv);
    out
}

fn string_array(xs: &Vec<String>) -> (r: Json)
    ensures
        r@ == JsonV::Array(string_values(crate::sorting::views(xs@))),
{
    let mut items: Vec<Json> = Vec::new();
    let mut i: usize = 0;
    assert(crate::json::items_view(items@) =~= string_values(crate::sorting::views(xs@)).take(0));
    while i < xs.len()
        invariant
            i <= xs.len(),
            crate::json::items_view(items@) == string_values(crate::sorting::views(xs@)).take(
                i as int,
            ),
        decreases xs.len() - i,
    {
        let ghost before = items@;
        let x = Json::Str(xs[i].clone());
        items.push(x);
        proof {
            crate::json::lemma_items_view_push(before, x);
            assert(string_values(crate::sorting::views(xs@)).take(i + 1) =~= string_values(
                crate::sorting::views(xs@),
            ).take(i as int).push(JsonV::Str(xs@[i as int]@)));
        }
        i = i + 1;
    }
    assert(string_values(crate::sorting::views(xs@)).take(xs.len() as int) =~= string_values(
        crate::sorting::views(xs@),
    ));
    Json::Array(items)
}

fn nullable_exec(schema: &Json, union: bool) -> (r: Json)
    ensures
        r@ == nullable(schema@, union),
{
    let mut out = schema.copy();
    if union {
        match &mut out {
            Json::Object(o) => {
                insert_member(o, crate::text::str_to_string("nullable"), Json::Bool(true));
            },
            _ => {},
        }
    }
    out
}

fn add_properties_exec(tp: &mut Vec<(String, Json)>, props: &Vec<(String, Json)>, union: bool)
    ensures
        crate::json::members_view(final(tp)@) == add_properties(
            crate::json::members_view(old(tp)@),
            crate::json::members_view(props@),
            union,
        ),
{
    let ghost pv = crate::json::members_view(props@);
    proof {
        crate::json::lemma_members_view(props@);
    }
    let ghost start = crate::json::members_view(tp@);
    let mut i: usize = 0;
    assert(pv.skip(0) =~= pv);
    while i < props.len()
        invariant
            i <= props.len(),
            pv == crate::json::members_view(props@),
            pv.len() == props.len(),
            forall|k: int| 0 <= k < props@.len() ==> #[trigger] pv[k] == (
                props@[k].0@,
                props@[k].1.view_of(),
            ),
            add_properties(start, pv, union) == add_properties(
                crate::json::members_view(tp@),
                pv.skip(i as int),
                union,
            ),
        decreases props.len() - i,
    {
        assert(pv.skip(i as int).drop_first() =~= pv.skip(i + 1));
        assert(pv.skip(i as int)[0] == pv[i as int]);
        let value = nullable_exec(&props[i].1, union);
        or_insert_member(tp, props[i].0.clone(), value);
        i = i + 1;
    }
    assert(pv.skip(i as int) =~= Seq::<(Seq<char>, JsonV)>::empty());
}

fn or_insert_all_exec(t: &mut Vec<(String, Json)>, src: &Vec<(String, Json)>)
    ensures
        crate::json::members_view(final(t)@) == or_insert_all(
            crate::json::members_view(old(t)@),
            crate::json::members_view(src@),
        ),
{
    let ghost sv = crate::json::members_view(src@);
    proof {
        crate::json::lemma_members_view(src@);
    }
    let ghost start = crate::json::members_view(t@);
    let mut i: usize = 0;
    assert(sv.skip(0) =~= sv);
    while i < src.len()
        invariant
            i <= src.len(),
            sv == crate::json::members_view(src@),
            sv.len() == src.len(),
            forall|k: int| 0 <= k < src@.len() ==> #[trigger] sv[k] == (
                src@[k].0@,
                src@[k].1.view_of(),
            ),
            or_insert_all(start, sv) == or_insert_all(crate::json::members_view(t@), sv.skip(i as int)),
        decreases src.len() - i,
    {
        assert(sv.skip(i as int).drop_first() =~= sv.skip(i + 1));
        assert(sv.skip(i as int)[0] == sv[i as int]);
        let value = src[i].1.copy();
        or_insert_member(t, src[i].0.clone(), value);
        i = i + 1;
    }
    assert(sv.skip(i as int) =~= Seq::<(Seq<char>, JsonV)>::empty());
}

pub open spec fn merged_into(old_target: Members, new_target: Members, source: JsonV, union: bool, ok: bool) -> bool {
    match merge_spec(old_target, source, union) {
        Some(m) => ok && new_target == m,
        None => !ok,
    }
}

/// `merge_schema_objects`; `false` where the target's `properties` is not an
/// object.
pub fn merge_schema_objects(target: &mut Vec<(String, Json)>, source: &Json, union: bool) -> (r: bool)
    ensures
        merged_into(
            crate::json::members_view(old(target)@),
            crate::json::members_view(final(target)@),
            source@,
            union,
            r,
        ),
{
    let src_members = match source {
        Json::Object(m) => m,
        _ => return true,
    };
    let mut src = crate::json::copy_members(src_members);
    let ghost t0 = crate::json::members_view(target@);
    let ghost s0 = crate::json::members_view(src@);
    let props = remove_member(&mut src, "properties");
    match props {
        Some(Json::Object(p)) => {
            let mut tp: Vec<(String, Json)> = match crate::json::find_member(target, "properties") {
                Some(Json::Object(t)) => crate::json::copy_members(t),
                None => Vec::new(),
                Some(_) => {
                    return false;
                },
            };
            add_properties_exec(&mut tp, &p, union);
            insert_member(target, crate::text::str_to_string("properties"), Json::Object(tp));
            insert_member(
                target,
                crate::text::str_to_string("type"),
                Json::Str(crate::text::str_to_string("object")),
            );
        },
        _ => {},
    }
    if !union {
        let mut required = strings_exec(crate::json::find_member(target, "required"));
        let more = strings_exec(crate::json::find_member(&src, "required"));
        crate::sorting::extend_strings(&mut required, &more);
        let unique = sorted_unique_exec(&required);
        let _ = remove_member(target, "required");
        insert_member(target, crate::text::str_to_string("required"), string_array(&unique));
        let _ = remove_member(&mut src, "required");
    }
    or_insert_all_exec(target, &src);
    true
}

/// `resolve_schema`: the schema with its references followed and its
/// `allOf` (and then its first `oneOf` or `anyOf` list) merged in, to a depth
/// of 32. `None` where a merge meets a non-object `properties`.
pub open spec fn resolve_schema_spec(doc: JsonV, schema: JsonV, depth: nat, seen: Seq<Seq<char>>) -> Option<
    JsonV,
>
    decreases 32 - depth, 2nat, 0nat,
{
    if depth >= 32 {
        Some(empty_obj())
    } else {
        match resolve_ref_spec(doc, schema, depth, seen) {
            JsonV::Object(ms) => {
                let ms1 = crate::json::members_remove(ms, "allOf"@);
                let step = match crate::json::members_get(ms, "allOf"@) {
                    Some(JsonV::Array(items)) => match merge_members(
                        doc,
                        items,
                        depth,
                        seen,
                        false,
                        Seq::empty(),
                    ) {
                        None => None,
                        Some(m) => merge_spec(m, JsonV::Object(ms1), false),
                    },
                    _ => Some(ms1),
                };
                match step {
                    None => None,
                    Some(ms2) => merge_alternatives(doc, ms2, depth, seen),
                }
            },
            other => Some(other),
        }
    }
}

/// The first of `oneOf` and `anyOf` that is a list, merged as a union.
pub open spec fn merge_alternatives(doc: JsonV, ms: Members, depth: nat, seen: Seq<Seq<char>>) -> Option<
    JsonV,
>
    decreases 32 - depth, 1nat, 0nat,
{
    let ms_a = crate::json::members_remove(ms, "oneOf"@);
    match crate::json::members_get(ms, "oneOf"@) {
        Some(JsonV::Array(items)) => match merge_members(doc, items, depth, seen, true, Seq::empty()) {
            None => None,
            Some(m) => match merge_spec(m, JsonV::Object(ms_a), true) {
                None => None,
                Some(r) => Some(JsonV::Object(r)),
            },
        },
        _ => {
            let ms_b = crate::json::members_remove(ms_a, "anyOf"@);
            match crate::json::members_get(ms_a, "anyOf"@) {
                Some(JsonV::Array(items)) => match merge_members(
                    doc,
                    items,
                    depth,
                    seen,
                    true,
                    Seq::empty(),
                ) {
                    None => None,
                    Some(m) => match merge_spec(m, JsonV::Object(ms_b), true) {
                        None => None,
                        Some(r) => Some(JsonV::Object(r)),
                    },
                },
                _ => Some(JsonV::Object(ms_b)),
            }
        },
    }
}

/// Each item resolved one level deeper and merged into `acc`, in order.
pub open spec fn merge_members(
    doc: JsonV,
    items: Seq<JsonV>,
    depth: nat,
    seen: Seq<Seq<char>>,
    union: bool,
    acc: Members,
) -> Option<Members>
    decreases 32 - depth, 0nat, items.len(),
{
    if items.len() == 0 || depth >= 32 {
        Some(acc)
    } else {
        match resolve_schema_spec(doc, items[0], depth + 1, seen) {
            None => None,
            Some(r) => match merge_spec(acc, r, union) {
                None => None,
                Some(acc2) => merge_members(doc, items.drop_first(), depth, seen, union, acc2),
            },
        }
    }
}

pub open spec fn opt_view(r: Option<Json>) -> Option<JsonV> {
    match r {
        Some(j) => Some(j@),
        None => None,
    }
}

pub open spec fn merged_items(
    doc: JsonV,
    items: Seq<JsonV>,
    depth: nat,
    seen: Seq<Seq<char>>,
    union: bool,
    before: Members,
    after: Members,
    ok: bool,
) -> bool {
    match merge_members(doc, items, depth, seen, union, before) {
        Some(m) => ok && after == m,
        None => !ok,
    }
}

fn merge_items(
    doc: &Json,
    items: &Vec<Json>,
    depth: usize,
    seen: &mut Vec<String>,
    union: bool,
    acc: &mut Vec<(String, Json)>,
) -> (r: bool)
    requires
        depth < 32,
    ensures
        merged_items(
            doc@,
            crate::json::items_view(items@),
            depth as nat,
            crate::sorting::views(old(seen)@),
            union,
            crate::json::members_view(old(acc)@),
            crate::json::members_view(final(acc)@),
            r,
        ),
        crate::sorting::views(final(seen)@) == crate::sorting::views(old(seen)@),
    decreases 32 - depth, 0usize, 1usize,
{
    proof {
        crate::json::lemma_items_view(items@);
    }
    let ghost iv = crate::json::items_view(items@);
    let ghost sv = crate::sorting::views(seen@);
    let ghost a0 = crate::json::members_view(acc@);
    let mut i: usize = 0;
    assert(iv.skip(0) =~= iv);
    while i < items.len()
        invariant
            i <= items.len(),
            depth < 32,
            iv == crate::json::items_view(items@),
            iv.len() == items.len(),
            forall|k: int| 0 <= k < items@.len() ==> #[trigger] iv[k] == items@[k].view_of(),
            sv == crate::sorting::views(seen@),
            sv == crate::sorting::views(old(seen)@),
            a0 == crate::json::members_view(old(acc)@),
            merge_members(doc@, iv, depth as nat, sv, union, a0) == merge_members(
                doc@,
                iv.skip(i as int),
                depth as nat,
                sv,
                union,
                crate::json::members_view(acc@),
            ),
        decreases items.len() - i,
    {
        assert(iv.skip(i as int).drop_first() =~= iv.skip(i + 1));
        assert(iv.skip(i as int)[0] == items@[i as int].view_of());
        let resolved = match resolve_schema(doc, &items[i], depth + 1, seen) {
            Some(r) => r,
            None => return false,
        };
        if !merge_schema_objects(acc, &resolved, union) {
            return false;
        }
        i = i + 1;
    }
    assert(iv.skip(i as int) =~= Seq::<JsonV>::empty());
    true
}

fn merge_alternatives_exec(doc: &Json, ms: Vec<(String, Json)>, depth: usize, seen: &mut Vec<String>) -> (r:
    Option<Json>)
    requires
        depth < 32,
    ensures
        opt_view(r) == merge_alternatives(
            doc@,
            crate::json::members_view(ms@),
            depth as nat,
            crate::sorting::views(old(seen)@),
        ),
        crate::sorting::views(final(seen)@) == crate::sorting::views(old(seen)@),
    decreases 32 - depth, 1usize, 0usize,
{
    let mut ms = ms;
    let one_of = remove_member(&mut ms, "oneOf");
    match one_of {
        Some(Json::Array(items)) => {
            let mut merged: Vec<(String, Json)> = Vec::new();
            assert(crate::json::members_view(merged@) =~= Seq::<(Seq<char>, JsonV)>::empty());
            if !merge_items(doc, &items, depth, seen, true, &mut merged) {
                return None;
            }
            if !merge_schema_objects(&mut merged, &Json::Object(ms), true) {
                return None;
            }
            return Some(Json::Object(merged));
        },
        _ => {},
    }
    let any_of = remove_member(&mut ms, "anyOf");
    match any_of {
        Some(Json::Array(items)) => {
            let mut merged: Vec<(String, Json)> = Vec::new();
            assert(crate::json::members_view(merged@) =~= Seq::<(Seq<char>, JsonV)>::empty());
            if !merge_items(doc, &items, depth, seen, true, &mut merged) {
                return None;
            }
            if !merge_schema_objects(&mut merged, &Json::Object(ms), true) {
                return None;
            }
            Some(Json::Object(merged))
        },
        _ => Some(Json::Object(ms)),
    }
}

pub fn resolve_schema(doc: &Json, schema: &Json, depth: usize, seen: &mut Vec<String>) -> (r: Option<
    Json,
>)
    ensures
        opt_view(r) == resolve_schema_spec(
            doc@,
            schema@,
            depth as nat,
            crate::sorting::views(old(seen)@),
        ),
        crate::sorting::views(final(seen)@) == crate::sorting::views(old(seen)@),
    decreases 32 - depth, 2usize, 0usize,
{
    if depth >= 32 {
        return Some(crate::json::empty_object());
    }
    let resolved = resolve_ref(doc, schema, depth, seen);
    let mut ms = match resolved {
        Json::Object(ms) => ms,
        other => return Some(other),
    };
    let all_of = remove_member(&mut ms, "allOf");
    let merged = match all_of {
        Some(Json::Array(items)) => {
            let mut merged: Vec<(String, Json)> = Vec::new();
            assert(crate::json::members_view(merged@) =~= Seq::<(Seq<char>, JsonV)>::empty());
            if !merge_items(doc, &items, depth, seen, false, &mut merged) {
                return None;
            }
            if !merge_schema_objects(&mut merged, &Json::Object(ms), false) {
                return None;
            }
            merged
        },
        _ => ms,
    };
    merge_alternatives_exec(doc, merged, depth, seen)
}

// ---------------------------------------------------------------------------
// Rows of a response schema
// ---------------------------------------------------------------------------

/// The properties under which list responses commonly wrap their rows.
pub open spec fn envelope_keys() -> Seq<Seq<char>> {
    seq!["data"@, "results"@, "items"@, "records"@, "entries"@, "features"@, "@graph"@]
}

/// The row schema, response path and object path of a response.
pub struct RowSchema {
    pub row: JsonV,
    pub response_path: Option<Seq<char>>,
    pub object_path: Option<Seq<char>>,
}

pub open spec fn resolved(doc: JsonV, schema: JsonV) -> Option<JsonV> {
    resolve_schema_spec(doc, schema, 0, Seq::empty())
}

/// The items of an array schema, resolved (`{}` without `items`).
pub open spec fn array_items(doc: JsonV, schema: JsonV) -> Option<JsonV> {
    match crate::json::get(schema, "items"@) {
        Some(item) => resolved(doc, item),
        None => Some(empty_obj()),
    }
}

/// One envelope candidate: `Some(None)` where the key is absent or its schema
/// is neither an array nor an object, the rows it holds otherwise (an array's
/// items, or the object). GeoJSON `features` whose items have an object
/// `properties` member give those properties, at `/properties` of each
/// feature. `None` where a merge fails.
pub open spec fn envelope_at(doc: JsonV, properties: Members, key: Seq<char>) -> Option<
    Option<RowSchema>,
> {
    match crate::json::members_get(properties, key) {
        None => Some(None),
        Some(w) => match resolved(doc, w) {
            None => None,
            Some(wrapper) => {
                let t = schema_type_spec(wrapper);
                if t != Some("array"@) && t != Some("object"@) {
                    Some(None)
                } else {
                    let row = if t == Some("array"@) {
                        array_items(doc, wrapper)
                    } else {
                        Some(wrapper)
                    };
                    match row {
                        None => None,
                        Some(row) => {
                            let fp = match crate::json::get(row, "properties"@) {
                                Some(JsonV::Object(ps)) => crate::json::members_get(ps, "properties"@),
                                _ => None,
                            };
                            let plain = RowSchema {
                                row,
                                response_path: Some("/"@ + key),
                                object_path: None,
                            };
                            if key == "features"@ && fp is Some {
                                match resolved(doc, fp->0) {
                                    None => None,
                                    Some(fpr) => if schema_type_spec(fpr) == Some("object"@) {
                                        Some(
                                            Some(
                                                RowSchema {
                                                    row: fpr,
                                                    response_path: Some("/features"@),
                                                    object_path: Some("/properties"@),
                                                },
                                            ),
                                        )
                                    } else {
                                        Some(Some(plain))
                                    },
                                }
                            } else {
                                Some(Some(plain))
                            }
                        },
                    }
                }
            },
        },
    }
}

/// The first envelope among `keys` that holds rows.
pub open spec fn envelope_scan(doc: JsonV, properties: Members, keys: Seq<Seq<char>>) -> Option<
    Option<RowSchema>,
>
    decreases keys.len(),
{
    if keys.len() == 0 {
        Some(None)
    } else {
        match envelope_at(doc, properties, keys[0]) {
            None => None,
            Some(None) => envelope_scan(doc, properties, keys.drop_first()),
            Some(Some(r)) => Some(Some(r)),
        }
    }
}

/// `row_schema`: the schema of one row, and where rows sit in a response: an
/// array's items, the first envelope, or the schema itself. `None` where a
/// merge fails.
pub open spec fn row_schema_spec(doc: JsonV, raw: JsonV) -> Option<RowSchema> {
    match resolved(doc, raw) {
        None => None,
        Some(schema) => if schema_type_spec(schema) == Some("array"@) {
            match array_items(doc, schema) {
                None => None,
                Some(item) => Some(RowSchema { row: item, response_path: None, object_path: None }),
            }
        } else {
            let found = match crate::json::get(schema, "properties"@) {
                Some(JsonV::Object(props)) => envelope_scan(doc, props, envelope_keys()),
                _ => Some(None),
            };
            match found {
                None => None,
                Some(Some(r)) => Some(r),
                Some(None) => Some(RowSchema { row: schema, response_path: None, object_path: None }),
            }
        }
    }
}

pub struct RowSchemaExec {
    pub row: Json,
    pub response_path: Option<String>,
    pub object_path: Option<String>,
}

pub open spec fn row_view(r: RowSchemaExec) -> RowSchema {
    RowSchema {
        row: r.row@,
        response_path: crate::options::opt_str(r.response_path),
        object_path: crate::options::opt_str(r.object_path),
    }
}

fn resolve_fresh(doc: &Json, schema: &Json) -> (r: Option<Json>)
    ensures
        opt_view(r) == resolved(doc@, schema@),
{
    let mut seen: Vec<String> = Vec::new();
    assert(crate::sorting::views(seen@) =~= Seq::<Seq<char>>::empty());
    resolve_schema(doc, schema, 0, &mut seen)
}

fn array_items_exec(doc: &Json, schema: &Json) -> (r: Option<Json>)
    ensures
        opt_view(r) == array_items(doc@, schema@),
{
    match schema.get_str("items") {
        Some(item) => resolve_fresh(doc, item),
        None => Some(crate::json::empty_object()),
    }
}

fn is_type(schema: &Json, name: &str) -> (r: bool)
    ensures
        r == (schema_type_spec(schema@) == Some(name@)),
{
    match schema_type(schema) {
        Some(t) => crate::text::str_eq(t.as_str(), name),
        None => false,
    }
}

fn slash_key(key: &str) -> (r: String)
    ensures
        r@ == "/"@ + key@,
{
    let mut v = chars_of("/");
    append_str(&mut v, key);
    string_of(&v)
}

fn envelope_row(doc: &Json, properties: &Vec<(String, Json)>, key: &str) -> (r: Option<Option<RowSchemaExec>>)
    ensures
        match r {
            None => envelope_at(doc@, crate::json::members_view(properties@), key@) is None,
            Some(None) => envelope_at(doc@, crate::json::members_view(properties@), key@) == Some(
                None::<RowSchema>,
            ),
            Some(Some(x)) => envelope_at(doc@, crate::json::members_view(properties@), key@)
                == Some(Some(row_view(x))),
        },
{
    let w = match crate::json::find_member(properties, key) {
        Some(w) => w,
        None => return Some(None),
    };
    let wrapper = match resolve_fresh(doc, w) {
        Some(x) => x,
        None => return None,
    };
    let is_array = is_type(&wrapper, "array");
    let is_object = is_type(&wrapper, "object");
    if !is_array && !is_object {
        return Some(None);
    }
    let row = if is_array {
        match array_items_exec(doc, &wrapper) {
            Some(x) => x,
            None => return None,
        }
    } else {
        wrapper
    };
    let fp: Option<&Json> = match row.get_str("properties") {
        Some(Json::Object(ps)) => crate::json::find_member(ps, "properties"),
        _ => None,
    };
    if crate::text::str_eq(key, "features") && fp.is_some() {
        let fpr = match fp {
            Some(f) => match resolve_fresh(doc, f) {
                Some(x) => x,
                None => return None,
            },
            None => return None,
        };
        if is_type(&fpr, "object") {
            return Some(
                Some(
                    RowSchemaExec {
                        row: fpr,
                        response_path: Some(crate::text::str_to_string("/features")),
                        object_path: Some(crate::text::str_to_string("/properties")),
                    },
                ),
            );
        }
    }
    Some(Some(RowSchemaExec { row, response_path: Some(slash_key(key)), object_path: None }))
}

fn envelope_keys_exec() -> (r: Vec<&'static str>)
    ensures
        r@.map_values(|k: &str| k@) == envelope_keys(),
{
    let mut v: Vec<&'static str> = Vec::new();
    v.push("data");
    v.push("results");
    v.push("items");
    v.push("records");
    v.push("entries");
    v.push("features");
    v.push("@graph");
    assert(v@.map_values(|k: &str| k@) =~= envelope_keys());
    v
}

pub fn row_schema(doc: &Json, raw: &Json) -> (r: Option<RowSchemaExec>)
    ensures
        match r {
            Some(x) => row_schema_spec(doc@, raw@) == Some(row_view(x)),
            None => row_schema_spec(doc@, raw@) is None,
        },
{
    let schema = match resolve_fresh(doc, raw) {
        Some(s) => s,
        None => return None,
    };
    if is_type(&schema, "array") {
        return match array_items_exec(doc, &schema) {
            Some(item) => Some(RowSchemaExec { row: item, response_path: None, object_path: None }),
            None => None,
        };
    }
    let props = match schema.get_str("properties") {
        Some(Json::Object(p)) => p,
        _ => return Some(RowSchemaExec { row: schema, response_path: None, object_path: None }),
    };
    let keys = envelope_keys_exec();
    let ghost ks = envelope_keys();
    let ghost ps = crate::json::members_view(props@);
    let mut i: usize = 0;
    assert(ks.skip(0) =~= ks);
    let ghost rs = row_schema_spec(doc@, raw@);
    assert(rs == match envelope_scan(doc@, ps, ks) {
        None => None,
        Some(Some(r)) => Some(r),
        Some(None) => Some(RowSchema { row: schema@, response_path: None, object_path: None }),
    });
    while i < keys.len()
        invariant
            i <= keys.len(),
            ks == envelope_keys(),
            keys@.map_values(|k: &str| k@) == ks,
            ks.len() == keys.len(),
            ps == crate::json::members_view(props@),
            rs == row_schema_spec(doc@, raw@),
            rs == match envelope_scan(doc@, ps, ks) {
                None => None,
                Some(Some(r)) => Some(r),
                Some(None) => Some(RowSchema { row: schema@, response_path: None, object_path: None }),
            },
            envelope_scan(doc@, ps, ks) == envelope_scan(doc@, ps, ks.skip(i as int)),
        decreases keys.len() - i,
    {
        assert(ks.skip(i as int).drop_first() =~= ks.skip(i + 1));
        assert(ks.skip(i as int)[0] == keys@[i as int]@);
        match envelope_row(doc, props, keys[i]) {
            None => return None,
            Some(Some(x)) => return Some(x),
            Some(None) => {},
        }
        i = i + 1;
    }
    assert(ks.skip(i as int) =~= Seq::<Seq<char>>::empty());
    Some(RowSchemaExec { row: schema, response_path: None, object_path: None })
}

// ---------------------------------------------------------------------------
// The response of an operation
// ---------------------------------------------------------------------------

/// The lowest (by `str` order) key that starts with `2`.
pub open spec fn lowest_success_key(keys: Seq<Seq<char>>) -> Option<Seq<char>>
    decreases keys.len(),
{
    if keys.len() == 0 {
        None
    } else {
        let rest = lowest_success_key(keys.drop_last());
        let k = keys.last();
        if k.len() > 0 && k[0] == '2' {
            match rest {
                Some(r) => if crate::sorting::lex_lt(k, r) {
                    Some(k)
                } else {
                    Some(r)
                },
                None => Some(k),
            }
        } else {
            rest
        }
    }
}

pub open spec fn preferred_codes() -> Seq<Seq<char>> {
    seq!["200"@, "201"@, "202"@, "2XX"@, "default"@]
}

/// The first of the preferred codes that the responses have.
pub open spec fn first_present(responses: Members, codes: Seq<Seq<char>>) -> Option<JsonV>
    decreases codes.len(),
{
    if codes.len() == 0 {
        None
    } else {
        match crate::json::members_get(responses, codes[0]) {
            Some(v) => Some(v),
            None => first_present(responses, codes.drop_first()),
        }
    }
}

pub open spec fn is_json_media(name: Seq<char>) -> bool {
    crate::text::eq_ignore_case(name, "application/json"@) || crate::text::ends_with(name, "+json"@)
}

/// The first JSON media type of a `content` object.
pub open spec fn first_json_media(content: Members) -> Option<JsonV>
    decreases content.len(),
{
    if content.len() == 0 {
        None
    } else if is_json_media(content[0].0) {
        Some(content[0].1)
    } else {
        first_json_media(content.drop_first())
    }
}

/// The first JSON media type of a `content` object, or else its first entry.
pub open spec fn json_media(content: Members) -> Option<JsonV> {
    match first_json_media(content) {
        Some(m) => Some(m),
        None => if content.len() > 0 {
            Some(content[0].1)
        } else {
            None
        },
    }
}

/// `response_schema`: the schema of the operation's success response: the
/// first of `200`, `201`, `202`, `2XX` and `default`, or else the lowest
/// `2..` code; its JSON media type, or else its first one.
pub open spec fn response_schema_spec(doc: JsonV, operation: Members) -> Option<JsonV> {
    match crate::json::members_get(operation, "responses"@) {
        Some(JsonV::Object(responses)) => {
            let chosen = match first_present(responses, preferred_codes()) {
                Some(v) => Some(v),
                None => match lowest_success_key(
                    responses.map_values(|m: (Seq<char>, JsonV)| m.0),
                ) {
                    Some(k) => crate::json::members_get(responses, k),
                    None => None,
                },
            };
            match chosen {
                None => None,
                Some(response) => match crate::json::get(
                    resolve_ref_spec(doc, response, 0, Seq::empty()),
                    "content"@,
                ) {
                    Some(JsonV::Object(content)) => match json_media(content) {
                        Some(media) => crate::json::get(media, "schema"@),
                        None => None,
                    },
                    _ => None,
                },
            }
        },
        _ => None,
    }
}

fn lowest_success_key_exec(responses: &Vec<(String, Json)>) -> (r: Option<String>)
    ensures
        crate::options::opt_str(r) == lowest_success_key(
            crate::json::members_view(responses@).map_values(|m: (Seq<char>, JsonV)| m.0),
        ),
{
    proof {
        crate::json::lemma_members_view(responses@);
    }
    let ghost ks = crate::json::members_view(responses@).map_values(|m: (Seq<char>, JsonV)| m.0);
    let mut best: Option<String> = None;
    let mut i: usize = 0;
    assert(ks.take(0) =~= Seq::<Seq<char>>::empty());
    while i < responses.len()
        invariant
            i <= responses.len(),
            ks == crate::json::members_view(responses@).map_values(|m: (Seq<char>, JsonV)| m.0),
            ks.len() == responses.len(),
            forall|k: int| 0 <= k < responses@.len() ==> #[trigger] ks[k] == responses@[k].0@,
            crate::options::opt_str(best) == lowest_success_key(ks.take(i as int)),
        decreases responses.len() - i,
    {
        assert(ks.take(i + 1).drop_last() =~= ks.take(i as int));
        assert(ks.take(i + 1).last() == responses@[i as int].0@);
        let k = chars_of(responses[i].0.as_str());
        if k.len() > 0 && k[0] == '2' {
            let replace = match &best {
                Some(b) => {
                    let bc = chars_of(b.as_str());
                    crate::sorting::lex_lt_exec(&k, &bc)
                },
                None => true,
            };
            if replace {
                best = Some(responses[i].0.clone());
            }
        }
        i = i + 1;
    }
    assert(ks.take(responses.len() as int) =~= ks);
    best
}

fn first_present_exec<'a>(responses: &'a Vec<(String, Json)>) -> (r: Option<&'a Json>)
    ensures
        match r {
            Some(x) => first_present(crate::json::members_view(responses@), preferred_codes())
                == Some(x@),
            None => first_present(crate::json::members_view(responses@), preferred_codes()) is None,
        },
{
    proof {
        reveal_with_fuel(first_present, 6);
    }
    let ghost ms = crate::json::members_view(responses@);
    let ghost c = preferred_codes();
    assert(c.drop_first() =~= seq!["201"@, "202"@, "2XX"@, "default"@]);
    assert(c.drop_first().drop_first() =~= seq!["202"@, "2XX"@, "default"@]);
    assert(c.drop_first().drop_first().drop_first() =~= seq!["2XX"@, "default"@]);
    assert(c.drop_first().drop_first().drop_first().drop_first() =~= seq!["default"@]);
    assert(seq!["default"@].drop_first() =~= Seq::<Seq<char>>::empty());
    match crate::json::find_member(responses, "200") {
        Some(x) => return Some(x),
        None => {},
    }
    match crate::json::find_member(responses, "201") {
        Some(x) => return Some(x),
        None => {},
    }
    match crate::json::find_member(responses, "202") {
        Some(x) => return Some(x),
        None => {},
    }
    match crate::json::find_member(responses, "2XX") {
        Some(x) => return Some(x),
        None => {},
    }
    crate::json::find_member(responses, "default")
}

fn is_json_media_exec(name: &str) -> (r: bool)
    ensures
        r == is_json_media(name@),
{
    let n = chars_of(name);
    let target = chars_of("application/json");
    crate::text::eq_ignore_case_exec(&n, &target) || crate::text::ends_with_str(&n, "+json")
}

fn json_media_exec<'a>(content: &'a Vec<(String, Json)>) -> (r: Option<&'a Json>)
    ensures
        match r {
            Some(x) => json_media(crate::json::members_view(content@)) == Some(x@),
            None => json_media(crate::json::members_view(content@)) is None,
        },
{
    proof {
        crate::json::lemma_members_view(content@);
    }
    let ghost cv = crate::json::members_view(content@);
    if content.len() == 0 {
        return None;
    }
    let mut i: usize = 0;
    assert(cv.skip(0) =~= cv);
    while i < content.len()
        invariant
            0 < content.len(),
            i <= content.len(),
            cv == crate::json::members_view(content@),
            cv.len() == content.len(),
            forall|k: int| 0 <= k < content@.len() ==> #[trigger] cv[k] == (
                content@[k].0@,
                content@[k].1.view_of(),
            ),
            forall|k: int| 0 <= k < i ==> !is_json_media(#[trigger] cv[k].0),
        decreases content.len() - i,
    {
        if is_json_media_exec(content[i].0.as_str()) {
            proof {
                lemma_json_media_first(cv, i as int);
            }
            return Some(&content[i].1);
        }
        i = i + 1;
    }
    proof {
        lemma_json_media_none(cv);
    }
    Some(&content[0].1)
}

proof fn lemma_json_media_first(cv: Members, i: int)
    requires
        0 <= i < cv.len(),
        forall|k: int| 0 <= k < i ==> !is_json_media(#[trigger] cv[k].0),
        is_json_media(cv[i].0),
    ensures
        first_json_media(cv) == Some(cv[i].1),
    decreases i,
{
    if i > 0 {
        assert forall|k: int| 0 <= k < i - 1 implies !is_json_media(#[trigger] cv.drop_first()[k].0) by {
            assert(cv.drop_first()[k] == cv[k + 1]);
        }
        lemma_json_media_first(cv.drop_first(), i - 1);
        assert(!is_json_media(cv[0].0));
    }
}

proof fn lemma_json_media_none(cv: Members)
    requires
        forall|k: int| 0 <= k < cv.len() ==> !is_json_media(#[trigger] cv[k].0),
    ensures
        first_json_media(cv) is None,
    decreases cv.len(),
{
    if cv.len() > 0 {
        assert forall|k: int| 0 <= k < cv.drop_first().len() implies !is_json_media(
            #[trigger] cv.drop_first()[k].0,
        ) by {
            assert(cv.drop_first()[k] == cv[k + 1]);
        }
        lemma_json_media_none(cv.drop_first());
        assert(!is_json_media(cv[0].0));
    }
}

pub fn response_schema(doc: &Json, operation: &Vec<(String, Json)>) -> (r: Option<Json>)
    ensures
        opt_view(r) == response_schema_spec(doc@, crate::json::members_view(operation@)),
{
    let responses = match crate::json::find_member(operation, "responses") {
        Some(Json::Object(rs)) => rs,
        _ => return None,
    };
    let chosen: Option<&Json> = match first_present_exec(responses) {
        Some(v) => Some(v),
        None => match lowest_success_key_exec(responses) {
            Some(k) => crate::json::find_member(responses, k.as_str()),
            None => None,
        },
    };
    let response = match chosen {
        Some(v) => v,
        None => return None,
    };
    let mut seen: Vec<String> = Vec::new();
    assert(crate::sorting::views(seen@) =~= Seq::<Seq<char>>::empty());
    let resolved = resolve_ref(doc, response, 0, &mut seen);
    let content = match resolved.get_str("content") {
        Some(Json::Object(c)) => c,
        _ => return None,
    };
    match json_media_exec(content) {
        Some(media) => match media.get_str("schema") {
            Some(schema) => Some(schema.copy()),
            None => None,
        },
        None => None,
    }
}

// ---------------------------------------------------------------------------
// Request bodies
// ---------------------------------------------------------------------------

/// The names of members, in order.
pub open spec fn member_names(ms: Members) -> Seq<Seq<char>>
    decreases ms.len(),
{
    if ms.len() == 0 {
        Seq::empty()
    } else {
        member_names(ms.drop_last()).push(ms.last().0)
    }
}

/// The property names of an operation's request body schema: its JSON media
/// type (or else its first one), resolved through `$ref`s; none without a
/// body, a schema or `properties`.
pub open spec fn request_properties_spec(doc: JsonV, operation: JsonV) -> Seq<Seq<char>> {
    match crate::json::get(operation, "requestBody"@) {
        None => Seq::empty(),
        Some(body) => match crate::json::get(resolve_ref_spec(doc, body, 0, Seq::empty()), "content"@) {
            Some(JsonV::Object(content)) => match json_media(content) {
                None => Seq::empty(),
                Some(media) => match crate::json::get(media, "schema"@) {
                    None => Seq::empty(),
                    Some(schema) => match resolved(doc, schema) {
                        Some(s) => match crate::json::get(s, "properties"@) {
                            Some(JsonV::Object(props)) => member_names(props),
                            _ => Seq::empty(),
                        },
                        None => Seq::empty(),
                    },
                },
            },
            _ => Seq::empty(),
        },
    }
}

fn member_names_exec(ms: &Vec<(String, Json)>) -> (r: Vec<String>)
    ensures
        crate::sorting::views(r@) == member_names(crate::json::members_view(ms@)),
{
    proof {
        crate::json::lemma_members_view(ms@);
    }
    let ghost mv = crate::json::members_view(ms@);
    let mut out: Vec<String> = Vec::new();
    let mut i: usize = 0;
    assert(mv.take(0) =~= Seq::<(Seq<char>, JsonV)>::empty());
    assert(crate::sorting::views(out@) =~= Seq::<Seq<char>>::empty());
    while i < ms.len()
        invariant
            i <= ms.len(),
            mv == crate::json::members_view(ms@),
            mv.len() == ms@.len(),
            forall|k: int|
                0 <= k < ms@.len() ==> #[trigger] mv[k] == (ms@[k].0@, ms@[k].1.view_of()),
            crate::sorting::views(out@) == member_names(mv.take(i as int)),
        decreases ms.len() - i,
    {
        assert(mv.take(i + 1).drop_last() =~= mv.take(i as int));
        assert(mv.take(i + 1).last() == mv[i as int]);
        let ghost before = out@;
        out.push(ms[i].0.clone());
        assert(crate::sorting::views(out@) =~= crate::sorting::views(before).push(ms@[i as int].0@));
        i = i + 1;
    }
    assert(mv.take(i as int) =~= mv);
    out
}

/// The property names of an operation's request body schema (see
/// `request_properties_spec`).
pub fn request_properties(doc: &Json, operation: &Json) -> (r: Vec<String>)
    ensures
        crate::sorting::views(r@) == request_properties_spec(doc@, operation@),
{
    let none: Vec<String> = Vec::new();
    assert(crate::sorting::views(none@) =~= Seq::<Seq<char>>::empty());
    let body = match operation.get_str("requestBody") {
        Some(b) => b,
        None => return none,
    };
    let mut seen: Vec<String> = Vec::new();
    assert(crate::sorting::views(seen@) =~= Seq::<Seq<char>>::empty());
    let body = resolve_ref(doc, body, 0, &mut seen);
    let content = match body.get_str("content") {
        Some(Json::Object(c)) => c,
        _ => return none,
    };
    let media = match json_media_exec(content) {
        Some(m) => m,
        None => return none,
    };
    let schema = match media.get_str("schema") {
        Some(s) => s,
        None => return none,
    };
    let s = match resolve_fresh(doc, schema) {
        Some(s) => s,
        None => return none,
    };
    match s.get_str("properties") {
        Some(Json::Object(props)) => member_names_exec(props),
        _ => none,
    }
}

// ---------------------------------------------------------------------------
// Columns
// ---------------------------------------------------------------------------

/// Where a member goes in a list ordered by name: after every member whose
/// name is not above its own (a stable insertion).
pub open spec fn key_position(sorted: Members, name: Seq<char>) -> int
    decreases sorted.len(),
{
    if sorted.len() == 0 {
        0
    } else if crate::sorting::lex_lt(name, sorted[0].0) {
        0
    } else {
        1 + key_position(sorted.drop_first(), name)
    }
}

/// Members ordered by name, stably (`sort_by_key` on the name).
pub open spec fn sort_by_key(ms: Members) -> Members
    decreases ms.len(),
{
    if ms.len() == 0 {
        Seq::empty()
    } else {
        let s = sort_by_key(ms.drop_last());
        s.insert(key_position(s, ms.last().0), ms.last())
    }
}

proof fn lemma_key_position_bound(sorted: Members, name: Seq<char>)
    ensures
        0 <= key_position(sorted, name) <= sorted.len(),
    decreases sorted.len(),
{
    if sorted.len() > 0 {
        lemma_key_position_bound(sorted.drop_first(), name);
    }
}

proof fn lemma_sort_len(ms: Members)
    ensures
        sort_by_key(ms).len() == ms.len(),
    decreases ms.len(),
{
    if ms.len() > 0 {
        lemma_sort_len(ms.drop_last());
        lemma_key_position_bound(sort_by_key(ms.drop_last()), ms.last().0);
    }
}

fn sort_members(ms: &Vec<(String, Json)>) -> (r: Vec<(String, Json)>)
    ensures
        crate::json::members_view(r@) == sort_by_key(crate::json::members_view(ms@)),
{
    proof {
        crate::json::lemma_members_view(ms@);
    }
    let ghost mv = crate::json::members_view(ms@);
    let mut out: Vec<(String, Json)> = Vec::new();
    let mut i: usize = 0;
    assert(crate::json::members_view(out@) =~= sort_by_key(mv.take(0)));
    while i < ms.len()
        invariant
            i <= ms.len(),
            mv == crate::json::members_view(ms@),
            mv.len() == ms.len(),
            forall|k: int| 0 <= k < ms@.len() ==> #[trigger] mv[k] == (ms@[k].0@, ms@[k].1.view_of()),
            crate::json::members_view(out@) == sort_by_key(mv.take(i as int)),
        decreases ms.len() - i,
    {
        assert(mv.take(i + 1).drop_last() =~= mv.take(i as int));
        assert(mv.take(i + 1).last() == mv[i as int]);
        let ghost sorted = crate::json::members_view(out@);
        proof {
            crate::json::lemma_members_view(out@);
            lemma_key_position_bound(sorted, mv[i as int].0);
        }
        let name = chars_of(ms[i].0.as_str());
        let mut j: usize = 0;
        assert(sorted.skip(0) =~= sorted);
        while j < out.len()
            invariant
                j <= out.len(),
                sorted == crate::json::members_view(out@),
                sorted.len() == out.len(),
                forall|k: int| 0 <= k < out@.len() ==> #[trigger] sorted[k] == (
                    out@[k].0@,
                    out@[k].1.view_of(),
                ),
                name@ == mv[i as int].0,
                i < ms.len(),
                mv == crate::json::members_view(ms@),
                key_position(sorted, name@) == j + key_position(sorted.skip(j as int), name@),
            ensures
                j <= out.len(),
                sorted == crate::json::members_view(out@),
                key_position(sorted, name@) == j,
            decreases out.len() - j,
        {
            let e = chars_of(out[j].0.as_str());
            assert(sorted.skip(j as int)[0] == sorted[j as int]);
            if crate::sorting::lex_lt_exec(&name, &e) {
                break;
            }
            assert(sorted.skip(j as int).drop_first() =~= sorted.skip(j + 1));
            j = j + 1;
        }
        let m = (ms[i].0.clone(), ms[i].1.copy());
        let ghost before = out@;
        out.insert(j, m);
        proof {
            crate::json::lemma_members_view(out@);
            crate::json::lemma_members_view(before);
            assert(crate::json::members_view(out@) =~= sorted.insert(j as int, mv[i as int])) by {
                assert forall|k: int| 0 <= k < out@.len() implies crate::json::members_view(out@)[k]
                    == sorted.insert(j as int, mv[i as int])[k] by {
                    if k < j {
                        assert(out@[k] == before[k]);
                    } else if k > j {
                        assert(out@[k] == before[k - 1]);
                    }
                }
            }
        }
        i = i + 1;
    }
    assert(mv.take(ms.len() as int) =~= mv);
    out
}

pub struct ColumnV {
    pub name: Seq<char>,
    pub json_name: Seq<char>,
    pub pg_type: Seq<char>,
}

pub open spec fn column_view(c: ImportedColumn) -> ColumnV {
    ColumnV { name: c.name@, json_name: c.json_name@, pg_type: c.pg_type@ }
}

pub open spec fn columns_view(cs: Seq<ImportedColumn>) -> Seq<ColumnV> {
    cs.map_values(|c: ImportedColumn| column_view(c))
}

pub open spec fn write_only(schema: JsonV) -> bool {
    crate::json::as_bool(crate::json::get(schema, "writeOnly"@)) == Some(true)
}

/// The columns of the properties from the first on, numbering repeated
/// names after the bases already used.
pub open spec fn property_columns(doc: JsonV, props: Members, bases: Seq<Seq<char>>) -> Option<
    Seq<ColumnV>,
>
    decreases props.len(),
{
    if props.len() == 0 {
        Some(Seq::empty())
    } else if write_only(props[0].1) {
        property_columns(doc, props.drop_first(), bases)
    } else {
        let base = identifier_base(sanitize_spec(props[0].0), "field"@);
        let used = bases.push(base);
        match resolved(doc, props[0].1) {
            None => None,
            Some(r) => match property_columns(doc, props.drop_first(), used) {
                None => None,
                Some(rest) => Some(
                    seq![
                        ColumnV {
                            name: numbered(base, occurrences(used, base)),
                            json_name: props[0].0,
                            pg_type: postgres_type_spec(r),
                        },
                    ] + rest,
                ),
            },
        }
    }
}

/// `columns_from_schema`: one column per property that is not `writeOnly`,
/// by property name, with unique snake-case names. `None` where a merge fails.
pub open spec fn columns_from_schema_spec(doc: JsonV, raw: JsonV) -> Option<Seq<ColumnV>> {
    match resolved(doc, raw) {
        None => None,
        Some(schema) => match crate::json::get(schema, "properties"@) {
            Some(JsonV::Object(ps)) => property_columns(doc, sort_by_key(ps), Seq::empty()),
            _ => Some(Seq::empty()),
        },
    }
}

/// The column of one property: its unique name (counted in `seen`), its
/// JSON name and the type of its resolved schema.
fn property_column(doc: &Json, json_name: &String, schema: &Json, seen: &mut NameCounts) -> (r:
    Option<ImportedColumn>)
    ensures
        ({
            let base = identifier_base(sanitize_spec(json_name@), "field"@);
            &&& final(seen).count(base) == old(seen).count(base) + 1
            &&& forall|other: Seq<char>|
                other != base ==> #[trigger] final(seen).count(other) == old(seen).count(other)
            &&& match r {
                Some(c) => resolved(doc@, schema@) is Some && column_view(c) == ColumnV {
                    name: numbered(base, final(seen).count(base)),
                    json_name: json_name@,
                    pg_type: postgres_type_spec(resolved(doc@, schema@)->0),
                },
                None => resolved(doc@, schema@) is None,
            }
        }),
{
    let name_raw = sanitize_identifier(json_name.as_str());
    proof {
        lemma_sanitized_is_identifier(json_name@);
        reveal_strlit("field");
    }
    let name = unique_identifier(name_raw, "field", seen);
    let resolved_schema = match resolve_fresh(doc, schema) {
        Some(r) => r,
        None => return None,
    };
    let pg_type = postgres_type(&resolved_schema);
    Some(ImportedColumn { name, json_name: json_name.clone(), pg_type })
}

pub fn columns_from_schema(doc: &Json, raw: &Json) -> (r: Option<Vec<ImportedColumn>>)
    ensures
        match r {
            Some(cs) => columns_from_schema_spec(doc@, raw@) == Some(columns_view(cs@)),
            None => columns_from_schema_spec(doc@, raw@) is None,
        },
{
    let schema = match resolve_fresh(doc, raw) {
        Some(s) => s,
        None => return None,
    };
    let props = match schema.get_str("properties") {
        Some(Json::Object(p)) => p,
        _ => {
            let v: Vec<ImportedColumn> = Vec::new();
            assert(columns_view(v@) =~= Seq::<ColumnV>::empty());
            return Some(v);
        },
    };
    let sorted = sort_members(props);
    proof {
        crate::json::lemma_members_view(sorted@);
    }
    let ghost sv = crate::json::members_view(sorted@);
    let mut seen = NameCounts::new();
    let ghost mut bases: Seq<Seq<char>> = Seq::empty();
    let mut out: Vec<ImportedColumn> = Vec::new();
    let mut i: usize = 0;
    assert(sv.skip(0) =~= sv);
    assert(columns_view(out@) =~= Seq::<ColumnV>::empty());
    assert(columns_from_schema_spec(doc@, raw@) == property_columns(doc@, sv, Seq::empty()));
    while i < sorted.len()
        invariant
            i <= sorted.len(),
            columns_from_schema_spec(doc@, raw@) == property_columns(doc@, sv, Seq::empty()),
            sv == crate::json::members_view(sorted@),
            sv.len() == sorted.len(),
            forall|k: int| 0 <= k < sorted@.len() ==> #[trigger] sv[k] == (
                sorted@[k].0@,
                sorted@[k].1.view_of(),
            ),
            forall|x: Seq<char>| #[trigger] seen.count(x) == occurrences(bases, x),
            property_columns(doc@, sv, Seq::empty()) == match property_columns(
                doc@,
                sv.skip(i as int),
                bases,
            ) {
                Some(rest) => Some(columns_view(out@) + rest),
                None => None,
            },
        decreases sorted.len() - i,
    {
        assert(sv.skip(i as int).drop_first() =~= sv.skip(i + 1));
        assert(sv.skip(i as int)[0] == sv[i as int]);
        let skip = match sorted[i].1.get_str("writeOnly") {
            Some(Json::Bool(true)) => true,
            _ => false,
        };
        if !skip {
            let ghost old_bases = bases;
            let column = match property_column(doc, &sorted[i].0, &sorted[i].1, &mut seen) {
                Some(c) => c,
                None => return None,
            };
            proof {
                let base = identifier_base(sanitize_spec(sorted@[i as int].0@), "field"@);
                bases = bases.push(base);
                assert(bases.drop_last() =~= old_bases);
            }
            let ghost before = out@;
            out.push(column);
            proof {
                assert(columns_view(out@) =~= columns_view(before).push(column_view(column)));
                match property_columns(doc@, sv.skip(i + 1), bases) {
                    Some(rest) => {
                        assert(columns_view(before) + (seq![column_view(column)] + rest)
                            =~= columns_view(out@) + rest);
                    },
                    None => {},
                }
            }
        }
        i = i + 1;
    }
    assert(sv.skip(i as int) =~= Seq::<(Seq<char>, JsonV)>::empty());
    assert(columns_view(out@) + Seq::<ColumnV>::empty() =~= columns_view(out@));
    Some(out)
}

// ---------------------------------------------------------------------------
// Path parameters
// ---------------------------------------------------------------------------

pub open spec fn name_index(cols: Seq<ColumnV>, name: Seq<char>) -> int
    decreases cols.len(),
{
    if cols.len() == 0 {
        0
    } else if cols[0].name == name {
        0
    } else {
        1 + name_index(cols.drop_first(), name)
    }
}

pub open spec fn name_position(cols: Seq<ColumnV>, name: Seq<char>) -> int
    decreases cols.len(),
{
    if cols.len() == 0 {
        0
    } else if crate::sorting::lex_lt(name, cols[0].name) {
        0
    } else {
        1 + name_position(cols.drop_first(), name)
    }
}

proof fn lemma_name_index(cols: Seq<ColumnV>, name: Seq<char>)
    ensures
        0 <= name_index(cols, name) <= cols.len(),
        0 <= name_position(cols, name) <= cols.len(),
    decreases cols.len(),
{
    if cols.len() > 0 {
        lemma_name_index(cols.drop_first(), name);
    }
}

/// `BTreeMap::insert` keyed by column name: a column of the same name is
/// replaced, another one goes in name order.
pub open spec fn keyed_insert(cols: Seq<ColumnV>, c: ColumnV) -> Seq<ColumnV> {
    let i = name_index(cols, c.name);
    if i < cols.len() {
        cols.update(i, c)
    } else {
        cols.insert(name_position(cols, c.name), c)
    }
}

/// The column of one parameter: `Some(None)` unless it is a path parameter
/// with a name that no existing column has; `None` where a merge fails.
pub open spec fn param_column(doc: JsonV, parameter: JsonV, existing: Seq<Seq<char>>) -> Option<
    Option<ColumnV>,
> {
    let p = resolve_ref_spec(doc, parameter, 0, Seq::empty());
    if crate::json::as_str(crate::json::get(p, "in"@)) != Some("path"@) {
        Some(None)
    } else {
        match crate::json::as_str(crate::json::get(p, "name"@)) {
            None => Some(None),
            Some(json_name) => {
                let sanitized = sanitize_spec(json_name);
                let name = if sanitized.len() == 0 {
                    "parameter"@
                } else {
                    sanitized
                };
                if existing.contains(name) {
                    Some(None)
                } else {
                    match crate::json::get(p, "schema"@) {
                        Some(schema) => match resolved(doc, schema) {
                            None => None,
                            Some(r) => Some(
                                Some(ColumnV { name, json_name, pg_type: postgres_type_spec(r) }),
                            ),
                        },
                        None => Some(Some(ColumnV { name, json_name, pg_type: "text"@ })),
                    }
                }
            },
        }
    }
}

pub open spec fn param_fold(doc: JsonV, params: Seq<JsonV>, existing: Seq<Seq<char>>, acc: Seq<ColumnV>) -> Option<
    Seq<ColumnV>,
>
    decreases params.len(),
{
    if params.len() == 0 {
        Some(acc)
    } else {
        match param_column(doc, params[0], existing) {
            None => None,
            Some(None) => param_fold(doc, params.drop_first(), existing, acc),
            Some(Some(c)) => param_fold(doc, params.drop_first(), existing, keyed_insert(acc, c)),
        }
    }
}

pub open spec fn array_items_of(v: Option<JsonV>) -> Seq<JsonV> {
    match v {
        Some(JsonV::Array(items)) => items,
        _ => Seq::empty(),
    }
}

/// `path_parameter_columns`: a column per path parameter of the path item and
/// then the operation, by name, skipping names the schema's columns have.
pub open spec fn path_parameter_columns_spec(
    doc: JsonV,
    path_parameters: Option<JsonV>,
    operation_parameters: Option<JsonV>,
    existing: Seq<Seq<char>>,
) -> Option<Seq<ColumnV>> {
    param_fold(
        doc,
        array_items_of(path_parameters) + array_items_of(operation_parameters),
        existing,
        Seq::empty(),
    )
}

fn param_column_exec(doc: &Json, parameter: &Json, existing: &Vec<ImportedColumn>) -> (r: Option<
    Option<ImportedColumn>,
>)
    ensures
        match r {
            None => param_column(doc@, parameter@, column_names(existing@)) is None,
            Some(None) => param_column(doc@, parameter@, column_names(existing@)) == Some(
                None::<ColumnV>,
            ),
            Some(Some(c)) => param_column(doc@, parameter@, column_names(existing@)) == Some(
                Some(column_view(c)),
            ),
        },
{
    let mut seen: Vec<String> = Vec::new();
    assert(crate::sorting::views(seen@) =~= Seq::<Seq<char>>::empty());
    let p = resolve_ref(doc, parameter, 0, &mut seen);
    let is_path = match p.get_str("in") {
        Some(Json::Str(v)) => crate::text::str_eq(v.as_str(), "path"),
        _ => false,
    };
    if !is_path {
        return Some(None);
    }
    let json_name = match p.get_str("name") {
        Some(Json::Str(v)) => v,
        _ => return Some(None),
    };
    let sanitized = sanitize_identifier(json_name.as_str());
    let name = if sanitized.as_str().is_empty() {
        crate::text::str_to_string("parameter")
    } else {
        sanitized
    };
    let nc = chars_of(name.as_str());
    if name_used(existing, &nc) {
        return Some(None);
    }
    let pg_type: &'static str = match p.get_str("schema") {
        Some(schema) => match resolve_fresh(doc, schema) {
            Some(r) => postgres_type(&r),
            None => return None,
        },
        None => "text",
    };
    Some(Some(ImportedColumn { name, json_name: json_name.clone(), pg_type }))
}

fn keyed_insert_exec(cols: &mut Vec<ImportedColumn>, c: ImportedColumn)
    ensures
        columns_view(final(cols)@) == keyed_insert(columns_view(old(cols)@), column_view(c)),
{
    let ghost cv = columns_view(cols@);
    proof {
        lemma_name_index(cv, c.name@);
    }
    let name = chars_of(c.name.as_str());
    let mut i: usize = 0;
    assert(cv.skip(0) =~= cv);
    while i < cols.len()
        invariant
            i <= cols.len(),
            cv == columns_view(cols@),
            cv.len() == cols.len(),
            name@ == c.name@,
            name_index(cv, c.name@) == i + name_index(cv.skip(i as int), c.name@),
            forall|k: int| 0 <= k < i ==> cv[k].name != c.name@,
        ensures
            i <= cols.len(),
            cv == columns_view(cols@),
            name_index(cv, c.name@) == i,
        decreases cols.len() - i,
    {
        let e = chars_of(cols[i].name.as_str());
        assert(cv.skip(i as int)[0] == cv[i as int]);
        if crate::text::seq_eq(&e, &name) {
            break;
        }
        assert(cv.skip(i as int).drop_first() =~= cv.skip(i + 1));
        i = i + 1;
    }
    if i < cols.len() {
        let ghost before = cols@;
        cols.set(i, c);
        assert(columns_view(cols@) =~= cv.update(i as int, column_view(c)));
        return;
    }
    let mut j: usize = 0;
    assert(cv.skip(0) =~= cv);
    while j < cols.len()
        invariant
            j <= cols.len(),
            cv == columns_view(cols@),
            cv.len() == cols.len(),
            name@ == c.name@,
            name_position(cv, c.name@) == j + name_position(cv.skip(j as int), c.name@),
        ensures
            j <= cols.len(),
            cv == columns_view(cols@),
            name_position(cv, c.name@) == j,
        decreases cols.len() - j,
    {
        let e = chars_of(cols[j].name.as_str());
        assert(cv.skip(j as int)[0] == cv[j as int]);
        if crate::sorting::lex_lt_exec(&name, &e) {
            break;
        }
        assert(cv.skip(j as int).drop_first() =~= cv.skip(j + 1));
        j = j + 1;
    }
    let ghost cc = column_view(c);
    cols.insert(j, c);
    assert(columns_view(cols@) =~= cv.insert(j as int, cc));
}

pub fn path_parameter_columns(
    doc: &Json,
    path_parameters: Option<&Json>,
    operation_parameters: Option<&Json>,
    existing: &Vec<ImportedColumn>,
) -> (r: Option<Vec<ImportedColumn>>)
    ensures
        ({
            let pp = match path_parameters {
                Some(j) => Some(j@),
                None => None,
            };
            let op = match operation_parameters {
                Some(j) => Some(j@),
                None => None,
            };
            match r {
                Some(cs) => path_parameter_columns_spec(doc@, pp, op, column_names(existing@)) == Some(
                    columns_view(cs@),
                ),
                None => path_parameter_columns_spec(doc@, pp, op, column_names(existing@)) is None,
            }
        }),
{
    let ghost pv = array_items_of(
        match path_parameters {
            Some(j) => Some(j@),
            None => None,
        },
    );
    let ghost ov = array_items_of(
        match operation_parameters {
            Some(j) => Some(j@),
            None => None,
        },
    );
    let ghost all = pv + ov;
    let ghost pp = match path_parameters {
        Some(j) => Some(j@),
        None => None,
    };
    let ghost op = match operation_parameters {
        Some(j) => Some(j@),
        None => None,
    };
    assert(path_parameter_columns_spec(doc@, pp, op, column_names(existing@)) == param_fold(
        doc@,
        all,
        column_names(existing@),
        Seq::empty(),
    ));
    let mut params: Vec<&Json> = Vec::new();
    match path_parameters {
        Some(Json::Array(items)) => {
            proof {
                crate::json::lemma_items_view(items@);
            }
            let mut i: usize = 0;
            while i < items.len()
                invariant
                    i <= items.len(),
                    pv == crate::json::items_view(items@),
                    pv.len() == items.len(),
                    forall|k: int| 0 <= k < items@.len() ==> #[trigger] pv[k] == items@[k].view_of(),
                    params@.len() == i,
                    forall|k: int| 0 <= k < i ==> #[trigger] params@[k]@ == pv[k],
                decreases items.len() - i,
            {
                params.push(&items[i]);
                i = i + 1;
            }
        },
        _ => {},
    }
    assert(params@.len() == pv.len());
    let n1 = params.len();
    match operation_parameters {
        Some(Json::Array(items)) => {
            proof {
                crate::json::lemma_items_view(items@);
            }
            let mut i: usize = 0;
            while i < items.len()
                invariant
                    i <= items.len(),
                    ov == crate::json::items_view(items@),
                    ov.len() == items.len(),
                    forall|k: int| 0 <= k < items@.len() ==> #[trigger] ov[k] == items@[k].view_of(),
                    n1 == pv.len(),
                    params@.len() == n1 + i,
                    forall|k: int| 0 <= k < n1 ==> #[trigger] params@[k]@ == pv[k],
                    forall|k: int| 0 <= k < i ==> #[trigger] params@[n1 + k]@ == ov[k],
                decreases items.len() - i,
            {
                params.push(&items[i]);
                i = i + 1;
            }
        },
        _ => {},
    }
    assert(params@.map_values(|p: &Json| p@) =~= all) by {
        assert forall|k: int| 0 <= k < all.len() implies params@.map_values(|p: &Json| p@)[k] == all[k] by {
            if k >= n1 {
                assert(params@[n1 + (k - n1)]@ == ov[k - n1]);
            }
        }
    }
    let mut out: Vec<ImportedColumn> = Vec::new();
    let mut i: usize = 0;
    assert(all.skip(0) =~= all);
    assert(columns_view(out@) =~= Seq::<ColumnV>::empty());
    while i < params.len()
        invariant
            i <= params.len(),
            params@.map_values(|p: &Json| p@) == all,
            all.len() == params.len(),
            pp == match path_parameters {
                Some(j) => Some(j@),
                None => None,
            },
            op == match operation_parameters {
                Some(j) => Some(j@),
                None => None,
            },
            path_parameter_columns_spec(doc@, pp, op, column_names(existing@)) == param_fold(
                doc@,
                all,
                column_names(existing@),
                Seq::empty(),
            ),
            param_fold(doc@, all, column_names(existing@), Seq::empty()) == param_fold(
                doc@,
                all.skip(i as int),
                column_names(existing@),
                columns_view(out@),
            ),
        decreases params.len() - i,
    {
        assert(all.skip(i as int).drop_first() =~= all.skip(i + 1));
        assert(all.skip(i as int)[0] == params@[i as int]@);
        match param_column_exec(doc, params[i], existing) {
            None => return None,
            Some(None) => {},
            Some(Some(c)) => keyed_insert_exec(&mut out, c),
        }
        i = i + 1;
    }
    assert(all.skip(i as int) =~= Seq::<JsonV>::empty());
    Some(out)
}

// ---------------------------------------------------------------------------
// Endpoints
// ---------------------------------------------------------------------------

/// The column order of an imported table: `id` first, then by name.
pub open spec fn column_before(a: Seq<char>, b: Seq<char>) -> bool {
    (a == "id"@ && b != "id"@) || (a != "id"@ && b != "id"@ && crate::sorting::lex_lt(a, b))
}

pub open spec fn column_position(sorted: Seq<ColumnV>, name: Seq<char>) -> int
    decreases sorted.len(),
{
    if sorted.len() == 0 {
        0
    } else if column_before(name, sorted[0].name) {
        0
    } else {
        1 + column_position(sorted.drop_first(), name)
    }
}

/// The columns sorted stably in column order.
pub open spec fn sort_columns(cs: Seq<ColumnV>) -> Seq<ColumnV>
    decreases cs.len(),
{
    if cs.len() == 0 {
        Seq::empty()
    } else {
        let s = sort_columns(cs.drop_last());
        s.insert(column_position(s, cs.last().name), cs.last())
    }
}

proof fn lemma_column_position_bound(sorted: Seq<ColumnV>, name: Seq<char>)
    ensures
        0 <= column_position(sorted, name) <= sorted.len(),
    decreases sorted.len(),
{
    if sorted.len() > 0 {
        lemma_column_position_bound(sorted.drop_first(), name);
    }
}

fn column_before_exec(a: &Vec<char>, b: &Vec<char>) -> (r: bool)
    ensures
        r == column_before(a@, b@),
{
    let a_id = crate::text::seq_eq_str(a, "id");
    let b_id = crate::text::seq_eq_str(b, "id");
    (a_id && !b_id) || (!a_id && !b_id && crate::sorting::lex_lt_exec(a, b))
}

fn copy_column(c: &ImportedColumn) -> (r: ImportedColumn)
    ensures
        column_view(r) == column_view(*c),
{
    ImportedColumn { name: c.name.clone(), json_name: c.json_name.clone(), pg_type: c.pg_type }
}

fn sort_columns_exec(cs: &Vec<ImportedColumn>) -> (r: Vec<ImportedColumn>)
    ensures
        columns_view(r@) == sort_columns(columns_view(cs@)),
{
    let ghost cv = columns_view(cs@);
    let mut out: Vec<ImportedColumn> = Vec::new();
    let mut i: usize = 0;
    assert(columns_view(out@) =~= sort_columns(cv.take(0)));
    while i < cs.len()
        invariant
            i <= cs.len(),
            cv == columns_view(cs@),
            cv.len() == cs.len(),
            columns_view(out@) == sort_columns(cv.take(i as int)),
        decreases cs.len() - i,
    {
        assert(cv.take(i + 1).drop_last() =~= cv.take(i as int));
        assert(cv.take(i + 1).last() == cv[i as int]);
        let ghost sorted = columns_view(out@);
        proof {
            lemma_column_position_bound(sorted, cv[i as int].name);
        }
        let name = chars_of(cs[i].name.as_str());
        let mut j: usize = 0;
        assert(sorted.skip(0) =~= sorted);
        while j < out.len()
            invariant
                j <= out.len(),
                sorted == columns_view(out@),
                sorted.len() == out.len(),
                name@ == cv[i as int].name,
                i < cs.len(),
                cv == columns_view(cs@),
                column_position(sorted, name@) == j + column_position(sorted.skip(j as int), name@),
            ensures
                j <= out.len(),
                sorted == columns_view(out@),
                column_position(sorted, name@) == j,
            decreases out.len() - j,
        {
            let e = chars_of(out[j].name.as_str());
            assert(sorted.skip(j as int)[0] == sorted[j as int]);
            if column_before_exec(&name, &e) {
                break;
            }
            assert(sorted.skip(j as int).drop_first() =~= sorted.skip(j + 1));
            j = j + 1;
        }
        let c = copy_column(&cs[i]);
        let ghost before = out@;
        out.insert(j, c);
        assert(columns_view(out@) =~= sorted.insert(j as int, cv[i as int]));
        i = i + 1;
    }
    assert(cv.take(cs.len() as int) =~= cv);
    out
}

pub struct EndpointV {
    pub table_name: Seq<char>,
    pub endpoint: Seq<char>,
    pub method: Seq<char>,
    pub response_path: Option<Seq<char>>,
    pub object_path: Option<Seq<char>>,
    pub columns: Seq<ColumnV>,
}

pub open spec fn endpoint_view(e: ImportedEndpoint) -> EndpointV {
    EndpointV {
        table_name: e.table_name@,
        endpoint: e.endpoint@,
        method: e.method@,
        response_path: crate::options::opt_str(e.response_path),
        object_path: crate::options::opt_str(e.object_path),
        columns: columns_view(e.columns@),
    }
}

pub open spec fn endpoints_view(es: Seq<ImportedEndpoint>) -> Seq<EndpointV> {
    es.map_values(|e: ImportedEndpoint| endpoint_view(e))
}

/// Where rows are and which columns an operation gets: the response's row
/// schema, its properties, then its path parameters, in column order.
pub open spec fn operation_columns(doc: JsonV, path_object: Members, operation: Members) -> Option<
    (Option<Seq<char>>, Option<Seq<char>>, Seq<ColumnV>),
> {
    let rs = match response_schema_spec(doc, operation) {
        Some(schema) => row_schema_spec(doc, schema),
        None => Some(RowSchema { row: empty_obj(), response_path: None, object_path: None }),
    };
    match rs {
        None => None,
        Some(rs) => match columns_from_schema_spec(doc, rs.row) {
            None => None,
            Some(columns) => match path_parameter_columns_spec(
                doc,
                crate::json::members_get(path_object, "parameters"@),
                crate::json::members_get(operation, "parameters"@),
                columns.map_values(|c: ColumnV| c.name),
            ) {
                None => None,
                Some(params) => Some(
                    (rs.response_path, rs.object_path, sort_columns(columns + params)),
                ),
            },
        },
    }
}

/// The base of a table name: the operation id in snake case, or else the
/// path's name.
pub open spec fn raw_table_name(operation: Members, path: Seq<char>, method: Seq<char>) -> Seq<char> {
    match crate::json::as_str(crate::json::members_get(operation, "operationId"@)) {
        Some(id) => if sanitize_spec(id).len() > 0 {
            sanitize_spec(id)
        } else {
            table_name_from_path_spec(path, method)
        },
        None => table_name_from_path_spec(path, method),
    }
}

/// The table of one method of a path item, if the method is selected and
/// the operation is an object; `bases` are the table names handed out so
/// far. `None` where a merge fails.
pub open spec fn method_step(
    doc: JsonV,
    path: Seq<char>,
    path_object: Members,
    lower: Seq<char>,
    upper: Seq<char>,
    methods: Seq<Seq<char>>,
    bases: Seq<Seq<char>>,
) -> Option<(Seq<EndpointV>, Seq<Seq<char>>)> {
    if !methods.contains(upper) {
        Some((Seq::empty(), bases))
    } else {
        match crate::json::members_get(path_object, lower) {
            None => Some((Seq::empty(), bases)),
            Some(op) => match resolve_ref_spec(doc, op, 0, Seq::empty()) {
                JsonV::Object(operation) => match operation_columns(doc, path_object, operation) {
                    None => None,
                    Some((rp, opath, columns)) => {
                        let base = identifier_base(
                            raw_table_name(operation, path, upper),
                            "endpoint"@,
                        );
                        let used = bases.push(base);
                        Some(
                            (
                                seq![
                                    EndpointV {
                                        table_name: numbered(base, occurrences(used, base)),
                                        endpoint: path,
                                        method: upper,
                                        response_path: rp,
                                        object_path: opath,
                                        columns,
                                    },
                                ],
                                used,
                            ),
                        )
                    },
                },
                _ => Some((Seq::empty(), bases)),
            },
        }
    }
}

/// The tables of one path item.
pub open spec fn path_step(
    doc: JsonV,
    path: Seq<char>,
    raw: JsonV,
    methods: Seq<Seq<char>>,
    bases: Seq<Seq<char>>,
) -> Option<(Seq<EndpointV>, Seq<Seq<char>>)> {
    match resolve_ref_spec(doc, raw, 0, Seq::empty()) {
        JsonV::Object(po) => match method_step(doc, path, po, "get"@, "GET"@, methods, bases) {
            None => None,
            Some((e1, b1)) => match method_step(doc, path, po, "post"@, "POST"@, methods, b1) {
                None => None,
                Some((e2, b2)) => Some((e1 + e2, b2)),
            },
        },
        _ => Some((Seq::empty(), bases)),
    }
}

pub open spec fn paths_fold(doc: JsonV, paths: Members, methods: Seq<Seq<char>>, bases: Seq<Seq<char>>) -> Option<
    Seq<EndpointV>,
>
    decreases paths.len(),
{
    if paths.len() == 0 {
        Some(Seq::empty())
    } else {
        match path_step(doc, paths[0].0, paths[0].1, methods, bases) {
            None => None,
            Some((es, b)) => match paths_fold(doc, paths.drop_first(), methods, b) {
                None => None,
                Some(rest) => Some(es + rest),
            },
        }
    }
}

/// `endpoints`: a table for each selected method (`GET`, `POST`) of each
/// path, in path order. A merge that meets a non-object `properties` fails
/// the import with the crate's message.
pub open spec fn endpoints_spec(doc: JsonV, methods: Seq<Seq<char>>) -> Result<Seq<EndpointV>, crate::error::ErrV> {
    match validate_spec_spec(doc) {
        Err(e) => Err(e),
        Ok(()) => match crate::json::get(doc, "paths"@) {
            Some(JsonV::Object(ps)) => match paths_fold(doc, sort_by_key(ps), methods, Seq::empty()) {
                Some(es) => Ok(es),
                None => Err(spec_err("properties initialized as object"@)),
            },
            _ => Ok(Seq::empty()),
        },
    }
}

fn operation_columns_exec(doc: &Json, path_object: &Vec<(String, Json)>, operation: &Vec<(String, Json)>) -> (r:
    Option<(Option<String>, Option<String>, Vec<ImportedColumn>)>)
    ensures
        match r {
            None => operation_columns(
                doc@,
                crate::json::members_view(path_object@),
                crate::json::members_view(operation@),
            ) is None,
            Some((rp, op, cs)) => operation_columns(
                doc@,
                crate::json::members_view(path_object@),
                crate::json::members_view(operation@),
            ) == Some((crate::options::opt_str(rp), crate::options::opt_str(op), columns_view(cs@))),
        },
{
    let rs = match response_schema(doc, operation) {
        Some(schema) => match row_schema(doc, &schema) {
            Some(x) => x,
            None => return None,
        },
        None => RowSchemaExec { row: crate::json::empty_object(), response_path: None, object_path: None },
    };
    let columns = match columns_from_schema(doc, &rs.row) {
        Some(c) => c,
        None => return None,
    };
    proof {
        assert(column_names(columns@) =~= columns_view(columns@).map_values(|c: ColumnV| c.name));
    }
    let params = match path_parameter_columns(
        doc,
        crate::json::find_member(path_object, "parameters"),
        crate::json::find_member(operation, "parameters"),
        &columns,
    ) {
        Some(p) => p,
        None => return None,
    };
    let mut all: Vec<ImportedColumn> = Vec::new();
    let mut i: usize = 0;
    while i < columns.len()
        invariant
            i <= columns.len(),
            all@.len() == i,
            columns_view(all@) == columns_view(columns@).take(i as int),
        decreases columns.len() - i,
    {
        all.push(copy_column(&columns[i]));
        assert(columns_view(all@) =~= columns_view(columns@).take(i + 1));
        i = i + 1;
    }
    assert(columns_view(columns@).take(columns.len() as int) =~= columns_view(columns@));
    assert(columns_view(columns@) + columns_view(params@).take(0) =~= columns_view(columns@));
    let mut j: usize = 0;
    while j < params.len()
        invariant
            j <= params.len(),
            all@.len() == columns.len() + j,
            columns_view(all@) == columns_view(columns@) + columns_view(params@).take(j as int),
        decreases params.len() - j,
    {
        let ghost before = all@;
        let c = copy_column(&params[j]);
        all.push(c);
        proof {
            assert(columns_view(all@) =~= columns_view(before).push(column_view(c)));
            assert(columns_view(params@).take(j + 1) =~= columns_view(params@).take(j as int).push(
                column_view(params@[j as int]),
            ));
            assert(columns_view(all@) =~= columns_view(columns@) + columns_view(params@).take(j + 1));
        }
        j = j + 1;
    }
    assert(columns_view(params@).take(params.len() as int) =~= columns_view(params@));
    assert(columns_view(columns@).take(columns.len() as int) =~= columns_view(columns@));
    let sorted = sort_columns_exec(&all);
    Some((rs.response_path, rs.object_path, sorted))
}

fn raw_table_name_exec(operation: &Vec<(String, Json)>, path: &String, method: &str) -> (r: String)
    ensures
        r@ == raw_table_name(crate::json::members_view(operation@), path@, method@),
        is_ascii_text(r@),
{
    proof {
        reveal_strlit("root");
        reveal_strlit("_post");
    }
    let fallback = table_name_from_path(path.as_str(), method);
    proof {
        let p = crate::text::trim_char(path@, '/');
        lemma_sanitized_is_identifier(p);
        assert(is_ascii_text(fallback@));
    }
    match crate::json::find_member(operation, "operationId") {
        Some(Json::Str(id)) => {
            let name = sanitize_identifier(id.as_str());
            proof {
                lemma_sanitized_is_identifier(id@);
            }
            if name.as_str().is_empty() {
                fallback
            } else {
                name
            }
        },
        _ => fallback,
    }
}

fn method_step_exec(
    doc: &Json,
    path: &String,
    path_object: &Vec<(String, Json)>,
    lower: &str,
    upper: &str,
    methods: &Vec<String>,
    Ghost(bases): Ghost<Seq<Seq<char>>>,
    used: &mut NameCounts,
    out: &mut Vec<ImportedEndpoint>,
) -> (r: (bool, Ghost<Seq<Seq<char>>>))
    requires
        forall|x: Seq<char>| #[trigger] old(used).count(x) == occurrences(bases, x),
    ensures
        match method_step(
            doc@,
            path@,
            crate::json::members_view(path_object@),
            lower@,
            upper@,
            crate::sorting::views(methods@),
            bases,
        ) {
            None => !r.0,
            Some((es, b2)) => r.0 && r.1@ == b2 && endpoints_view(final(out)@) == endpoints_view(
                old(out)@,
            ) + es && forall|x: Seq<char>| #[trigger] final(used).count(x) == occurrences(b2, x),
        },
{
    assert(endpoints_view(out@) + Seq::<EndpointV>::empty() =~= endpoints_view(out@));
    if !crate::sorting::views_contains(methods, upper) {
        return (true, Ghost(bases));
    }
    let op = match crate::json::find_member(path_object, lower) {
        Some(op) => op,
        None => return (true, Ghost(bases)),
    };
    let mut seen: Vec<String> = Vec::new();
    assert(crate::sorting::views(seen@) =~= Seq::<Seq<char>>::empty());
    let resolved = resolve_ref(doc, op, 0, &mut seen);
    let operation = match &resolved {
        Json::Object(o) => o,
        _ => return (true, Ghost(bases)),
    };
    let (rp, opath, columns) = match operation_columns_exec(doc, path_object, operation) {
        Some(x) => x,
        None => return (false, Ghost(bases)),
    };
    let raw = raw_table_name_exec(operation, path, upper);
    proof {
        reveal_strlit("endpoint");
    }
    let ghost base = identifier_base(raw@, "endpoint"@);
    let table_name = unique_identifier(raw, "endpoint", used);
    let ghost b2 = bases.push(base);
    proof {
        assert(b2.drop_last() =~= bases);
    }
    let e = ImportedEndpoint {
        table_name,
        endpoint: path.clone(),
        method: crate::text::str_to_string(upper),
        response_path: rp,
        object_path: opath,
        columns,
    };
    let ghost before = out@;
    out.push(e);
    assert(endpoints_view(out@) =~= endpoints_view(before) + seq![endpoint_view(e)]);
    (true, Ghost(b2))
}

fn path_step_exec(
    doc: &Json,
    path: &String,
    raw: &Json,
    methods: &Vec<String>,
    Ghost(bases): Ghost<Seq<Seq<char>>>,
    used: &mut NameCounts,
    out: &mut Vec<ImportedEndpoint>,
) -> (r: (bool, Ghost<Seq<Seq<char>>>))
    requires
        forall|x: Seq<char>| #[trigger] old(used).count(x) == occurrences(bases, x),
    ensures
        match path_step(doc@, path@, raw@, crate::sorting::views(methods@), bases) {
            None => !r.0,
            Some((es, b2)) => r.0 && r.1@ == b2 && endpoints_view(final(out)@) == endpoints_view(
                old(out)@,
            ) + es && forall|x: Seq<char>| #[trigger] final(used).count(x) == occurrences(b2, x),
        },
{
    assert(endpoints_view(out@) + Seq::<EndpointV>::empty() =~= endpoints_view(out@));
    let mut seen: Vec<String> = Vec::new();
    assert(crate::sorting::views(seen@) =~= Seq::<Seq<char>>::empty());
    let item = resolve_ref(doc, raw, 0, &mut seen);
    let po = match &item {
        Json::Object(po) => po,
        _ => return (true, Ghost(bases)),
    };
    let ghost before = endpoints_view(out@);
    let (ok1, g1) = method_step_exec(doc, path, po, "get", "GET", methods, Ghost(bases), used, out);
    if !ok1 {
        return (false, Ghost(bases));
    }
    let ghost mid = endpoints_view(out@);
    let (ok2, g2) = method_step_exec(doc, path, po, "post", "POST", methods, g1, used, out);
    if !ok2 {
        return (false, Ghost(bases));
    }
    proof {
        let e1 = mid.subrange(before.len() as int, mid.len() as int);
        let e2 = endpoints_view(out@).subrange(mid.len() as int, endpoints_view(out@).len() as int);
        assert(mid =~= before + e1);
        assert(endpoints_view(out@) =~= mid + e2);
        assert(endpoints_view(out@) =~= before + (e1 + e2));
    }
    (true, g2)
}

/// One foreign table per selected method (`GET`, `POST`) of each path of the
/// document, in path order.
#[verifier::spinoff_prover]
#[verifier::rlimit(60)]
pub fn endpoints(doc: &Json, methods: &Vec<String>) -> (r: Result<
    Vec<ImportedEndpoint>,
    crate::error::OpenApiFdwError,
>)
    ensures
        match r {
            Ok(es) => endpoints_spec(doc@, crate::sorting::views(methods@)) == Ok::<
                Seq<EndpointV>,
                crate::error::ErrV,
            >(endpoints_view(es@)),
            Err(e) => endpoints_spec(doc@, crate::sorting::views(methods@)) == Err::<
                Seq<EndpointV>,
                crate::error::ErrV,
            >(e@),
        },
{
    match validate_spec(doc) {
        Ok(()) => {},
        Err(e) => return Err(e),
    }
    let paths = match doc.get_str("paths") {
        Some(Json::Object(ps)) => ps,
        _ => {
            let v: Vec<ImportedEndpoint> = Vec::new();
            assert(endpoints_view(v@) =~= Seq::<EndpointV>::empty());
            return Ok(v);
        },
    };
    let sorted = sort_members(paths);
    proof {
        crate::json::lemma_members_view(sorted@);
    }
    let ghost sv = crate::json::members_view(sorted@);
    let ghost mv = crate::sorting::views(methods@);
    let mut used = NameCounts::new();
    let ghost mut bases: Seq<Seq<char>> = Seq::empty();
    let mut out: Vec<ImportedEndpoint> = Vec::new();
    let mut i: usize = 0;
    assert(sv.skip(0) =~= sv);
    assert(endpoints_view(out@) =~= Seq::<EndpointV>::empty());
    assert(endpoints_spec(doc@, mv) == match paths_fold(doc@, sv, mv, Seq::empty()) {
        Some(es) => Ok::<Seq<EndpointV>, crate::error::ErrV>(es),
        None => Err(spec_err("properties initialized as object"@)),
    });
    while i < sorted.len()
        invariant
            i <= sorted.len(),
            sv == crate::json::members_view(sorted@),
            sv.len() == sorted.len(),
            mv == crate::sorting::views(methods@),
            forall|k: int| 0 <= k < sorted@.len() ==> #[trigger] sv[k] == (
                sorted@[k].0@,
                sorted@[k].1.view_of(),
            ),
            forall|x: Seq<char>| #[trigger] used.count(x) == occurrences(bases, x),
            endpoints_spec(doc@, mv) == match paths_fold(doc@, sv, mv, Seq::empty()) {
                Some(es) => Ok::<Seq<EndpointV>, crate::error::ErrV>(es),
                None => Err(spec_err("properties initialized as object"@)),
            },
            paths_fold(doc@, sv, mv, Seq::empty()) == match paths_fold(
                doc@,
                sv.skip(i as int),
                mv,
                bases,
            ) {
                Some(rest) => Some(endpoints_view(out@) + rest),
                None => None,
            },
        decreases sorted.len() - i,
    {
        assert(sv.skip(i as int).drop_first() =~= sv.skip(i + 1));
        assert(sv.skip(i as int)[0] == sv[i as int]);
        let ghost before = endpoints_view(out@);
        let (ok, g) = path_step_exec(doc, &sorted[i].0, &sorted[i].1, methods, Ghost(bases), &mut used, &mut out);
        if !ok {
            return Err(crate::error::spec_error("properties initialized as object"));
        }
        proof {
            let es = endpoints_view(out@).subrange(before.len() as int, endpoints_view(out@).len() as int);
            assert(endpoints_view(out@) =~= before + es);
            bases = g@;
            match paths_fold(doc@, sv.skip(i + 1), mv, bases) {
                Some(rest) => {
                    assert(before + (es + rest) =~= endpoints_view(out@) + rest);
                },
                None => {},
            }
        }
        i = i + 1;
    }
    assert(sv.skip(i as int) =~= Seq::<(Seq<char>, JsonV)>::empty());
    assert(endpoints_view(out@) + Seq::<EndpointV>::empty() =~= endpoints_view(out@));
    Ok(out)
}

// ---------------------------------------------------------------------------
// The server URL of a document
// ---------------------------------------------------------------------------

/// Each `{name}` in the server URL replaced by the variable's default.
pub open spec fn substitute_variables(raw: Seq<char>, variables: Members) -> Seq<char>
    decreases variables.len(),
{
    if variables.len() == 0 {
        raw
    } else {
        let next = match crate::json::get(variables[0].1, "default"@) {
            Some(d) => match value_as_string_spec(d) {
                Some(default) => crate::text::replace(raw, "{"@ + variables[0].0 + "}"@, default),
                None => raw,
            },
            None => raw,
        };
        substitute_variables(next, variables.drop_first())
    }
}

/// `base_url_from_spec`: the document's first server URL with its variables'
/// defaults, resolved against the document's own URL when relative, and held
/// to the rules of an absolute base URL.
pub open spec fn base_url_from_spec_spec(
    doc: JsonV,
    spec_url: Option<crate::urls::UrlV>,
    allow_http: bool,
) -> Result<crate::urls::UrlV, crate::error::ErrV> {
    match validate_spec_spec(doc) {
        Err(e) => Err(e),
        Ok(()) => {
            let first = match crate::json::get(doc, "servers"@) {
                Some(JsonV::Array(servers)) => if servers.len() > 0 {
                    Some(servers[0])
                } else {
                    None
                },
                _ => None,
            };
            match first {
                Some(JsonV::Object(server)) => match crate::json::as_str(
                    crate::json::members_get(server, "url"@),
                ) {
                    None => Err(spec_err("OpenAPI server has no URL"@)),
                    Some(url) => {
                        let raw = match crate::json::members_get(server, "variables"@) {
                            Some(JsonV::Object(vs)) => substitute_variables(url, vs),
                            _ => url,
                        };
                        let absolute = match crate::urls::url_parse(raw) {
                            Some(u) => Ok(u),
                            None => match spec_url {
                                None => Err(
                                    spec_err(
                                        "relative OpenAPI server URL requires a `spec_url` base"@,
                                    ),
                                ),
                                Some(base) => match crate::urls::url_join(base.serialization, raw) {
                                    Some(u) => Ok(u),
                                    None => Err(spec_err("invalid relative server URL"@)),
                                },
                            },
                        };
                        match absolute {
                            Err(e) => Err(e),
                            Ok(u) => crate::options::validate_url_spec(
                                u.serialization,
                                "OpenAPI server URL"@,
                                allow_http,
                            ),
                        }
                    },
                },
                _ => Err(spec_err("base_url is absent and the OpenAPI document has no server URL"@)),
            }
        },
    }
}

fn substitute_variables_exec(raw: &Vec<char>, variables: &Vec<(String, Json)>) -> (r: Vec<char>)
    ensures
        r@ == substitute_variables(raw@, crate::json::members_view(variables@)),
{
    proof {
        crate::json::lemma_members_view(variables@);
    }
    let ghost vv = crate::json::members_view(variables@);
    let mut current: Vec<char> = crate::text::subrange(raw, 0, raw.len());
    assert(current@ =~= raw@);
    let mut i: usize = 0;
    assert(vv.skip(0) =~= vv);
    while i < variables.len()
        invariant
            i <= variables.len(),
            vv == crate::json::members_view(variables@),
            vv.len() == variables.len(),
            forall|k: int| 0 <= k < variables@.len() ==> #[trigger] vv[k] == (
                variables@[k].0@,
                variables@[k].1.view_of(),
            ),
            substitute_variables(raw@, vv) == substitute_variables(current@, vv.skip(i as int)),
        decreases variables.len() - i,
    {
        assert(vv.skip(i as int).drop_first() =~= vv.skip(i + 1));
        assert(vv.skip(i as int)[0] == vv[i as int]);
        match variables[i].1.get_str("default") {
            Some(d) => match value_as_string(d) {
                Some(default) => {
                    let mut pattern = chars_of("{");
                    append_str(&mut pattern, variables[i].0.as_str());
                    append_str(&mut pattern, "}");
                    proof {
                        reveal_strlit("{");
                    }
                    let dc = chars_of(default.as_str());
                    current = crate::text::replace_exec(&current, &pattern, &dc);
                },
                None => {},
            },
            None => {},
        }
        i = i + 1;
    }
    assert(vv.skip(i as int) =~= Seq::<(Seq<char>, JsonV)>::empty());
    current
}

pub fn base_url_from_spec(doc: &Json, spec_url: Option<&crate::urls::UrlParts>, allow_http: bool) -> (r:
    Result<crate::urls::UrlParts, crate::error::OpenApiFdwError>)
    ensures
        ({
            let base = match spec_url {
                Some(u) => Some(u@),
                None => None,
            };
            match r {
                Ok(u) => base_url_from_spec_spec(doc@, base, allow_http) == Ok::<
                    crate::urls::UrlV,
                    crate::error::ErrV,
                >(u@),
                Err(e) => base_url_from_spec_spec(doc@, base, allow_http) == Err::<
                    crate::urls::UrlV,
                    crate::error::ErrV,
                >(e@),
            }
        }),
{
    match validate_spec(doc) {
        Ok(()) => {},
        Err(e) => return Err(e),
    }
    let first: Option<&Json> = match doc.get_str("servers") {
        Some(Json::Array(servers)) => {
            proof {
                crate::json::lemma_items_view(servers@);
            }
            if servers.len() > 0 {
                Some(&servers[0])
            } else {
                None
            }
        },
        _ => None,
    };
    let server = match first {
        Some(Json::Object(m)) => m,
        _ => return Err(
            crate::error::spec_error("base_url is absent and the OpenAPI document has no server URL"),
        ),
    };
    let url = match crate::json::find_member(server, "url") {
        Some(Json::Str(u)) => u,
        _ => return Err(crate::error::spec_error("OpenAPI server has no URL")),
    };
    let uc = chars_of(url.as_str());
    let raw = match crate::json::find_member(server, "variables") {
        Some(Json::Object(vs)) => substitute_variables_exec(&uc, vs),
        _ => uc,
    };
    let raw_s = string_of(&raw);
    let absolute = match crate::urls::parse_url(raw_s.as_str()) {
        Some(u) => u,
        None => match spec_url {
            None => return Err(
                crate::error::spec_error("relative OpenAPI server URL requires a `spec_url` base"),
            ),
            Some(base) => match crate::urls::join_url(base, raw_s.as_str()) {
                Some(u) => u,
                None => return Err(crate::error::spec_error("invalid relative server URL")),
            },
        },
    };
    crate::options::validate_url(absolute.serialization.as_str(), "OpenAPI server URL", allow_http)
}

/// The catch-all column's name is never the name of a column of the table.
pub proof fn lemma_attrs_name_is_free(names: Seq<Seq<char>>)
    ensures
        !names.contains(attrs_name(names)),
{
    lemma_attrs_candidate_free(names);
    let w = choose|k: nat| k <= names.len() && !names.contains(#[trigger] attrs_candidate(k));
    lemma_first_free(names, w);
}

proof fn lemma_first_free(names: Seq<Seq<char>>, w: nat)
    requires
        !names.contains(attrs_candidate(w)),
    ensures
        exists|k: nat|
            !names.contains(#[trigger] attrs_candidate(k)) && forall|j: nat|
                j < k ==> names.contains(#[trigger] attrs_candidate(j)),
    decreases w,
{
    if exists|j: nat| j < w && !names.contains(#[trigger] attrs_candidate(j)) {
        let j = choose|j: nat| j < w && !names.contains(#[trigger] attrs_candidate(j));
        lemma_first_free(names, j);
    } else {
        assert(!names.contains(attrs_candidate(w)) && forall|j: nat|
            j < w ==> names.contains(#[trigger] attrs_candidate(j)));
    }
}

} // verus!
