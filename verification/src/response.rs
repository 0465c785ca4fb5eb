//! Turning a JSON response into rows and the token of the next page.
use vstd::prelude::*;

use crate::json::{Json, JsonV};
use crate::text::{
    append, chars_of, eq_ignore_case, eq_ignore_case_exec, split, split_exec, split_once,
    split_once_exec, string_of, subrange, trim, trim_char, trim_char_exec, trim_exec,
};

verus! {

// ---------------------------------------------------------------------------
// `Link` headers (RFC 8288)
// ---------------------------------------------------------------------------

/// The scanner state after a prefix of a `Link` header: the entries cut so
/// far, where the current entry starts, and whether the scanner is inside
/// `<...>`, inside a quoted string, or just after a backslash in one.
pub struct LinkScan {
    pub entries: Seq<Seq<char>>,
    pub start: int,
    pub in_angle: bool,
    pub in_quotes: bool,
    pub escaped: bool,
}

pub open spec fn link_scan(s: Seq<char>, n: int) -> LinkScan
    decreases n,
{
    if n <= 0 {
        LinkScan { entries: Seq::empty(), start: 0, in_angle: false, in_quotes: false, escaped: false }
    } else {
        let st = link_scan(s, n - 1);
        let i = n - 1;
        let c = s[i];
        if st.escaped {
            LinkScan { escaped: false, ..st }
        } else if c == '\\' && st.in_quotes {
            LinkScan { escaped: true, ..st }
        } else if c == '<' && !st.in_quotes {
            LinkScan { in_angle: true, ..st }
        } else if c == '>' && !st.in_quotes {
            LinkScan { in_angle: false, ..st }
        } else if c == '"' && !st.in_angle {
            LinkScan { in_quotes: !st.in_quotes, ..st }
        } else if c == ',' && !st.in_angle && !st.in_quotes {
            LinkScan { entries: st.entries.push(s.subrange(st.start, i)), start: i + 1, ..st }
        } else {
            st
        }
    }
}

/// The entries of a `Link` header: split at the commas outside `<...>` and
/// outside quoted strings.
pub open spec fn link_entries(s: Seq<char>) -> Seq<Seq<char>> {
    let st = link_scan(s, s.len() as int);
    st.entries.push(s.subrange(st.start, s.len() as int))
}

proof fn lemma_link_scan_start(s: Seq<char>, n: int)
    requires
        0 <= n <= s.len(),
    ensures
        0 <= link_scan(s, n).start <= n,
    decreases n,
{
    if n > 0 {
        lemma_link_scan_start(s, n - 1);
    }
}

pub fn split_link_entries(raw: &str) -> (r: Vec<Vec<char>>)
    ensures
        r@.map_values(|v: Vec<char>| v@) == link_entries(raw@),
{
    let s = chars_of(raw);
    let mut entries: Vec<Vec<char>> = Vec::new();
    let mut in_angle = false;
    let mut in_quotes = false;
    let mut escaped = false;
    let mut start: usize = 0;
    let mut i: usize = 0;
    assert(entries@.map_values(|v: Vec<char>| v@) =~= Seq::<Seq<char>>::empty());
    while i < s.len()
        invariant
            i <= s.len(),
            s@ == raw@,
            start <= i,
            link_scan(s@, i as int) == (LinkScan {
                entries: entries@.map_values(|v: Vec<char>| v@),
                start: start as int,
                in_angle,
                in_quotes,
                escaped,
            }),
        decreases s.len() - i,
    {
        let c = s[i];
        if escaped {
            escaped = false;
        } else if c == '\\' && in_quotes {
            escaped = true;
        } else if c == '<' && !in_quotes {
            in_angle = true;
        } else if c == '>' && !in_quotes {
            in_angle = false;
        } else if c == '"' && !in_angle {
            in_quotes = !in_quotes;
        } else if c == ',' && !in_angle && !in_quotes {
            let piece = subrange(&s, start, i);
            let ghost before = entries@;
            entries.push(piece);
            assert(entries@.map_values(|v: Vec<char>| v@) =~= before.map_values(|v: Vec<char>| v@).push(
                piece@,
            ));
            start = i + 1;
        }
        i = i + 1;
    }
    let last = subrange(&s, start, s.len());
    let ghost before = entries@;
    entries.push(last);
    assert(entries@.map_values(|v: Vec<char>| v@) =~= before.map_values(|v: Vec<char>| v@).push(last@));
    entries
}

/// ASCII whitespace, as `split_ascii_whitespace` splits on it.
pub open spec fn is_ascii_ws(c: char) -> bool {
    c == ' ' || c == '\t' || c == '\n' || c == '\x0C' || c == '\r'
}

/// Length of the leading run of non-whitespace characters.
pub open spec fn word_len(s: Seq<char>) -> int
    decreases s.len(),
{
    if s.len() == 0 || is_ascii_ws(s[0]) {
        0
    } else {
        1 + word_len(s.drop_first())
    }
}

pub proof fn lemma_word_len(s: Seq<char>)
    ensures
        0 <= word_len(s) <= s.len(),
        s.len() > 0 && !is_ascii_ws(s[0]) ==> word_len(s) > 0,
        forall|k: int| 0 <= k < word_len(s) ==> !is_ascii_ws(#[trigger] s[k]),
        word_len(s) < s.len() ==> is_ascii_ws(s[word_len(s)]),
    decreases s.len(),
{
    if s.len() > 0 && !is_ascii_ws(s[0]) {
        lemma_word_len(s.drop_first());
        assert forall|k: int| 0 <= k < word_len(s) implies !is_ascii_ws(#[trigger] s[k]) by {
            if k > 0 {
                assert(s[k] == s.drop_first()[k - 1]);
            }
        }
    }
}

/// `split_ascii_whitespace`: the maximal runs of non-whitespace characters.
pub open spec fn ascii_words(s: Seq<char>) -> Seq<Seq<char>>
    decreases s.len(),
{
    if s.len() == 0 {
        Seq::empty()
    } else if is_ascii_ws(s[0]) {
        ascii_words(s.drop_first())
    } else {
        proof {
            lemma_word_len(s);
        }
        seq![s.take(word_len(s))] + ascii_words(s.skip(word_len(s)))
    }
}

pub open spec fn has_next_relation(words: Seq<Seq<char>>) -> bool {
    exists|k: int| 0 <= k < words.len() && eq_ignore_case(#[trigger] words[k], "next"@)
}

/// A `rel` parameter whose relations include `next` (ASCII case ignored).
pub open spec fn rel_next(parameter: Seq<char>) -> bool {
    match split_once(trim(parameter), '=') {
        Some((name, value)) => eq_ignore_case(trim(name), "rel"@) && has_next_relation(
            ascii_words(trim_char(trim(value), '"')),
        ),
        None => false,
    }
}

pub open spec fn any_rel_next(parameters: Seq<Seq<char>>) -> bool {
    exists|k: int| 0 <= k < parameters.len() && rel_next(#[trigger] parameters[k])
}

/// The target of one `<url>; rel=...` entry when it is the `next` link.
pub open spec fn entry_next(entry: Seq<char>) -> Option<Seq<char>> {
    let e = trim(entry);
    if e.len() == 0 || e[0] != '<' {
        None
    } else {
        let w = e.drop_first();
        let c = crate::text::first_index(w, '>');
        if c >= w.len() {
            None
        } else if any_rel_next(split(w.skip(c + 1), ';')) {
            Some(w.take(c))
        } else {
            None
        }
    }
}

pub open spec fn first_next(entries: Seq<Seq<char>>) -> Option<Seq<char>>
    decreases entries.len(),
{
    if entries.len() == 0 {
        None
    } else {
        match entry_next(entries[0]) {
            Some(u) => Some(u),
            None => first_next(entries.drop_first()),
        }
    }
}

/// `parse_link_next`: the target of the first `rel="next"` entry.
pub open spec fn parse_link_next_spec(raw: Seq<char>) -> Option<Seq<char>> {
    first_next(link_entries(raw))
}

fn is_ascii_ws_exec(c: char) -> (r: bool)
    ensures
        r == is_ascii_ws(c),
{
    c == ' ' || c == '\t' || c == '\n' || c == '\x0C' || c == '\r'
}

fn has_next_word(v: &Vec<char>) -> (r: bool)
    ensures
        r == has_next_relation(ascii_words(v@)),
{
    let next = chars_of("next");
    let mut i: usize = 0;
    assert(v@.skip(0) =~= v@);
    while i < v.len()
        invariant
            i <= v.len(),
            next@ == "next"@,
            has_next_relation(ascii_words(v@)) == has_next_relation(ascii_words(v@.skip(i as int))),
        decreases v.len() - i,
    {
        let ghost rest = v@.skip(i as int);
        if is_ascii_ws_exec(v[i]) {
            assert(rest.drop_first() =~= v@.skip(i + 1));
            i = i + 1;
        } else {
            proof {
                lemma_word_len(rest);
            }
            let mut j: usize = i;
            while j < v.len() && !is_ascii_ws_exec(v[j])
                invariant
                    i <= j <= v.len(),
                    rest == v@.skip(i as int),
                    j - i <= word_len(rest),
                    forall|k: int| 0 <= k < word_len(rest) ==> !is_ascii_ws(#[trigger] rest[k]),
                    word_len(rest) < rest.len() ==> is_ascii_ws(rest[word_len(rest)]),
                    0 <= word_len(rest) <= rest.len(),
                decreases v.len() - j,
            {
                assert(rest[j - i] == v@[j as int]);
                j = j + 1;
            }
            proof {
                if j < v.len() {
                    assert(rest[j - i] == v@[j as int]);
                }
            }
            assert(j - i == word_len(rest));
            let word = subrange(v, i, j);
            assert(word@ =~= rest.take(word_len(rest)));
            assert(rest.skip(word_len(rest)) =~= v@.skip(j as int));
            let ghost words = ascii_words(rest);
            assert(words == seq![word@] + ascii_words(v@.skip(j as int)));
            if eq_ignore_case_exec(&word, &next) {
                assert(words[0] == word@);
                return true;
            }
            proof {
                let tail = ascii_words(v@.skip(j as int));
                if has_next_relation(words) {
                    let k = choose|k: int| 0 <= k < words.len() && eq_ignore_case(#[trigger] words[k], "next"@);
                    assert(k > 0);
                    assert(words[k] == tail[k - 1]);
                }
                if has_next_relation(tail) {
                    let k = choose|k: int| 0 <= k < tail.len() && eq_ignore_case(#[trigger] tail[k], "next"@);
                    assert(words[k + 1] == tail[k]);
                }
            }
            i = j;
        }
    }
    assert(ascii_words(v@.skip(i as int)) =~= Seq::<Seq<char>>::empty());
    false
}

fn rel_next_exec(parameter: &Vec<char>) -> (r: bool)
    ensures
        r == rel_next(parameter@),
{
    let t = trim_exec(parameter);
    match split_once_exec(&t, '=') {
        Some((name, value)) => {
            let n = trim_exec(&name);
            let rel = chars_of("rel");
            if !eq_ignore_case_exec(&n, &rel) {
                return false;
            }
            let vt = trim_exec(&value);
            let unquoted = trim_char_exec(&vt, '"');
            has_next_word(&unquoted)
        },
        None => false,
    }
}

fn entry_next_exec(entry: &Vec<char>) -> (r: Option<Vec<char>>)
    ensures
        match r {
            Some(u) => entry_next(entry@) == Some(u@),
            None => entry_next(entry@) is None,
        },
{
    let e = trim_exec(entry);
    if e.len() == 0 || e[0] != '<' {
        return None;
    }
    let w = subrange(&e, 1, e.len());
    assert(w@ =~= e@.drop_first());
    proof {
        crate::text::lemma_first_index(w@, '>');
    }
    let c = crate::text::first_index_of(&w, 0, '>');
    assert(w@.skip(0) =~= w@);
    if c >= w.len() {
        return None;
    }
    let params = subrange(&w, c + 1, w.len());
    assert(params@ =~= w@.skip(c + 1));
    if any_rel_next_exec(&params) {
        let url = subrange(&w, 0, c);
        assert(url@ =~= w@.take(c as int));
        return Some(url);
    }
    None
}

fn any_rel_next_exec(params: &Vec<char>) -> (r: bool)
    ensures
        r == any_rel_next(split(params@, ';')),
{
    let parts = split_exec(params, ';');
    let ghost ps = split(params@, ';');
    let mut k: usize = 0;
    while k < parts.len()
        invariant
            k <= parts.len(),
            ps == split(params@, ';'),
            parts@.len() == ps.len(),
            forall|q: int| 0 <= q < parts@.len() ==> #[trigger] parts@[q]@ == ps[q],
            forall|q: int| 0 <= q < k ==> !rel_next(#[trigger] ps[q]),
        decreases parts.len() - k,
    {
        if rel_next_exec(&parts[k]) {
            assert(rel_next(ps[k as int]));
            return true;
        }
        k = k + 1;
    }
    false
}

pub fn parse_link_next(raw: &str) -> (r: Option<String>)
    ensures
        crate::options::opt_str(r) == parse_link_next_spec(raw@),
{
    let entries = split_link_entries(raw);
    let ghost es = link_entries(raw@);
    let mut i: usize = 0;
    assert(es.skip(0) =~= es);
    while i < entries.len()
        invariant
            i <= entries.len(),
            entries@.map_values(|v: Vec<char>| v@) == es,
            es == link_entries(raw@),
            first_next(es) == first_next(es.skip(i as int)),
        decreases entries.len() - i,
    {
        assert(es.skip(i as int).drop_first() =~= es.skip(i + 1));
        assert(es.skip(i as int)[0] == entries@[i as int]@);
        match entry_next_exec(&entries[i]) {
            Some(u) => return Some(string_of(&u)),
            None => {},
        }
        i = i + 1;
    }
    assert(es.skip(i as int) =~= Seq::<Seq<char>>::empty());
    None
}

// ---------------------------------------------------------------------------
// Pages
// ---------------------------------------------------------------------------

#[derive(Debug)]
pub enum PageToken {
    Url(String),
    Cursor(String),
}

pub enum TokenV {
    Url(Seq<char>),
    Cursor(Seq<char>),
}

impl View for PageToken {
    type V = TokenV;

    open spec fn view(&self) -> TokenV {
        match self {
            PageToken::Url(u) => TokenV::Url(u@),
            PageToken::Cursor(c) => TokenV::Cursor(c@),
        }
    }
}

impl PageToken {
    pub fn duplicate(&self) -> (r: PageToken)
        ensures
            r@ == self@,
    {
        match self {
            PageToken::Url(u) => PageToken::Url(u.clone()),
            PageToken::Cursor(c) => PageToken::Cursor(c.clone()),
        }
    }
}

pub open spec fn token_view(t: Option<PageToken>) -> Option<TokenV> {
    match t {
        Some(x) => Some(x@),
        None => None,
    }
}

#[derive(Debug)]
pub struct Page {
    pub rows: Vec<Json>,
    pub next: Option<PageToken>,
}

pub open spec fn next_url_paths() -> Seq<Seq<char>> {
    seq![
        "/meta/pagination/next"@,
        "/meta/pagination/next_url"@,
        "/pagination/next"@,
        "/pagination/next_url"@,
        "/links/next"@,
        "/links/next_url"@,
        "/next"@,
        "/next_url"@,
        "/_links/next/href"@,
    ]
}

pub open spec fn has_more_paths() -> Seq<Seq<char>> {
    seq!["/meta/pagination/has_more"@, "/pagination/has_more"@, "/has_more"@]
}

pub open spec fn cursor_paths() -> Seq<Seq<char>> {
    seq!["/meta/pagination/next_cursor"@, "/pagination/next_cursor"@, "/next_cursor"@, "/cursor"@]
}

/// A non-empty string, or a number as its decimal text.
pub open spec fn scalar_string_spec(v: Option<JsonV>) -> Option<Seq<char>> {
    match v {
        Some(JsonV::Str(s)) => if s.len() > 0 {
            Some(s)
        } else {
            None
        },
        Some(JsonV::Number(n)) => Some(n),
        _ => None,
    }
}

pub fn scalar_string(v: Option<&Json>) -> (r: Option<String>)
    ensures
        crate::options::opt_str(r) == scalar_string_spec(
            match v {
                Some(j) => Some(j@),
                None => None,
            },
        ),
{
    match v {
        Some(Json::Str(s)) => if s.as_str().is_empty() {
            None
        } else {
            Some(s.clone())
        },
        Some(Json::Number(n)) => Some(n.clone()),
        _ => None,
    }
}

/// A token that looks like a URL (absolute, path or query) is a URL;
/// anything else is a cursor.
pub open spec fn classify_token_spec(value: Seq<char>) -> TokenV {
    if crate::text::starts_with(value, "http://"@) || crate::text::starts_with(value, "https://"@) || (
    value.len() > 0 && (value[0] == '/' || value[0] == '?')) {
        TokenV::Url(value)
    } else {
        TokenV::Cursor(value)
    }
}

pub fn classify_token(value: String) -> (r: PageToken)
    ensures
        r@ == classify_token_spec(value@),
{
    let v = chars_of(value.as_str());
    if crate::text::starts_with_str(&v, "http://") || crate::text::starts_with_str(&v, "https://")
        || (v.len() > 0 && (v[0] == '/' || v[0] == '?')) {
        PageToken::Url(value)
    } else {
        PageToken::Cursor(value)
    }
}

/// The first pointer whose scalar is a string.
pub open spec fn first_scalar(body: JsonV, pointers: Seq<Seq<char>>) -> Option<Seq<char>>
    decreases pointers.len(),
{
    if pointers.len() == 0 {
        None
    } else {
        match scalar_string_spec(crate::json::pointer(body, pointers[0])) {
            Some(v) => Some(v),
            None => first_scalar(body, pointers.drop_first()),
        }
    }
}

/// The value at the first pointer that exists.
pub open spec fn first_present(body: JsonV, pointers: Seq<Seq<char>>) -> Option<JsonV>
    decreases pointers.len(),
{
    if pointers.len() == 0 {
        None
    } else {
        match crate::json::pointer(body, pointers[0]) {
            Some(v) => Some(v),
            None => first_present(body, pointers.drop_first()),
        }
    }
}

pub open spec fn first_link_next(headers: Seq<Seq<char>>) -> Option<Seq<char>>
    decreases headers.len(),
{
    if headers.len() == 0 {
        None
    } else {
        match parse_link_next_spec(headers[0]) {
            Some(u) => Some(u),
            None => first_link_next(headers.drop_first()),
        }
    }
}

/// `find_next`: the configured cursor, a `Link: rel="next"` header, a next
/// URL at a well-known place, or (where a well-known `has_more` is `true`) a
/// cursor at a well-known place.
pub open spec fn find_next_spec(body: JsonV, link_headers: Seq<Seq<char>>, cursor_path: Option<Seq<char>>) -> Option<
    TokenV,
> {
    let configured = match cursor_path {
        Some(p) => scalar_string_spec(crate::json::pointer(body, p)),
        None => None,
    };
    match configured {
        Some(v) => Some(classify_token_spec(v)),
        None => match first_link_next(link_headers) {
            Some(u) => Some(TokenV::Url(u)),
            None => match first_scalar(body, next_url_paths()) {
                Some(u) => Some(TokenV::Url(u)),
                None => if crate::json::as_bool(first_present(body, has_more_paths())) == Some(
                    true,
                ) {
                    match first_scalar(body, cursor_paths()) {
                        Some(c) => Some(TokenV::Cursor(c)),
                        None => None,
                    }
                } else {
                    None
                },
            },
        },
    }
}

fn first_scalar_exec(body: &Json, pointers: &Vec<&str>) -> (r: Option<String>)
    ensures
        crate::options::opt_str(r) == first_scalar(body@, pointers@.map_values(|p: &str| p@)),
{
    let ghost ps = pointers@.map_values(|p: &str| p@);
    let mut i: usize = 0;
    assert(ps.skip(0) =~= ps);
    while i < pointers.len()
        invariant
            i <= pointers.len(),
            ps == pointers@.map_values(|p: &str| p@),
            ps.len() == pointers.len(),
            first_scalar(body@, ps) == first_scalar(body@, ps.skip(i as int)),
        decreases pointers.len() - i,
    {
        assert(ps.skip(i as int).drop_first() =~= ps.skip(i + 1));
        assert(ps.skip(i as int)[0] == pointers@[i as int]@);
        match scalar_string(body.pointer_str(pointers[i])) {
            Some(v) => return Some(v),
            None => {},
        }
        i = i + 1;
    }
    assert(ps.skip(i as int) =~= Seq::<Seq<char>>::empty());
    None
}

fn first_present_exec<'a>(body: &'a Json, pointers: &Vec<&str>) -> (r: Option<&'a Json>)
    ensures
        match r {
            Some(j) => first_present(body@, pointers@.map_values(|p: &str| p@)) == Some(j@),
            None => first_present(body@, pointers@.map_values(|p: &str| p@)) is None,
        },
{
    let ghost ps = pointers@.map_values(|p: &str| p@);
    let mut i: usize = 0;
    assert(ps.skip(0) =~= ps);
    while i < pointers.len()
        invariant
            i <= pointers.len(),
            ps == pointers@.map_values(|p: &str| p@),
            ps.len() == pointers.len(),
            first_present(body@, ps) == first_present(body@, ps.skip(i as int)),
        decreases pointers.len() - i,
    {
        assert(ps.skip(i as int).drop_first() =~= ps.skip(i + 1));
        assert(ps.skip(i as int)[0] == pointers@[i as int]@);
        match body.pointer_str(pointers[i]) {
            Some(v) => return Some(v),
            None => {},
        }
        i = i + 1;
    }
    assert(ps.skip(i as int) =~= Seq::<Seq<char>>::empty());
    None
}

fn next_url_paths_exec() -> (r: Vec<&'static str>)
    ensures
        r@.map_values(|p: &str| p@) == next_url_paths(),
{
    let mut v: Vec<&'static str> = Vec::new();
    v.push("/meta/pagination/next");
    v.push("/meta/pagination/next_url");
    v.push("/pagination/next");
    v.push("/pagination/next_url");
    v.push("/links/next");
    v.push("/links/next_url");
    v.push("/next");
    v.push("/next_url");
    v.push("/_links/next/href");
    assert(v@.map_values(|p: &str| p@) =~= next_url_paths());
    v
}

fn has_more_paths_exec() -> (r: Vec<&'static str>)
    ensures
        r@.map_values(|p: &str| p@) == has_more_paths(),
{
    let mut v: Vec<&'static str> = Vec::new();
    v.push("/meta/pagination/has_more");
    v.push("/pagination/has_more");
    v.push("/has_more");
    assert(v@.map_values(|p: &str| p@) =~= has_more_paths());
    v
}

fn cursor_paths_exec() -> (r: Vec<&'static str>)
    ensures
        r@.map_values(|p: &str| p@) == cursor_paths(),
{
    let mut v: Vec<&'static str> = Vec::new();
    v.push("/meta/pagination/next_cursor");
    v.push("/pagination/next_cursor");
    v.push("/next_cursor");
    v.push("/cursor");
    assert(v@.map_values(|p: &str| p@) =~= cursor_paths());
    v
}

fn first_link_next_exec(headers: &Vec<String>) -> (r: Option<String>)
    ensures
        crate::options::opt_str(r) == first_link_next(crate::sorting::views(headers@)),
{
    let ghost hs = crate::sorting::views(headers@);
    let mut i: usize = 0;
    assert(hs.skip(0) =~= hs);
    while i < headers.len()
        invariant
            i <= headers.len(),
            hs == crate::sorting::views(headers@),
            hs.len() == headers.len(),
            first_link_next(hs) == first_link_next(hs.skip(i as int)),
        decreases headers.len() - i,
    {
        assert(hs.skip(i as int).drop_first() =~= hs.skip(i + 1));
        assert(hs.skip(i as int)[0] == headers@[i as int]@);
        match parse_link_next(headers[i].as_str()) {
            Some(u) => return Some(u),
            None => {},
        }
        i = i + 1;
    }
    assert(hs.skip(i as int) =~= Seq::<Seq<char>>::empty());
    None
}

pub fn find_next(body: &Json, link_headers: &Vec<String>, cursor_path: Option<&String>) -> (r: Option<
    PageToken,
>)
    ensures
        token_view(r) == find_next_spec(
            body@,
            crate::sorting::views(link_headers@),
            match cursor_path {
                Some(p) => Some(p@),
                None => None,
            },
        ),
{
    match cursor_path {
        Some(p) => match scalar_string(body.pointer_str(p.as_str())) {
            Some(v) => return Some(classify_token(v)),
            None => {},
        },
        None => {},
    }
    match first_link_next_exec(link_headers) {
        Some(u) => return Some(PageToken::Url(u)),
        None => {},
    }
    let urls = next_url_paths_exec();
    match first_scalar_exec(body, &urls) {
        Some(u) => return Some(PageToken::Url(u)),
        None => {},
    }
    let more_paths = has_more_paths_exec();
    let has_more = match first_present_exec(body, &more_paths) {
        Some(Json::Bool(b)) => *b,
        _ => false,
    };
    if has_more {
        let cursors = cursor_paths_exec();
        match first_scalar_exec(body, &cursors) {
            Some(c) => Some(PageToken::Cursor(c)),
            None => None,
        }
    } else {
        None
    }
}

pub open spec fn envelope_keys() -> Seq<Seq<char>> {
    seq!["data"@, "results"@, "items"@, "records"@, "entries"@, "features"@, "@graph"@]
}

/// The first envelope member that is an array or an object.
pub open spec fn first_envelope(ms: Seq<(Seq<char>, JsonV)>, keys: Seq<Seq<char>>) -> Option<JsonV>
    decreases keys.len(),
{
    if keys.len() == 0 {
        None
    } else {
        match crate::json::members_get(ms, keys[0]) {
            Some(c) => if c is Array || c is Object {
                Some(c)
            } else {
                first_envelope(ms, keys.drop_first())
            },
            None => first_envelope(ms, keys.drop_first()),
        }
    }
}

/// `auto_select`: the first envelope (`data`, `results`, ...) that holds an
/// array or an object, or else the whole body.
pub open spec fn auto_select_spec(body: JsonV) -> JsonV {
    match body {
        JsonV::Object(ms) => match first_envelope(ms, envelope_keys()) {
            Some(c) => c,
            None => body,
        },
        _ => body,
    }
}

pub fn auto_select(body: &Json) -> (r: Json)
    ensures
        r@ == auto_select_spec(body@),
{
    let ms = match body {
        Json::Object(ms) => ms,
        _ => return body.copy(),
    };
    let mut keys: Vec<&'static str> = Vec::new();
    keys.push("data");
    keys.push("results");
    keys.push("items");
    keys.push("records");
    keys.push("entries");
    keys.push("features");
    keys.push("@graph");
    let ghost ks = keys@.map_values(|k: &str| k@);
    assert(ks =~= envelope_keys());
    let ghost mv = crate::json::members_view(ms@);
    let mut i: usize = 0;
    assert(ks.skip(0) =~= ks);
    while i < keys.len()
        invariant
            i <= keys.len(),
            ks == keys@.map_values(|k: &str| k@),
            ks.len() == keys.len(),
            mv == crate::json::members_view(ms@),
            body@ == JsonV::Object(mv),
            ks == envelope_keys(),
            first_envelope(mv, ks) == first_envelope(mv, ks.skip(i as int)),
        decreases keys.len() - i,
    {
        assert(ks.skip(i as int).drop_first() =~= ks.skip(i + 1));
        assert(ks.skip(i as int)[0] == keys@[i as int]@);
        match crate::json::find_member(ms, keys[i]) {
            Some(c) => if c.is_arr() || c.is_obj() {
                return c.copy();
            },
            None => {},
        }
        i = i + 1;
    }
    assert(ks.skip(i as int) =~= Seq::<Seq<char>>::empty());
    body.copy()
}

/// The rows of a selected value: none for `null`, the items of an array, or
/// the value itself.
pub open spec fn rows_of(selected: JsonV) -> Seq<JsonV> {
    match selected {
        JsonV::Null => Seq::empty(),
        JsonV::Array(items) => items,
        v => seq![v],
    }
}

/// `normalize_page`: the rows at `response_path` (or the auto-selected
/// envelope) and, with automatic pagination, the next token. A page without
/// rows has no next token.
/// Whether a member holds rows: an array, or an object (one row).
pub open spec fn holds_rows(member: Option<JsonV>) -> bool {
    member matches Some(d) && (d is Array || d is Object)
}

proof fn lemma_first_envelope_at(ms: Seq<(Seq<char>, JsonV)>, keys: Seq<Seq<char>>, k: int)
    requires
        0 <= k < keys.len(),
        holds_rows(crate::json::members_get(ms, keys[k])),
        forall|j: int| 0 <= j < k ==> !holds_rows(crate::json::members_get(ms, #[trigger] keys[j])),
    ensures
        first_envelope(ms, keys) == crate::json::members_get(ms, keys[k]),
    decreases k,
{
    if k > 0 {
        assert(!holds_rows(crate::json::members_get(ms, keys[0])));
        assert forall|j: int| 0 <= j < k - 1 implies !holds_rows(
            crate::json::members_get(ms, #[trigger] keys.drop_first()[j]),
        ) by {
            assert(keys.drop_first()[j] == keys[j + 1]);
        }
        assert(keys.drop_first()[k - 1] == keys[k]);
        lemma_first_envelope_at(ms, keys.drop_first(), k - 1);
    }
}

proof fn lemma_no_envelope(ms: Seq<(Seq<char>, JsonV)>, keys: Seq<Seq<char>>)
    requires
        forall|j: int| 0 <= j < keys.len() ==> !holds_rows(crate::json::members_get(ms, #[trigger] keys[j])),
    ensures
        first_envelope(ms, keys) is None,
    decreases keys.len(),
{
    if keys.len() > 0 {
        assert(!holds_rows(crate::json::members_get(ms, keys[0])));
        assert forall|j: int| 0 <= j < keys.len() - 1 implies !holds_rows(
            crate::json::members_get(ms, #[trigger] keys.drop_first()[j]),
        ) by {
            assert(keys.drop_first()[j] == keys[j + 1]);
        }
        lemma_no_envelope(ms, keys.drop_first());
    }
}

/// Without `response_path`, the rows of an object body come from the first
/// of its members `data`, `results`, `items`, `records`, `entries`,
/// `features`, `@graph` that holds an array or an object, which is selected
/// as it is; members under earlier keys that hold neither are passed over.
/// Without such a member the whole body is selected, and a body that is not
/// an object is selected as it is.
pub proof fn law_envelope_selection(ms: Seq<(Seq<char>, JsonV)>, k: int, other: JsonV)
    requires
        0 <= k < 7,
    ensures
        ({
            let keys = seq!["data"@, "results"@, "items"@, "records"@, "entries"@, "features"@, "@graph"@];
            (holds_rows(crate::json::members_get(ms, keys[k])) && (forall|j: int|
                0 <= j < k ==> !holds_rows(crate::json::members_get(ms, #[trigger] keys[j]))))
                ==> auto_select_spec(JsonV::Object(ms)) == crate::json::members_get(ms, keys[k])->0
        }),
        ({
            let keys = seq!["data"@, "results"@, "items"@, "records"@, "entries"@, "features"@, "@graph"@];
            (forall|j: int| 0 <= j < 7 ==> !holds_rows(crate::json::members_get(ms, #[trigger] keys[j])))
                ==> auto_select_spec(JsonV::Object(ms)) == JsonV::Object(ms)
        }),
        !(other is Object) ==> auto_select_spec(other) == other,
{
    let keys = seq!["data"@, "results"@, "items"@, "records"@, "entries"@, "features"@, "@graph"@];
    assert(keys =~= envelope_keys());
    if holds_rows(crate::json::members_get(ms, keys[k])) && (forall|j: int|
        0 <= j < k ==> !holds_rows(crate::json::members_get(ms, #[trigger] keys[j]))) {
        lemma_first_envelope_at(ms, keys, k);
    }
    if forall|j: int| 0 <= j < 7 ==> !holds_rows(crate::json::members_get(ms, #[trigger] keys[j])) {
        lemma_no_envelope(ms, keys);
    }
}

/// An object under `data` is the one row of a page read without
/// `response_path`.
pub proof fn law_data_object_is_selected(o: Seq<(Seq<char>, JsonV)>, rest: Seq<(Seq<char>, JsonV)>)
    ensures
        auto_select_spec(JsonV::Object(seq![("data"@, JsonV::Object(o))] + rest)) == JsonV::Object(o),
{
    let ms = seq![("data"@, JsonV::Object(o))] + rest;
    assert(ms[0] == ("data"@, JsonV::Object(o)));
    assert(crate::json::members_get(ms, "data"@) == Some(JsonV::Object(o)));
    law_envelope_selection(ms, 0, JsonV::Null);
}

pub open spec fn normalize_page_spec(
    body: JsonV,
    link_headers: Seq<Seq<char>>,
    table: crate::table::TableV,
) -> Result<(Seq<JsonV>, Option<TokenV>), crate::error::ErrV> {
    let next = if table.pagination == crate::table::PaginationMode::Auto {
        find_next_spec(body, link_headers, table.cursor_path)
    } else {
        None
    };
    let selected = match table.response_path {
        Some(p) => match crate::json::pointer(body, p) {
            Some(v) => Ok(v),
            None => Err(
                crate::error::ErrV::Response(
                    "configured response_path `"@ + p + "` does not exist"@,
                ),
            ),
        },
        None => Ok(auto_select_spec(body)),
    };
    match selected {
        Err(e) => Err(e),
        Ok(v) => {
            let rows = rows_of(v);
            Ok(
                (
                    rows,
                    if rows.len() == 0 {
                        None
                    } else {
                        next
                    },
                ),
            )
        },
    }
}

pub fn normalize_page(body: &Json, link_headers: &Vec<String>, table: &crate::table::TableConfig) -> (r:
    Result<Page, crate::error::OpenApiFdwError>)
    ensures
        match r {
            Ok(p) => normalize_page_spec(body@, crate::sorting::views(link_headers@), table.summary())
                == Ok::<(Seq<JsonV>, Option<TokenV>), crate::error::ErrV>(
                (crate::json::items_view(p.rows@), token_view(p.next)),
            ),
            Err(e) => normalize_page_spec(body@, crate::sorting::views(link_headers@), table.summary())
                == Err::<(Seq<JsonV>, Option<TokenV>), crate::error::ErrV>(e@),
        },
{
    let next = if table.pagination == crate::table::PaginationMode::Auto {
        find_next(body, link_headers, table.cursor_path.as_ref())
    } else {
        None
    };
    let selected = match &table.response_path {
        Some(p) => match body.pointer_str(p.as_str()) {
            Some(v) => v.copy(),
            None => {
                let mut m = chars_of("configured response_path `");
                crate::text::append_str(&mut m, p.as_str());
                crate::text::append_str(&mut m, "` does not exist");
                return Err(crate::error::OpenApiFdwError::Response(string_of(&m)));
            },
        },
        None => auto_select(body),
    };
    let rows: Vec<Json> = match selected {
        Json::Null => {
            let v: Vec<Json> = Vec::new();
            assert(crate::json::items_view(v@) =~= Seq::<JsonV>::empty());
            v
        },
        Json::Array(items) => items,
        other => {
            let mut v: Vec<Json> = Vec::new();
            let ghost o = other@;
            v.push(other);
            proof {
                crate::json::lemma_items_view_push(Seq::<Json>::empty(), v@[0]);
                assert(Seq::<Json>::empty().push(v@[0]) =~= v@);
                assert(crate::json::items_view(Seq::<Json>::empty()) =~= Seq::<JsonV>::empty());
            }
            v
        },
    };
    proof {
        crate::json::lemma_items_view(rows@);
    }
    let next = if rows.len() == 0 {
        None
    } else {
        next
    };
    Ok(Page { rows, next })
}

/// A page without rows never asks for another page: an empty page with a next
/// token would be a broken pagination contract, and following it could loop
/// forever.
pub proof fn lemma_empty_page_stops(body: JsonV, link_headers: Seq<Seq<char>>, table: crate::table::TableV)
    ensures
        match normalize_page_spec(body, link_headers, table) {
            Ok((rows, next)) => rows.len() == 0 ==> next is None,
            Err(_) => true,
        },
{
}

} // verus!
