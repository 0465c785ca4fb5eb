//! JSON documents as the library sees them.
//!
//! `Json` holds a parsed document as plain values: numbers keep the decimal
//! text that `serde_json` prints for them, and objects keep their members in
//! the order in which `serde_json` yields them. Parsing and printing are done
//! by `serde_json` (and `serde_yaml_ng` for YAML documents); everything that
//! reads a document is verified here against the spec-level view `JsonV`.
use vstd::prelude::*;

use crate::text::{
    chars_of, first_index, lemma_first_index, parse_u64, parse_u64_exec, replace, replace_str, seq_eq,
    split, split_exec,
};

verus! {

#[verifier::external_type_specification]
#[verifier::external_body]
pub struct ExSerdeValue(serde_json::Value);

#[derive(Debug)]
pub enum Json {
    Null,
    Bool(bool),
    Number(String),
    Str(String),
    Array(Vec<Json>),
    Object(Vec<(String, Json)>),
}

pub enum JsonV {
    Null,
    Bool(bool),
    Number(Seq<char>),
    Str(Seq<char>),
    Array(Seq<JsonV>),
    Object(Seq<(Seq<char>, JsonV)>),
}

/// What a parser hands back: a document, or the text of its error.
pub enum ParseOutcome {
    Parsed(JsonV),
    Failed(Seq<char>),
}

impl Json {
    pub open spec fn view_of(self) -> JsonV
        decreases self,
    {
        match self {
            Json::Null => JsonV::Null,
            Json::Bool(b) => JsonV::Bool(b),
            Json::Number(n) => JsonV::Number(n@),
            Json::Str(s) => JsonV::Str(s@),
            Json::Array(items) => JsonV::Array(items_view(items@)),
            Json::Object(members) => JsonV::Object(members_view(members@)),
        }
    }
}

pub open spec fn items_view(s: Seq<Json>) -> Seq<JsonV>
    decreases s,
{
    if s.len() == 0 {
        Seq::empty()
    } else {
        items_view(s.subrange(0, s.len() - 1)).push(s[s.len() - 1].view_of())
    }
}

pub open spec fn members_view(s: Seq<(String, Json)>) -> Seq<(Seq<char>, JsonV)>
    decreases s,
{
    if s.len() == 0 {
        Seq::empty()
    } else {
        members_view(s.subrange(0, s.len() - 1)).push(
            (s[s.len() - 1].0@, s[s.len() - 1].1.view_of()),
        )
    }
}

impl View for Json {
    type V = JsonV;

    open spec fn view(&self) -> JsonV {
        self.view_of()
    }
}

pub proof fn lemma_items_view(s: Seq<Json>)
    ensures
        items_view(s).len() == s.len(),
        forall|i: int| 0 <= i < s.len() ==> #[trigger] items_view(s)[i] == s[i].view_of(),
    decreases s.len(),
{
    if s.len() > 0 {
        lemma_items_view(s.subrange(0, s.len() - 1));
    }
}

pub proof fn lemma_members_view(s: Seq<(String, Json)>)
    ensures
        members_view(s).len() == s.len(),
        forall|i: int|
            0 <= i < s.len() ==> #[trigger] members_view(s)[i] == (s[i].0@, s[i].1.view_of()),
    decreases s.len(),
{
    if s.len() > 0 {
        lemma_members_view(s.subrange(0, s.len() - 1));
    }
}

pub proof fn lemma_items_view_push(s: Seq<Json>, x: Json)
    ensures
        items_view(s.push(x)) == items_view(s).push(x.view_of()),
{
    assert(s.push(x).subrange(0, s.len() as int) =~= s);
}

pub proof fn lemma_members_view_push(s: Seq<(String, Json)>, x: (String, Json))
    ensures
        members_view(s.push(x)) == members_view(s).push((x.0@, x.1.view_of())),
{
    assert(s.push(x).subrange(0, s.len() as int) =~= s);
}

// ---------------------------------------------------------------------------
// Accessors on the view
// ---------------------------------------------------------------------------

/// `Map::get`: the value of the first member named `key`.
pub open spec fn members_get(ms: Seq<(Seq<char>, JsonV)>, key: Seq<char>) -> Option<JsonV>
    decreases ms.len(),
{
    if ms.len() == 0 {
        None
    } else if ms[0].0 == key {
        Some(ms[0].1)
    } else {
        members_get(ms.drop_first(), key)
    }
}

/// `Value::get` with a string key.
pub open spec fn get(j: JsonV, key: Seq<char>) -> Option<JsonV> {
    match j {
        JsonV::Object(ms) => members_get(ms, key),
        _ => None,
    }
}

pub open spec fn as_str(j: Option<JsonV>) -> Option<Seq<char>> {
    match j {
        Some(JsonV::Str(s)) => Some(s),
        _ => None,
    }
}

pub open spec fn as_bool(j: Option<JsonV>) -> Option<bool> {
    match j {
        Some(JsonV::Bool(b)) => Some(b),
        _ => None,
    }
}

pub open spec fn is_object(j: JsonV) -> bool {
    j is Object
}

pub open spec fn is_array(j: JsonV) -> bool {
    j is Array
}

/// The member keys of an object, in order (empty for other values).
pub open spec fn keys(j: JsonV) -> Seq<Seq<char>> {
    match j {
        JsonV::Object(ms) => ms.map_values(|m: (Seq<char>, JsonV)| m.0),
        _ => Seq::empty(),
    }
}

pub open spec fn bool_text(b: bool) -> Seq<char> {
    if b {
        seq!['t', 'r', 'u', 'e']
    } else {
        seq!['f', 'a', 'l', 's', 'e']
    }
}

// ---------------------------------------------------------------------------
// Executable accessors
// ---------------------------------------------------------------------------

impl Json {
    pub fn get_member(&self, key: &Vec<char>) -> (r: Option<&Json>)
        ensures
            r is Some == get(self@, key@) is Some,
            r matches Some(x) ==> get(self@, key@) == Some(x@),
    {
        match self {
            Json::Object(members) => {
                let mut i: usize = 0;
                proof {
                    lemma_members_view(members@);
                    assert(members_view(members@).skip(0) == members_view(members@));
                }
                while i < members.len()
                    invariant
                        i <= members.len(),
                        self@ == JsonV::Object(members_view(members@)),
                        members_view(members@).len() == members@.len(),
                        forall|k: int|
                            0 <= k < members@.len() ==> #[trigger] members_view(members@)[k] == (
                            members@[k].0@,
                            members@[k].1.view_of(),
                        ),
                        members_get(members_view(members@), key@) == members_get(
                            members_view(members@).skip(i as int),
                            key@,
                        ),
                    decreases members.len() - i,
                {
                    let ghost rest = members_view(members@).skip(i as int);
                    let k = chars_of(members[i].0.as_str());
                    if seq_eq(&k, key) {
                        assert(rest[0] == members_view(members@)[i as int]);
                        assert(rest.len() > 0);
                        assert(rest[0].0 == key@);
                        assert(members_get(rest, key@) == Some(rest[0].1));
                        assert(self@ == JsonV::Object(members_view(members@)));
                        return Some(&members[i].1);
                    }
                    assert(rest.drop_first() =~= members_view(members@).skip(i + 1));
                    i = i + 1;
                }
                assert(members_view(members@).skip(i as int) =~= Seq::empty());
                None
            },
            _ => None,
        }
    }

    pub fn get_str(&self, key: &str) -> (r: Option<&Json>)
        ensures
            r is Some == get(self@, key@) is Some,
            r matches Some(x) ==> get(self@, key@) == Some(x@),
    {
        let k = chars_of(key);
        self.get_member(&k)
    }

    pub fn is_obj(&self) -> (r: bool)
        ensures
            r == is_object(self@),
    {
        match self {
            Json::Object(_) => true,
            _ => false,
        }
    }

    pub fn is_arr(&self) -> (r: bool)
        ensures
            r == is_array(self@),
    {
        match self {
            Json::Array(_) => true,
            _ => false,
        }
    }

    pub fn is_null(&self) -> (r: bool)
        ensures
            r == (self@ is Null),
    {
        match self {
            Json::Null => true,
            _ => false,
        }
    }

    /// A deep copy with the same view.
    pub fn copy(&self) -> (r: Json)
        ensures
            r@ == self@,
        decreases self,
    {
        match self {
            Json::Null => Json::Null,
            Json::Bool(b) => Json::Bool(*b),
            Json::Number(n) => Json::Number(n.clone()),
            Json::Str(s) => Json::Str(s.clone()),
            Json::Array(items) => {
                let mut out: Vec<Json> = Vec::new();
                let mut i: usize = 0;
                while i < items.len()
                    invariant
                        i <= items.len(),
                        *self == Json::Array(*items),
                        items_view(out@) == items_view(items@.subrange(0, i as int)),
                    decreases items.len() - i,
                {
                    proof {
                        assert(decreases_to!(*self => self->Array_0));
                        assert(decreases_to!(self->Array_0 => self->Array_0@));
                        assert(decreases_to!(self->Array_0@ => self->Array_0@[i as int]));
                    }
                    let x = items[i].copy();
                    proof {
                        lemma_items_view_push(out@, x);
                        assert(items@.subrange(0, i + 1).subrange(0, i as int) =~= items@.subrange(
                            0,
                            i as int,
                        ));
                    }
                    out.push(x);
                    i = i + 1;
                }
                assert(items@.subrange(0, items.len() as int) =~= items@);
                Json::Array(out)
            },
            Json::Object(members) => {
                let mut out: Vec<(String, Json)> = Vec::new();
                let mut i: usize = 0;
                while i < members.len()
                    invariant
                        i <= members.len(),
                        *self == Json::Object(*members),
                        members_view(out@) == members_view(members@.subrange(0, i as int)),
                    decreases members.len() - i,
                {
                    proof {
                        assert(decreases_to!(*self => self->Object_0));
                        assert(decreases_to!(self->Object_0 => self->Object_0@));
                        assert(decreases_to!(self->Object_0@ => self->Object_0@[i as int]));
                        assert(decreases_to!(self->Object_0@[i as int] => self->Object_0@[i as int].1));
                    }
                    let x = members[i].1.copy();
                    let k = members[i].0.clone();
                    proof {
                        lemma_members_view_push(out@, (k, x));
                        assert(members@.subrange(0, i + 1).subrange(0, i as int)
                            =~= members@.subrange(0, i as int));
                    }
                    out.push((k, x));
                    i = i + 1;
                }
                assert(members@.subrange(0, members.len() as int) =~= members@);
                Json::Object(out)
            },
        }
    }
}

pub fn empty_object() -> (r: Json)
    ensures
        r@ == JsonV::Object(Seq::empty()),
{
    let v: Vec<(String, Json)> = Vec::new();
    assert(members_view(v@) =~= Seq::empty());
    Json::Object(v)
}

// ---------------------------------------------------------------------------
// Editing objects (`Map::insert`, `Map::entry(..).or_insert`, `Map::remove`)
// ---------------------------------------------------------------------------

/// Index of the first member named `key`, or the length when there is none.
pub open spec fn member_index(ms: Seq<(Seq<char>, JsonV)>, key: Seq<char>) -> int
    decreases ms.len(),
{
    if ms.len() == 0 {
        0
    } else if ms[0].0 == key {
        0
    } else {
        1 + member_index(ms.drop_first(), key)
    }
}

pub proof fn lemma_member_index(ms: Seq<(Seq<char>, JsonV)>, key: Seq<char>)
    ensures
        0 <= member_index(ms, key) <= ms.len(),
        member_index(ms, key) < ms.len() ==> ms[member_index(ms, key)].0 == key,
        forall|j: int| 0 <= j < member_index(ms, key) ==> ms[j].0 != key,
        members_get(ms, key) == if member_index(ms, key) < ms.len() {
            Some(ms[member_index(ms, key)].1)
        } else {
            None::<JsonV>
        },
    decreases ms.len(),
{
    if ms.len() > 0 && ms[0].0 != key {
        lemma_member_index(ms.drop_first(), key);
        assert forall|j: int| 0 <= j < member_index(ms, key) implies ms[j].0 != key by {
            if j > 0 {
                assert(ms[j] == ms.drop_first()[j - 1]);
            }
        }
    }
}

/// `Map::insert`: replaces the value of a present key, or adds the member.
pub open spec fn members_insert(ms: Seq<(Seq<char>, JsonV)>, key: Seq<char>, v: JsonV) -> Seq<
    (Seq<char>, JsonV),
> {
    let i = member_index(ms, key);
    if i < ms.len() {
        ms.update(i, (key, v))
    } else {
        ms.push((key, v))
    }
}

/// `Map::entry(key).or_insert(v)`: adds the member unless the key is present.
pub open spec fn members_or_insert(ms: Seq<(Seq<char>, JsonV)>, key: Seq<char>, v: JsonV) -> Seq<
    (Seq<char>, JsonV),
> {
    if member_index(ms, key) < ms.len() {
        ms
    } else {
        ms.push((key, v))
    }
}

/// `Map::remove`: the members without the one named `key`.
pub open spec fn members_remove(ms: Seq<(Seq<char>, JsonV)>, key: Seq<char>) -> Seq<
    (Seq<char>, JsonV),
> {
    let i = member_index(ms, key);
    if i < ms.len() {
        ms.remove(i)
    } else {
        ms
    }
}

pub fn member_position(ms: &Vec<(String, Json)>, key: &Vec<char>) -> (r: usize)
    ensures
        r == member_index(members_view(ms@), key@),
        r <= ms.len(),
{
    proof {
        lemma_members_view(ms@);
        lemma_member_index(members_view(ms@), key@);
    }
    let ghost mv = members_view(ms@);
    let mut i: usize = 0;
    while i < ms.len()
        invariant
            i <= ms.len(),
            mv == members_view(ms@),
            mv.len() == ms.len(),
            forall|k: int| 0 <= k < ms@.len() ==> #[trigger] mv[k] == (ms@[k].0@, ms@[k].1.view_of()),
            member_index(mv, key@) >= i,
            member_index(mv, key@) <= mv.len(),
            member_index(mv, key@) < mv.len() ==> mv[member_index(mv, key@)].0 == key@,
            forall|j: int| 0 <= j < member_index(mv, key@) ==> mv[j].0 != key@,
        decreases ms.len() - i,
    {
        let k = chars_of(ms[i].0.as_str());
        if seq_eq(&k, key) {
            assert(mv[i as int].0 == key@);
            return i;
        }
        assert(mv[i as int].0 != key@);
        i = i + 1;
    }
    i
}

/// A deep copy of an object's members.
pub fn copy_members(ms: &Vec<(String, Json)>) -> (r: Vec<(String, Json)>)
    ensures
        members_view(r@) == members_view(ms@),
{
    let mut out: Vec<(String, Json)> = Vec::new();
    let mut i: usize = 0;
    while i < ms.len()
        invariant
            i <= ms.len(),
            members_view(out@) == members_view(ms@.subrange(0, i as int)),
        decreases ms.len() - i,
    {
        let x = ms[i].1.copy();
        let k = ms[i].0.clone();
        proof {
            lemma_members_view_push(out@, (k, x));
            lemma_members_view_push(ms@.subrange(0, i as int), ms@[i as int]);
            assert(ms@.subrange(0, i as int).push(ms@[i as int]) =~= ms@.subrange(0, i + 1));
        }
        out.push((k, x));
        i = i + 1;
    }
    assert(ms@.subrange(0, ms.len() as int) =~= ms@);
    out
}

pub fn find_member<'a>(ms: &'a Vec<(String, Json)>, key: &str) -> (r: Option<&'a Json>)
    ensures
        match r {
            Some(x) => members_get(members_view(ms@), key@) == Some(x@),
            None => members_get(members_view(ms@), key@) is None,
        },
{
    proof {
        lemma_members_view(ms@);
        lemma_member_index(members_view(ms@), key@);
    }
    let k = chars_of(key);
    let i = member_position(ms, &k);
    if i < ms.len() {
        Some(&ms[i].1)
    } else {
        None
    }
}

pub fn insert_member(ms: &mut Vec<(String, Json)>, key: String, v: Json)
    ensures
        members_view(final(ms)@) == members_insert(members_view(old(ms)@), key@, v@),
{
    proof {
        lemma_members_view(ms@);
    }
    let k = chars_of(key.as_str());
    let i = member_position(ms, &k);
    let ghost kv = key@;
    let ghost vv = v@;
    let ghost before = members_view(ms@);
    if i < ms.len() {
        ms.set(i, (key, v));
        proof {
            lemma_members_view(ms@);
            assert(members_view(ms@) =~= before.update(i as int, (kv, vv)));
        }
    } else {
        let ghost old_ms = ms@;
        ms.push((key, v));
        proof {
            lemma_members_view_push(old_ms, ms@.last());
        }
    }
}

pub fn or_insert_member(ms: &mut Vec<(String, Json)>, key: String, v: Json)
    ensures
        members_view(final(ms)@) == members_or_insert(members_view(old(ms)@), key@, v@),
{
    proof {
        lemma_members_view(ms@);
    }
    let k = chars_of(key.as_str());
    let i = member_position(ms, &k);
    if i >= ms.len() {
        let ghost old_ms = ms@;
        ms.push((key, v));
        proof {
            lemma_members_view_push(old_ms, ms@.last());
        }
    }
}

pub fn remove_member(ms: &mut Vec<(String, Json)>, key: &str) -> (r: Option<Json>)
    ensures
        members_view(final(ms)@) == members_remove(members_view(old(ms)@), key@),
        match r {
            Some(x) => members_get(members_view(old(ms)@), key@) == Some(x@),
            None => members_get(members_view(old(ms)@), key@) is None,
        },
{
    proof {
        lemma_members_view(ms@);
        lemma_member_index(members_view(ms@), key@);
    }
    let k = chars_of(key);
    let i = member_position(ms, &k);
    if i < ms.len() {
        let ghost before = members_view(ms@);
        let ghost old_ms = ms@;
        let (_, x) = ms.remove(i);
        proof {
            lemma_members_view(ms@);
            assert(members_view(ms@) =~= before.remove(i as int)) by {
                assert forall|j: int| 0 <= j < ms@.len() implies members_view(ms@)[j] == before.remove(
                    i as int,
                )[j] by {
                    if j < i {
                        assert(ms@[j] == old_ms[j]);
                    } else {
                        assert(ms@[j] == old_ms[j + 1]);
                    }
                }
            }
        }
        Some(x)
    } else {
        None
    }
}

// ---------------------------------------------------------------------------
// JSON Pointer (RFC 6901) as `Value::pointer` evaluates it
// ---------------------------------------------------------------------------

pub open spec fn unescape_token(t: Seq<char>) -> Seq<char> {
    replace(replace(t, seq!['~', '1'], seq!['/']), seq!['~', '0'], seq!['~'])
}

/// An array index token: no sign, no leading zero, and a `usize` value.
pub open spec fn parse_index(t: Seq<char>) -> Option<usize> {
    if t.len() > 0 && (t[0] == '+' || (t[0] == '0' && t.len() != 1)) {
        None
    } else {
        match parse_u64(t) {
            Some(v) => if v <= usize::MAX {
                Some(v as usize)
            } else {
                None
            },
            None => None,
        }
    }
}

pub open spec fn pointer_step(j: JsonV, token: Seq<char>) -> Option<JsonV> {
    match j {
        JsonV::Object(ms) => members_get(ms, token),
        JsonV::Array(items) => match parse_index(token) {
            Some(i) => if i < items.len() {
                Some(items[i as int])
            } else {
                None
            },
            None => None,
        },
        _ => None,
    }
}

pub open spec fn walk(j: JsonV, tokens: Seq<Seq<char>>) -> Option<JsonV>
    decreases tokens.len(),
{
    if tokens.len() == 0 {
        Some(j)
    } else {
        match pointer_step(j, unescape_token(tokens[0])) {
            Some(next) => walk(next, tokens.drop_first()),
            None => None,
        }
    }
}

/// `Value::pointer`.
pub open spec fn pointer(j: JsonV, p: Seq<char>) -> Option<JsonV> {
    if p.len() == 0 {
        Some(j)
    } else if p[0] != '/' {
        None
    } else {
        walk(j, split(p, '/').drop_first())
    }
}

fn parse_index_exec(t: &Vec<char>) -> (r: Option<usize>)
    ensures
        r == parse_index(t@),
{
    if t.len() > 0 && (t[0] == '+' || (t[0] == '0' && t.len() != 1)) {
        return None;
    }
    match parse_u64_exec(t) {
        Some(v) => if v <= usize::MAX as u64 {
            Some(v as usize)
        } else {
            None
        },
        None => None,
    }
}

impl Json {
    fn step(&self, token: &Vec<char>) -> (r: Option<&Json>)
        ensures
            r is Some == pointer_step(self@, token@) is Some,
            r matches Some(x) ==> pointer_step(self@, token@) == Some(x@),
    {
        match self {
            Json::Object(_) => self.get_member(token),
            Json::Array(items) => {
                proof {
                    lemma_items_view(items@);
                }
                match parse_index_exec(token) {
                    Some(i) => if i < items.len() {
                        Some(&items[i])
                    } else {
                        None
                    },
                    None => None,
                }
            },
            _ => None,
        }
    }

    pub fn pointer(&self, p: &Vec<char>) -> (r: Option<&Json>)
        ensures
            r is Some == pointer(self@, p@) is Some,
            r matches Some(x) ==> pointer(self@, p@) == Some(x@),
    {
        if p.len() == 0 {
            return Some(self);
        }
        if p[0] != '/' {
            return None;
        }
        let parts = split_exec(p, '/');
        let ghost tokens = split(p@, '/');
        proof {
            lemma_split_nonempty(p@, '/');
        }
        let mut cur: &Json = self;
        let mut i: usize = 1;
        assert(tokens.skip(1) =~= tokens.drop_first());
        while i < parts.len()
            invariant
                1 <= i <= parts.len(),
                parts@.len() == tokens.len(),
                forall|k: int| 0 <= k < parts@.len() ==> #[trigger] parts@[k]@ == tokens[k],
                walk(self@, tokens.drop_first()) == walk(cur@, tokens.skip(i as int)),
                tokens == split(p@, '/'),
                pointer(self@, p@) == walk(self@, tokens.drop_first()),
            decreases parts.len() - i,
        {
            let raw = &parts[i];
            proof {
                reveal_strlit("~1");
                reveal_strlit("~0");
            }
            let a = replace_str(raw, "~1", "/");
            let token = replace_str(&a, "~0", "~");
            assert(token@ == unescape_token(tokens[i as int])) by {
                reveal_strlit("~1");
                reveal_strlit("/");
                reveal_strlit("~0");
                reveal_strlit("~");
                assert("~1"@ =~= seq!['~', '1']);
                assert("/"@ =~= seq!['/']);
                assert("~0"@ =~= seq!['~', '0']);
                assert("~"@ =~= seq!['~']);
            }
            assert(tokens.skip(i as int)[0] == tokens[i as int]);
            assert(tokens.skip(i as int).drop_first() =~= tokens.skip(i + 1));
            match cur.step(&token) {
                Some(next) => {
                    cur = next;
                },
                None => {
                    return None;
                },
            }
            i = i + 1;
        }
        assert(tokens.skip(i as int).len() == 0);
        Some(cur)
    }

    pub fn pointer_str(&self, p: &str) -> (r: Option<&Json>)
        ensures
            r is Some == pointer(self@, p@) is Some,
            r matches Some(x) ==> pointer(self@, p@) == Some(x@),
    {
        let v = chars_of(p);
        self.pointer(&v)
    }
}

pub proof fn lemma_split_nonempty(s: Seq<char>, c: char)
    ensures
        split(s, c).len() >= 1,
    decreases s.len(),
{
    lemma_first_index(s, c);
    if first_index(s, c) < s.len() {
        lemma_split_nonempty(s.skip(first_index(s, c) + 1), c);
    }
}

// ---------------------------------------------------------------------------
// Parsing and printing through `serde_json` / `serde_yaml_ng`
// ---------------------------------------------------------------------------

/// What `serde_json::from_str::<Value>` returns for a text: the document, or
/// the `Display` text of its error.
pub uninterp spec fn json_from_text(text: Seq<char>) -> ParseOutcome;

/// What `serde_json::from_slice::<Value>` returns for bytes: the document,
/// or the line and column of its error.
pub uninterp spec fn json_from_bytes(bytes: Seq<u8>) -> BytesOutcome;

/// What `serde_yaml_ng::from_slice::<serde_json::Value>` returns for bytes.
pub uninterp spec fn yaml_from_bytes(bytes: Seq<u8>) -> ParseOutcome;

/// The text that `serde_json` prints for a document (`Value::to_string`).
pub uninterp spec fn json_text(value: JsonV) -> Seq<char>;

pub enum BytesOutcome {
    Parsed(JsonV),
    Failed(usize, usize),
}

/// Turns a `serde_json::Value` into the library's `Json`, one variant for one
/// variant, keeping members in `serde_json`'s order and numbers as the text
/// that `serde_json` prints for them.
#[verifier::external_body]
fn from_serde(value: serde_json::Value) -> Json {
    match value {
        serde_json::Value::Null => Json::Null,
        serde_json::Value::Bool(b) => Json::Bool(b),
        serde_json::Value::Number(n) => Json::Number(n.to_string()),
        serde_json::Value::String(s) => Json::Str(s),
        serde_json::Value::Array(items) => Json::Array(items.into_iter().map(from_serde).collect()),
        serde_json::Value::Object(map) => Json::Object(
            map.into_iter().map(|(k, v)| (k, from_serde(v))).collect(),
        ),
    }
}

/// Turns the library's `Json` back into a `serde_json::Value`, one variant for
/// one variant; a number is read back from the text `serde_json` printed.
#[verifier::external_body]
fn to_serde(value: &Json) -> serde_json::Value {
    match value {
        Json::Null => serde_json::Value::Null,
        Json::Bool(b) => serde_json::Value::Bool(*b),
        Json::Number(n) => match n.parse::<serde_json::Number>() {
            Ok(number) => serde_json::Value::Number(number),
            Err(_) => serde_json::Value::Null,
        },
        Json::Str(s) => serde_json::Value::String(s.clone()),
        Json::Array(items) => serde_json::Value::Array(items.iter().map(to_serde).collect()),
        Json::Object(members) => serde_json::Value::Object(
            members.iter().map(|(k, v)| (k.clone(), to_serde(v))).collect(),
        ),
    }
}

/// `serde_json::from_str::<serde_json::Value>`. The contract names its result:
/// the document, or the text of the error that `serde_json` reports.
#[verifier::external_body]
pub fn parse_json_text(raw: &str) -> (r: Result<Json, String>)
    ensures
        match r {
            Ok(j) => json_from_text(raw@) == ParseOutcome::Parsed(j@),
            Err(e) => json_from_text(raw@) == ParseOutcome::Failed(e@),
        },
{
    match serde_json::from_str::<serde_json::Value>(raw) {
        Ok(value) => Ok(from_serde(value)),
        Err(error) => Err(error.to_string()),
    }
}

/// `serde_json::from_slice::<serde_json::Value>`, with the error's line and
/// column (`Error::line`, `Error::column`).
#[verifier::external_body]
pub fn parse_json_bytes(raw: &[u8]) -> (r: Result<Json, (usize, usize)>)
    ensures
        match r {
            Ok(j) => json_from_bytes(raw@) == BytesOutcome::Parsed(j@),
            Err((line, column)) => json_from_bytes(raw@) == BytesOutcome::Failed(line, column),
        },
{
    match serde_json::from_slice::<serde_json::Value>(raw) {
        Ok(value) => Ok(from_serde(value)),
        Err(error) => Err((error.line(), error.column())),
    }
}

/// `serde_yaml_ng::from_slice::<serde_json::Value>`, with the error's text.
#[verifier::external_body]
pub fn parse_yaml_bytes(raw: &[u8]) -> (r: Result<Json, String>)
    ensures
        match r {
            Ok(j) => yaml_from_bytes(raw@) == ParseOutcome::Parsed(j@),
            Err(e) => yaml_from_bytes(raw@) == ParseOutcome::Failed(e@),
        },
{
    match serde_yaml_ng::from_slice::<serde_json::Value>(raw) {
        Ok(value) => Ok(from_serde(value)),
        Err(error) => Err(error.to_string()),
    }
}

/// `Value::to_string`: the compact JSON text of a document.
#[verifier::external_body]
pub fn to_json_text(value: &Json) -> (r: String)
    ensures
        r@ == json_text(value@),
{
    to_serde(value).to_string()
}

} // verus!
