//! What the foreign data wrapper decides during a scan: which request a scan
//! sends (path parameters, query parameters, row limits), how it pages, and
//! how API values become PostgreSQL cells. PostgreSQL's own types are
//! represented here by plain values; the extension glue converts them.
use vstd::prelude::*;

use crate::error::{ErrV, OpenApiFdwError};
use crate::json::{bool_text, json_text, Json, JsonV};
use crate::openapi::sanitize_spec;
use crate::option_map::pairs_view;
use crate::text::{
    append, append_str, chars_of, decimal, first_index, lemma_first_index, lower, parse_u64, string_of,
    trim_char,
};

verus! {

// ---------------------------------------------------------------------------
// Qualifiers
// ---------------------------------------------------------------------------

/// The value of a qualifier as the scan reads it.
#[derive(Debug)]
pub enum QualCell {
    Bool(bool),
    /// A `"char"`, `smallint`, `integer` or `bigint` value.
    Int(i64),
    /// A string, or the text that PostgreSQL prints for a float, numeric or
    /// UUID value.
    Text(String),
    /// The text that PostgreSQL prints for a date, time or timestamp, which
    /// comes in single quotes.
    Quoted(String),
    /// An array, a parameter, or a value of any other type.
    Other,
}

/// A `WHERE` condition that PostgreSQL hands to the scan.
#[derive(Debug)]
pub struct Qual {
    pub field: String,
    pub operator: String,
    pub value: QualCell,
    pub use_or: bool,
}

/// The decimal text of a signed integer.
pub open spec fn int_text(i: int) -> Seq<char> {
    if i < 0 {
        seq!['-'] + decimal((-i) as nat)
    } else {
        decimal(i as nat)
    }
}

pub fn int_text_exec(i: i64) -> (r: Vec<char>)
    ensures
        r@ == int_text(i as int),
{
    if i < 0 {
        let magnitude: u64 = ((-(i + 1)) as u64) + 1;
        let mut out = vec!['-'];
        let d = crate::text::decimal_of(magnitude);
        append(&mut out, &d);
        assert(out@ =~= seq!['-'] + decimal(magnitude as nat));
        out
    } else {
        crate::text::decimal_of(i as u64)
    }
}

/// The text an equality qualifier contributes to a request; other
/// operators and `OR` lists contribute nothing.
pub open spec fn qual_value_spec(q: Qual) -> Option<Seq<char>> {
    if q.operator@ != "="@ || q.use_or {
        None
    } else {
        match q.value {
            QualCell::Bool(b) => Some(bool_text(b)),
            QualCell::Int(i) => Some(int_text(i as int)),
            QualCell::Text(s) => Some(s@),
            QualCell::Quoted(s) => Some(trim_char(s@, '\'')),
            QualCell::Other => None,
        }
    }
}

pub fn qual_value(q: &Qual) -> (r: Option<String>)
    ensures
        match r {
            Some(s) => qual_value_spec(*q) == Some(s@),
            None => qual_value_spec(*q) is None,
        },
{
    if !crate::text::str_eq(q.operator.as_str(), "=") || q.use_or {
        return None;
    }
    match &q.value {
        QualCell::Bool(b) => {
            let t = if *b {
                vec!['t', 'r', 'u', 'e']
            } else {
                vec!['f', 'a', 'l', 's', 'e']
            };
            assert(t@ =~= bool_text(*b));
            Some(string_of(&t))
        },
        QualCell::Int(i) => {
            let t = int_text_exec(*i);
            Some(string_of(&t))
        },
        QualCell::Text(s) => Some(s.clone()),
        QualCell::Quoted(s) => {
            let v = chars_of(s.as_str());
            let t = crate::text::trim_char_exec(&v, '\'');
            Some(string_of(&t))
        },
        QualCell::Other => None,
    }
}

/// The value of the last equality qualifier on a field, fields compared in
/// ASCII lower case.
pub open spec fn qual_lookup(quals: Seq<Qual>, key: Seq<char>) -> Option<Seq<char>>
    decreases quals.len(),
{
    if quals.len() == 0 {
        None
    } else {
        let q = quals.last();
        if lower(q.field@) == key && qual_value_spec(q) is Some {
            qual_value_spec(q)
        } else {
            qual_lookup(quals.drop_last(), key)
        }
    }
}

fn qual_lookup_exec(quals: &Vec<Qual>, key: &Vec<char>) -> (r: Option<String>)
    ensures
        match r {
            Some(s) => qual_lookup(quals@, key@) == Some(s@),
            None => qual_lookup(quals@, key@) is None,
        },
{
    let mut i: usize = quals.len();
    assert(quals@.take(i as int) =~= quals@);
    while i > 0
        invariant
            i <= quals.len(),
            qual_lookup(quals@, key@) == qual_lookup(quals@.take(i as int), key@),
        decreases i,
    {
        let q = &quals[i - 1];
        assert(quals@.take(i as int).last() == *q);
        assert(quals@.take(i as int).drop_last() =~= quals@.take(i - 1));
        let f = chars_of(q.field.as_str());
        let lf = crate::text::lower_of(&f);
        if crate::text::seq_eq(&lf, key) {
            match qual_value(q) {
                Some(v) => return Some(v),
                None => {},
            }
        }
        i = i - 1;
    }
    assert(quals@.take(0) =~= Seq::<Qual>::empty());
    None
}

// ---------------------------------------------------------------------------
// Path parameters
// ---------------------------------------------------------------------------

pub open spec fn is_ascii_alnum_byte(b: u8) -> bool {
    (48 <= b && b <= 57) || (65 <= b && b <= 90) || (97 <= b && b <= 122)
}

pub open spec fn hex_digit(d: int) -> char {
    if d < 10 {
        (48 + d) as char
    } else {
        (55 + d) as char
    }
}

/// Bytes with every byte but an ASCII letter or digit written as `%XX`
/// (upper-case hex), as `percent_encoding::NON_ALPHANUMERIC` does.
pub open spec fn percent_encoded(bytes: Seq<u8>) -> Seq<char>
    decreases bytes.len(),
{
    if bytes.len() == 0 {
        Seq::empty()
    } else {
        let b = bytes[0];
        let head = if is_ascii_alnum_byte(b) {
            seq![b as char]
        } else {
            seq!['%', hex_digit((b / 16) as int), hex_digit((b % 16) as int)]
        };
        head + percent_encoded(bytes.drop_first())
    }
}

/// `utf8_percent_encode(value, NON_ALPHANUMERIC)`.
#[verifier::external_body]
fn percent_encode(value: &str) -> (r: String)
    ensures
        r@ == percent_encoded(vstd::utf8::encode_utf8(value@)),
{
    percent_encoding::utf8_percent_encode(value, percent_encoding::NON_ALPHANUMERIC).to_string()
}

/// The endpoint with each `{parameter}` replaced by the percent-encoded value
/// of the equality qualifier on its column (the parameter as a column name),
/// and the (column, value) pairs used, in order.
pub open spec fn substitute_rec(rem: Seq<char>, quals: Seq<Qual>) -> Result<
    (Seq<char>, Seq<(Seq<char>, Seq<char>)>),
    ErrV,
>
    decreases rem.len(),
{
    let s = first_index(rem, '{');
    if s >= rem.len() {
        Ok((rem, Seq::empty()))
    } else {
        let after = rem.skip(s + 1);
        let e = first_index(after, '}');
        if e >= after.len() {
            Err(ErrV::Configuration("endpoint has an unmatched `{`"@))
        } else {
            let parameter = after.take(e);
            let field = sanitize_spec(parameter);
            match qual_lookup(quals, lower(field)) {
                None => Err(
                    ErrV::Configuration(
                        "endpoint path parameter `"@ + parameter + "` requires `WHERE "@ + field
                            + " = <value>`"@,
                    ),
                ),
                Some(v) => {
                    proof {
                        lemma_first_index(rem, '{');
                        lemma_first_index(after, '}');
                    }
                    match substitute_rec(after.skip(e + 1), quals) {
                        Ok((rest, bindings)) => Ok(
                            (
                                rem.take(s) + percent_encoded(vstd::utf8::encode_utf8(v)) + rest,
                                seq![(field, v)] + bindings,
                            ),
                        ),
                        Err(err) => Err(err),
                    }
                },
            }
        }
    }
}

/// An endpoint with its path parameters filled in.
#[derive(Debug)]
pub struct PathSubstitution {
    pub endpoint: String,
    /// The (column, value) pairs that filled the parameters, in order.
    pub bindings: Vec<(String, String)>,
}

/// Whether a field (ASCII case ignored) filled a path parameter.
pub open spec fn binds(bindings: Seq<(Seq<char>, Seq<char>)>, field: Seq<char>) -> bool {
    exists|i: int| 0 <= i < bindings.len() && lower(#[trigger] bindings[i].0) == lower(field)
}

/// The value injected for a column: that of the last binding of its name.
pub open spec fn injected_spec(bindings: Seq<(Seq<char>, Seq<char>)>, column: Seq<char>) -> Option<Seq<char>>
    decreases bindings.len(),
{
    if bindings.len() == 0 {
        None
    } else if bindings.last().0 == column {
        Some(bindings.last().1)
    } else {
        injected_spec(bindings.drop_last(), column)
    }
}

impl PathSubstitution {
    /// Whether the qualifier on `field` was used for a path parameter.
    pub fn uses(&self, field: &str) -> (r: bool)
        ensures
            r == binds(pairs_view(self.bindings@), field@),
    {
        let ghost b = pairs_view(self.bindings@);
        let f = chars_of(field);
        let lf = crate::text::lower_of(&f);
        let mut i: usize = 0;
        while i < self.bindings.len()
            invariant
                i <= self.bindings.len(),
                b == pairs_view(self.bindings@),
                b.len() == self.bindings.len(),
                lf@ == lower(field@),
                forall|j: int| 0 <= j < i ==> lower(#[trigger] b[j].0) != lower(field@),
            decreases self.bindings.len() - i,
        {
            let n = chars_of(self.bindings[i].0.as_str());
            let ln = crate::text::lower_of(&n);
            assert(b[i as int].0 == self.bindings@[i as int].0@);
            if crate::text::seq_eq(&ln, &lf) {
                return true;
            }
            i = i + 1;
        }
        false
    }

    /// The value that a path parameter gave a column, which a row without
    /// that column shows.
    pub fn injected_value(&self, column: &str) -> (r: Option<String>)
        ensures
            match r {
                Some(v) => injected_spec(pairs_view(self.bindings@), column@) == Some(v@),
                None => injected_spec(pairs_view(self.bindings@), column@) is None,
            },
    {
        let ghost b = pairs_view(self.bindings@);
        let mut i: usize = self.bindings.len();
        assert(b.take(i as int) =~= b);
        while i > 0
            invariant
                i <= self.bindings.len(),
                b == pairs_view(self.bindings@),
                b.len() == self.bindings.len(),
                injected_spec(b, column@) == injected_spec(b.take(i as int), column@),
            decreases i,
        {
            assert(b.take(i as int).drop_last() =~= b.take(i - 1));
            assert(b.take(i as int).last() == b[i - 1]);
            if crate::text::str_eq(self.bindings[i - 1].0.as_str(), column) {
                return Some(self.bindings[i - 1].1.clone());
            }
            i = i - 1;
        }
        assert(b.take(0) =~= Seq::<(Seq<char>, Seq<char>)>::empty());
        None
    }
}

fn substitute_from(t: &Vec<char>, pos: usize, quals: &Vec<Qual>) -> (r: Result<
    (Vec<char>, Vec<(String, String)>),
    OpenApiFdwError,
>)
    requires
        pos <= t.len(),
    ensures
        match r {
            Ok((e, b)) => substitute_rec(t@.skip(pos as int), quals@) == Ok::<
                (Seq<char>, Seq<(Seq<char>, Seq<char>)>),
                ErrV,
            >((e@, pairs_view(b@))),
            Err(err) => substitute_rec(t@.skip(pos as int), quals@) == Err::<
                (Seq<char>, Seq<(Seq<char>, Seq<char>)>),
                ErrV,
            >(err@),
        },
    decreases t.len() - pos,
{
    let ghost rem = t@.skip(pos as int);
    proof {
        lemma_first_index(rem, '{');
    }
    let start = crate::text::first_index_of(t, pos, '{');
    if start >= t.len() {
        let rest = crate::text::subrange(t, pos, t.len());
        assert(rest@ =~= rem);
        let b: Vec<(String, String)> = Vec::new();
        assert(pairs_view(b@) =~= Seq::<(Seq<char>, Seq<char>)>::empty());
        return Ok((rest, b));
    }
    let ghost s = start - pos;
    let ghost after = rem.skip(s + 1);
    assert(after =~= t@.skip(start + 1));
    proof {
        lemma_first_index(after, '}');
    }
    let close = crate::text::first_index_of(t, start + 1, '}');
    if close >= t.len() {
        return Err(crate::error::config_error("endpoint has an unmatched `{`"));
    }
    let parameter = crate::text::subrange(t, start + 1, close);
    assert(parameter@ =~= after.take(close - start - 1));
    let ps = string_of(&parameter);
    let field = crate::openapi::sanitize_identifier(ps.as_str());
    let fc = chars_of(field.as_str());
    let key = crate::text::lower_of(&fc);
    let value = match qual_lookup_exec(quals, &key) {
        Some(v) => v,
        None => {
            let mut m = chars_of("endpoint path parameter `");
            append(&mut m, &parameter);
            append_str(&mut m, "` requires `WHERE ");
            append_str(&mut m, field.as_str());
            append_str(&mut m, " = <value>`");
            return Err(OpenApiFdwError::Configuration(string_of(&m)));
        },
    };
    assert(after.skip(close - start) =~= t@.skip(close + 1));
    let (rest, bindings) = match substitute_from(t, close + 1, quals) {
        Ok(x) => x,
        Err(e) => return Err(e),
    };
    let mut endpoint = crate::text::subrange(t, pos, start);
    assert(endpoint@ =~= rem.take(s));
    let encoded = percent_encode(value.as_str());
    append_str(&mut endpoint, encoded.as_str());
    append(&mut endpoint, &rest);
    let mut all: Vec<(String, String)> = Vec::new();
    all.push((field, value));
    let ghost first = pairs_view(all@);
    assert(first =~= seq![(sanitize_spec(parameter@), value@)]);
    let mut j: usize = 0;
    while j < bindings.len()
        invariant
            j <= bindings.len(),
            pairs_view(all@) == first + pairs_view(bindings@).take(j as int),
        decreases bindings.len() - j,
    {
        let ghost before = all@;
        all.push((bindings[j].0.clone(), bindings[j].1.clone()));
        assert(pairs_view(all@) =~= pairs_view(before).push(pairs_view(bindings@)[j as int]));
        assert(pairs_view(bindings@).take(j + 1) =~= pairs_view(bindings@).take(j as int).push(
            pairs_view(bindings@)[j as int],
        ));
        j = j + 1;
    }
    assert(pairs_view(bindings@).take(j as int) =~= pairs_view(bindings@));
    Ok((endpoint, all))
}

/// `substitute_path_parameters`: fills each `{parameter}` of an endpoint
/// template from the equality qualifiers.
pub fn substitute_path_parameters(template: &str, quals: &Vec<Qual>) -> (r: Result<
    PathSubstitution,
    OpenApiFdwError,
>)
    ensures
        match r {
            Ok(p) => substitute_rec(template@, quals@) == Ok::<
                (Seq<char>, Seq<(Seq<char>, Seq<char>)>),
                ErrV,
            >((p.endpoint@, pairs_view(p.bindings@))),
            Err(e) => substitute_rec(template@, quals@) == Err::<
                (Seq<char>, Seq<(Seq<char>, Seq<char>)>),
                ErrV,
            >(e@),
        },
{
    let t = chars_of(template);
    assert(t@.skip(0) =~= t@);
    match substitute_from(&t, 0, quals) {
        Ok((e, b)) => Ok(PathSubstitution { endpoint: string_of(&e), bindings: b }),
        Err(e) => Err(e),
    }
}


// ---------------------------------------------------------------------------
// Query parameters
// ---------------------------------------------------------------------------

pub type Pairs = Seq<(Seq<char>, Seq<char>)>;

/// The text of a JSON scalar in a query string; nothing for `null`,
/// arrays and objects.
pub open spec fn json_scalar_string_spec(v: JsonV) -> Option<Seq<char>> {
    match v {
        JsonV::Bool(b) => Some(bool_text(b)),
        JsonV::Number(n) => Some(n),
        JsonV::Str(s) => Some(s),
        _ => None,
    }
}

pub fn json_scalar_string(v: &Json) -> (r: Option<String>)
    ensures
        match r {
            Some(s) => json_scalar_string_spec(v@) == Some(s@),
            None => json_scalar_string_spec(v@) is None,
        },
{
    match v {
        Json::Bool(b) => {
            let t = if *b {
                vec!['t', 'r', 'u', 'e']
            } else {
                vec!['f', 'a', 'l', 's', 'e']
            };
            assert(t@ =~= bool_text(*b));
            Some(string_of(&t))
        },
        Json::Number(n) => Some(n.clone()),
        Json::Str(s) => Some(s.clone()),
        _ => None,
    }
}

pub open spec fn scalar_pairs(name: Seq<char>, items: Seq<JsonV>) -> Pairs
    decreases items.len(),
{
    if items.len() == 0 {
        Seq::empty()
    } else {
        let rest = scalar_pairs(name, items.drop_last());
        match json_scalar_string_spec(items.last()) {
            Some(s) => rest.push((name, s)),
            None => rest,
        }
    }
}

/// The query pairs of a static query parameter: one per scalar element of
/// an array, else the scalar itself, else the value's JSON text.
pub open spec fn json_query_values_spec(name: Seq<char>, v: JsonV) -> Pairs {
    match v {
        JsonV::Array(items) => scalar_pairs(name, items),
        _ => match json_scalar_string_spec(v) {
            Some(s) => seq![(name, s)],
            None => seq![(name, json_text(v))],
        },
    }
}

pub fn json_query_values(name: &str, v: &Json) -> (r: Vec<(String, String)>)
    ensures
        pairs_view(r@) == json_query_values_spec(name@, v@),
{
    let mut out: Vec<(String, String)> = Vec::new();
    match v {
        Json::Array(items) => {
            let ghost iv = crate::json::items_view(items@);
            proof {
                crate::json::lemma_items_view(items@);
            }
            let mut i: usize = 0;
            assert(iv.take(0) =~= Seq::<JsonV>::empty());
            while i < items.len()
                invariant
                    i <= items.len(),
                    iv == crate::json::items_view(items@),
                    iv.len() == items.len(),
                    forall|k: int| 0 <= k < items.len() ==> #[trigger] iv[k] == items@[k]@,
                    pairs_view(out@) == scalar_pairs(name@, iv.take(i as int)),
                decreases items.len() - i,
            {
                assert(iv.take(i + 1).drop_last() =~= iv.take(i as int));
                assert(iv.take(i + 1).last() == items@[i as int]@);
                match json_scalar_string(&items[i]) {
                    Some(s) => {
                        let ghost before = out@;
                        out.push((crate::text::str_to_string(name), s));
                        assert(pairs_view(out@) =~= pairs_view(before).push((name@, out@.last().1@)));
                    },
                    None => {},
                }
                i = i + 1;
            }
            assert(iv.take(i as int) =~= iv);
        },
        _ => {
            let text = match json_scalar_string(v) {
                Some(s) => s,
                None => crate::json::to_json_text(v),
            };
            out.push((crate::text::str_to_string(name), text));
            assert(pairs_view(out@) =~= seq![(name@, text@)]);
        },
    }
    out
}

/// `set_query_value`: every pair with the name is removed and the new one
/// appended.
pub open spec fn set_query_value_spec(query: Pairs, name: Seq<char>, value: Seq<char>) -> Pairs {
    query.filter(|p: (Seq<char>, Seq<char>)| p.0 != name).push((name, value))
}

pub fn set_query_value(query: &mut Vec<(String, String)>, name: String, value: String)
    ensures
        pairs_view(final(query)@) == set_query_value_spec(pairs_view(old(query)@), name@, value@),
{
    let ghost old_q = pairs_view(query@);
    let mut kept: Vec<(String, String)> = Vec::new();
    let mut i: usize = 0;
    assert(old_q.take(0).filter(|p: (Seq<char>, Seq<char>)| p.0 != name@) =~= Seq::<(Seq<char>, Seq<char>)>::empty());
    while i < query.len()
        invariant
            i <= query.len(),
            old_q == pairs_view(query@),
            old_q.len() == query.len(),
            pairs_view(kept@) == old_q.take(i as int).filter(|p: (Seq<char>, Seq<char>)| p.0 != name@),
        decreases query.len() - i,
    {
        let ghost pre = old_q.take(i as int);
        assert(old_q.take(i + 1) =~= pre.push(old_q[i as int]));
        proof {
            pre.lemma_filter_push(old_q[i as int], |p: (Seq<char>, Seq<char>)| p.0 != name@);
        }
        if !crate::text::str_eq(query[i].0.as_str(), name.as_str()) {
            let ghost before = kept@;
            kept.push((query[i].0.clone(), query[i].1.clone()));
            assert(pairs_view(kept@) =~= pairs_view(before).push(old_q[i as int]));
        }
        i = i + 1;
    }
    assert(old_q.take(i as int) =~= old_q);
    let ghost before = kept@;
    kept.push((name, value));
    assert(pairs_view(kept@) =~= pairs_view(before).push((name@, value@)));
    *query = kept;
}


// ---------------------------------------------------------------------------
// Scan planning
// ---------------------------------------------------------------------------

/// The static `query_params`, each expanded to its query pairs.
pub open spec fn static_params(ps: Seq<(Seq<char>, JsonV)>) -> Pairs
    decreases ps.len(),
{
    if ps.len() == 0 {
        Seq::empty()
    } else {
        static_params(ps.drop_last()) + json_query_values_spec(ps.last().0, ps.last().1)
    }
}

/// The query parameter that a column's qualifier sets: its `query_param_map`
/// entry, else the column name.
pub open spec fn param_name(map: Pairs, field: Seq<char>) -> Seq<char> {
    match crate::option_map::map_lookup(map, field) {
        Some(n) => n,
        None => field,
    }
}

/// The equality qualifiers that fill no path parameter, each setting its
/// query parameter.
pub open spec fn qual_params(acc: Pairs, quals: Seq<Qual>, bindings: Pairs, map: Pairs) -> Pairs
    decreases quals.len(),
{
    if quals.len() == 0 {
        acc
    } else {
        let before = qual_params(acc, quals.drop_last(), bindings, map);
        let q = quals.last();
        if binds(bindings, q.field@) {
            before
        } else {
            match qual_value_spec(q) {
                Some(v) => set_query_value_spec(before, param_name(map, q.field@), v),
                None => before,
            }
        }
    }
}

/// `count + offset`, saturating, and at least `floor`.
pub open spec fn limit_total(count: i64, offset: i64, floor: int) -> i64 {
    let s = count + offset;
    let t = if s > i64::MAX {
        i64::MAX as int
    } else if s < i64::MIN {
        i64::MIN as int
    } else {
        s
    };
    if t < floor {
        floor as i64
    } else {
        t as i64
    }
}

fn limit_total_exec(count: i64, offset: i64, floor: i64) -> (r: i64)
    ensures
        r == limit_total(count, offset, floor as int),
{
    let s: i128 = count as i128 + offset as i128;
    let t: i64 = if s > i64::MAX as i128 {
        i64::MAX
    } else if s < i64::MIN as i128 {
        i64::MIN
    } else {
        s as i64
    };
    if t < floor {
        floor
    } else {
        t
    }
}

/// How many rows a scan may read: `LIMIT` plus `OFFSET` for a scan with no
/// qualifier and no sort (PostgreSQL applies the offset itself), else no bound.
pub open spec fn maximum_rows_spec(unconstrained: bool, limit: Option<(i64, i64)>) -> Option<u64> {
    if unconstrained {
        match limit {
            Some((count, offset)) => Some(limit_total(count, offset, 0) as u64),
            None => None,
        }
    } else {
        None
    }
}

/// A remote row bound is only used for a scan with no qualifier and no sort,
/// where PostgreSQL cannot drop or reorder the rows it reads, and it covers
/// the offset as well as the count.
pub proof fn lemma_remote_limit_only_unconstrained(unconstrained: bool, limit: Option<(i64, i64)>)
    ensures
        maximum_rows_spec(unconstrained, limit) is Some ==> unconstrained && limit is Some,
        match (maximum_rows_spec(unconstrained, limit), limit) {
            (Some(m), Some((count, offset))) => m >= count + offset || count + offset > i64::MAX,
            _ => true,
        },
{
}

/// The row bound, else the page size, as a query parameter.
pub open spec fn limit_params(query: Pairs, maximum_rows: Option<u64>, table: crate::table::TableV) -> Pairs {
    if maximum_rows is Some && table.limit_param is Some {
        set_query_value_spec(query, table.limit_param->0, decimal(maximum_rows->0 as nat))
    } else if table.page_size is Some && (table.page_size_param is Some || table.limit_param is Some) {
        let name = match table.page_size_param {
            Some(n) => n,
            None => table.limit_param->0,
        };
        set_query_value_spec(query, name, decimal(table.page_size->0 as nat))
    } else {
        query
    }
}

/// The first request of a scan and its row bound.
#[derive(Debug)]
pub struct ScanPlan {
    pub url: crate::urls::UrlParts,
    pub query: Vec<(String, String)>,
    pub maximum_rows: Option<u64>,
    pub path: PathSubstitution,
}

pub open spec fn scan_query_spec(
    table: crate::table::TableV,
    quals: Seq<Qual>,
    bindings: Pairs,
    maximum_rows: Option<u64>,
) -> Pairs {
    limit_params(
        qual_params(static_params(table.query_params), quals, bindings, table.query_param_map),
        maximum_rows,
        table,
    )
}

/// Whether substituting path parameters failed for want of an equality
/// qualifier (rather than for a malformed template).
pub open spec fn unbound_parameter(e: ErrV) -> bool {
    e matches ErrV::Configuration(m) && crate::text::starts_with(m, "endpoint path parameter `"@)
}

/// `begin_scan` up to its first request: the endpoint with its path
/// parameters, joined to the base URL, and the query of static parameters,
/// qualifiers and the row bound or page size. A scan whose endpoint has a
/// path parameter without an equality qualifier sends nothing and returns no
/// rows (`Ok(None)`).
pub fn plan_scan(
    table: &crate::table::TableConfig,
    base_url: &crate::urls::UrlParts,
    quals: &Vec<Qual>,
    sorts_empty: bool,
    limit: Option<(i64, i64)>,
) -> (r: Result<Option<ScanPlan>, OpenApiFdwError>)
    ensures
        match r {
            Ok(Some(plan)) => {
                &&& substitute_rec(table.endpoint@, quals@) == Ok::<(Seq<char>, Pairs), ErrV>(
                    (plan.path.endpoint@, pairs_view(plan.path.bindings@)),
                )
                &&& crate::http::endpoint_url_spec(base_url@, plan.path.endpoint@) == Ok::<
                    crate::urls::UrlV,
                    ErrV,
                >(plan.url@)
                &&& plan.maximum_rows == maximum_rows_spec(quals.len() == 0 && sorts_empty, limit)
                &&& pairs_view(plan.query@) == scan_query_spec(
                    table.summary(),
                    quals@,
                    pairs_view(plan.path.bindings@),
                    plan.maximum_rows,
                )
            },
            Ok(None) => substitute_rec(table.endpoint@, quals@) matches Err(x) && unbound_parameter(x),
            Err(e) => match substitute_rec(table.endpoint@, quals@) {
                Err(x) => x == e@ && !unbound_parameter(x),
                Ok((endpoint, _)) => crate::http::endpoint_url_spec(base_url@, endpoint) == Err::<
                    crate::urls::UrlV,
                    ErrV,
                >(e@),
            },
        },
{
    let path = match substitute_path_parameters(table.endpoint.as_str(), quals) {
        Ok(p) => p,
        Err(e) => {
            let unbound = match &e {
                OpenApiFdwError::Configuration(m) => {
                    let mv = chars_of(m.as_str());
                    crate::text::starts_with_str(&mv, "endpoint path parameter `")
                },
                _ => false,
            };
            if unbound {
                return Ok(None);
            }
            return Err(e);
        },
    };
    let url = match crate::http::endpoint_url(base_url, path.endpoint.as_str()) {
        Ok(u) => u,
        Err(e) => return Err(e),
    };
    let mut query = static_query(&table.query_params);
    let ghost bindings = pairs_view(path.bindings@);
    let ghost map = table.query_param_map.pairs();
    let ghost start = pairs_view(query@);
    let mut i: usize = 0;
    assert(quals@.take(0) =~= Seq::<Qual>::empty());
    while i < quals.len()
        invariant
            i <= quals.len(),
            bindings == pairs_view(path.bindings@),
            map == table.query_param_map.pairs(),
            pairs_view(query@) == qual_params(start, quals@.take(i as int), bindings, map),
        decreases quals.len() - i,
    {
        let q = &quals[i];
        assert(quals@.take(i + 1).drop_last() =~= quals@.take(i as int));
        assert(quals@.take(i + 1).last() == *q);
        if !path.uses(q.field.as_str()) {
            match qual_value(q) {
                Some(v) => {
                    let name = match table.query_param_map.get(q.field.as_str()) {
                        Some(n) => n.clone(),
                        None => q.field.clone(),
                    };
                    set_query_value(&mut query, name, v);
                },
                None => {},
            }
        }
        i = i + 1;
    }
    assert(quals@.take(i as int) =~= quals@);
    let maximum_rows: Option<u64> = if quals.len() == 0 && sorts_empty {
        match limit {
            Some((count, offset)) => Some(limit_total_exec(count, offset, 0) as u64),
            None => None,
        }
    } else {
        None
    };
    match (maximum_rows, &table.limit_param) {
        (Some(m), Some(name)) => {
            let d = crate::text::decimal_string(m);
            set_query_value(&mut query, name.clone(), d);
        },
        _ => match table.page_size {
            Some(size) => {
                let name = match &table.page_size_param {
                    Some(n) => Some(n.clone()),
                    None => match &table.limit_param {
                        Some(n) => Some(n.clone()),
                        None => None,
                    },
                };
                match name {
                    Some(n) => {
                        let d = crate::text::decimal_string(size);
                        set_query_value(&mut query, n, d);
                    },
                    None => {},
                }
            },
            None => {},
        },
    }
    Ok(Some(ScanPlan { url, query, maximum_rows, path }))
}

fn static_query(ps: &Vec<(String, Json)>) -> (r: Vec<(String, String)>)
    ensures
        pairs_view(r@) == static_params(crate::json::members_view(ps@)),
{
    let ghost mv = crate::json::members_view(ps@);
    proof {
        crate::json::lemma_members_view(ps@);
    }
    let mut out: Vec<(String, String)> = Vec::new();
    let mut i: usize = 0;
    assert(mv.take(0) =~= Seq::<(Seq<char>, JsonV)>::empty());
    while i < ps.len()
        invariant
            i <= ps.len(),
            mv == crate::json::members_view(ps@),
            mv.len() == ps.len(),
            forall|k: int| 0 <= k < ps.len() ==> #[trigger] mv[k] == (ps@[k].0@, ps@[k].1@),
            pairs_view(out@) == static_params(mv.take(i as int)),
        decreases ps.len() - i,
    {
        assert(mv.take(i + 1).drop_last() =~= mv.take(i as int));
        assert(mv.take(i + 1).last() == mv[i as int]);
        let more = json_query_values(ps[i].0.as_str(), &ps[i].1);
        let ghost before = out@;
        let mut j: usize = 0;
        while j < more.len()
            invariant
                j <= more.len(),
                pairs_view(out@) == pairs_view(before) + pairs_view(more@).take(j as int),
            decreases more.len() - j,
        {
            let ghost b2 = out@;
            out.push((more[j].0.clone(), more[j].1.clone()));
            assert(pairs_view(out@) =~= pairs_view(b2).push(pairs_view(more@)[j as int]));
            assert(pairs_view(more@).take(j + 1) =~= pairs_view(more@).take(j as int).push(
                pairs_view(more@)[j as int],
            ));
            j = j + 1;
        }
        assert(pairs_view(more@).take(j as int) =~= pairs_view(more@));
        i = i + 1;
    }
    assert(mv.take(i as int) =~= mv);
    out
}

/// `get_rel_size`: the estimated row count and row width of a scan.
pub open spec fn rel_size_spec(unconstrained: bool, limit: Option<(i64, i64)>, columns: nat) -> (i64, i32) {
    let rows = if unconstrained {
        match limit {
            Some((count, offset)) => limit_total(count, offset, 1),
            None => 1000,
        }
    } else {
        1000
    };
    let c = if columns < 1 {
        1
    } else {
        columns
    };
    let width = if c * 64 > i32::MAX {
        i32::MAX
    } else {
        (c * 64) as i32
    };
    (rows, width)
}

pub fn get_rel_size(quals_empty: bool, sorts_empty: bool, limit: Option<(i64, i64)>, columns: usize) -> (r: (
    i64,
    i32,
))
    ensures
        r == rel_size_spec(quals_empty && sorts_empty, limit, columns as nat),
{
    let rows: i64 = if quals_empty && sorts_empty {
        match limit {
            Some((count, offset)) => limit_total_exec(count, offset, 1),
            None => 1000,
        }
    } else {
        1000
    };
    let c: u64 = if columns < 1 {
        1
    } else {
        columns as u64
    };
    let width: i32 = if c > 33554431 {
        i32::MAX
    } else {
        (c * 64) as i32
    };
    (rows, width)
}


// ---------------------------------------------------------------------------
// Paging
// ---------------------------------------------------------------------------

/// The progress of a scan between PostgreSQL's calls.
#[derive(Debug)]
pub struct ScanState {
    pub pages_fetched: u64,
    /// The token of the page to fetch next, if any.
    pub next: Option<crate::response::PageToken>,
    /// Every token that a page has returned.
    pub seen: Vec<crate::response::PageToken>,
    pub rows: Vec<Json>,
    pub row_index: u64,
    pub maximum_rows: Option<u64>,
    /// The URL of the last page, after redirects.
    pub current_url: Option<crate::urls::UrlParts>,
}

pub open spec fn tokens_view(s: Seq<crate::response::PageToken>) -> Seq<crate::response::TokenV> {
    s.map_values(|t: crate::response::PageToken| t@)
}

pub open spec fn distinct_tokens(s: Seq<crate::response::TokenV>) -> bool {
    forall|i: int, j: int| 0 <= i < j < s.len() ==> s[i] != s[j]
}

pub open spec fn page_limit(table: crate::table::TableV, server_max_pages: u64) -> u64 {
    match table.max_pages {
        Some(m) => m,
        None => server_max_pages,
    }
}

pub open spec fn url_opt(u: Option<crate::urls::UrlParts>) -> Option<crate::urls::UrlV> {
    match u {
        Some(x) => Some(x@),
        None => None,
    }
}

/// What the scan does next for PostgreSQL.
#[derive(Debug)]
pub enum RowStep {
    /// Hand out this row.
    Row(Json),
    /// Fetch the next page, then ask again.
    FetchNextPage,
    /// The scan is over.
    Done,
}

impl ScanState {
    /// Everything but the next-page token.
    pub open spec fn same_progress(&self, other: &ScanState) -> bool {
        &&& self.pages_fetched == other.pages_fetched
        &&& tokens_view(self.seen@) == tokens_view(other.seen@)
        &&& crate::json::items_view(self.rows@) == crate::json::items_view(other.rows@)
        &&& self.row_index == other.row_index
        &&& self.maximum_rows == other.maximum_rows
        &&& url_opt(self.current_url) == url_opt(other.current_url)
    }

    /// A scan before its first page.
    pub fn new(maximum_rows: Option<u64>) -> (r: ScanState)
        ensures
            r.pages_fetched == 0,
            r.next is None,
            r.seen@.len() == 0,
            r.rows@.len() == 0,
            r.row_index == 0,
            r.maximum_rows == maximum_rows,
            r.current_url is None,
    {
        ScanState {
            pages_fetched: 0,
            next: None,
            seen: Vec::new(),
            rows: Vec::new(),
            row_index: 0,
            maximum_rows,
            current_url: None,
        }
    }

    /// The URL and query of the next page request: the first request, or
    /// the next-page URL (with no query of its own), or the first request
    /// with the cursor parameter set. Refused once `max_pages` pages are in.
    /// The token is used up either way.
    pub fn page_request(
        &mut self,
        table: &crate::table::TableConfig,
        server: &crate::server::ServerConfig,
        base: &crate::urls::UrlParts,
        initial_url: &crate::urls::UrlParts,
        initial_query: &Vec<(String, String)>,
    ) -> (r: Result<(crate::urls::UrlParts, Vec<(String, String)>), OpenApiFdwError>)
        ensures
            old(self).pages_fetched >= page_limit(table.summary(), server.max_pages) ==> {
                &&& r matches Err(e) && e@ == ErrV::Response(
                    "pagination exceeded max_pages "@ + decimal(
                        page_limit(table.summary(), server.max_pages) as nat,
                    ),
                )
                &&& final(self).same_progress(old(self))
                &&& crate::response::token_view(final(self).next) == crate::response::token_view(
                    old(self).next,
                )
            },
            old(self).pages_fetched < page_limit(table.summary(), server.max_pages) ==> {
                &&& final(self).same_progress(old(self))
                &&& final(self).next is None
                &&& match old(self).next {
                    None => r matches Ok((u, q)) && u@ == initial_url@ && pairs_view(q@) == pairs_view(
                        initial_query@,
                    ),
                    Some(crate::response::PageToken::Url(raw)) => {
                        let current = match old(self).current_url {
                            Some(c) => c@,
                            None => initial_url@,
                        };
                        match crate::http::resolve_page_url_spec(
                            base@,
                            current,
                            raw@,
                            server.allow_cross_origin_pagination,
                        ) {
                            Ok(next) => r matches Ok((u, q)) && u@ == next && q@.len() == 0,
                            Err(e) => r matches Err(x) && x@ == e,
                        }
                    },
                    Some(crate::response::PageToken::Cursor(cursor)) => match table.cursor_param {
                        None => r matches Err(x) && x@ == ErrV::Configuration(
                            "cursor pagination requires table option `cursor_param`"@,
                        ),
                        Some(name) => r matches Ok((u, q)) && u@ == initial_url@ && pairs_view(q@)
                            == set_query_value_spec(pairs_view(initial_query@), name@, cursor@),
                    },
                }
            },
    {
        let limit = match table.max_pages {
            Some(m) => m,
            None => server.max_pages,
        };
        if self.pages_fetched >= limit {
            let mut m = chars_of("pagination exceeded max_pages ");
            let d = crate::text::decimal_of(limit);
            append(&mut m, &d);
            return Err(OpenApiFdwError::Response(string_of(&m)));
        }
        let token = self.next.take();
        let mut query = copy_query(initial_query);
        match token {
            None => Ok((initial_url.duplicate(), query)),
            Some(crate::response::PageToken::Url(raw)) => {
                let current = match &self.current_url {
                    Some(c) => c,
                    None => initial_url,
                };
                match crate::http::resolve_page_url(
                    base,
                    current,
                    raw.as_str(),
                    server.allow_cross_origin_pagination,
                ) {
                    Ok(u) => Ok((u, Vec::new())),
                    Err(e) => Err(e),
                }
            },
            Some(crate::response::PageToken::Cursor(cursor)) => {
                let name = match &table.cursor_param {
                    Some(n) => n.clone(),
                    None => return Err(
                        crate::error::config_error(
                            "cursor pagination requires table option `cursor_param`",
                        ),
                    ),
                };
                set_query_value(&mut query, name, cursor);
                Ok((initial_url.duplicate(), query))
            },
        }
    }

    /// Takes in a fetched page: its URL becomes the current one, the page
    /// counts, and its rows are kept unless its next-page token was already
    /// returned by an earlier page, which ends the scan with an error.
    pub fn accept_page(&mut self, effective_url: crate::urls::UrlParts, page: crate::response::Page) -> (r: Result<
        (),
        OpenApiFdwError,
    >)
        requires
            old(self).pages_fetched < u64::MAX,
        ensures
            url_opt(final(self).current_url) == Some(effective_url@),
            final(self).pages_fetched == old(self).pages_fetched + 1,
            final(self).row_index == old(self).row_index,
            final(self).maximum_rows == old(self).maximum_rows,
            page.next matches Some(t) && tokens_view(old(self).seen@).contains(t@) ==> {
                &&& r matches Err(e) && e@ == ErrV::Response(
                    "pagination returned a duplicate cursor or URL"@,
                )
                &&& tokens_view(final(self).seen@) == tokens_view(old(self).seen@)
                &&& crate::json::items_view(final(self).rows@) == crate::json::items_view(
                    old(self).rows@,
                )
            },
            !(page.next matches Some(t) && tokens_view(old(self).seen@).contains(t@)) ==> {
                &&& r is Ok
                &&& crate::json::items_view(final(self).rows@) == crate::json::items_view(
                    old(self).rows@,
                ) + crate::json::items_view(page.rows@)
                &&& crate::response::token_view(final(self).next) == match page.next {
                    Some(t) => Some(t@),
                    None => crate::response::token_view(old(self).next),
                }
                &&& tokens_view(final(self).seen@) == match page.next {
                    Some(t) => tokens_view(old(self).seen@).push(t@),
                    None => tokens_view(old(self).seen@),
                }
            },
            distinct_tokens(tokens_view(old(self).seen@)) ==> distinct_tokens(
                tokens_view(final(self).seen@),
            ),
    {
        self.current_url = Some(effective_url);
        self.pages_fetched = self.pages_fetched + 1;
        let crate::response::Page { rows, next } = page;
        match next {
            Some(t) => {
                if contains_token(&self.seen, &t) {
                    return Err(
                        crate::error::response_error("pagination returned a duplicate cursor or URL"),
                    );
                }
                let ghost before = self.seen@;
                self.seen.push(t.duplicate());
                assert(tokens_view(self.seen@) =~= tokens_view(before).push(t@));
                self.next = Some(t);
            },
            None => {},
        }
        let ghost old_rows = self.rows@;
        append_rows(&mut self.rows, rows);
        Ok(())
    }

    /// `iter_scan`: the next row, unless the row bound is reached; when the
    /// rows in hand are used up, the next page if there is one.
    pub fn next_row(&mut self) -> (r: RowStep)
        ensures
            final(self).pages_fetched == old(self).pages_fetched,
            tokens_view(final(self).seen@) == tokens_view(old(self).seen@),
            crate::json::items_view(final(self).rows@) == crate::json::items_view(old(self).rows@),
            crate::response::token_view(final(self).next) == crate::response::token_view(old(self).next),
            final(self).maximum_rows == old(self).maximum_rows,
            if old(self).maximum_rows matches Some(m) && old(self).row_index >= m {
                r is Done && final(self).row_index == old(self).row_index
            } else if old(self).row_index < old(self).rows@.len() {
                r matches RowStep::Row(row) && row@ == old(self).rows@[old(self).row_index as int]@
                    && final(self).row_index == old(self).row_index + 1
            } else if old(self).next is None {
                r is Done && final(self).row_index == old(self).row_index
            } else {
                r is FetchNextPage && final(self).row_index == old(self).row_index
            },
    {
        match self.maximum_rows {
            Some(m) => if self.row_index >= m {
                return RowStep::Done;
            },
            None => {},
        }
        if self.row_index < self.rows.len() as u64 {
            let row = self.rows[self.row_index as usize].copy();
            self.row_index = self.row_index + 1;
            return RowStep::Row(row);
        }
        if self.next.is_none() {
            RowStep::Done
        } else {
            RowStep::FetchNextPage
        }
    }

    /// `re_scan`: the rows are read again from the first.
    pub fn rescan(&mut self)
        ensures
            final(self).row_index == 0,
            crate::json::items_view(final(self).rows@) == crate::json::items_view(old(self).rows@),
            final(self).pages_fetched == old(self).pages_fetched,
            final(self).maximum_rows == old(self).maximum_rows,
    {
        self.row_index = 0;
    }
}

fn copy_query(v: &Vec<(String, String)>) -> (r: Vec<(String, String)>)
    ensures
        pairs_view(r@) == pairs_view(v@),
{
    let mut r: Vec<(String, String)> = Vec::new();
    let mut i: usize = 0;
    while i < v.len()
        invariant
            i <= v.len(),
            pairs_view(r@) == pairs_view(v@).take(i as int),
        decreases v.len() - i,
    {
        let ghost before = r@;
        r.push((v[i].0.clone(), v[i].1.clone()));
        assert(pairs_view(r@) =~= pairs_view(before).push((v@[i as int].0@, v@[i as int].1@)));
        assert(pairs_view(v@).take(i + 1) =~= pairs_view(v@).take(i as int).push(pairs_view(v@)[i as int]));
        i = i + 1;
    }
    assert(pairs_view(v@).take(i as int) =~= pairs_view(v@));
    r
}

fn contains_token(seen: &Vec<crate::response::PageToken>, t: &crate::response::PageToken) -> (r: bool)
    ensures
        r == tokens_view(seen@).contains(t@),
{
    let mut i: usize = 0;
    while i < seen.len()
        invariant
            i <= seen.len(),
            forall|k: int| 0 <= k < i ==> tokens_view(seen@)[k] != t@,
        decreases seen.len() - i,
    {
        let same = match (&seen[i], t) {
            (crate::response::PageToken::Url(a), crate::response::PageToken::Url(b)) => crate::text::str_eq(
                a.as_str(),
                b.as_str(),
            ),
            (crate::response::PageToken::Cursor(a), crate::response::PageToken::Cursor(b)) => crate::text::str_eq(
                a.as_str(),
                b.as_str(),
            ),
            _ => false,
        };
        if same {
            assert(tokens_view(seen@)[i as int] == t@);
            return true;
        }
        i = i + 1;
    }
    false
}

fn append_rows(rows: &mut Vec<Json>, more: Vec<Json>)
    ensures
        crate::json::items_view(final(rows)@) == crate::json::items_view(old(rows)@)
            + crate::json::items_view(more@),
{
    let ghost start = rows@;
    let mut i: usize = 0;
    proof {
        crate::json::lemma_items_view(more@);
        assert(more@.take(0) =~= Seq::<Json>::empty());
        assert(crate::json::items_view(more@.take(0)) =~= Seq::<JsonV>::empty());
        assert(crate::json::items_view(start) + Seq::<JsonV>::empty() =~= crate::json::items_view(start));
    }
    while i < more.len()
        invariant
            i <= more.len(),
            crate::json::items_view(rows@) == crate::json::items_view(start) + crate::json::items_view(
                more@.take(i as int),
            ),
        decreases more.len() - i,
    {
        let ghost before = rows@;
        rows.push(more[i].copy());
        proof {
            crate::json::lemma_items_view_push(before, rows@.last());
            assert(before.push(rows@.last()) =~= rows@);
            assert(more@.take(i + 1) =~= more@.take(i as int).push(more@[i as int]));
            crate::json::lemma_items_view_push(more@.take(i as int), more@[i as int]);
        }
        i = i + 1;
    }
    assert(more@.take(i as int) =~= more@);
}


// ---------------------------------------------------------------------------
// Rows
// ---------------------------------------------------------------------------

/// The first member whose name, made an identifier, is the column name.
pub open spec fn first_sanitized(ms: Seq<(Seq<char>, JsonV)>, column: Seq<char>) -> Option<JsonV>
    decreases ms.len(),
{
    if ms.len() == 0 {
        None
    } else if sanitize_spec(ms[0].0) == column {
        Some(ms[0].1)
    } else {
        first_sanitized(ms.drop_first(), column)
    }
}

/// The value of a column in a row: through its `column_map` entry (a JSON
/// pointer when it starts with `/`, else a member name), else the member of
/// that name, else the first member whose identifier is the column name; a
/// scalar row is the column `value`.
pub open spec fn column_value_spec(projected: JsonV, column: Seq<char>, column_map: Pairs) -> Option<JsonV> {
    let found = match crate::option_map::map_lookup(column_map, column) {
        Some(p) => if p.len() > 0 && p[0] == '/' {
            crate::json::pointer(projected, p)
        } else {
            crate::json::get(projected, p)
        },
        None => match crate::json::get(projected, column) {
            Some(v) => Some(v),
            None => match projected {
                JsonV::Object(ms) => first_sanitized(ms, column),
                _ => None,
            },
        },
    };
    match found {
        Some(v) => Some(v),
        None => if crate::json::is_object(projected) {
            None
        } else if column == "value"@ {
            Some(projected)
        } else {
            None
        },
    }
}

fn first_sanitized_exec(ms: &Vec<(String, Json)>, column: &str) -> (r: Option<Json>)
    ensures
        match r {
            Some(v) => first_sanitized(crate::json::members_view(ms@), column@) == Some(v@),
            None => first_sanitized(crate::json::members_view(ms@), column@) is None,
        },
{
    let ghost mv = crate::json::members_view(ms@);
    proof {
        crate::json::lemma_members_view(ms@);
    }
    let mut i: usize = 0;
    assert(mv.skip(0) =~= mv);
    while i < ms.len()
        invariant
            i <= ms.len(),
            mv == crate::json::members_view(ms@),
            mv.len() == ms.len(),
            forall|k: int| 0 <= k < ms.len() ==> #[trigger] mv[k] == (ms@[k].0@, ms@[k].1@),
            first_sanitized(mv, column@) == first_sanitized(mv.skip(i as int), column@),
        decreases ms.len() - i,
    {
        assert(mv.skip(i as int)[0] == mv[i as int]);
        assert(mv.skip(i as int).drop_first() =~= mv.skip(i + 1));
        let name = crate::openapi::sanitize_identifier(ms[i].0.as_str());
        if crate::text::str_eq(name.as_str(), column) {
            return Some(ms[i].1.copy());
        }
        i = i + 1;
    }
    None
}

pub fn column_value(projected: &Json, column: &str, column_map: &crate::option_map::OptionMap) -> (r: Option<Json>)
    ensures
        match r {
            Some(v) => column_value_spec(projected@, column@, column_map.pairs()) == Some(v@),
            None => column_value_spec(projected@, column@, column_map.pairs()) is None,
        },
{
    let found: Option<Json> = match column_map.get(column) {
        Some(p) => {
            let pv = chars_of(p.as_str());
            if pv.len() > 0 && pv[0] == '/' {
                match projected.pointer(&pv) {
                    Some(v) => Some(v.copy()),
                    None => None,
                }
            } else {
                match projected.get_member(&pv) {
                    Some(v) => Some(v.copy()),
                    None => None,
                }
            }
        },
        None => match projected.get_str(column) {
            Some(v) => Some(v.copy()),
            None => match projected {
                Json::Object(ms) => first_sanitized_exec(ms, column),
                _ => None,
            },
        },
    };
    match found {
        Some(v) => Some(v),
        None => if projected.is_obj() {
            None
        } else if crate::text::str_eq(column, "value") {
            Some(projected.copy())
        } else {
            None
        },
    }
}

/// The PostgreSQL column types that a scan fills, by type OID.
#[derive(Debug)]
pub enum PgType {
    Bool,
    Char,
    Int2,
    Int4,
    Int8,
    Float4,
    Float8,
    Numeric,
    Text,
    Json,
    Uuid,
    Date,
    Time,
    Timestamp,
    Timestamptz,
    BoolArray,
    Int2Array,
    Int4Array,
    Int8Array,
    Float4Array,
    Float8Array,
    TextArray,
    Unsupported(u32),
}

pub open spec fn pg_type_spec(oid: u32) -> PgType {
    if oid == 16 {
        PgType::Bool
    } else if oid == 18 {
        PgType::Char
    } else if oid == 21 {
        PgType::Int2
    } else if oid == 23 {
        PgType::Int4
    } else if oid == 20 {
        PgType::Int8
    } else if oid == 700 {
        PgType::Float4
    } else if oid == 701 {
        PgType::Float8
    } else if oid == 1700 {
        PgType::Numeric
    } else if oid == 25 || oid == 1043 || oid == 1042 || oid == 19 {
        PgType::Text
    } else if oid == 114 || oid == 3802 {
        PgType::Json
    } else if oid == 2950 {
        PgType::Uuid
    } else if oid == 1082 {
        PgType::Date
    } else if oid == 1083 {
        PgType::Time
    } else if oid == 1114 {
        PgType::Timestamp
    } else if oid == 1184 {
        PgType::Timestamptz
    } else if oid == 1000 {
        PgType::BoolArray
    } else if oid == 1005 {
        PgType::Int2Array
    } else if oid == 1007 {
        PgType::Int4Array
    } else if oid == 1016 {
        PgType::Int8Array
    } else if oid == 1021 {
        PgType::Float4Array
    } else if oid == 1022 {
        PgType::Float8Array
    } else if oid == 1009 || oid == 1015 || oid == 1014 {
        PgType::TextArray
    } else {
        PgType::Unsupported(oid)
    }
}

/// The column type of a PostgreSQL type OID (`boolean`, `"char"`, the
/// integers, floats and `numeric`, `text`/`varchar`/`bpchar`/`name`,
/// `json`/`jsonb`, `uuid`, dates and times, and arrays of these).
pub fn pg_type(oid: u32) -> (r: PgType)
    ensures
        r == pg_type_spec(oid),
{
    if oid == 16 {
        PgType::Bool
    } else if oid == 18 {
        PgType::Char
    } else if oid == 21 {
        PgType::Int2
    } else if oid == 23 {
        PgType::Int4
    } else if oid == 20 {
        PgType::Int8
    } else if oid == 700 {
        PgType::Float4
    } else if oid == 701 {
        PgType::Float8
    } else if oid == 1700 {
        PgType::Numeric
    } else if oid == 25 || oid == 1043 || oid == 1042 || oid == 19 {
        PgType::Text
    } else if oid == 114 || oid == 3802 {
        PgType::Json
    } else if oid == 2950 {
        PgType::Uuid
    } else if oid == 1082 {
        PgType::Date
    } else if oid == 1083 {
        PgType::Time
    } else if oid == 1114 {
        PgType::Timestamp
    } else if oid == 1184 {
        PgType::Timestamptz
    } else if oid == 1000 {
        PgType::BoolArray
    } else if oid == 1005 {
        PgType::Int2Array
    } else if oid == 1007 {
        PgType::Int4Array
    } else if oid == 1016 {
        PgType::Int8Array
    } else if oid == 1021 {
        PgType::Float4Array
    } else if oid == 1022 {
        PgType::Float8Array
    } else if oid == 1009 || oid == 1015 || oid == 1014 {
        PgType::TextArray
    } else {
        PgType::Unsupported(oid)
    }
}

/// A column of the foreign table.
#[derive(Debug)]
pub struct Column {
    pub name: String,
    pub type_oid: u32,
}

/// A converted value. Floats, `numeric`, dates and times are handed on as
/// text or JSON for PostgreSQL's own input functions; `settle_cell` decides
/// what a value that PostgreSQL rejects becomes.
#[derive(Debug)]
pub enum Cell {
    Bool(bool),
    I8(i8),
    I16(i16),
    I32(i32),
    I64(i64),
    Numeric(String),
    String(String),
    Json(Json),
    Uuid(Vec<u8>),
    Date(String),
    Time(String),
    Timestamp(String),
    Timestamptz(String),
    BoolArray(Vec<Option<bool>>),
    /// An array for a `smallint[]` (`bits` 16), `integer[]` (32) or `bigint[]`
    /// (64) column, every element in that range.
    IntArray { bits: u32, values: Vec<Option<i64>> },
    StringArray(Vec<Option<String>>),
    /// The value for a `real`, `double precision` or float array column.
    Float(Json),
}

pub enum CellV {
    Bool(bool),
    /// An integer of the given width in bits (8 for `"char"`, then 16, 32, 64).
    Int(u32, int),
    Numeric(Seq<char>),
    String(Seq<char>),
    Json(JsonV),
    Uuid(Seq<u8>),
    Date(Seq<char>),
    Time(Seq<char>),
    Timestamp(Seq<char>),
    Timestamptz(Seq<char>),
    BoolArray(Seq<Option<bool>>),
    IntArray(u32, Seq<Option<i64>>),
    StringArray(Seq<Option<Seq<char>>>),
    Float(JsonV),
}

pub open spec fn opt_strings(s: Seq<Option<String>>) -> Seq<Option<Seq<char>>> {
    s.map_values(|o: Option<String>| match o {
        Some(x) => Some(x@),
        None => None,
    })
}

impl View for Cell {
    type V = CellV;

    open spec fn view(&self) -> CellV {
        match self {
            Cell::Bool(b) => CellV::Bool(*b),
            Cell::I8(i) => CellV::Int(8, *i as int),
            Cell::I16(i) => CellV::Int(16, *i as int),
            Cell::I32(i) => CellV::Int(32, *i as int),
            Cell::I64(i) => CellV::Int(64, *i as int),
            Cell::Numeric(s) => CellV::Numeric(s@),
            Cell::String(s) => CellV::String(s@),
            Cell::Json(j) => CellV::Json(j@),
            Cell::Uuid(b) => CellV::Uuid(b@),
            Cell::Date(s) => CellV::Date(s@),
            Cell::Time(s) => CellV::Time(s@),
            Cell::Timestamp(s) => CellV::Timestamp(s@),
            Cell::Timestamptz(s) => CellV::Timestamptz(s@),
            Cell::BoolArray(v) => CellV::BoolArray(v@),
            Cell::IntArray { bits, values } => CellV::IntArray(*bits, values@),
            Cell::StringArray(v) => CellV::StringArray(opt_strings(v@)),
            Cell::Float(j) => CellV::Float(j@),
        }
    }
}

pub open spec fn conversion_err(column: Seq<char>, target: Seq<char>, reason: Seq<char>) -> ErrV {
    ErrV::Conversion { column, target, reason }
}

fn conversion_error(column: &str, target: &str, reason: &str) -> (r: OpenApiFdwError)
    ensures
        r@ == conversion_err(column@, target@, reason@),
{
    OpenApiFdwError::Conversion {
        column: crate::text::str_to_string(column),
        target: crate::text::str_to_string(target),
        reason: crate::text::str_to_string(reason),
    }
}

/// `true`/`false`, or one of the texts `true`, `t`, `1`, `false`, `f`, `0`.
pub open spec fn parse_bool_spec(v: JsonV) -> Option<bool> {
    match v {
        JsonV::Bool(b) => Some(b),
        JsonV::Str(s) => if s == "true"@ || s == "t"@ || s == "1"@ {
            Some(true)
        } else if s == "false"@ || s == "f"@ || s == "0"@ {
            Some(false)
        } else {
            None
        },
        _ => None,
    }
}

pub fn parse_bool(v: &Json) -> (r: Option<bool>)
    ensures
        r == parse_bool_spec(v@),
{
    match v {
        Json::Bool(b) => Some(*b),
        Json::Str(s) => {
            let t = s.as_str();
            if crate::text::str_eq(t, "true") || crate::text::str_eq(t, "t") || crate::text::str_eq(t, "1") {
                Some(true)
            } else if crate::text::str_eq(t, "false") || crate::text::str_eq(t, "f") || crate::text::str_eq(
                t,
                "0",
            ) {
                Some(false)
            } else {
                None
            }
        },
        _ => None,
    }
}

/// Rust's `i64` text: an optional sign and at least one digit, in range.
pub open spec fn parse_i64_text(s: Seq<char>) -> Option<i64> {
    if s.len() > 0 && s[0] == '-' {
        let d = s.drop_first();
        if d.len() > 0 && crate::text::all_digits(d) && crate::text::digits_value(d)
            <= 9223372036854775808 {
            Some((-(crate::text::digits_value(d) as int)) as i64)
        } else {
            None
        }
    } else {
        match parse_u64(s) {
            Some(n) => if n <= i64::MAX {
                Some(n as i64)
            } else {
                None
            },
            None => None,
        }
    }
}

/// An integer in the `i64` range: a JSON integer, or a string that Rust
/// parses as one. (JSON integers are held as their decimal text.)
pub open spec fn parse_i64_spec(v: JsonV) -> Option<i64> {
    match v {
        JsonV::Number(n) => parse_i64_text(n),
        JsonV::Str(s) => parse_i64_text(s),
        _ => None,
    }
}

fn parse_i64_text_exec(v: &Vec<char>) -> (r: Option<i64>)
    ensures
        r == parse_i64_text(v@),
{
    if v.len() > 0 && v[0] == '-' {
        let d = crate::text::subrange(v, 1, v.len());
        assert(d@ =~= v@.drop_first());
        if d.len() == 0 {
            return None;
        }
        if d[0] == '+' {
            return None;
        }
        // The magnitude is read as `u64` digits; `-2^63` is the one value
        // whose magnitude does not fit an `i64`.
        match crate::text::parse_u64_exec(&d) {
            Some(n) => if n <= 9223372036854775808 {
                let m: i64 = if n == 9223372036854775808 {
                    i64::MIN
                } else {
                    -(n as i64)
                };
                Some(m)
            } else {
                None
            },
            None => None,
        }
    } else {
        match crate::text::parse_u64_exec(v) {
            Some(n) => if n <= i64::MAX as u64 {
                Some(n as i64)
            } else {
                None
            },
            None => None,
        }
    }
}

pub fn parse_i64(v: &Json) -> (r: Option<i64>)
    ensures
        r == parse_i64_spec(v@),
{
    match v {
        Json::Number(n) => {
            let c = chars_of(n.as_str());
            parse_i64_text_exec(&c)
        },
        Json::Str(s) => {
            let c = chars_of(s.as_str());
            parse_i64_text_exec(&c)
        },
        _ => None,
    }
}

/// The text of a value: a string as it is, anything else but `null` as JSON.
pub open spec fn value_text_spec(v: JsonV) -> Option<Seq<char>> {
    match v {
        JsonV::Null => None,
        JsonV::Str(s) => Some(s),
        _ => Some(json_text(v)),
    }
}

pub fn value_text(v: &Json) -> (r: Option<String>)
    ensures
        match r {
            Some(s) => value_text_spec(v@) == Some(s@),
            None => value_text_spec(v@) is None,
        },
{
    match v {
        Json::Null => None,
        Json::Str(s) => Some(s.clone()),
        _ => Some(crate::json::to_json_text(v)),
    }
}


/// The bytes of the UUID that `uuid::Uuid::parse_str` reads from a text.
pub uninterp spec fn uuid_bytes(text: Seq<char>) -> Option<Seq<u8>>;

/// `uuid::Uuid::parse_str`, as the UUID's 16 bytes.
#[verifier::external_body]
fn parse_uuid(text: &str) -> (r: Option<Vec<u8>>)
    ensures
        match r {
            Some(b) => uuid_bytes(text@) == Some(b@) && b@.len() == 16,
            None => uuid_bytes(text@) is None,
        },
{
    match uuid::Uuid::parse_str(text) {
        Ok(u) => Some(u.as_bytes().to_vec()),
        Err(_) => None,
    }
}

/// The elements of a `boolean[]` value; `null` elements stay `NULL`.
pub open spec fn bool_elems(items: Seq<JsonV>) -> Option<Seq<Option<bool>>>
    decreases items.len(),
{
    if items.len() == 0 {
        Some(Seq::empty())
    } else {
        match bool_elems(items.drop_last()) {
            None => None,
            Some(acc) => if items.last() is Null {
                Some(acc.push(None))
            } else {
                match parse_bool_spec(items.last()) {
                    Some(b) => Some(acc.push(Some(b))),
                    None => None,
                }
            },
        }
    }
}

/// The elements of an integer array value, each within `lo..=hi`.
pub open spec fn int_elems(items: Seq<JsonV>, lo: int, hi: int) -> Option<Seq<Option<i64>>>
    decreases items.len(),
{
    if items.len() == 0 {
        Some(Seq::empty())
    } else {
        match int_elems(items.drop_last(), lo, hi) {
            None => None,
            Some(acc) => if items.last() is Null {
                Some(acc.push(None))
            } else {
                match parse_i64_spec(items.last()) {
                    Some(i) => if lo <= i && i <= hi {
                        Some(acc.push(Some(i)))
                    } else {
                        None
                    },
                    None => None,
                }
            },
        }
    }
}

/// The elements of a text array value: each as its text.
pub open spec fn text_elems(items: Seq<JsonV>) -> Seq<Option<Seq<char>>>
    decreases items.len(),
{
    if items.len() == 0 {
        Seq::empty()
    } else {
        text_elems(items.drop_last()).push(
            if items.last() is Null {
                None
            } else {
                value_text_spec(items.last())
            },
        )
    }
}

pub open spec fn in_range(i: Option<i64>, lo: int, hi: int) -> bool {
    i is Some && lo <= i->0 && i->0 <= hi
}

/// `json_to_cell`: a non-null API value converted for a column, or the
/// conversion error naming the column, the target type and the reason.
pub open spec fn json_to_cell_spec(v: JsonV, column: Seq<char>, t: PgType) -> Result<CellV, ErrV> {
    match t {
        PgType::Bool => match parse_bool_spec(v) {
            Some(b) => Ok(CellV::Bool(b)),
            None => Err(conversion_err(column, "boolean"@, "expected true or false"@)),
        },
        PgType::Char => if in_range(parse_i64_spec(v), -128, 127) {
            Ok(CellV::Int(8, parse_i64_spec(v)->0 as int))
        } else {
            Err(conversion_err(column, "\"char\""@, "value is outside int8 range"@))
        },
        PgType::Int2 => if in_range(parse_i64_spec(v), -32768, 32767) {
            Ok(CellV::Int(16, parse_i64_spec(v)->0 as int))
        } else {
            Err(conversion_err(column, "smallint"@, "value is outside int16 range"@))
        },
        PgType::Int4 => if in_range(parse_i64_spec(v), -2147483648, 2147483647) {
            Ok(CellV::Int(32, parse_i64_spec(v)->0 as int))
        } else {
            Err(conversion_err(column, "integer"@, "value is outside int32 range"@))
        },
        PgType::Int8 => match parse_i64_spec(v) {
            Some(i) => Ok(CellV::Int(64, i as int)),
            None => Err(conversion_err(column, "bigint"@, "expected an integer"@)),
        },
        PgType::Float4 => Ok(CellV::Float(v)),
        PgType::Float8 => Ok(CellV::Float(v)),
        PgType::Numeric => match value_text_spec(v) {
            Some(t) => Ok(CellV::Numeric(t)),
            None => Err(conversion_err(column, "numeric"@, "expected a decimal number"@)),
        },
        PgType::Text => Ok(
            CellV::String(
                match value_text_spec(v) {
                    Some(t) => t,
                    None => Seq::empty(),
                },
            ),
        ),
        PgType::Json => Ok(CellV::Json(v)),
        PgType::Uuid => match v {
            JsonV::Str(s) => match uuid_bytes(s) {
                Some(b) => Ok(CellV::Uuid(b)),
                None => Err(conversion_err(column, "uuid"@, "expected a UUID string"@)),
            },
            _ => Err(conversion_err(column, "uuid"@, "expected a UUID string"@)),
        },
        PgType::Date => match v {
            JsonV::Str(s) => Ok(CellV::Date(s)),
            _ => Err(conversion_err(column, "date"@, "expected a formatted string"@)),
        },
        PgType::Time => match v {
            JsonV::Str(s) => Ok(CellV::Time(s)),
            _ => Err(conversion_err(column, "time"@, "expected a formatted string"@)),
        },
        PgType::Timestamp => match v {
            JsonV::Str(s) => Ok(CellV::Timestamp(s)),
            _ => Err(conversion_err(column, "timestamp"@, "expected a formatted string"@)),
        },
        PgType::Timestamptz => match v {
            JsonV::Str(s) => Ok(CellV::Timestamptz(s)),
            _ => Err(
                conversion_err(column, "timestamp with time zone"@, "expected a formatted string"@),
            ),
        },
        PgType::BoolArray => match v {
            JsonV::Array(items) => match bool_elems(items) {
                Some(e) => Ok(CellV::BoolArray(e)),
                None => Err(conversion_err(column, "boolean[]"@, "array element has wrong type"@)),
            },
            _ => Err(conversion_err(column, "boolean[]"@, "expected a JSON array"@)),
        },
        PgType::Int2Array => match v {
            JsonV::Array(items) => match int_elems(items, -32768, 32767) {
                Some(e) => Ok(CellV::IntArray(16, e)),
                None => Err(conversion_err(column, "smallint[]"@, "array element has wrong type"@)),
            },
            _ => Err(conversion_err(column, "smallint[]"@, "expected a JSON array"@)),
        },
        PgType::Int4Array => match v {
            JsonV::Array(items) => match int_elems(items, -2147483648, 2147483647) {
                Some(e) => Ok(CellV::IntArray(32, e)),
                None => Err(conversion_err(column, "integer[]"@, "array element has wrong type"@)),
            },
            _ => Err(conversion_err(column, "integer[]"@, "expected a JSON array"@)),
        },
        PgType::Int8Array => match v {
            JsonV::Array(items) => match int_elems(items, i64::MIN as int, i64::MAX as int) {
                Some(e) => Ok(CellV::IntArray(64, e)),
                None => Err(conversion_err(column, "bigint[]"@, "array element has wrong type"@)),
            },
            _ => Err(conversion_err(column, "bigint[]"@, "expected a JSON array"@)),
        },
        PgType::Float4Array => Ok(CellV::Float(v)),
        PgType::Float8Array => Ok(CellV::Float(v)),
        PgType::TextArray => match v {
            JsonV::Array(items) => Ok(CellV::StringArray(text_elems(items))),
            _ => Err(conversion_err(column, "text[]"@, "expected a JSON array"@)),
        },
        PgType::Unsupported(oid) => Err(
            conversion_err(
                column,
                "supported PostgreSQL scalar or array type"@,
                "type OID "@ + decimal(oid as nat) + " is not supported"@,
            ),
        ),
    }
}

fn bool_array(items: &Vec<Json>) -> (r: Option<Vec<Option<bool>>>)
    ensures
        match r {
            Some(e) => bool_elems(crate::json::items_view(items@)) == Some(e@),
            None => bool_elems(crate::json::items_view(items@)) is None,
        },
{
    let ghost iv = crate::json::items_view(items@);
    proof {
        crate::json::lemma_items_view(items@);
    }
    let mut out: Vec<Option<bool>> = Vec::new();
    let mut i: usize = 0;
    assert(iv.take(0) =~= Seq::<JsonV>::empty());
    while i < items.len()
        invariant
            i <= items.len(),
            iv == crate::json::items_view(items@),
            iv.len() == items.len(),
            forall|k: int| 0 <= k < items.len() ==> #[trigger] iv[k] == items@[k]@,
            bool_elems(iv.take(i as int)) == Some(out@),
        decreases items.len() - i,
    {
        assert(iv.take(i + 1).drop_last() =~= iv.take(i as int));
        assert(iv.take(i + 1).last() == items@[i as int]@);
        if items[i].is_null() {
            out.push(None);
        } else {
            match parse_bool(&items[i]) {
                Some(b) => out.push(Some(b)),
                None => {
                    proof {
                        lemma_bool_elems_none(iv, i + 1);
                    }
                    return None;
                },
            }
        }
        i = i + 1;
    }
    assert(iv.take(i as int) =~= iv);
    Some(out)
}

proof fn lemma_bool_elems_none(items: Seq<JsonV>, k: int)
    requires
        0 < k <= items.len(),
        bool_elems(items.take(k)) is None,
    ensures
        bool_elems(items) is None,
    decreases items.len() - k,
{
    if k < items.len() {
        assert(items.take(k + 1).drop_last() =~= items.take(k));
        lemma_bool_elems_none(items, k + 1);
    } else {
        assert(items.take(k) =~= items);
    }
}

fn int_array(items: &Vec<Json>, lo: i64, hi: i64) -> (r: Option<Vec<Option<i64>>>)
    ensures
        match r {
            Some(e) => int_elems(crate::json::items_view(items@), lo as int, hi as int) == Some(e@),
            None => int_elems(crate::json::items_view(items@), lo as int, hi as int) is None,
        },
{
    let ghost iv = crate::json::items_view(items@);
    proof {
        crate::json::lemma_items_view(items@);
    }
    let mut out: Vec<Option<i64>> = Vec::new();
    let mut i: usize = 0;
    assert(iv.take(0) =~= Seq::<JsonV>::empty());
    while i < items.len()
        invariant
            i <= items.len(),
            iv == crate::json::items_view(items@),
            iv.len() == items.len(),
            forall|k: int| 0 <= k < items.len() ==> #[trigger] iv[k] == items@[k]@,
            int_elems(iv.take(i as int), lo as int, hi as int) == Some(out@),
        decreases items.len() - i,
    {
        assert(iv.take(i + 1).drop_last() =~= iv.take(i as int));
        assert(iv.take(i + 1).last() == items@[i as int]@);
        if items[i].is_null() {
            out.push(None);
        } else {
            match parse_i64(&items[i]) {
                Some(x) => if lo <= x && x <= hi {
                    out.push(Some(x));
                } else {
                    proof {
                        lemma_int_elems_none(iv, lo as int, hi as int, i + 1);
                    }
                    return None;
                },
                None => {
                    proof {
                        lemma_int_elems_none(iv, lo as int, hi as int, i + 1);
                    }
                    return None;
                },
            }
        }
        i = i + 1;
    }
    assert(iv.take(i as int) =~= iv);
    Some(out)
}

proof fn lemma_int_elems_none(items: Seq<JsonV>, lo: int, hi: int, k: int)
    requires
        0 < k <= items.len(),
        int_elems(items.take(k), lo, hi) is None,
    ensures
        int_elems(items, lo, hi) is None,
    decreases items.len() - k,
{
    if k < items.len() {
        assert(items.take(k + 1).drop_last() =~= items.take(k));
        lemma_int_elems_none(items, lo, hi, k + 1);
    } else {
        assert(items.take(k) =~= items);
    }
}

fn text_array(items: &Vec<Json>) -> (r: Vec<Option<String>>)
    ensures
        opt_strings(r@) == text_elems(crate::json::items_view(items@)),
{
    let ghost iv = crate::json::items_view(items@);
    proof {
        crate::json::lemma_items_view(items@);
    }
    let mut out: Vec<Option<String>> = Vec::new();
    let mut i: usize = 0;
    assert(iv.take(0) =~= Seq::<JsonV>::empty());
    assert(opt_strings(out@) =~= Seq::<Option<Seq<char>>>::empty());
    while i < items.len()
        invariant
            i <= items.len(),
            iv == crate::json::items_view(items@),
            iv.len() == items.len(),
            forall|k: int| 0 <= k < items.len() ==> #[trigger] iv[k] == items@[k]@,
            opt_strings(out@) == text_elems(iv.take(i as int)),
        decreases items.len() - i,
    {
        assert(iv.take(i + 1).drop_last() =~= iv.take(i as int));
        assert(iv.take(i + 1).last() == items@[i as int]@);
        let ghost before = out@;
        if items[i].is_null() {
            out.push(None);
        } else {
            out.push(value_text(&items[i]));
        }
        assert(opt_strings(out@) =~= opt_strings(before).push(opt_strings(out@).last()));
        i = i + 1;
    }
    assert(iv.take(i as int) =~= iv);
    out
}

pub fn json_to_cell(v: &Json, column: &Column) -> (r: Result<Cell, OpenApiFdwError>)
    ensures
        match r {
            Ok(c) => json_to_cell_spec(v@, column.name@, pg_type_spec(column.type_oid)) == Ok::<
                CellV,
                ErrV,
            >(c@),
            Err(e) => json_to_cell_spec(v@, column.name@, pg_type_spec(column.type_oid)) == Err::<
                CellV,
                ErrV,
            >(e@),
        },
{
    let name = column.name.as_str();
    match pg_type(column.type_oid) {
        PgType::Bool => match parse_bool(v) {
            Some(b) => Ok(Cell::Bool(b)),
            None => Err(conversion_error(name, "boolean", "expected true or false")),
        },
        PgType::Char => match parse_i64(v) {
            Some(i) => if -128 <= i && i <= 127 {
                Ok(Cell::I8(i as i8))
            } else {
                Err(conversion_error(name, "\"char\"", "value is outside int8 range"))
            },
            None => Err(conversion_error(name, "\"char\"", "value is outside int8 range")),
        },
        PgType::Int2 => match parse_i64(v) {
            Some(i) => if -32768 <= i && i <= 32767 {
                Ok(Cell::I16(i as i16))
            } else {
                Err(conversion_error(name, "smallint", "value is outside int16 range"))
            },
            None => Err(conversion_error(name, "smallint", "value is outside int16 range")),
        },
        PgType::Int4 => match parse_i64(v) {
            Some(i) => if -2147483648 <= i && i <= 2147483647 {
                Ok(Cell::I32(i as i32))
            } else {
                Err(conversion_error(name, "integer", "value is outside int32 range"))
            },
            None => Err(conversion_error(name, "integer", "value is outside int32 range")),
        },
        PgType::Int8 => match parse_i64(v) {
            Some(i) => Ok(Cell::I64(i)),
            None => Err(conversion_error(name, "bigint", "expected an integer")),
        },
        PgType::Float4 => Ok(Cell::Float(v.copy())),
        PgType::Float8 => Ok(Cell::Float(v.copy())),
        PgType::Numeric => match value_text(v) {
            Some(t) => Ok(Cell::Numeric(t)),
            None => Err(conversion_error(name, "numeric", "expected a decimal number")),
        },
        PgType::Text => Ok(
            Cell::String(
                match value_text(v) {
                    Some(t) => t,
                    None => String::new(),
                },
            ),
        ),
        PgType::Json => Ok(Cell::Json(v.copy())),
        PgType::Uuid => match v {
            Json::Str(s) => match parse_uuid(s.as_str()) {
                Some(b) => Ok(Cell::Uuid(b)),
                None => Err(conversion_error(name, "uuid", "expected a UUID string")),
            },
            _ => Err(conversion_error(name, "uuid", "expected a UUID string")),
        },
        PgType::Date => match v {
            Json::Str(s) => Ok(Cell::Date(s.clone())),
            _ => Err(conversion_error(name, "date", "expected a formatted string")),
        },
        PgType::Time => match v {
            Json::Str(s) => Ok(Cell::Time(s.clone())),
            _ => Err(conversion_error(name, "time", "expected a formatted string")),
        },
        PgType::Timestamp => match v {
            Json::Str(s) => Ok(Cell::Timestamp(s.clone())),
            _ => Err(conversion_error(name, "timestamp", "expected a formatted string")),
        },
        PgType::Timestamptz => match v {
            Json::Str(s) => Ok(Cell::Timestamptz(s.clone())),
            _ => Err(conversion_error(name, "timestamp with time zone", "expected a formatted string")),
        },
        PgType::BoolArray => match v {
            Json::Array(items) => match bool_array(items) {
                Some(e) => Ok(Cell::BoolArray(e)),
                None => Err(conversion_error(name, "boolean[]", "array element has wrong type")),
            },
            _ => Err(conversion_error(name, "boolean[]", "expected a JSON array")),
        },
        PgType::Int2Array => match v {
            Json::Array(items) => match int_array(items, -32768, 32767) {
                Some(e) => Ok(Cell::IntArray { bits: 16, values: e }),
                None => Err(conversion_error(name, "smallint[]", "array element has wrong type")),
            },
            _ => Err(conversion_error(name, "smallint[]", "expected a JSON array")),
        },
        PgType::Int4Array => match v {
            Json::Array(items) => match int_array(items, -2147483648, 2147483647) {
                Some(e) => Ok(Cell::IntArray { bits: 32, values: e }),
                None => Err(conversion_error(name, "integer[]", "array element has wrong type")),
            },
            _ => Err(conversion_error(name, "integer[]", "expected a JSON array")),
        },
        PgType::Int8Array => match v {
            Json::Array(items) => match int_array(items, i64::MIN, i64::MAX) {
                Some(e) => Ok(Cell::IntArray { bits: 64, values: e }),
                None => Err(conversion_error(name, "bigint[]", "array element has wrong type")),
            },
            _ => Err(conversion_error(name, "bigint[]", "expected a JSON array")),
        },
        PgType::Float4Array => Ok(Cell::Float(v.copy())),
        PgType::Float8Array => Ok(Cell::Float(v.copy())),
        PgType::TextArray => match v {
            Json::Array(items) => Ok(Cell::StringArray(text_array(items))),
            _ => Err(conversion_error(name, "text[]", "expected a JSON array")),
        },
        PgType::Unsupported(oid) => {
            let mut m = chars_of("type OID ");
            let d = crate::text::decimal_of(oid as u64);
            append(&mut m, &d);
            append_str(&mut m, " is not supported");
            let reason = string_of(&m);
            Err(conversion_error(name, "supported PostgreSQL scalar or array type", reason.as_str()))
        },
    }
}


pub open spec fn cell_opt(c: Option<Cell>) -> Option<CellV> {
    match c {
        Some(x) => Some(x@),
        None => None,
    }
}

pub open spec fn cells_view(cs: Seq<Option<Cell>>) -> Seq<Option<CellV>> {
    cs.map_values(|c: Option<Cell>| cell_opt(c))
}

/// The cell of one column: the whole source row for the attributes column;
/// else the column's value, or the value its path parameter had; `NULL` for
/// nothing or `null`; a conversion error is `NULL` under
/// `on_type_error 'null'`.
pub open spec fn column_cell(
    source: JsonV,
    projected: JsonV,
    table: crate::table::TableV,
    column: Column,
    bindings: Pairs,
) -> Result<Option<CellV>, ErrV> {
    if column.name@ == table.attrs_column {
        Ok(Some(CellV::Json(source)))
    } else {
        let value = match column_value_spec(projected, column.name@, table.column_map) {
            Some(v) => Some(v),
            None => match injected_spec(bindings, column.name@) {
                Some(s) => Some(JsonV::Str(s)),
                None => None,
            },
        };
        match value {
            None => Ok(None),
            Some(v) => if v is Null {
                Ok(None)
            } else {
                match json_to_cell_spec(v, column.name@, pg_type_spec(column.type_oid)) {
                    Ok(c) => Ok(Some(c)),
                    Err(e) => if table.type_error == crate::table::TypeErrorMode::Null {
                        Ok(None)
                    } else {
                        Err(e)
                    },
                }
            },
        }
    }
}

pub open spec fn cells_spec(
    source: JsonV,
    projected: JsonV,
    table: crate::table::TableV,
    columns: Seq<Column>,
    bindings: Pairs,
) -> Result<Seq<Option<CellV>>, ErrV>
    decreases columns.len(),
{
    if columns.len() == 0 {
        Ok(Seq::empty())
    } else {
        match cells_spec(source, projected, table, columns.drop_last(), bindings) {
            Err(e) => Err(e),
            Ok(cs) => match column_cell(source, projected, table, columns.last(), bindings) {
                Err(e) => Err(e),
                Ok(c) => Ok(cs.push(c)),
            },
        }
    }
}

/// `project_row`: the cells of a row, in column order. With `object_path`,
/// columns are read from that part of the row, which must exist.
pub open spec fn project_row_spec(source: JsonV, table: crate::table::TableV, columns: Seq<Column>, bindings: Pairs) -> Result<
    Seq<Option<CellV>>,
    ErrV,
> {
    match table.object_path {
        Some(p) => match crate::json::pointer(source, p) {
            Some(projected) => cells_spec(source, projected, table, columns, bindings),
            None => Err(
                ErrV::Response("row does not contain configured object_path `"@ + p + "`"@),
            ),
        },
        None => cells_spec(source, source, table, columns, bindings),
    }
}

fn column_cell_exec(
    source: &Json,
    projected: &Json,
    table: &crate::table::TableConfig,
    column: &Column,
    path: &PathSubstitution,
) -> (r: Result<Option<Cell>, OpenApiFdwError>)
    ensures
        match r {
            Ok(c) => column_cell(source@, projected@, table.summary(), *column, pairs_view(path.bindings@))
                == Ok::<Option<CellV>, ErrV>(cell_opt(c)),
            Err(e) => column_cell(source@, projected@, table.summary(), *column, pairs_view(path.bindings@))
                == Err::<Option<CellV>, ErrV>(e@),
        },
{
    if crate::text::str_eq(column.name.as_str(), table.attrs_column.as_str()) {
        return Ok(Some(Cell::Json(source.copy())));
    }
    let value = match column_value(projected, column.name.as_str(), &table.column_map) {
        Some(v) => Some(v),
        None => match path.injected_value(column.name.as_str()) {
            Some(s) => Some(Json::Str(s)),
            None => None,
        },
    };
    match value {
        None => Ok(None),
        Some(v) => if v.is_null() {
            Ok(None)
        } else {
            match json_to_cell(&v, column) {
                Ok(c) => Ok(Some(c)),
                Err(e) => if table.type_error == crate::table::TypeErrorMode::Null {
                    Ok(None)
                } else {
                    Err(e)
                },
            }
        },
    }
}

fn cells_exec(
    source: &Json,
    projected: &Json,
    table: &crate::table::TableConfig,
    columns: &Vec<Column>,
    path: &PathSubstitution,
) -> (r: Result<Vec<Option<Cell>>, OpenApiFdwError>)
    ensures
        match r {
            Ok(cs) => cells_spec(source@, projected@, table.summary(), columns@, pairs_view(path.bindings@))
                == Ok::<Seq<Option<CellV>>, ErrV>(cells_view(cs@)),
            Err(e) => cells_spec(source@, projected@, table.summary(), columns@, pairs_view(path.bindings@))
                == Err::<Seq<Option<CellV>>, ErrV>(e@),
        },
{
    let ghost t = table.summary();
    let ghost b = pairs_view(path.bindings@);
    let mut out: Vec<Option<Cell>> = Vec::new();
    let mut i: usize = 0;
    assert(columns@.take(0) =~= Seq::<Column>::empty());
    assert(cells_view(out@) =~= Seq::<Option<CellV>>::empty());
    while i < columns.len()
        invariant
            i <= columns.len(),
            t == table.summary(),
            b == pairs_view(path.bindings@),
            cells_spec(source@, projected@, t, columns@.take(i as int), b) == Ok::<
                Seq<Option<CellV>>,
                ErrV,
            >(cells_view(out@)),
        decreases columns.len() - i,
    {
        assert(columns@.take(i + 1).drop_last() =~= columns@.take(i as int));
        assert(columns@.take(i + 1).last() == columns@[i as int]);
        match column_cell_exec(source, projected, table, &columns[i], path) {
            Ok(c) => {
                let ghost before = out@;
                out.push(c);
                assert(cells_view(out@) =~= cells_view(before).push(cell_opt(out@.last())));
            },
            Err(e) => {
                proof {
                    lemma_cells_error(source@, projected@, t, columns@, b, i + 1);
                }
                return Err(e);
            },
        }
        i = i + 1;
    }
    assert(columns@.take(i as int) =~= columns@);
    Ok(out)
}

proof fn lemma_cells_error(
    source: JsonV,
    projected: JsonV,
    table: crate::table::TableV,
    columns: Seq<Column>,
    bindings: Pairs,
    k: int,
)
    requires
        0 < k <= columns.len(),
        cells_spec(source, projected, table, columns.take(k), bindings) is Err,
    ensures
        cells_spec(source, projected, table, columns, bindings) == cells_spec(
            source,
            projected,
            table,
            columns.take(k),
            bindings,
        ),
    decreases columns.len() - k,
{
    if k < columns.len() {
        assert(columns.take(k + 1).drop_last() =~= columns.take(k));
        lemma_cells_error(source, projected, table, columns, bindings, k + 1);
    } else {
        assert(columns.take(k) =~= columns);
    }
}

pub fn project_row(source: &Json, table: &crate::table::TableConfig, columns: &Vec<Column>, path: &PathSubstitution) -> (r:
    Result<Vec<Option<Cell>>, OpenApiFdwError>)
    ensures
        match r {
            Ok(cs) => project_row_spec(source@, table.summary(), columns@, pairs_view(path.bindings@))
                == Ok::<Seq<Option<CellV>>, ErrV>(cells_view(cs@)),
            Err(e) => project_row_spec(source@, table.summary(), columns@, pairs_view(path.bindings@))
                == Err::<Seq<Option<CellV>>, ErrV>(e@),
        },
{
    match &table.object_path {
        Some(p) => match source.pointer_str(p.as_str()) {
            Some(projected) => cells_exec(source, projected, table, columns, path),
            None => {
                let mut m = chars_of("row does not contain configured object_path `");
                append_str(&mut m, p.as_str());
                append_str(&mut m, "`");
                Err(OpenApiFdwError::Response(string_of(&m)))
            },
        },
        None => cells_exec(source, source, table, columns, path),
    }
}


// ---------------------------------------------------------------------------
// Option validation and schema import
// ---------------------------------------------------------------------------

/// `CREATE SERVER` / `ALTER SERVER` options that the wrapper knows.
pub open spec fn server_option_names() -> Seq<Seq<char>> {
    seq![
        "base_url"@,
        "spec_url"@,
        "spec_json"@,
        "headers"@,
        "headers_env"@,
        "user_agent"@,
        "accept"@,
        "api_key"@,
        "api_key_env"@,
        "api_key_location"@,
        "api_key_name"@,
        "api_key_prefix"@,
        "bearer_token"@,
        "bearer_token_env"@,
        "connect_timeout_ms"@,
        "request_timeout_ms"@,
        "max_response_bytes"@,
        "max_pages"@,
        "max_retries"@,
        "max_retry_delay_ms"@,
        "max_redirects"@,
        "allow_http"@,
        "allow_cross_origin_pagination"@,
        "spec_with_auth"@,
    ]
}

/// `CREATE FOREIGN TABLE` options that the wrapper knows, the write options
/// of writable tables included.
pub open spec fn table_option_names() -> Seq<Seq<char>> {
    seq![
        "endpoint"@,
        "method"@,
        "response_path"@,
        "object_path"@,
        "query_params"@,
        "request_body"@,
        "column_map"@,
        "query_param_map"@,
        "attrs_column"@,
        "limit_param"@,
        "page_size"@,
        "page_size_param"@,
        "cursor_path"@,
        "cursor_param"@,
        "pagination"@,
        "max_pages"@,
        "on_type_error"@,
        "startup_cost"@,
        "rowid_column"@,
        "rowid_parameter"@,
        "insert_endpoint"@,
        "insert_method"@,
        "update_endpoint"@,
        "update_method"@,
        "delete_endpoint"@,
        "delete_method"@,
        "write_columns"@,
        "write_mode"@,
    ]
}

fn str_views(v: &Vec<&'static str>) -> (r: Vec<String>)
    ensures
        r@.len() == v@.len(),
        forall|i: int| 0 <= i < v@.len() ==> #[trigger] r@[i]@ == v@[i]@,
{
    let mut out: Vec<String> = Vec::new();
    let mut i: usize = 0;
    while i < v.len()
        invariant
            i <= v.len(),
            out@.len() == i,
            forall|k: int| 0 <= k < i ==> #[trigger] out@[k]@ == v@[k]@,
        decreases v.len() - i,
    {
        out.push(crate::text::str_to_string(v[i]));
        i = i + 1;
    }
    out
}

fn server_options_list() -> (r: Vec<String>)
    ensures
        crate::sorting::views(r@) == server_option_names(),
{
    let v: Vec<&'static str> = vec![
        "base_url",
        "spec_url",
        "spec_json",
        "headers",
        "headers_env",
        "user_agent",
        "accept",
        "api_key",
        "api_key_env",
        "api_key_location",
        "api_key_name",
        "api_key_prefix",
        "bearer_token",
        "bearer_token_env",
        "connect_timeout_ms",
        "request_timeout_ms",
        "max_response_bytes",
        "max_pages",
        "max_retries",
        "max_retry_delay_ms",
        "max_redirects",
        "allow_http",
        "allow_cross_origin_pagination",
        "spec_with_auth",
    ];
    let r = str_views(&v);
    assert(crate::sorting::views(r@) =~= server_option_names());
    r
}

fn table_options_list() -> (r: Vec<String>)
    ensures
        crate::sorting::views(r@) == table_option_names(),
{
    let v: Vec<&'static str> = vec![
        "endpoint",
        "method",
        "response_path",
        "object_path",
        "query_params",
        "request_body",
        "column_map",
        "query_param_map",
        "attrs_column",
        "limit_param",
        "page_size",
        "page_size_param",
        "cursor_path",
        "cursor_param",
        "pagination",
        "max_pages",
        "on_type_error",
        "startup_cost",
        "rowid_column",
        "rowid_parameter",
        "insert_endpoint",
        "insert_method",
        "update_endpoint",
        "update_method",
        "delete_endpoint",
        "delete_method",
        "write_columns",
        "write_mode",
    ];
    let r = str_views(&v);
    assert(crate::sorting::views(r@) =~= table_option_names());
    r
}

/// The `name=value` entries of a catalog option list as a map; entries
/// without `=` are skipped and a later entry wins.
pub open spec fn validator_options_spec(options: Seq<Option<Seq<char>>>) -> Pairs
    decreases options.len(),
{
    if options.len() == 0 {
        Seq::empty()
    } else {
        let before = validator_options_spec(options.drop_last());
        match options.last() {
            Some(o) => match crate::text::split_once(o, '=') {
                Some((name, value)) => crate::option_map::map_insert(before, name, value),
                None => before,
            },
            None => before,
        }
    }
}

pub fn validator_options(options: &Vec<Option<String>>) -> (r: crate::option_map::OptionMap)
    ensures
        r.pairs() == validator_options_spec(options@.map_values(|o: Option<String>| match o {
            Some(x) => Some(x@),
            None => None,
        })),
{
    let ghost ov = options@.map_values(|o: Option<String>| match o {
        Some(x) => Some(x@),
        None => None,
    });
    let mut m = crate::option_map::OptionMap::new();
    let mut i: usize = 0;
    assert(ov.take(0) =~= Seq::<Option<Seq<char>>>::empty());
    while i < options.len()
        invariant
            i <= options.len(),
            ov.len() == options.len(),
            ov == options@.map_values(|o: Option<String>| match o {
                Some(x) => Some(x@),
                None => None,
            }),
            m.pairs() == validator_options_spec(ov.take(i as int)),
        decreases options.len() - i,
    {
        assert(ov.take(i + 1).drop_last() =~= ov.take(i as int));
        assert(ov.take(i + 1).last() == ov[i as int]);
        match &options[i] {
            Some(o) => {
                let c = chars_of(o.as_str());
                match crate::text::split_once_exec(&c, '=') {
                    Some((name, value)) => {
                        m.insert(string_of(&name), string_of(&value));
                    },
                    None => {},
                }
            },
            None => {},
        }
        i = i + 1;
    }
    assert(ov.take(i as int) =~= ov);
    m
}

/// The first option not in the allowed list.
pub open spec fn first_unknown(m: Pairs, allowed: Seq<Seq<char>>) -> Option<Seq<char>>
    decreases m.len(),
{
    if m.len() == 0 {
        None
    } else if !allowed.contains(m[0].0) {
        Some(m[0].0)
    } else {
        first_unknown(m.drop_first(), allowed)
    }
}

fn find_unknown(m: &crate::option_map::OptionMap, allowed: &Vec<String>) -> (r: Option<String>)
    ensures
        match r {
            Some(n) => first_unknown(m.pairs(), crate::sorting::views(allowed@)) == Some(n@),
            None => first_unknown(m.pairs(), crate::sorting::views(allowed@)) is None,
        },
{
    let ghost mp = m.pairs();
    let ghost al = crate::sorting::views(allowed@);
    let mut i: usize = 0;
    assert(mp.skip(0) =~= mp);
    while i < m.entries.len()
        invariant
            i <= m.entries.len(),
            mp == m.pairs(),
            mp.len() == m.entries.len(),
            al == crate::sorting::views(allowed@),
            first_unknown(mp, al) == first_unknown(mp.skip(i as int), al),
        decreases m.entries.len() - i,
    {
        assert(mp.skip(i as int)[0] == mp[i as int]);
        assert(mp.skip(i as int).drop_first() =~= mp.skip(i + 1));
        let name = &m.entries[i].0;
        if !crate::sorting::views_contains(allowed, name.as_str()) {
            return Some(name.clone());
        }
        i = i + 1;
    }
    None
}

/// Where the options being validated belong.
pub enum OptionCatalog {
    Server,
    Table,
    Other,
}

/// `validator`: a foreign server's or table's options must all be known and
/// must make a valid configuration; options elsewhere are not checked.
pub open spec fn validate_options_spec(
    catalog: OptionCatalog,
    options: Pairs,
    env: crate::option_map::Environment,
) -> Result<(), ErrV> {
    match catalog {
        OptionCatalog::Server => match first_unknown(options, server_option_names()) {
            Some(n) => Err(ErrV::Configuration("unknown option `"@ + n + "`"@)),
            None => match crate::server::server_spec(options, env) {
                Ok(_) => Ok(()),
                Err(e) => Err(e),
            },
        },
        OptionCatalog::Table => match first_unknown(options, table_option_names()) {
            Some(n) => Err(ErrV::Configuration("unknown option `"@ + n + "`"@)),
            None => match crate::table::table_spec(options) {
                Ok(_) => Ok(()),
                Err(e) => Err(e),
            },
        },
        OptionCatalog::Other => Ok(()),
    }
}

pub fn validate_options(
    catalog: OptionCatalog,
    options: &crate::option_map::OptionMap,
    environment: &crate::option_map::Environment,
) -> (r: Result<(), OpenApiFdwError>)
    ensures
        match r {
            Ok(_) => validate_options_spec(catalog, options.pairs(), *environment) is Ok,
            Err(e) => validate_options_spec(catalog, options.pairs(), *environment) == Err::<(), ErrV>(
                e@,
            ),
        },
{
    match catalog {
        OptionCatalog::Server => {
            let allowed = server_options_list();
            match find_unknown(options, &allowed) {
                Some(n) => {
                    let mut m = chars_of("unknown option `");
                    append_str(&mut m, n.as_str());
                    append_str(&mut m, "`");
                    Err(OpenApiFdwError::Configuration(string_of(&m)))
                },
                None => match crate::server::ServerConfig::from_options(options, environment) {
                    Ok(_) => Ok(()),
                    Err(e) => Err(e),
                },
            }
        },
        OptionCatalog::Table => {
            let allowed = table_options_list();
            match find_unknown(options, &allowed) {
                Some(n) => {
                    let mut m = chars_of("unknown option `");
                    append_str(&mut m, n.as_str());
                    append_str(&mut m, "`");
                    Err(OpenApiFdwError::Configuration(string_of(&m)))
                },
                None => match crate::table::TableConfig::from_options(options) {
                    Ok(_) => Ok(()),
                    Err(e) => Err(e),
                },
            }
        },
        OptionCatalog::Other => Ok(()),
    }
}

/// `IMPORT FOREIGN SCHEMA` accepts the options `methods`, `include_attrs`
/// and `writable`.
pub open spec fn import_option_names() -> Seq<Seq<char>> {
    seq!["methods"@, "include_attrs"@, "writable"@]
}

/// The methods to import: the trimmed, upper-cased, non-empty entries of the
/// comma-separated `methods` option, `GET` without it; only `GET` and `POST`
/// are accepted.
pub open spec fn method_norm(p: Seq<char>) -> Seq<char> {
    crate::text::upper(crate::text::trim(p))
}

/// The normalized, non-empty entries.
pub open spec fn method_list(parts: Seq<Seq<char>>) -> Seq<Seq<char>>
    decreases parts.len(),
{
    if parts.len() == 0 {
        Seq::empty()
    } else {
        let before = method_list(parts.drop_last());
        let m = method_norm(parts.last());
        if m.len() > 0 {
            before.push(m)
        } else {
            before
        }
    }
}

/// Whether an entry names a method other than `GET` and `POST`.
pub open spec fn any_unsupported(parts: Seq<Seq<char>>) -> bool
    decreases parts.len(),
{
    if parts.len() == 0 {
        false
    } else {
        let m = method_norm(parts.last());
        (m.len() > 0 && m != "GET"@ && m != "POST"@) || any_unsupported(parts.drop_last())
    }
}

/// The methods to import: the trimmed, upper-cased, non-empty entries of the
/// comma-separated `methods` option, `GET` without it; only `GET` and `POST`
/// are accepted.
pub open spec fn import_methods_spec(option: Option<Seq<char>>) -> Result<Seq<Seq<char>>, ErrV> {
    match option {
        Some(m) => if any_unsupported(crate::text::split(m, ',')) {
            Err(ErrV::Spec("IMPORT option `methods` supports only GET and POST"@))
        } else {
            Ok(method_list(crate::text::split(m, ',')))
        },
        None => Ok(seq!["GET"@]),
    }
}

proof fn lemma_unsupported_prefix(parts: Seq<Seq<char>>, k: int)
    requires
        0 < k <= parts.len(),
        any_unsupported(parts.take(k)),
    ensures
        any_unsupported(parts),
    decreases parts.len() - k,
{
    if k < parts.len() {
        assert(parts.take(k + 1).drop_last() =~= parts.take(k));
        lemma_unsupported_prefix(parts, k + 1);
    } else {
        assert(parts.take(k) =~= parts);
    }
}

pub fn import_methods(option: Option<&String>) -> (r: Result<Vec<String>, OpenApiFdwError>)
    ensures
        match r {
            Ok(ms) => import_methods_spec(
                match option {
                    Some(s) => Some(s@),
                    None => None,
                },
            ) == Ok::<Seq<Seq<char>>, ErrV>(crate::sorting::views(ms@)),
            Err(e) => import_methods_spec(
                match option {
                    Some(s) => Some(s@),
                    None => None,
                },
            ) == Err::<Seq<Seq<char>>, ErrV>(e@),
        },
{
    let mut out: Vec<String> = Vec::new();
    match option {
        None => {
            out.push(crate::text::str_to_string("GET"));
            assert(crate::sorting::views(out@) =~= seq!["GET"@]);
            Ok(out)
        },
        Some(m) => {
            let c = chars_of(m.as_str());
            let parts = crate::text::split_exec(&c, ',');
            let ghost pv = crate::text::split(c@, ',');
            let mut i: usize = 0;
            assert(pv.take(0) =~= Seq::<Seq<char>>::empty());
            assert(crate::sorting::views(out@) =~= Seq::<Seq<char>>::empty());
            while i < parts.len()
                invariant
                    i <= parts.len(),
                    pv == crate::text::split(c@, ','),
                    c@ == m@,
                    option == Some(m),
                    parts@.len() == pv.len(),
                    forall|k: int| 0 <= k < parts@.len() ==> #[trigger] parts@[k]@ == pv[k],
                    crate::sorting::views(out@) == method_list(pv.take(i as int)),
                    !any_unsupported(pv.take(i as int)),
                decreases parts.len() - i,
            {
                assert(pv.take(i + 1).drop_last() =~= pv.take(i as int));
                assert(pv.take(i + 1).last() == parts@[i as int]@);
                let t = crate::text::trim_exec(&parts[i]);
                let u = crate::text::upper_of(&t);
                if u.len() > 0 {
                    if !crate::text::seq_eq_str(&u, "GET") && !crate::text::seq_eq_str(&u, "POST") {
                        proof {
                            assert(method_norm(pv.take(i + 1).last()) == u@);
                            assert(any_unsupported(pv.take(i + 1)));
                            lemma_unsupported_prefix(pv, i + 1);
                            assert(c@ == m@);
                        }
                        return Err(crate::error::spec_error("IMPORT option `methods` supports only GET and POST"));
                    }
                    let ghost before = out@;
                    out.push(string_of(&u));
                    assert(crate::sorting::views(out@) =~= crate::sorting::views(before).push(u@));
                }
                i = i + 1;
            }
            assert(pv.take(i as int) =~= pv);
            Ok(out)
        },
    }
}

/// A boolean `IMPORT` option: `true`, `on`, `yes`, `1` or `false`, `off`,
/// `no`, `0`; the default when it is not given.
pub open spec fn import_bool_spec(value: Option<Seq<char>>, name: Seq<char>, default: bool) -> Result<bool, ErrV> {
    match value {
        None => Ok(default),
        Some(v) => if v == "true"@ || v == "on"@ || v == "yes"@ || v == "1"@ {
            Ok(true)
        } else if v == "false"@ || v == "off"@ || v == "no"@ || v == "0"@ {
            Ok(false)
        } else {
            Err(ErrV::Spec("IMPORT option `"@ + name + "` must be a boolean"@))
        },
    }
}

pub fn import_bool(options: &crate::option_map::OptionMap, name: &str, default: bool) -> (r: Result<
    bool,
    OpenApiFdwError,
>)
    ensures
        match r {
            Ok(b) => import_bool_spec(options.lookup(name@), name@, default) == Ok::<bool, ErrV>(b),
            Err(e) => import_bool_spec(options.lookup(name@), name@, default) == Err::<bool, ErrV>(e@),
        },
{
    match options.get(name) {
        None => Ok(default),
        Some(v) => {
            let t = v.as_str();
            if crate::text::str_eq(t, "true") || crate::text::str_eq(t, "on") || crate::text::str_eq(t, "yes")
                || crate::text::str_eq(t, "1") {
                Ok(true)
            } else if crate::text::str_eq(t, "false") || crate::text::str_eq(t, "off") || crate::text::str_eq(
                t,
                "no",
            ) || crate::text::str_eq(t, "0") {
                Ok(false)
            } else {
                let mut m = chars_of("IMPORT option `");
                append_str(&mut m, name);
                append_str(&mut m, "` must be a boolean");
                Err(OpenApiFdwError::Spec(string_of(&m)))
            }
        },
    }
}

/// Which imported tables `IMPORT FOREIGN SCHEMA` creates.
pub enum ImportSelection {
    All,
    LimitTo,
    Except,
}

pub open spec fn selected(selection: ImportSelection, tables: Seq<Seq<char>>, name: Seq<char>) -> bool {
    match selection {
        ImportSelection::All => true,
        ImportSelection::LimitTo => tables.contains(name),
        ImportSelection::Except => !tables.contains(name),
    }
}

/// The unknown-option check of `IMPORT FOREIGN SCHEMA`.
pub fn check_import_options(options: &crate::option_map::OptionMap) -> (r: Result<(), OpenApiFdwError>)
    ensures
        match first_unknown(options.pairs(), import_option_names()) {
            Some(n) => r matches Err(e) && e@ == ErrV::Spec("unknown IMPORT option `"@ + n + "`"@),
            None => r is Ok,
        },
{
    let mut allowed: Vec<String> = Vec::new();
    allowed.push(crate::text::str_to_string("methods"));
    allowed.push(crate::text::str_to_string("include_attrs"));
    allowed.push(crate::text::str_to_string("writable"));
    assert(crate::sorting::views(allowed@) =~= import_option_names());
    match find_unknown(options, &allowed) {
        Some(n) => {
            let mut m = chars_of("unknown IMPORT option `");
            append_str(&mut m, n.as_str());
            append_str(&mut m, "`");
            Err(OpenApiFdwError::Spec(string_of(&m)))
        },
        None => Ok(()),
    }
}

// ---------------------------------------------------------------------------
// Writable imports
// ---------------------------------------------------------------------------

/// A path-template parameter name: non-empty, with no brace and no slash.
pub open spec fn is_param_name(n: Seq<char>) -> bool {
    n.len() > 0 && forall|i: int| 0 <= i < n.len() ==> n[i] != '{' && n[i] != '}' && n[i] != '/'
}

/// The identity parameter of an item path `collection/{name}` under a
/// collection path, if `key` is one.
pub open spec fn item_param(key: Seq<char>, collection: Seq<char>) -> Option<Seq<char>> {
    let c = collection.len() as int;
    if key.len() > c + 2 && key.subrange(0, c) == collection && key[c] == '/' && key[c + 1] == '{'
        && key.last() == '}' && is_param_name(key.subrange(c + 2, key.len() - 1)) {
        Some(key.subrange(c + 2, key.len() - 1))
    } else {
        None
    }
}

/// The first item path of the collection among the members of `paths`: its
/// identity parameter and its path item, which must be an object.
pub open spec fn first_item(paths: Seq<(Seq<char>, JsonV)>, collection: Seq<char>) -> Option<
    (Seq<char>, JsonV),
>
    decreases paths.len(),
{
    if paths.len() == 0 {
        None
    } else {
        match first_item(paths.drop_last(), collection) {
            Some(found) => Some(found),
            None => match item_param(paths.last().0, collection) {
                Some(n) => if paths.last().1 is Object {
                    Some((n, paths.last().1))
                } else {
                    None
                },
                None => None,
            },
        }
    }
}

/// The SQL name of the first column read from the JSON property `n`.
pub open spec fn json_column(columns: Seq<crate::openapi::ImportedColumn>, n: Seq<char>) -> Option<
    Seq<char>,
>
    decreases columns.len(),
{
    if columns.len() == 0 {
        None
    } else {
        match json_column(columns.drop_last(), n) {
            Some(x) => Some(x),
            None => if columns.last().json_name@ == n {
                Some(columns.last().name@)
            } else {
                None
            },
        }
    }
}

/// The column that holds a row's identity for the item parameter `n`: the
/// column read from the property `n`, else a column named `id`.
pub open spec fn row_identity(columns: Seq<crate::openapi::ImportedColumn>, n: Seq<char>) -> Option<
    Seq<char>,
> {
    match json_column(columns, n) {
        Some(x) => Some(x),
        None => if exists|i: int| 0 <= i < columns.len() && #[trigger] columns[i].name@ == "id"@ {
            Some("id"@)
        } else {
            None
        },
    }
}

/// The members of the document's `paths` object.
pub open spec fn doc_paths(doc: JsonV) -> Seq<(Seq<char>, JsonV)> {
    match crate::json::get(doc, "paths"@) {
        Some(JsonV::Object(ps)) => ps,
        _ => Seq::empty(),
    }
}

/// Whether a path item declares the operation `method` (lower case).
pub open spec fn has_op(item: JsonV, method: Seq<char>) -> bool {
    crate::json::get(item, method) matches Some(JsonV::Object(_))
}

/// The property names of the request body of the operation `method` of a
/// path item.
pub open spec fn body_props(doc: JsonV, item: JsonV, method: Seq<char>) -> Seq<Seq<char>> {
    match crate::json::get(item, method) {
        Some(op) => crate::openapi::request_properties_spec(doc, op),
        None => Seq::empty(),
    }
}

/// The body whitelist: the columns, other than the identity, whose JSON
/// property is one of the request body properties, in column order.
pub open spec fn whitelist(
    columns: Seq<crate::openapi::ImportedColumn>,
    identity: Seq<char>,
    insert_props: Seq<Seq<char>>,
    update_props: Seq<Seq<char>>,
) -> Seq<Seq<char>>
    decreases columns.len(),
{
    if columns.len() == 0 {
        Seq::empty()
    } else {
        let before = whitelist(columns.drop_last(), identity, insert_props, update_props);
        let c = columns.last();
        if c.name@ != identity && (insert_props.contains(c.json_name@) || update_props.contains(
            c.json_name@,
        )) {
            before.push(c.name@)
        } else {
            before
        }
    }
}

/// JSON strings, in order.
pub open spec fn string_items(names: Seq<Seq<char>>) -> Seq<JsonV>
    decreases names.len(),
{
    if names.len() == 0 {
        Seq::empty()
    } else {
        string_items(names.drop_last()).push(JsonV::Str(names.last()))
    }
}

/// The write options that a writable import attaches to an imported `GET`
/// collection: with an item path `collection/{n}` whose identity `n` has a
/// column, `POST` on the collection becomes the insert endpoint, `PATCH`
/// (else `PUT`) on the item the update endpoint, and `DELETE` on the item the
/// delete endpoint. Without any of them, or without such an item path or
/// identity column, the table stays read-only and gets no write options.
/// `write_columns` lists the columns that the request body schemas of the
/// insert and update operations name, when there are any.
pub open spec fn write_lines(doc: JsonV, e: crate::openapi::ImportedEndpoint) -> Seq<Seq<char>> {
    let c = e.endpoint@;
    let ps = doc_paths(doc);
    if e.method@ != "GET"@ || c.contains('{') {
        Seq::empty()
    } else {
        match first_item(ps, c) {
            None => Seq::empty(),
            Some((n, item)) => match row_identity(e.columns@, n) {
                None => Seq::empty(),
                Some(col) => {
                    let insert = match crate::json::members_get(ps, c) {
                        Some(v) => has_op(v, "post"@),
                        None => false,
                    };
                    let update: Option<Seq<char>> = if has_op(item, "patch"@) {
                        Some("PATCH"@)
                    } else if has_op(item, "put"@) {
                        Some("PUT"@)
                    } else {
                        None
                    };
                    let delete = has_op(item, "delete"@);
                    let q = c + "/{"@ + n + "}"@;
                    let insert_props = match crate::json::members_get(ps, c) {
                        Some(v) => if has_op(v, "post"@) {
                            body_props(doc, v, "post"@)
                        } else {
                            Seq::empty()
                        },
                        None => Seq::empty(),
                    };
                    let update_props = if has_op(item, "patch"@) {
                        body_props(doc, item, "patch"@)
                    } else if has_op(item, "put"@) {
                        body_props(doc, item, "put"@)
                    } else {
                        Seq::empty()
                    };
                    let allowed = whitelist(e.columns@, col, insert_props, update_props);
                    if !insert && update is None && !delete {
                        Seq::empty()
                    } else {
                        seq![
                            crate::openapi::option_text("rowid_column"@, col),
                            crate::openapi::option_text("rowid_parameter"@, n),
                        ] + (if insert {
                            seq![
                                crate::openapi::option_text("insert_endpoint"@, c),
                                crate::openapi::option_text("insert_method"@, "POST"@),
                            ]
                        } else {
                            Seq::empty()
                        }) + (match update {
                            Some(m) => seq![
                                crate::openapi::option_text("update_endpoint"@, q),
                                crate::openapi::option_text("update_method"@, m),
                            ],
                            None => Seq::empty(),
                        }) + (if delete {
                            seq![crate::openapi::option_text("delete_endpoint"@, q)]
                        } else {
                            Seq::empty()
                        }) + (if allowed.len() > 0 {
                            seq![
                                crate::openapi::option_text(
                                    "write_columns"@,
                                    json_text(JsonV::Array(string_items(allowed))),
                                ),
                            ]
                        } else {
                            Seq::empty()
                        })
                    }
                },
            },
        }
    }
}

fn item_param_exec(key: &Vec<char>, collection: &Vec<char>) -> (r: Option<Vec<char>>)
    ensures
        match r {
            Some(n) => item_param(key@, collection@) == Some(n@),
            None => item_param(key@, collection@) is None,
        },
{
    let c = collection.len();
    if c >= key.len() || key.len() - c <= 2 {
        return None;
    }
    let mut i: usize = 0;
    while i < c
        invariant
            i <= c,
            c == collection.len(),
            c + 2 < key.len(),
            forall|j: int| 0 <= j < i ==> key@[j] == collection@[j],
        decreases c - i,
    {
        if key[i] != collection[i] {
            assert(key@.subrange(0, c as int)[i as int] != collection@[i as int]);
            return None;
        }
        i = i + 1;
    }
    assert(key@.subrange(0, c as int) =~= collection@);
    let last = key.len() - 1;
    if key[c] != '/' || key[c + 1] != '{' || key[last] != '}' {
        return None;
    }
    let mut n: Vec<char> = Vec::new();
    let mut j: usize = c + 2;
    while j < last
        invariant
            c + 2 <= j <= last,
            last == key.len() - 1,
            c == collection.len(),
            key@.subrange(0, c as int) == collection@,
            key@[c as int] == '/',
            key@[c + 1] == '{',
            key@[last as int] == '}',
            n@ == key@.subrange(c + 2, j as int),
            forall|k: int| 0 <= k < n@.len() ==> n@[k] != '{' && n@[k] != '}' && n@[k] != '/',
        decreases last - j,
    {
        let ch = key[j];
        if ch == '{' || ch == '}' || ch == '/' {
            assert(key@.subrange(c + 2, key.len() - 1)[j - (c + 2)] == ch);
            return None;
        }
        n.push(ch);
        j = j + 1;
        assert(n@ =~= key@.subrange(c + 2, j as int));
    }
    if n.len() == 0 {
        return None;
    }
    Some(n)
}

fn first_item_exec<'a>(paths: &'a Vec<(String, Json)>, collection: &Vec<char>) -> (r: Option<
    (Vec<char>, &'a Json),
>)
    ensures
        match r {
            Some((n, v)) => first_item(crate::json::members_view(paths@), collection@) == Some(
                (n@, v@),
            ),
            None => first_item(crate::json::members_view(paths@), collection@) is None,
        },
{
    proof {
        crate::json::lemma_members_view(paths@);
    }
    let ghost mv = crate::json::members_view(paths@);
    let mut found: Option<(Vec<char>, &'a Json)> = None;
    let mut i: usize = 0;
    assert(mv.take(0) =~= Seq::<(Seq<char>, JsonV)>::empty());
    while i < paths.len()
        invariant
            i <= paths.len(),
            mv == crate::json::members_view(paths@),
            mv.len() == paths@.len(),
            forall|k: int|
                0 <= k < paths@.len() ==> #[trigger] mv[k] == (paths@[k].0@, paths@[k].1.view_of()),
            match found {
                Some((n, v)) => first_item(mv.take(i as int), collection@) == Some((n@, v@)),
                None => first_item(mv.take(i as int), collection@) is None,
            },
        decreases paths.len() - i,
    {
        assert(mv.take(i + 1).drop_last() =~= mv.take(i as int));
        assert(mv.take(i + 1).last() == mv[i as int]);
        if found.is_none() {
            let key = chars_of(paths[i].0.as_str());
            match item_param_exec(&key, collection) {
                Some(n) => {
                    let v = &paths[i].1;
                    if v.is_obj() {
                        found = Some((n, v));
                    }
                },
                None => {},
            }
        }
        i = i + 1;
    }
    assert(mv.take(i as int) =~= mv);
    found
}

fn row_identity_exec(columns: &Vec<crate::openapi::ImportedColumn>, n: &Vec<char>) -> (r: Option<
    Vec<char>,
>)
    ensures
        match r {
            Some(x) => row_identity(columns@, n@) == Some(x@),
            None => row_identity(columns@, n@) is None,
        },
{
    let ghost cols = columns@;
    let mut by_json: Option<Vec<char>> = None;
    let mut has_id = false;
    let mut i: usize = 0;
    assert(cols.take(0) =~= Seq::<crate::openapi::ImportedColumn>::empty());
    while i < columns.len()
        invariant
            i <= columns.len(),
            cols == columns@,
            match by_json {
                Some(x) => json_column(cols.take(i as int), n@) == Some(x@),
                None => json_column(cols.take(i as int), n@) is None,
            },
            has_id == exists|k: int| 0 <= k < i && #[trigger] cols[k].name@ == "id"@,
        decreases columns.len() - i,
    {
        assert(cols.take(i + 1).drop_last() =~= cols.take(i as int));
        assert(cols.take(i + 1).last() == cols[i as int]);
        let col = &columns[i];
        if by_json.is_none() {
            let j = chars_of(col.json_name.as_str());
            if crate::text::seq_eq(&j, n) {
                by_json = Some(chars_of(col.name.as_str()));
            }
        }
        if crate::text::str_eq(col.name.as_str(), "id") {
            has_id = true;
        }
        i = i + 1;
    }
    assert(cols.take(i as int) =~= cols);
    match by_json {
        Some(x) => Some(x),
        None => if has_id {
            Some(chars_of("id"))
        } else {
            None
        },
    }
}

fn has_op_exec(item: &Json, method: &str) -> (r: bool)
    ensures
        r == has_op(item@, method@),
{
    match item.get_str(method) {
        Some(Json::Object(_)) => true,
        _ => false,
    }
}

fn body_props_exec(doc: &Json, item: &Json, method: &str) -> (r: Vec<String>)
    ensures
        crate::sorting::views(r@) == body_props(doc@, item@, method@),
{
    match item.get_str(method) {
        Some(op) => crate::openapi::request_properties(doc, op),
        None => {
            let none: Vec<String> = Vec::new();
            assert(crate::sorting::views(none@) =~= Seq::<Seq<char>>::empty());
            none
        },
    }
}

fn whitelist_exec(
    columns: &Vec<crate::openapi::ImportedColumn>,
    identity: &Vec<char>,
    insert_props: &Vec<String>,
    update_props: &Vec<String>,
) -> (r: Vec<String>)
    ensures
        crate::sorting::views(r@) == whitelist(
            columns@,
            identity@,
            crate::sorting::views(insert_props@),
            crate::sorting::views(update_props@),
        ),
{
    let ghost cols = columns@;
    let ghost ip = crate::sorting::views(insert_props@);
    let ghost up = crate::sorting::views(update_props@);
    let mut out: Vec<String> = Vec::new();
    let mut i: usize = 0;
    assert(cols.take(0) =~= Seq::<crate::openapi::ImportedColumn>::empty());
    assert(crate::sorting::views(out@) =~= Seq::<Seq<char>>::empty());
    while i < columns.len()
        invariant
            i <= columns.len(),
            cols == columns@,
            ip == crate::sorting::views(insert_props@),
            up == crate::sorting::views(update_props@),
            crate::sorting::views(out@) == whitelist(cols.take(i as int), identity@, ip, up),
        decreases columns.len() - i,
    {
        assert(cols.take(i + 1).drop_last() =~= cols.take(i as int));
        assert(cols.take(i + 1).last() == cols[i as int]);
        let col = &columns[i];
        let name = chars_of(col.name.as_str());
        if !crate::text::seq_eq(&name, identity) && (crate::sorting::views_contains(
            insert_props,
            col.json_name.as_str(),
        ) || crate::sorting::views_contains(update_props, col.json_name.as_str())) {
            let ghost before = out@;
            out.push(col.name.clone());
            assert(crate::sorting::views(out@) =~= crate::sorting::views(before).push(col.name@));
        }
        i = i + 1;
    }
    assert(cols.take(i as int) =~= cols);
    out
}

fn string_array_exec(names: &Vec<String>) -> (r: Json)
    ensures
        r@ == JsonV::Array(string_items(crate::sorting::views(names@))),
{
    let ghost nv = crate::sorting::views(names@);
    let mut items: Vec<Json> = Vec::new();
    let mut i: usize = 0;
    assert(nv.take(0) =~= Seq::<Seq<char>>::empty());
    while i < names.len()
        invariant
            i <= names.len(),
            nv == crate::sorting::views(names@),
            crate::json::items_view(items@) == string_items(nv.take(i as int)),
        decreases names.len() - i,
    {
        assert(nv.take(i + 1).drop_last() =~= nv.take(i as int));
        assert(nv.take(i + 1).last() == names@[i as int]@);
        let x = Json::Str(names[i].clone());
        let ghost before = items@;
        items.push(x);
        proof {
            crate::json::lemma_items_view_push(before, x);
        }
        i = i + 1;
    }
    assert(nv.take(i as int) =~= nv);
    Json::Array(items)
}

fn push_option(lines: &mut Vec<Vec<char>>, name: &str, value: &Vec<char>)
    ensures
        final(lines)@.map_values(|v: Vec<char>| v@) == old(lines)@.map_values(|v: Vec<char>| v@).push(
            crate::openapi::option_text(name@, value@),
        ),
{
    let s = string_of(value);
    let line = crate::openapi::option_line(name, s.as_str());
    lines.push(line);
    assert(lines@.map_values(|v: Vec<char>| v@) =~= old(lines)@.map_values(|v: Vec<char>| v@).push(
        crate::openapi::option_text(name@, value@),
    ));
}

/// The write options of a writable import for one imported table (see
/// `write_lines`).
pub fn write_options(doc: &Json, e: &crate::openapi::ImportedEndpoint) -> (r: Vec<Vec<char>>)
    ensures
        r@.map_values(|v: Vec<char>| v@) == write_lines(doc@, *e),
{
    let mut out: Vec<Vec<char>> = Vec::new();
    assert(out@.map_values(|v: Vec<char>| v@) =~= Seq::<Seq<char>>::empty());
    let c = chars_of(e.endpoint.as_str());
    if !crate::text::str_eq(e.method.as_str(), "GET") || crate::text::contains_char(&c, '{') {
        return out;
    }
    let paths = match doc.get_str("paths") {
        Some(Json::Object(ps)) => ps,
        _ => {
            assert(doc_paths(doc@) =~= Seq::<(Seq<char>, JsonV)>::empty());
            return out;
        },
    };
    assert(doc_paths(doc@) == crate::json::members_view(paths@));
    let (n, item) = match first_item_exec(paths, &c) {
        Some(found) => found,
        None => return out,
    };
    let col = match row_identity_exec(&e.columns, &n) {
        Some(x) => x,
        None => return out,
    };
    let insert = match crate::json::find_member(paths, e.endpoint.as_str()) {
        Some(v) => has_op_exec(v, "post"),
        None => false,
    };
    let patch = has_op_exec(item, "patch");
    let put = has_op_exec(item, "put");
    let delete = has_op_exec(item, "delete");
    if !insert && !patch && !put && !delete {
        return out;
    }
    let insert_props = match crate::json::find_member(paths, e.endpoint.as_str()) {
        Some(v) => if insert {
            body_props_exec(doc, v, "post")
        } else {
            Vec::new()
        },
        None => Vec::new(),
    };
    let update_props = if patch {
        body_props_exec(doc, item, "patch")
    } else if put {
        body_props_exec(doc, item, "put")
    } else {
        Vec::new()
    };
    assert(insert_props@.len() == 0 ==> crate::sorting::views(insert_props@) =~= Seq::<Seq<char>>::empty());
    assert(update_props@.len() == 0 ==> crate::sorting::views(update_props@) =~= Seq::<Seq<char>>::empty());
    let allowed = whitelist_exec(&e.columns, &col, &insert_props, &update_props);
    let mut q = c.clone();
    append_str(&mut q, "/{");
    append(&mut q, &n);
    append_str(&mut q, "}");
    push_option(&mut out, "rowid_column", &col);
    push_option(&mut out, "rowid_parameter", &n);
    if insert {
        push_option(&mut out, "insert_endpoint", &c);
        let post = chars_of("POST");
        push_option(&mut out, "insert_method", &post);
    }
    if patch || put {
        push_option(&mut out, "update_endpoint", &q);
        let m = if patch {
            chars_of("PATCH")
        } else {
            chars_of("PUT")
        };
        push_option(&mut out, "update_method", &m);
    }
    if delete {
        push_option(&mut out, "delete_endpoint", &q);
    }
    if allowed.len() > 0 {
        let array = string_array_exec(&allowed);
        let text = crate::json::to_json_text(&array);
        let value = chars_of(text.as_str());
        push_option(&mut out, "write_columns", &value);
    }
    out
}

/// The write options of one imported table: those of `write_lines` when the
/// import is writable (the document is given), none otherwise.
pub open spec fn extra_lines(document: Option<JsonV>, e: crate::openapi::ImportedEndpoint) -> Seq<
    Seq<char>,
> {
    match document {
        Some(d) => write_lines(d, e),
        None => Seq::empty(),
    }
}

pub open spec fn import_statements_spec(
    endpoints: Seq<crate::openapi::ImportedEndpoint>,
    selection: ImportSelection,
    tables: Seq<Seq<char>>,
    local_schema: Seq<char>,
    server_name: Seq<char>,
    include_attrs: bool,
    document: Option<JsonV>,
) -> Seq<Seq<char>>
    decreases endpoints.len(),
{
    if endpoints.len() == 0 {
        Seq::empty()
    } else {
        let before = import_statements_spec(
            endpoints.drop_last(),
            selection,
            tables,
            local_schema,
            server_name,
            include_attrs,
            document,
        );
        let e = endpoints.last();
        if selected(selection, tables, e.table_name@) {
            before.push(
                crate::openapi::create_table_sql(
                    e,
                    local_schema,
                    server_name,
                    include_attrs,
                    extra_lines(document, e),
                ),
            )
        } else {
            before
        }
    }
}

/// The `CREATE FOREIGN TABLE` statements of the selected imported tables, in
/// order, read-only.
pub fn import_statements(
    endpoints: &Vec<crate::openapi::ImportedEndpoint>,
    selection: ImportSelection,
    tables: &Vec<String>,
    local_schema: &str,
    server_name: &str,
    include_attrs: bool,
) -> (r: Vec<String>)
    ensures
        crate::sorting::views(r@) == import_statements_spec(
            endpoints@,
            selection,
            crate::sorting::views(tables@),
            local_schema@,
            server_name@,
            include_attrs,
            None,
        ),
{
    import_statements_with(endpoints, selection, tables, local_schema, server_name, include_attrs, None)
}

/// The `CREATE FOREIGN TABLE` statements of the selected imported tables, in
/// order; with the document of a writable import, each table also gets the
/// write options that the document's operations support (`write_lines`).
pub fn import_statements_with(
    endpoints: &Vec<crate::openapi::ImportedEndpoint>,
    selection: ImportSelection,
    tables: &Vec<String>,
    local_schema: &str,
    server_name: &str,
    include_attrs: bool,
    document: Option<&Json>,
) -> (r: Vec<String>)
    ensures
        crate::sorting::views(r@) == import_statements_spec(
            endpoints@,
            selection,
            crate::sorting::views(tables@),
            local_schema@,
            server_name@,
            include_attrs,
            match document {
                Some(d) => Some(d@),
                None => None,
            },
        ),
{
    let ghost doc: Option<JsonV> = match document {
        Some(d) => Some(d@),
        None => None,
    };
    let mut out: Vec<String> = Vec::new();
    let mut i: usize = 0;
    assert(endpoints@.take(0) =~= Seq::<crate::openapi::ImportedEndpoint>::empty());
    assert(crate::sorting::views(out@) =~= Seq::<Seq<char>>::empty());
    while i < endpoints.len()
        invariant
            i <= endpoints.len(),
            doc == match document {
                Some(d) => Some(d@),
                None => None::<JsonV>,
            },
            crate::sorting::views(out@) == import_statements_spec(
                endpoints@.take(i as int),
                selection,
                crate::sorting::views(tables@),
                local_schema@,
                server_name@,
                include_attrs,
                doc,
            ),
        decreases endpoints.len() - i,
    {
        assert(endpoints@.take(i + 1).drop_last() =~= endpoints@.take(i as int));
        assert(endpoints@.take(i + 1).last() == endpoints@[i as int]);
        let e = &endpoints[i];
        let listed = crate::sorting::views_contains(tables, e.table_name.as_str());
        let keep = match selection {
            ImportSelection::All => true,
            ImportSelection::LimitTo => listed,
            ImportSelection::Except => !listed,
        };
        if keep {
            let extra = match document {
                Some(d) => write_options(d, e),
                None => {
                    let none: Vec<Vec<char>> = Vec::new();
                    assert(none@.map_values(|v: Vec<char>| v@) =~= Seq::<Seq<char>>::empty());
                    none
                },
            };
            assert(extra@.map_values(|v: Vec<char>| v@) == extra_lines(doc, *e));
            let sql = e.create_sql_with(local_schema, server_name, include_attrs, &extra);
            let ghost before = out@;
            out.push(sql);
            assert(crate::sorting::views(out@) =~= crate::sorting::views(before).push(out@.last()@));
        }
        i = i + 1;
    }
    assert(endpoints@.take(i as int) =~= endpoints@);
    out
}

// ---------------------------------------------------------------------------
// IMPORT FOREIGN SCHEMA
// ---------------------------------------------------------------------------

/// The settings of `IMPORT FOREIGN SCHEMA`: the methods to import, whether
/// tables get the catch-all column (`include_attrs`, on by default) and
/// whether they get write options (`writable`, off by default). Unknown
/// options are refused first.
pub open spec fn import_settings_spec(m: Pairs) -> Result<(Seq<Seq<char>>, bool, bool), ErrV> {
    match first_unknown(m, import_option_names()) {
        Some(n) => Err(ErrV::Spec("unknown IMPORT option `"@ + n + "`"@)),
        None => match import_methods_spec(crate::option_map::map_lookup(m, "methods"@)) {
            Err(e) => Err(e),
            Ok(methods) => match import_bool_spec(
                crate::option_map::map_lookup(m, "include_attrs"@),
                "include_attrs"@,
                true,
            ) {
                Err(e) => Err(e),
                Ok(include_attrs) => match import_bool_spec(
                    crate::option_map::map_lookup(m, "writable"@),
                    "writable"@,
                    false,
                ) {
                    Err(e) => Err(e),
                    Ok(writable) => Ok((methods, include_attrs, writable)),
                },
            },
        },
    }
}

/// Imported tables with the given contents (the statements depend on nothing
/// else, `lemma_statements_follow_views`).
pub open spec fn tables_of(evs: Seq<crate::openapi::EndpointV>) -> Seq<crate::openapi::ImportedEndpoint> {
    choose|es: Seq<crate::openapi::ImportedEndpoint>| crate::openapi::endpoints_view(es) == evs
}

/// `IMPORT FOREIGN SCHEMA` on a fetched document: the settings, the tables
/// of the document's operations, and one `CREATE FOREIGN TABLE` per
/// selected table; with `writable` on, each table also carries the write
/// options that the document supports, and without it none.
pub open spec fn import_schema_spec(
    doc: JsonV,
    m: Pairs,
    selection: ImportSelection,
    tables: Seq<Seq<char>>,
    local_schema: Seq<char>,
    server_name: Seq<char>,
) -> Result<Seq<Seq<char>>, ErrV> {
    match import_settings_spec(m) {
        Err(e) => Err(e),
        Ok((methods, include_attrs, writable)) => match crate::openapi::endpoints_spec(doc, methods) {
            Err(e) => Err(e),
            Ok(evs) => Ok(
                import_statements_spec(
                    tables_of(evs),
                    selection,
                    tables,
                    local_schema,
                    server_name,
                    include_attrs,
                    if writable {
                        Some(doc)
                    } else {
                        None
                    },
                ),
            ),
        },
    }
}

/// Columns with the same names, JSON names and types.
pub open spec fn columns_agree(
    a: Seq<crate::openapi::ImportedColumn>,
    b: Seq<crate::openapi::ImportedColumn>,
) -> bool {
    &&& a.len() == b.len()
    &&& forall|i: int|
        0 <= i < a.len() ==> #[trigger] a[i].name@ == b[i].name@ && a[i].json_name@ == b[i].json_name@
            && a[i].pg_type@ == b[i].pg_type@
}

proof fn lemma_columns_agree(a: Seq<crate::openapi::ImportedColumn>, b: Seq<crate::openapi::ImportedColumn>)
    requires
        crate::openapi::columns_view(a) == crate::openapi::columns_view(b),
    ensures
        columns_agree(a, b),
{
    assert(crate::openapi::columns_view(a).len() == a.len());
    assert forall|i: int| 0 <= i < a.len() implies #[trigger] a[i].name@ == b[i].name@ && a[i].json_name@
        == b[i].json_name@ && a[i].pg_type@ == b[i].pg_type@ by {
        assert(crate::openapi::columns_view(a)[i] == crate::openapi::column_view(a[i]));
        assert(crate::openapi::columns_view(b)[i] == crate::openapi::column_view(b[i]));
    }
}

proof fn lemma_agree_drop_last(a: Seq<crate::openapi::ImportedColumn>, b: Seq<crate::openapi::ImportedColumn>)
    requires
        columns_agree(a, b),
        a.len() > 0,
    ensures
        columns_agree(a.drop_last(), b.drop_last()),
        a.last().name@ == b.last().name@,
        a.last().json_name@ == b.last().json_name@,
{
    assert(a.last() == a[a.len() - 1]);
    assert(b.last() == b[b.len() - 1]);
    assert forall|i: int| 0 <= i < a.drop_last().len() implies #[trigger] a.drop_last()[i].name@
        == b.drop_last()[i].name@ && a.drop_last()[i].json_name@ == b.drop_last()[i].json_name@
        && a.drop_last()[i].pg_type@ == b.drop_last()[i].pg_type@ by {
        assert(a.drop_last()[i] == a[i]);
        assert(b.drop_last()[i] == b[i]);
    }
}

proof fn lemma_agree_renamed(a: Seq<crate::openapi::ImportedColumn>, b: Seq<crate::openapi::ImportedColumn>)
    requires
        columns_agree(a, b),
    ensures
        crate::openapi::renamed_members(a) == crate::openapi::renamed_members(b),
        json_column_agrees(a, b),
    decreases a.len(),
{
    if a.len() > 0 {
        lemma_agree_drop_last(a, b);
        lemma_agree_renamed(a.drop_last(), b.drop_last());
        assert forall|n: Seq<char>| #[trigger] json_column(a, n) == json_column(b, n) by {
            assert(json_column(a.drop_last(), n) == json_column(b.drop_last(), n));
        }
    }
}

/// `json_column` reads only names and JSON names.
pub open spec fn json_column_agrees(
    a: Seq<crate::openapi::ImportedColumn>,
    b: Seq<crate::openapi::ImportedColumn>,
) -> bool {
    forall|n: Seq<char>| #[trigger] json_column(a, n) == json_column(b, n)
}

proof fn lemma_agree_whitelist(
    a: Seq<crate::openapi::ImportedColumn>,
    b: Seq<crate::openapi::ImportedColumn>,
    identity: Seq<char>,
    ip: Seq<Seq<char>>,
    up: Seq<Seq<char>>,
)
    requires
        columns_agree(a, b),
    ensures
        whitelist(a, identity, ip, up) == whitelist(b, identity, ip, up),
    decreases a.len(),
{
    if a.len() > 0 {
        lemma_agree_drop_last(a, b);
        lemma_agree_whitelist(a.drop_last(), b.drop_last(), identity, ip, up);
    }
}

proof fn lemma_endpoint_follows_view(
    e1: crate::openapi::ImportedEndpoint,
    e2: crate::openapi::ImportedEndpoint,
    doc: Option<JsonV>,
    local_schema: Seq<char>,
    server_name: Seq<char>,
    include_attrs: bool,
)
    requires
        crate::openapi::endpoint_view(e1) == crate::openapi::endpoint_view(e2),
    ensures
        crate::openapi::create_table_sql(e1, local_schema, server_name, include_attrs, extra_lines(doc, e1))
            == crate::openapi::create_table_sql(e2, local_schema, server_name, include_attrs, extra_lines(doc, e2)),
{
    let a = e1.columns@;
    let b = e2.columns@;
    lemma_columns_agree(a, b);
    lemma_agree_renamed(a, b);
    assert(crate::openapi::column_names(a) =~= crate::openapi::column_names(b));
    assert(a.map_values(|c: crate::openapi::ImportedColumn| crate::openapi::column_definition(c)) =~= b.map_values(
        |c: crate::openapi::ImportedColumn| crate::openapi::column_definition(c),
    ));
    assert(crate::openapi::opt_line("response_path"@, e1.response_path) == crate::openapi::opt_line(
        "response_path"@,
        e2.response_path,
    ));
    assert(crate::openapi::opt_line("object_path"@, e1.object_path) == crate::openapi::opt_line(
        "object_path"@,
        e2.object_path,
    ));
    match doc {
        None => {},
        Some(d) => {
            let ps = doc_paths(d);
            match first_item(ps, e1.endpoint@) {
                None => {},
                Some((n, item)) => {
                    assert(json_column(a, n) == json_column(b, n));
                    assert((exists|i: int| 0 <= i < a.len() && #[trigger] a[i].name@ == "id"@) == (exists|
                        i: int,
                    | 0 <= i < b.len() && #[trigger] b[i].name@ == "id"@)) by {
                        if exists|i: int| 0 <= i < a.len() && #[trigger] a[i].name@ == "id"@ {
                            let i = choose|i: int| 0 <= i < a.len() && #[trigger] a[i].name@ == "id"@;
                            assert(b[i].name@ == "id"@);
                        }
                        if exists|i: int| 0 <= i < b.len() && #[trigger] b[i].name@ == "id"@ {
                            let i = choose|i: int| 0 <= i < b.len() && #[trigger] b[i].name@ == "id"@;
                            assert(a[i].name@ == "id"@);
                        }
                    }
                    assert(row_identity(a, n) == row_identity(b, n));
                    match row_identity(a, n) {
                        None => {},
                        Some(col) => {
                            let c = e1.endpoint@;
                            let insert_props = match crate::json::members_get(ps, c) {
                                Some(v) => if has_op(v, "post"@) {
                                    body_props(d, v, "post"@)
                                } else {
                                    Seq::empty()
                                },
                                None => Seq::empty(),
                            };
                            let update_props = if has_op(item, "patch"@) {
                                body_props(d, item, "patch"@)
                            } else if has_op(item, "put"@) {
                                body_props(d, item, "put"@)
                            } else {
                                Seq::empty()
                            };
                            lemma_agree_whitelist(a, b, col, insert_props, update_props);
                        },
                    }
                },
            }
            assert(write_lines(d, e1) == write_lines(d, e2));
        },
    }
}

/// The statements of an import depend only on what the imported tables
/// hold (their views).
pub proof fn lemma_statements_follow_views(
    a: Seq<crate::openapi::ImportedEndpoint>,
    b: Seq<crate::openapi::ImportedEndpoint>,
    selection: ImportSelection,
    tables: Seq<Seq<char>>,
    local_schema: Seq<char>,
    server_name: Seq<char>,
    include_attrs: bool,
    doc: Option<JsonV>,
)
    requires
        crate::openapi::endpoints_view(a) == crate::openapi::endpoints_view(b),
    ensures
        import_statements_spec(a, selection, tables, local_schema, server_name, include_attrs, doc)
            == import_statements_spec(b, selection, tables, local_schema, server_name, include_attrs, doc),
    decreases a.len(),
{
    assert(crate::openapi::endpoints_view(a).len() == a.len());
    assert(crate::openapi::endpoints_view(b).len() == b.len());
    if a.len() > 0 {
        assert(crate::openapi::endpoints_view(a.drop_last()) =~= crate::openapi::endpoints_view(b.drop_last()))
            by {
            assert forall|i: int| 0 <= i < a.len() - 1 implies crate::openapi::endpoints_view(a.drop_last())[i]
                == crate::openapi::endpoints_view(b.drop_last())[i] by {
                assert(a.drop_last()[i] == a[i]);
                assert(b.drop_last()[i] == b[i]);
                assert(crate::openapi::endpoints_view(a)[i] == crate::openapi::endpoint_view(a[i]));
                assert(crate::openapi::endpoints_view(b)[i] == crate::openapi::endpoint_view(b[i]));
                assert(crate::openapi::endpoints_view(a)[i] == crate::openapi::endpoints_view(b)[i]);
            }
        }
        lemma_statements_follow_views(
            a.drop_last(),
            b.drop_last(),
            selection,
            tables,
            local_schema,
            server_name,
            include_attrs,
            doc,
        );
        assert(crate::openapi::endpoints_view(a)[a.len() - 1] == crate::openapi::endpoints_view(b)[a.len() - 1]);
        assert(crate::openapi::endpoints_view(a)[a.len() - 1] == crate::openapi::endpoint_view(a.last()));
        assert(crate::openapi::endpoints_view(b)[a.len() - 1] == crate::openapi::endpoint_view(b.last()));
        lemma_endpoint_follows_view(a.last(), b.last(), doc, local_schema, server_name, include_attrs);
    }
}

/// `IMPORT FOREIGN SCHEMA` on a fetched document (see `import_schema_spec`).
pub fn import_schema(
    document: &Json,
    options: &crate::option_map::OptionMap,
    selection: ImportSelection,
    tables: &Vec<String>,
    local_schema: &str,
    server_name: &str,
) -> (r: Result<Vec<String>, OpenApiFdwError>)
    ensures
        match r {
            Ok(stmts) => import_schema_spec(
                document@,
                options.pairs(),
                selection,
                crate::sorting::views(tables@),
                local_schema@,
                server_name@,
            ) == Ok::<Seq<Seq<char>>, ErrV>(crate::sorting::views(stmts@)),
            Err(e) => import_schema_spec(
                document@,
                options.pairs(),
                selection,
                crate::sorting::views(tables@),
                local_schema@,
                server_name@,
            ) == Err::<Seq<Seq<char>>, ErrV>(e@),
        },
{
    match check_import_options(options) {
        Ok(()) => {},
        Err(e) => return Err(e),
    }
    let methods = match import_methods(options.get("methods")) {
        Ok(m) => m,
        Err(e) => return Err(e),
    };
    let include_attrs = match import_bool(options, "include_attrs", true) {
        Ok(b) => b,
        Err(e) => return Err(e),
    };
    let writable = match import_bool(options, "writable", false) {
        Ok(b) => b,
        Err(e) => return Err(e),
    };
    let endpoints = match crate::openapi::endpoints(document, &methods) {
        Ok(es) => es,
        Err(e) => return Err(e),
    };
    let ghost evs = crate::openapi::endpoints_view(endpoints@);
    let ghost doc: Option<JsonV> = if writable {
        Some(document@)
    } else {
        None
    };
    let stmts = import_statements_with(
        &endpoints,
        selection,
        tables,
        local_schema,
        server_name,
        include_attrs,
        if writable {
            Some(document)
        } else {
            None
        },
    );
    proof {
        assert(exists|es: Seq<crate::openapi::ImportedEndpoint>| crate::openapi::endpoints_view(es) == evs);
        lemma_statements_follow_views(
            endpoints@,
            tables_of(evs),
            selection,
            crate::sorting::views(tables@),
            local_schema@,
            server_name@,
            include_attrs,
            doc,
        );
    }
    Ok(stmts)
}

// ---------------------------------------------------------------------------
// Values that PostgreSQL parses
// ---------------------------------------------------------------------------

/// The column types whose values PostgreSQL's own input functions parse
/// (floating point, `numeric`, dates and times), by the name that a
/// conversion error gives them.
pub open spec fn pg_parsed_target(t: PgType) -> Option<Seq<char>> {
    match t {
        PgType::Float4 => Some("real"@),
        PgType::Float8 => Some("double precision"@),
        PgType::Numeric => Some("numeric"@),
        PgType::Date => Some("date"@),
        PgType::Time => Some("time"@),
        PgType::Timestamp => Some("timestamp"@),
        PgType::Timestamptz => Some("timestamp with time zone"@),
        PgType::Float4Array => Some("real[]"@),
        PgType::Float8Array => Some("double precision[]"@),
        _ => None,
    }
}

/// The reason a conversion error gives when PostgreSQL rejects a value:
/// fixed for numbers, the parser's own message after `invalid formatted
/// string: ` for dates and times, and the message as given for float arrays.
pub open spec fn pg_parse_reason(t: PgType, detail: Seq<char>) -> Seq<char> {
    match t {
        PgType::Float4 => "expected a finite number"@,
        PgType::Float8 => "expected a finite number"@,
        PgType::Numeric => "expected a decimal number"@,
        PgType::Date => "invalid formatted string: "@ + detail,
        PgType::Time => "invalid formatted string: "@ + detail,
        PgType::Timestamp => "invalid formatted string: "@ + detail,
        PgType::Timestamptz => "invalid formatted string: "@ + detail,
        _ => detail,
    }
}

/// How PostgreSQL's parse of a converted value came out: accepted, or
/// rejected with the parser's message.
pub enum PgParse {
    Accepted,
    Rejected(String),
}

/// What a cell becomes once PostgreSQL has parsed its value: the cell when
/// the parse was accepted or the column's type is not one that PostgreSQL
/// parses; on a rejection, `NULL` under `on_type_error 'null'`, else a
/// conversion error.
pub open spec fn settle_spec(
    cell: Option<CellV>,
    rejected: Option<Seq<char>>,
    column: Column,
    mode: crate::table::TypeErrorMode,
) -> Result<Option<CellV>, ErrV> {
    match rejected {
        None => Ok(cell),
        Some(detail) => match pg_parsed_target(pg_type_spec(column.type_oid)) {
            None => Ok(cell),
            Some(target) => if mode == crate::table::TypeErrorMode::Null {
                Ok(None)
            } else {
                Err(
                    conversion_err(
                        column.name@,
                        target,
                        pg_parse_reason(pg_type_spec(column.type_oid), detail),
                    ),
                )
            },
        },
    }
}

fn pg_parsed_target_exec(t: &PgType) -> (r: Option<&'static str>)
    ensures
        match r {
            Some(s) => pg_parsed_target(*t) == Some(s@),
            None => pg_parsed_target(*t) is None,
        },
{
    match t {
        PgType::Float4 => Some("real"),
        PgType::Float8 => Some("double precision"),
        PgType::Numeric => Some("numeric"),
        PgType::Date => Some("date"),
        PgType::Time => Some("time"),
        PgType::Timestamp => Some("timestamp"),
        PgType::Timestamptz => Some("timestamp with time zone"),
        PgType::Float4Array => Some("real[]"),
        PgType::Float8Array => Some("double precision[]"),
        _ => None,
    }
}

/// A cell after PostgreSQL's parse of its value (see `settle_spec`).
pub fn settle_cell(
    cell: Option<Cell>,
    parse: PgParse,
    column: &Column,
    mode: crate::table::TypeErrorMode,
) -> (r: Result<Option<Cell>, OpenApiFdwError>)
    ensures
        match r {
            Ok(c) => settle_spec(
                cell_opt(cell),
                match parse {
                    PgParse::Accepted => None,
                    PgParse::Rejected(d) => Some(d@),
                },
                *column,
                mode,
            ) == Ok::<Option<CellV>, ErrV>(cell_opt(c)),
            Err(e) => settle_spec(
                cell_opt(cell),
                match parse {
                    PgParse::Accepted => None,
                    PgParse::Rejected(d) => Some(d@),
                },
                *column,
                mode,
            ) == Err::<Option<CellV>, ErrV>(e@),
        },
{
    let detail = match parse {
        PgParse::Accepted => return Ok(cell),
        PgParse::Rejected(d) => d,
    };
    let t = pg_type(column.type_oid);
    let target = match pg_parsed_target_exec(&t) {
        Some(s) => s,
        None => return Ok(cell),
    };
    if mode == crate::table::TypeErrorMode::Null {
        return Ok(None);
    }
    let mut reason: Vec<char> = Vec::new();
    match t {
        PgType::Float4 | PgType::Float8 => append_str(&mut reason, "expected a finite number"),
        PgType::Numeric => append_str(&mut reason, "expected a decimal number"),
        PgType::Date | PgType::Time | PgType::Timestamp | PgType::Timestamptz => {
            append_str(&mut reason, "invalid formatted string: ");
            append_str(&mut reason, detail.as_str());
        },
        _ => append_str(&mut reason, detail.as_str()),
    }
    let reason = string_of(&reason);
    Err(conversion_error(column.name.as_str(), target, reason.as_str()))
}

// ---------------------------------------------------------------------------
// Laws of value conversion and scan planning
// ---------------------------------------------------------------------------

/// A boolean column (type OID 16) reads a JSON boolean as itself, the texts
/// `true`, `t` and `1` as true and `false`, `f` and `0` as false, whatever
/// the column is called; any other text is a conversion error.
pub proof fn law_boolean_cells(column: Seq<char>, b: bool, other: Seq<char>)
    requires
        other != "true"@,
        other != "t"@,
        other != "1"@,
        other != "false"@,
        other != "f"@,
        other != "0"@,
    ensures
        pg_type_spec(16) == PgType::Bool,
        json_to_cell_spec(JsonV::Bool(b), column, PgType::Bool) == Ok::<CellV, ErrV>(CellV::Bool(b)),
        json_to_cell_spec(JsonV::Str("true"@), column, PgType::Bool) == Ok::<CellV, ErrV>(CellV::Bool(true)),
        json_to_cell_spec(JsonV::Str("t"@), column, PgType::Bool) == Ok::<CellV, ErrV>(CellV::Bool(true)),
        json_to_cell_spec(JsonV::Str("1"@), column, PgType::Bool) == Ok::<CellV, ErrV>(CellV::Bool(true)),
        json_to_cell_spec(JsonV::Str("false"@), column, PgType::Bool) == Ok::<CellV, ErrV>(CellV::Bool(false)),
        json_to_cell_spec(JsonV::Str("f"@), column, PgType::Bool) == Ok::<CellV, ErrV>(CellV::Bool(false)),
        json_to_cell_spec(JsonV::Str("0"@), column, PgType::Bool) == Ok::<CellV, ErrV>(CellV::Bool(false)),
        json_to_cell_spec(JsonV::Str(other), column, PgType::Bool) is Err,
{
    reveal_strlit("true");
    reveal_strlit("t");
    reveal_strlit("1");
    reveal_strlit("false");
    reveal_strlit("f");
    reveal_strlit("0");
}

/// An equality qualifier that fills no path parameter sets, as the last
/// query pair, the parameter that `query_param_map` names for its column
/// (the column's own name where the map has no entry) to the qualifier's
/// value; no earlier pair keeps that name.
pub proof fn law_qualifier_parameter(acc: Pairs, quals: Seq<Qual>, bindings: Pairs, map: Pairs, v: Seq<char>)
    requires
        quals.len() > 0,
        !binds(bindings, quals.last().field@),
        qual_value_spec(quals.last()) == Some(v),
    ensures
        crate::option_map::map_lookup(map, quals.last().field@) matches Some(n) ==> qual_params(
            acc,
            quals,
            bindings,
            map,
        ).last() == (n, v),
        crate::option_map::map_lookup(map, quals.last().field@) is None ==> qual_params(
            acc,
            quals,
            bindings,
            map,
        ).last() == (quals.last().field@, v),
        forall|i: int|
            0 <= i < qual_params(acc, quals, bindings, map).len() - 1 ==> (#[trigger] qual_params(
                acc,
                quals,
                bindings,
                map,
            )[i]).0 != qual_params(acc, quals, bindings, map).last().0,
{
    let before = qual_params(acc, quals.drop_last(), bindings, map);
    let name = match crate::option_map::map_lookup(map, quals.last().field@) {
        Some(n) => n,
        None => quals.last().field@,
    };
    assert(qual_params(acc, quals, bindings, map) == set_query_value_spec(before, name, v));
    lemma_set_query_value(before, name, v);
}

/// Setting a query parameter leaves it last, with no earlier pair of that
/// name.
pub proof fn lemma_set_query_value(query: Pairs, name: Seq<char>, value: Seq<char>)
    ensures
        set_query_value_spec(query, name, value).last() == (name, value),
        forall|i: int|
            0 <= i < set_query_value_spec(query, name, value).len() - 1 ==> (
            #[trigger] set_query_value_spec(query, name, value)[i]).0 != name,
{
    broadcast use vstd::seq_lib::group_filter_ensures;

    let r = set_query_value_spec(query, name, value);
    assert forall|i: int| 0 <= i < r.len() - 1 implies (#[trigger] r[i]).0 != name by {
        assert(r[i] == r.drop_last()[i]);
    }
}

/// With neither `limit_param` nor `page_size_param`, the last query pair of
/// a scan whose last qualifier is such an equality is that qualifier's
/// mapped parameter and value.
pub proof fn law_scan_query_maps_qualifier(
    table: crate::table::TableV,
    quals: Seq<Qual>,
    bindings: Pairs,
    maximum_rows: Option<u64>,
    n: Seq<char>,
    v: Seq<char>,
)
    requires
        table.limit_param is None,
        table.page_size_param is None,
        quals.len() > 0,
        !binds(bindings, quals.last().field@),
        qual_value_spec(quals.last()) == Some(v),
        crate::option_map::map_lookup(table.query_param_map, quals.last().field@) == Some(n),
    ensures
        scan_query_spec(table, quals, bindings, maximum_rows).last() == (n, v),
        scan_query_spec(table, quals, bindings, maximum_rows).contains((n, v)),
{
    law_qualifier_parameter(static_params(table.query_params), quals, bindings, table.query_param_map, v);
    let q = scan_query_spec(table, quals, bindings, maximum_rows);
    assert(q.len() > 0);
    assert(q[q.len() - 1] == (n, v));
}

} // verus!
