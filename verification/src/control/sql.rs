//! The SQL that the control plane runs for a source: quoting, the foreign
//! server with its options, the schema import, and sample queries.
use vstd::prelude::*;

use crate::control::model::{
    byte_len, method_key, ApiKeyLocation, AuthDefinition, AuthV, SourceDefinition, SourceV,
};
use crate::json::{json_text, to_json_text, Json, JsonV};
use crate::option_map::OptionMap;
use crate::text::{
    append, append_str, chars_of, contains_char, decimal, decimal_of, join, join_exec, replace,
    replace_str, string_of, trim, trim_char_end, trim_char_end_exec,
};

verus! {

// ---------------------------------------------------------------------------
// Quoting
// ---------------------------------------------------------------------------

pub open spec fn quote_identifier_spec(value: Seq<char>) -> Seq<char> {
    "\""@ + replace(value, "\""@, "\"\""@) + "\""@
}

pub open spec fn quote_literal_spec(value: Seq<char>) -> Result<Seq<char>, Seq<char>> {
    if value.contains('\0') {
        Err("PostgreSQL strings cannot contain NUL bytes"@)
    } else {
        Ok("E'"@ + replace(replace(value, "\\"@, "\\\\"@), "'"@, "''"@) + "'"@)
    }
}

fn quote_identifier_chars(value: &Vec<char>) -> (r: Vec<char>)
    ensures
        r@ == quote_identifier_spec(value@),
{
    proof {
        reveal_strlit("\"");
    }
    let mut out = chars_of("\"");
    let inner = replace_str(value, "\"", "\"\"");
    append(&mut out, &inner);
    append_str(&mut out, "\"");
    out
}

/// A PostgreSQL identifier in double quotes, with embedded quotes doubled.
pub fn quote_identifier(value: &str) -> (r: String)
    ensures
        r@ == quote_identifier_spec(value@),
{
    let v = chars_of(value);
    let q = quote_identifier_chars(&v);
    string_of(&q)
}

fn quote_literal_chars(value: &Vec<char>) -> (r: Result<Vec<char>, String>)
    ensures
        match r {
            Ok(q) => quote_literal_spec(value@) == Ok::<Seq<char>, Seq<char>>(q@),
            Err(e) => quote_literal_spec(value@) == Err::<Seq<char>, Seq<char>>(e@),
        },
{
    if contains_char(value, '\0') {
        return Err(crate::text::str_to_string("PostgreSQL strings cannot contain NUL bytes"));
    }
    proof {
        reveal_strlit("\\");
        reveal_strlit("'");
    }
    let escaped = replace_str(value, "\\", "\\\\");
    let doubled = replace_str(&escaped, "'", "''");
    let mut out = chars_of("E'");
    append(&mut out, &doubled);
    append_str(&mut out, "'");
    Ok(out)
}

/// An escape-string literal (`E'...'`): backslashes doubled, quotes doubled.
/// PostgreSQL strings cannot hold NUL, so a value with one is refused.
pub fn quote_literal(value: &str) -> (r: Result<String, String>)
    ensures
        match r {
            Ok(q) => quote_literal_spec(value@) == Ok::<Seq<char>, Seq<char>>(q@),
            Err(e) => quote_literal_spec(value@) == Err::<Seq<char>, Seq<char>>(e@),
        },
{
    let v = chars_of(value);
    match quote_literal_chars(&v) {
        Ok(q) => Ok(string_of(&q)),
        Err(e) => Err(e),
    }
}

pub open spec fn drop_server_sql_spec(server_name: Seq<char>) -> Seq<char> {
    "DROP SERVER "@ + quote_identifier_spec(server_name) + " CASCADE"@
}

pub fn drop_server_sql(server_name: &str) -> (r: String)
    ensures
        r@ == drop_server_sql_spec(server_name@),
{
    let v = chars_of(server_name);
    let mut out = chars_of("DROP SERVER ");
    let q = quote_identifier_chars(&v);
    append(&mut out, &q);
    append_str(&mut out, " CASCADE");
    string_of(&out)
}

pub open spec fn sample_sql_spec(
    schema: Seq<char>,
    table: Seq<char>,
    limit: u32,
    filter: Option<(Seq<char>, Seq<char>)>,
) -> Result<Seq<char>, Seq<char>> {
    let predicate = match filter {
        Some((column, value)) => match quote_literal_spec(value) {
            Ok(q) => Ok(" WHERE "@ + quote_identifier_spec(column) + " = "@ + q),
            Err(e) => Err(e),
        },
        None => Ok(Seq::empty()),
    };
    match predicate {
        Err(e) => Err(e),
        Ok(p) => Ok(
            "SELECT * FROM "@ + quote_identifier_spec(schema) + "."@ + quote_identifier_spec(table)
                + p + " LIMIT "@ + decimal(limit as nat),
        ),
    }
}

/// `SELECT * FROM schema.table [WHERE column = value] LIMIT n`.
pub fn sample_sql(schema: &str, table: &str, limit: u32, filter: Option<(&str, &str)>) -> (r: Result<
    String,
    String,
>)
    ensures
        ({
            let f = match filter {
                Some((c, v)) => Some((c@, v@)),
                None => None,
            };
            match r {
                Ok(q) => sample_sql_spec(schema@, table@, limit, f) == Ok::<Seq<char>, Seq<char>>(
                    q@,
                ),
                Err(e) => sample_sql_spec(schema@, table@, limit, f) == Err::<
                    Seq<char>,
                    Seq<char>,
                >(e@),
            }
        }),
{
    let mut predicate: Vec<char> = Vec::new();
    match filter {
        Some((column, value)) => {
            let v = chars_of(value);
            let q = match quote_literal_chars(&v) {
                Ok(q) => q,
                Err(e) => return Err(e),
            };
            append_str(&mut predicate, " WHERE ");
            let c = chars_of(column);
            let qc = quote_identifier_chars(&c);
            append(&mut predicate, &qc);
            append_str(&mut predicate, " = ");
            append(&mut predicate, &q);
        },
        None => {},
    }
    let mut out = chars_of("SELECT * FROM ");
    let s = chars_of(schema);
    let qs = quote_identifier_chars(&s);
    append(&mut out, &qs);
    append_str(&mut out, ".");
    let t = chars_of(table);
    let qt = quote_identifier_chars(&t);
    append(&mut out, &qt);
    append(&mut out, &predicate);
    append_str(&mut out, " LIMIT ");
    let n = decimal_of(limit as u64);
    append(&mut out, &n);
    Ok(string_of(&out))
}

// ---------------------------------------------------------------------------
// The foreign server
// ---------------------------------------------------------------------------

pub open spec fn entry(name: Seq<char>, value: Option<Seq<char>>) -> Seq<(Seq<char>, Seq<char>)> {
    match value {
        Some(v) => seq![(name, v)],
        None => Seq::empty(),
    }
}

pub open spec fn when(condition: bool, value: Seq<char>) -> Option<Seq<char>> {
    if condition {
        Some(value)
    } else {
        None
    }
}

/// A literal secret as an option value: `[REDACTED]` in a preview.
pub open spec fn literal_secret(value: Option<Seq<char>>, env: Option<Seq<char>>, redact: bool) -> Option<
    Seq<char>,
> {
    if env is Some {
        None
    } else {
        match value {
            Some(v) => Some(if redact { "[REDACTED]"@ } else { v }),
            None => None,
        }
    }
}

/// The JSON text of a string map, as `serde_json::to_string` prints it.
pub open spec fn string_map_json(m: Seq<(Seq<char>, Seq<char>)>) -> Seq<char> {
    json_text(
        JsonV::Object(m.map_values(|p: (Seq<char>, Seq<char>)| (p.0, JsonV::Str(p.1)))),
    )
}

pub open spec fn shown_headers(m: Seq<(Seq<char>, Seq<char>)>, redact: bool) -> Seq<
    (Seq<char>, Seq<char>),
> {
    if redact {
        crate::control::model::redact_values(m)
    } else {
        m
    }
}

pub open spec fn non_blank(v: Option<Seq<char>>) -> Option<Seq<char>> {
    match v {
        Some(x) => if trim(x).len() > 0 {
            Some(x)
        } else {
            None
        },
        None => None,
    }
}

/// The options of the foreign server, in ascending name order (the order of
/// the `BTreeMap` they are collected in).
pub open spec fn server_options(s: SourceV, redact: bool) -> Seq<(Seq<char>, Seq<char>)> {
    let (api_key, api_key_env, location, key_name, prefix) = match s.auth {
        AuthV::ApiKey { secret, name, location, prefix } => (
            literal_secret(secret.value, secret.env, redact),
            secret.env,
            Some(
                match location {
                    ApiKeyLocation::Header => "header"@,
                    ApiKeyLocation::Query => "query"@,
                },
            ),
            Some(name),
            match non_blank(prefix) {
                Some(p) => Some(trim(p)),
                None => None,
            },
        ),
        _ => (None, None, None, None, None),
    };
    let (bearer, bearer_env) = match s.auth {
        AuthV::Bearer { secret } => (literal_secret(secret.value, secret.env, redact), secret.env),
        _ => (None, None),
    };
    let spec_json = match s.spec_json {
        Some(j) => Some(
            if redact {
                "[inline OpenAPI document: "@ + decimal(byte_len(j) as nat) + " bytes]"@
            } else {
                j
            },
        ),
        None => None,
    };
    entry("allow_http"@, when(s.settings.allow_http, "true"@))
        + entry("api_key"@, api_key)
        + entry("api_key_env"@, api_key_env)
        + entry("api_key_location"@, location)
        + entry("api_key_name"@, key_name)
        + entry("api_key_prefix"@, prefix)
        + entry("base_url"@, s.base_url)
        + entry("bearer_token"@, bearer)
        + entry("bearer_token_env"@, bearer_env)
        + entry("connect_timeout_ms"@, Some(decimal(s.settings.connect_timeout_ms as nat)))
        + entry("headers"@, when(s.headers.len() > 0, string_map_json(shown_headers(s.headers, redact))))
        + entry("headers_env"@, when(s.headers_env.len() > 0, string_map_json(s.headers_env)))
        + entry("max_pages"@, Some(decimal(s.settings.max_pages as nat)))
        + entry("max_response_bytes"@, Some(decimal(s.settings.max_response_bytes as nat)))
        + entry("max_retries"@, Some(decimal(s.settings.max_retries as nat)))
        + entry("request_timeout_ms"@, Some(decimal(s.settings.request_timeout_ms as nat)))
        + entry("spec_json"@, spec_json)
        + entry("spec_url"@, s.spec_url)
        + entry("spec_with_auth"@, when(s.settings.spec_with_auth, "true"@))
        + entry("user_agent"@, non_blank(s.settings.user_agent))
}

/// Each option as `    name E'value'`, or the first value that cannot be
/// quoted.
pub open spec fn rendered_options(options: Seq<(Seq<char>, Seq<char>)>) -> Result<
    Seq<Seq<char>>,
    Seq<char>,
>
    decreases options.len(),
{
    if options.len() == 0 {
        Ok(Seq::empty())
    } else {
        match quote_literal_spec(options[0].1) {
            Err(e) => Err(e),
            Ok(q) => match rendered_options(options.drop_first()) {
                Err(e) => Err(e),
                Ok(rest) => Ok(seq!["    "@ + options[0].0 + " "@ + q] + rest),
            },
        }
    }
}

pub open spec fn create_server_sql_spec(s: SourceV, server_name: Seq<char>, redact: bool) -> Result<
    Seq<char>,
    Seq<char>,
> {
    match rendered_options(server_options(s, redact)) {
        Err(e) => Err(e),
        Ok(lines) => Ok(
            "CREATE SERVER "@ + quote_identifier_spec(server_name)
                + "\n  FOREIGN DATA WRAPPER openapi_fdw\n  OPTIONS (\n"@ + join(lines, ",\n"@)
                + "\n  )"@,
        ),
    }
}

pub open spec fn entries_view(v: Seq<(Vec<char>, Vec<char>)>) -> Seq<(Seq<char>, Seq<char>)> {
    v.map_values(|p: (Vec<char>, Vec<char>)| (p.0@, p.1@))
}

fn push_entry(out: &mut Vec<(Vec<char>, Vec<char>)>, name: &str, value: Option<Vec<char>>)
    ensures
        entries_view(final(out)@) == entries_view(old(out)@) + entry(
            name@,
            match value {
                Some(v) => Some(v@),
                None => None,
            },
        ),
{
    match value {
        Some(v) => {
            let ghost before = out@;
            out.push((chars_of(name), v));
            assert(entries_view(out@) =~= entries_view(before) + entry(name@, Some(out@.last().1@)));
        },
        None => {
            assert(entries_view(out@) =~= entries_view(out@) + Seq::<(Seq<char>, Seq<char>)>::empty());
        },
    }
}

fn opt_chars(o: &Option<String>) -> (r: Option<Vec<char>>)
    ensures
        match r {
            Some(v) => o is Some && v@ == o->0@,
            None => o is None,
        },
{
    match o {
        Some(s) => Some(chars_of(s.as_str())),
        None => None,
    }
}

fn string_map_text(m: &OptionMap, redact: bool) -> (r: Vec<char>)
    ensures
        r@ == string_map_json(shown_headers(m.pairs(), redact)),
{
    let ghost shown = shown_headers(m.pairs(), redact);
    let mut members: Vec<(String, Json)> = Vec::new();
    let mut i: usize = 0;
    while i < m.entries.len()
        invariant
            i <= m.entries.len(),
            shown == shown_headers(m.pairs(), redact),
            shown.len() == m.entries.len(),
            crate::json::members_view(members@) == shown.take(i as int).map_values(
                |p: (Seq<char>, Seq<char>)| (p.0, JsonV::Str(p.1)),
            ),
        decreases m.entries.len() - i,
    {
        let value = if redact {
            crate::text::str_to_string("[REDACTED]")
        } else {
            m.entries[i].1.clone()
        };
        let member = (m.entries[i].0.clone(), Json::Str(value));
        let ghost before = members@;
        members.push(member);
        proof {
            crate::json::lemma_members_view_push(before, member);
            assert(shown.take(i + 1) =~= shown.take(i as int).push(shown[i as int]));
            assert(shown.take(i + 1).map_values(|p: (Seq<char>, Seq<char>)| (p.0, JsonV::Str(p.1)))
                =~= shown.take(i as int).map_values(
                |p: (Seq<char>, Seq<char>)| (p.0, JsonV::Str(p.1)),
            ).push((shown[i as int].0, JsonV::Str(shown[i as int].1))));
        }
        i = i + 1;
    }
    assert(shown.take(m.entries.len() as int) =~= shown);
    let text = to_json_text(&Json::Object(members));
    chars_of(text.as_str())
}

fn decimal_chars(n: u64) -> (r: Option<Vec<char>>)
    ensures
        r matches Some(v) && v@ == decimal(n as nat),
{
    Some(decimal_of(n))
}

#[verifier::spinoff_prover]
#[verifier::rlimit(60)]
fn server_options_exec(source: &SourceDefinition, redact: bool) -> (r: Vec<(Vec<char>, Vec<char>)>)
    ensures
        entries_view(r@) == server_options(source@, redact),
{
    let ghost s = source@;
    let mut out: Vec<(Vec<char>, Vec<char>)> = Vec::new();
    assert(entries_view(out@) =~= Seq::<(Seq<char>, Seq<char>)>::empty());
    push_entry(&mut out, "allow_http", if source.settings.allow_http { Some(chars_of("true")) } else { None });
    let (api_key, api_key_env, location, key_name, prefix) = match &source.auth {
        AuthDefinition::ApiKey { secret, name, location, prefix } => {
            let literal = match &secret.env {
                Some(_) => None,
                None => match &secret.value {
                    Some(v) => Some(if redact { chars_of("[REDACTED]") } else { chars_of(v.as_str()) }),
                    None => None,
                },
            };
            let place = match location {
                ApiKeyLocation::Header => chars_of("header"),
                ApiKeyLocation::Query => chars_of("query"),
            };
            let trimmed = match prefix {
                Some(p) => {
                    let pc = chars_of(p.as_str());
                    let t = crate::text::trim_exec(&pc);
                    if t.len() > 0 { Some(t) } else { None }
                },
                None => None,
            };
            (literal, opt_chars(&secret.env), Some(place), Some(chars_of(name.as_str())), trimmed)
        },
        _ => (None, None, None, None, None),
    };
    push_entry(&mut out, "api_key", api_key);
    push_entry(&mut out, "api_key_env", api_key_env);
    push_entry(&mut out, "api_key_location", location);
    push_entry(&mut out, "api_key_name", key_name);
    push_entry(&mut out, "api_key_prefix", prefix);
    push_entry(&mut out, "base_url", opt_chars(&source.base_url));
    let (bearer, bearer_env) = match &source.auth {
        AuthDefinition::Bearer { secret } => {
            let literal = match &secret.env {
                Some(_) => None,
                None => match &secret.value {
                    Some(v) => Some(if redact { chars_of("[REDACTED]") } else { chars_of(v.as_str()) }),
                    None => None,
                },
            };
            (literal, opt_chars(&secret.env))
        },
        _ => (None, None),
    };
    push_entry(&mut out, "bearer_token", bearer);
    push_entry(&mut out, "bearer_token_env", bearer_env);
    push_entry(&mut out, "connect_timeout_ms", decimal_chars(source.settings.connect_timeout_ms));
    let headers = if source.headers.entries.len() > 0 {
        Some(string_map_text(&source.headers, redact))
    } else {
        None
    };
    push_entry(&mut out, "headers", headers);
    let headers_env = if source.headers_env.entries.len() > 0 {
        Some(string_map_text(&source.headers_env, false))
    } else {
        None
    };
    push_entry(&mut out, "headers_env", headers_env);
    push_entry(&mut out, "max_pages", decimal_chars(source.settings.max_pages));
    push_entry(&mut out, "max_response_bytes", decimal_chars(source.settings.max_response_bytes));
    push_entry(&mut out, "max_retries", decimal_chars(source.settings.max_retries));
    push_entry(&mut out, "request_timeout_ms", decimal_chars(source.settings.request_timeout_ms));
    let spec_json = match &source.spec_json {
        Some(j) => if redact {
            let mut t = chars_of("[inline OpenAPI document: ");
            let n = decimal_of(j.as_str().len() as u64);
            append(&mut t, &n);
            append_str(&mut t, " bytes]");
            Some(t)
        } else {
            Some(chars_of(j.as_str()))
        },
        None => None,
    };
    push_entry(&mut out, "spec_json", spec_json);
    push_entry(&mut out, "spec_url", opt_chars(&source.spec_url));
    push_entry(&mut out, "spec_with_auth", if source.settings.spec_with_auth { Some(chars_of("true")) } else { None });
    let agent = match &source.settings.user_agent {
        Some(a) => if crate::text::is_blank(a.as_str()) { None } else { Some(chars_of(a.as_str())) },
        None => None,
    };
    push_entry(&mut out, "user_agent", agent);
    out
}

fn render_options(options: &Vec<(Vec<char>, Vec<char>)>) -> (r: Result<Vec<Vec<char>>, String>)
    ensures
        match r {
            Ok(lines) => rendered_options(entries_view(options@)) == Ok::<
                Seq<Seq<char>>,
                Seq<char>,
            >(lines@.map_values(|v: Vec<char>| v@)),
            Err(e) => rendered_options(entries_view(options@)) == Err::<Seq<Seq<char>>, Seq<char>>(
                e@,
            ),
        },
{
    let ghost all = entries_view(options@);
    let mut lines: Vec<Vec<char>> = Vec::new();
    let mut i: usize = 0;
    assert(all.skip(0) =~= all);
    assert(lines@.map_values(|v: Vec<char>| v@) =~= Seq::<Seq<char>>::empty());
    while i < options.len()
        invariant
            i <= options.len(),
            all == entries_view(options@),
            all.len() == options.len(),
            lines@.len() == i,
            rendered_options(all) == match rendered_options(all.skip(i as int)) {
                Ok(rest) => Ok(lines@.map_values(|v: Vec<char>| v@) + rest),
                Err(e) => Err::<Seq<Seq<char>>, Seq<char>>(e),
            },
        decreases options.len() - i,
    {
        assert(all.skip(i as int).drop_first() =~= all.skip(i + 1));
        assert(all.skip(i as int)[0] == (options@[i as int].0@, options@[i as int].1@));
        let q = match quote_literal_chars(&options[i].1) {
            Ok(q) => q,
            Err(e) => return Err(e),
        };
        let mut line = chars_of("    ");
        append(&mut line, &options[i].0);
        append_str(&mut line, " ");
        append(&mut line, &q);
        let ghost before = lines@.map_values(|v: Vec<char>| v@);
        lines.push(line);
        proof {
            assert(lines@.map_values(|v: Vec<char>| v@) =~= before.push(line@));
            match rendered_options(all.skip(i + 1)) {
                Ok(rest) => {
                    assert(before + (seq![line@] + rest) =~= before.push(line@) + rest);
                },
                Err(_) => {},
            }
        }
        i = i + 1;
    }
    assert(all.skip(i as int) =~= Seq::<(Seq<char>, Seq<char>)>::empty());
    assert(lines@.map_values(|v: Vec<char>| v@) + Seq::<Seq<char>>::empty() =~= lines@.map_values(
        |v: Vec<char>| v@,
    ));
    Ok(lines)
}

/// `CREATE SERVER` for a source, its options in ascending name order. With
/// `redact`, literal secrets and header values read `[REDACTED]` and an inline
/// document is described by its size.
pub fn create_server_sql(source: &SourceDefinition, server_name: &str, redact: bool) -> (r: Result<
    String,
    String,
>)
    ensures
        match r {
            Ok(q) => create_server_sql_spec(source@, server_name@, redact) == Ok::<
                Seq<char>,
                Seq<char>,
            >(q@),
            Err(e) => create_server_sql_spec(source@, server_name@, redact) == Err::<
                Seq<char>,
                Seq<char>,
            >(e@),
        },
{
    let options = server_options_exec(source, redact);
    let lines = match render_options(&options) {
        Ok(l) => l,
        Err(e) => return Err(e),
    };
    let mut out = chars_of("CREATE SERVER ");
    let name = chars_of(server_name);
    let q = quote_identifier_chars(&name);
    append(&mut out, &q);
    append_str(&mut out, "\n  FOREIGN DATA WRAPPER openapi_fdw\n  OPTIONS (\n");
    let body = join_exec(&lines, ",\n");
    append(&mut out, &body);
    append_str(&mut out, "\n  )");
    Ok(string_of(&out))
}

// ---------------------------------------------------------------------------
// The schema import
// ---------------------------------------------------------------------------

pub open spec fn normalized_methods_spec(s: SourceV) -> Seq<char> {
    join(s.methods.map_values(|m: Seq<char>| method_key(m)), ","@)
}

pub open spec fn import_sql_spec(s: SourceV, server_name: Seq<char>, schema_name: Seq<char>) -> Seq<char> {
    let selection = if s.tables.len() == 0 {
        Seq::empty()
    } else {
        "\n  LIMIT TO ("@ + join(s.tables.map_values(|t: Seq<char>| quote_identifier_spec(t)), ", "@)
            + ")"@
    };
    "IMPORT FOREIGN SCHEMA "@ + quote_identifier_spec(s.remote_schema) + selection
        + "\n  FROM SERVER "@ + quote_identifier_spec(server_name) + "\n  INTO "@
        + quote_identifier_spec(schema_name) + "\n  OPTIONS (methods "@
        + quote_literal_spec(normalized_methods_spec(s))->Ok_0 + ", include_attrs "@
        + quote_literal_spec(if s.include_attrs { "true"@ } else { "false"@ })->Ok_0 + (if s.writable {
        ", writable E'true'"@
    } else {
        Seq::empty()
    }) + ")"@
}

proof fn lemma_replace_absent(s: Seq<char>, from: Seq<char>, to: Seq<char>)
    requires
        from.len() > 0,
        !s.contains(from[0]),
    ensures
        replace(s, from, to) == s,
    decreases s.len(),
{
    if s.len() > 0 {
        if from.len() <= s.len() {
            assert(s.subrange(0, from.len() as int)[0] == s[0]);
        }
        assert(!crate::text::occurs_at(s, from, 0));
        assert(!s.drop_first().contains(from[0])) by {
            if s.drop_first().contains(from[0]) {
                let j = choose|j: int| 0 <= j < s.drop_first().len() && s.drop_first()[j] == from[0];
                assert(s[j + 1] == from[0]);
            }
        }
        lemma_replace_absent(s.drop_first(), from, to);
        assert(seq![s[0]] + s.drop_first() =~= s);
    }
}

proof fn lemma_quote_flag(flag: Seq<char>)
    requires
        flag == "true"@ || flag == "false"@,
    ensures
        quote_literal_spec(flag) == Ok::<Seq<char>, Seq<char>>("E'"@ + flag + "'"@),
{
    reveal_strlit("true");
    reveal_strlit("false");
    reveal_strlit("\\");
    reveal_strlit("\\\\");
    reveal_strlit("'");
    reveal_strlit("''");
    reveal_strlit("E'");
    assert(!flag.contains('\0'));
    assert(!flag.contains("\\"@[0]));
    lemma_replace_absent(flag, "\\"@, "\\\\"@);
    assert(!flag.contains("'"@[0]));
    lemma_replace_absent(flag, "'"@, "''"@);
}

/// The generated `IMPORT FOREIGN SCHEMA` ends with the source's
/// `include_attrs` flag as a literal, `E'true'` or `E'false'`, followed by
/// `writable E'true'` exactly when the source is writable.
pub proof fn law_import_flags(s: SourceV, server_name: Seq<char>, schema_name: Seq<char>)
    ensures
        !s.include_attrs && !s.writable ==> crate::text::ends_with(
            import_sql_spec(s, server_name, schema_name),
            ", include_attrs E'false')"@,
        ),
        s.include_attrs && !s.writable ==> crate::text::ends_with(
            import_sql_spec(s, server_name, schema_name),
            ", include_attrs E'true')"@,
        ),
        !s.include_attrs && s.writable ==> crate::text::ends_with(
            import_sql_spec(s, server_name, schema_name),
            ", include_attrs E'false', writable E'true')"@,
        ),
        s.include_attrs && s.writable ==> crate::text::ends_with(
            import_sql_spec(s, server_name, schema_name),
            ", include_attrs E'true', writable E'true')"@,
        ),
{
    let flag = if s.include_attrs {
        "true"@
    } else {
        "false"@
    };
    lemma_quote_flag(flag);
    let w = if s.writable {
        ", writable E'true'"@
    } else {
        Seq::empty()
    };
    let selection = if s.tables.len() == 0 {
        Seq::empty()
    } else {
        "\n  LIMIT TO ("@ + join(s.tables.map_values(|t: Seq<char>| quote_identifier_spec(t)), ", "@)
            + ")"@
    };
    let head = "IMPORT FOREIGN SCHEMA "@ + quote_identifier_spec(s.remote_schema) + selection
        + "\n  FROM SERVER "@ + quote_identifier_spec(server_name) + "\n  INTO "@
        + quote_identifier_spec(schema_name) + "\n  OPTIONS (methods "@
        + quote_literal_spec(normalized_methods_spec(s))->Ok_0;
    let tail = ", include_attrs "@ + ("E'"@ + flag + "'"@) + w + ")"@;
    let x = import_sql_spec(s, server_name, schema_name);
    assert(x =~= head + tail);
    assert(x.subrange(x.len() - tail.len(), x.len() as int) =~= tail);
    reveal_strlit(", include_attrs ");
    reveal_strlit("E'");
    reveal_strlit("'");
    reveal_strlit(")");
    reveal_strlit("true");
    reveal_strlit("false");
    reveal_strlit(", writable E'true'");
    reveal_strlit(", include_attrs E'false')");
    reveal_strlit(", include_attrs E'true')");
    reveal_strlit(", include_attrs E'false', writable E'true')");
    reveal_strlit(", include_attrs E'true', writable E'true')");
    if !s.include_attrs && !s.writable {
        assert(tail =~= ", include_attrs E'false')"@);
    }
    if s.include_attrs && !s.writable {
        assert(tail =~= ", include_attrs E'true')"@);
    }
    if !s.include_attrs && s.writable {
        assert(tail =~= ", include_attrs E'false', writable E'true')"@);
    }
    if s.include_attrs && s.writable {
        assert(tail =~= ", include_attrs E'true', writable E'true')"@);
    }
}

/// `IMPORT FOREIGN SCHEMA` for a source. The methods option is a quoted
/// literal, so no method may hold NUL.
pub fn import_sql(source: &SourceDefinition, server_name: &str, schema_name: &str) -> (r: String)
    requires
        !normalized_methods_spec(source@).contains('\0'),
    ensures
        r@ == import_sql_spec(source@, server_name@, schema_name@),
{
    let mut selection: Vec<char> = Vec::new();
    if source.tables.len() > 0 {
        let ghost ts = source@.tables;
        let mut quoted: Vec<Vec<char>> = Vec::new();
        let mut i: usize = 0;
        while i < source.tables.len()
            invariant
                i <= source.tables.len(),
                ts == crate::sorting::views(source.tables@),
                ts.len() == source.tables.len(),
                quoted@.len() == i,
                quoted@.map_values(|v: Vec<char>| v@) == ts.map_values(
                    |t: Seq<char>| quote_identifier_spec(t),
                ).take(i as int),
            decreases source.tables.len() - i,
        {
            let t = chars_of(source.tables[i].as_str());
            let q = quote_identifier_chars(&t);
            let ghost before = quoted@;
            quoted.push(q);
            proof {
                let a = quoted@.map_values(|v: Vec<char>| v@);
                let b = ts.map_values(|t: Seq<char>| quote_identifier_spec(t)).take(i + 1);
                assert forall|j: int| 0 <= j < a.len() implies a[j] == b[j] by {
                    if j < i {
                        assert(quoted@[j] == before[j]);
                        assert(before.map_values(|v: Vec<char>| v@)[j] == ts.map_values(
                            |t: Seq<char>| quote_identifier_spec(t),
                        ).take(i as int)[j]);
                    } else {
                        assert(ts[j] == source.tables@[j]@);
                    }
                }
                assert(a =~= b);
            }
            i = i + 1;
        }
        assert(ts.map_values(|t: Seq<char>| quote_identifier_spec(t)).take(
            source.tables.len() as int,
        ) =~= ts.map_values(|t: Seq<char>| quote_identifier_spec(t)));
        append_str(&mut selection, "\n  LIMIT TO (");
        let body = join_exec(&quoted, ", ");
        append(&mut selection, &body);
        append_str(&mut selection, ")");
    }
    let mut out = chars_of("IMPORT FOREIGN SCHEMA ");
    let remote = chars_of(source.remote_schema.as_str());
    let q = quote_identifier_chars(&remote);
    append(&mut out, &q);
    append(&mut out, &selection);
    append_str(&mut out, "\n  FROM SERVER ");
    let server = chars_of(server_name);
    let qs = quote_identifier_chars(&server);
    append(&mut out, &qs);
    append_str(&mut out, "\n  INTO ");
    let schema = chars_of(schema_name);
    let qsc = quote_identifier_chars(&schema);
    append(&mut out, &qsc);
    append_str(&mut out, "\n  OPTIONS (methods ");
    let methods = source.normalized_methods();
    let mc = chars_of(methods.as_str());
    let qm = match quote_literal_chars(&mc) {
        Ok(v) => v,
        Err(_) => {
            assert(false);
            Vec::new()
        },
    };
    append(&mut out, &qm);
    append_str(&mut out, ", include_attrs ");
    let flag = if source.include_attrs { chars_of("true") } else { chars_of("false") };
    proof {
        reveal_strlit("true");
        reveal_strlit("false");
    }
    let qf = match quote_literal_chars(&flag) {
        Ok(v) => v,
        Err(_) => {
            assert(false);
            Vec::new()
        },
    };
    append(&mut out, &qf);
    if source.writable {
        append_str(&mut out, ", writable E'true'");
    }
    append_str(&mut out, ")");
    string_of(&out)
}

// ---------------------------------------------------------------------------
// Plans
// ---------------------------------------------------------------------------

/// The statements that apply a source, in order.
pub struct SqlPlan {
    pub create_extension: String,
    pub drop_existing: Option<String>,
    pub create_server: String,
    pub create_schema: String,
    pub import_schema: String,
}

pub open spec fn plan_statements(p: SqlPlan) -> Seq<Seq<char>> {
    seq![p.create_extension@] + match p.drop_existing {
        Some(d) => seq![d@],
        None => Seq::empty(),
    } + seq![p.create_server@, p.create_schema@, p.import_schema@]
}

/// A statement as displayed: its trailing semicolons replaced by one.
pub open spec fn terminated(statement: Seq<char>) -> Seq<char> {
    trim_char_end(statement, ';') + ";"@
}

pub open spec fn plan_display(p: SqlPlan) -> Seq<char> {
    join(plan_statements(p).map_values(|s: Seq<char>| terminated(s)), "\n\n"@)
}

impl SqlPlan {
    pub fn statements(&self) -> (r: Vec<String>)
        ensures
            crate::sorting::views(r@) == plan_statements(*self),
    {
        let mut out: Vec<String> = Vec::new();
        out.push(self.create_extension.clone());
        match &self.drop_existing {
            Some(d) => out.push(d.clone()),
            None => {},
        }
        out.push(self.create_server.clone());
        out.push(self.create_schema.clone());
        out.push(self.import_schema.clone());
        assert(crate::sorting::views(out@) =~= plan_statements(*self));
        out
    }

    /// The plan as one script: each statement ends in one semicolon, with a
    /// blank line between statements.
    pub fn display(&self) -> (r: String)
        ensures
            r@ == plan_display(*self),
    {
        let statements = self.statements();
        let ghost st = crate::sorting::views(statements@);
        let mut parts: Vec<Vec<char>> = Vec::new();
        let mut i: usize = 0;
        while i < statements.len()
            invariant
                i <= statements.len(),
                st == crate::sorting::views(statements@),
                st.len() == statements.len(),
                parts@.len() == i,
                parts@.map_values(|v: Vec<char>| v@) == st.map_values(
                    |s: Seq<char>| terminated(s),
                ).take(i as int),
            decreases statements.len() - i,
        {
            let c = chars_of(statements[i].as_str());
            let mut t = trim_char_end_exec(&c, ';');
            append_str(&mut t, ";");
            let ghost before = parts@;
            parts.push(t);
            proof {
                let a = parts@.map_values(|v: Vec<char>| v@);
                let b = st.map_values(|s: Seq<char>| terminated(s)).take(i + 1);
                assert forall|j: int| 0 <= j < a.len() implies a[j] == b[j] by {
                    if j < i {
                        assert(parts@[j] == before[j]);
                        assert(before.map_values(|v: Vec<char>| v@)[j] == st.map_values(
                            |s: Seq<char>| terminated(s),
                        ).take(i as int)[j]);
                    } else {
                        assert(st[j] == statements@[j]@);
                    }
                }
                assert(a =~= b);
            }
            i = i + 1;
        }
        assert(st.map_values(|s: Seq<char>| terminated(s)).take(statements.len() as int)
            =~= st.map_values(|s: Seq<char>| terminated(s)));
        let joined = join_exec(&parts, "\n\n");
        string_of(&joined)
    }
}

pub open spec fn source_plan_spec(
    s: SourceV,
    server_name: Seq<char>,
    schema_name: Seq<char>,
    replace: bool,
    redact: bool,
) -> Result<(Seq<char>, Option<Seq<char>>, Seq<char>, Seq<char>, Seq<char>), Seq<char>> {
    match create_server_sql_spec(s, server_name, redact) {
        Err(e) => Err(e),
        Ok(create_server) => Ok(
            (
                "CREATE EXTENSION IF NOT EXISTS openapi_fdw"@,
                if replace {
                    Some("DROP SERVER IF EXISTS "@ + quote_identifier_spec(server_name) + " CASCADE"@)
                } else {
                    None
                },
                create_server,
                "CREATE SCHEMA IF NOT EXISTS "@ + quote_identifier_spec(schema_name),
                import_sql_spec(s, server_name, schema_name),
            ),
        ),
    }
}

pub open spec fn plan_parts(p: SqlPlan) -> (Seq<char>, Option<Seq<char>>, Seq<char>, Seq<char>, Seq<char>) {
    (
        p.create_extension@,
        crate::options::opt_str(p.drop_existing),
        p.create_server@,
        p.create_schema@,
        p.import_schema@,
    )
}

/// The plan that applies a source: the extension, optionally dropping the
/// server first, the server, the target schema and the import.
pub fn source_plan(
    source: &SourceDefinition,
    server_name: &str,
    schema_name: &str,
    replace: bool,
    redact: bool,
) -> (r: Result<SqlPlan, String>)
    requires
        !normalized_methods_spec(source@).contains('\0'),
    ensures
        match r {
            Ok(p) => source_plan_spec(source@, server_name@, schema_name@, replace, redact) == Ok::<
                (Seq<char>, Option<Seq<char>>, Seq<char>, Seq<char>, Seq<char>),
                Seq<char>,
            >(plan_parts(p)),
            Err(e) => source_plan_spec(source@, server_name@, schema_name@, replace, redact)
                == Err::<(Seq<char>, Option<Seq<char>>, Seq<char>, Seq<char>, Seq<char>), Seq<char>>(
                e@,
            ),
        },
{
    let create_server = match create_server_sql(source, server_name, redact) {
        Ok(s) => s,
        Err(e) => return Err(e),
    };
    let server = chars_of(server_name);
    let drop_existing = if replace {
        let mut d = chars_of("DROP SERVER IF EXISTS ");
        let q = quote_identifier_chars(&server);
        append(&mut d, &q);
        append_str(&mut d, " CASCADE");
        Some(string_of(&d))
    } else {
        None
    };
    let mut schema = chars_of("CREATE SCHEMA IF NOT EXISTS ");
    let sc = chars_of(schema_name);
    let qs = quote_identifier_chars(&sc);
    append(&mut schema, &qs);
    Ok(
        SqlPlan {
            create_extension: crate::text::str_to_string("CREATE EXTENSION IF NOT EXISTS openapi_fdw"),
            drop_existing,
            create_server,
            create_schema: string_of(&schema),
            import_schema: import_sql(source, server_name, schema_name),
        },
    )
}

// ---------------------------------------------------------------------------
// Previews
// ---------------------------------------------------------------------------

pub open spec fn replace_secret(s: crate::control::model::SecretV, v: Seq<char>) -> crate::control::model::SecretV {
    crate::control::model::SecretV {
        value: match s.value {
            Some(_) => Some(v),
            None => None,
        },
        env: s.env,
        configured: s.configured,
    }
}

/// The same definition with every literal secret and every literal header
/// value replaced by `v`.
pub open spec fn with_literals(s: SourceV, v: Seq<char>) -> SourceV {
    SourceV {
        auth: match s.auth {
            AuthV::Anonymous => AuthV::Anonymous,
            AuthV::Bearer { secret } => AuthV::Bearer { secret: replace_secret(secret, v) },
            AuthV::ApiKey { secret, name, location, prefix } => AuthV::ApiKey {
                secret: replace_secret(secret, v),
                name,
                location,
                prefix,
            },
        },
        headers: s.headers.map_values(|p: (Seq<char>, Seq<char>)| (p.0, v)),
        ..s
    }
}

/// A redacted plan does not depend on the literal secrets: whatever the
/// literal values are, the preview is the same.
#[verifier::spinoff_prover]
#[verifier::rlimit(60)]
pub proof fn lemma_preview_hides_literals(
    s: SourceV,
    v: Seq<char>,
    server_name: Seq<char>,
    schema_name: Seq<char>,
    replace: bool,
)
    ensures
        source_plan_spec(s, server_name, schema_name, replace, true) == source_plan_spec(
            with_literals(s, v),
            server_name,
            schema_name,
            replace,
            true,
        ),
{
    let t = with_literals(s, v);
    assert(crate::control::model::redact_values(s.headers) =~= crate::control::model::redact_values(
        t.headers,
    ));
    assert(server_options(s, true) =~= server_options(t, true));
}

} // verus!
