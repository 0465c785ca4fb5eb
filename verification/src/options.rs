//! Option parsing shared by servers and tables: booleans, bounded integers,
//! JSON Pointers, JSON documents, string maps and sets, environment secrets
//! and absolute URLs.
use vstd::prelude::*;

use crate::error::{configuration, msg3, msg3_exec, ErrV, OpenApiFdwError};
use crate::json::{json_from_text, parse_json_text, Json, JsonV, ParseOutcome, members_view,
    lemma_members_view};
use crate::option_map::{map_lookup, Environment, EnvLookup, OptionMap, pairs_view};
use crate::sorting::{ordered_set, strictly_sorted, views};
use crate::text::{
    append, append_str, char_is_alnum, char_is_space, chars_of, decimal, decimal_of, is_alpha,
    is_alnum, lower, parse_u64, parse_u64_exec, starts_with, str_eq, string_of, trim, trim_exec,
};
use crate::urls::{parse_url, url_parse, UrlParts, UrlV};

verus! {

pub open spec fn config_err(m: Seq<char>) -> ErrV {
    ErrV::Configuration(m)
}

/// An executable result matches a spec result (plain values).
pub open spec fn same<T>(r: Result<T, OpenApiFdwError>, s: Result<T, ErrV>) -> bool {
    match r {
        Ok(v) => s == Ok::<T, ErrV>(v),
        Err(e) => s == Err::<T, ErrV>(e@),
    }
}

/// An executable result matches a spec result (strings by their view).
pub open spec fn same_str(r: Result<String, OpenApiFdwError>, s: Result<Seq<char>, ErrV>) -> bool {
    match r {
        Ok(v) => s == Ok::<Seq<char>, ErrV>(v@),
        Err(e) => s == Err::<Seq<char>, ErrV>(e@),
    }
}

pub open spec fn opt_str(o: Option<String>) -> Option<Seq<char>> {
    match o {
        Some(s) => Some(s@),
        None => None,
    }
}

pub open spec fn same_opt_str(
    r: Result<Option<String>, OpenApiFdwError>,
    s: Result<Option<Seq<char>>, ErrV>,
) -> bool {
    match r {
        Ok(v) => s == Ok::<Option<Seq<char>>, ErrV>(opt_str(v)),
        Err(e) => s == Err::<Option<Seq<char>>, ErrV>(e@),
    }
}

// ---------------------------------------------------------------------------
// Booleans and bounded integers
// ---------------------------------------------------------------------------

/// The words that PostgreSQL-style boolean options accept.
pub open spec fn bool_word(v: Seq<char>) -> Option<bool> {
    if v == "true"@ || v == "on"@ || v == "yes"@ || v == "1"@ {
        Some(true)
    } else if v == "false"@ || v == "off"@ || v == "no"@ || v == "0"@ {
        Some(false)
    } else {
        None
    }
}

pub fn bool_word_exec(v: &str) -> (r: Option<bool>)
    ensures
        r == bool_word(v@),
{
    if str_eq(v, "true") || str_eq(v, "on") || str_eq(v, "yes") || str_eq(v, "1") {
        Some(true)
    } else if str_eq(v, "false") || str_eq(v, "off") || str_eq(v, "no") || str_eq(v, "0") {
        Some(false)
    } else {
        None
    }
}

pub open spec fn parse_bool_spec(opts: Seq<(Seq<char>, Seq<char>)>, name: Seq<char>, default: bool) -> Result<
    bool,
    ErrV,
> {
    match map_lookup(opts, name) {
        None => Ok(default),
        Some(v) => match bool_word(v) {
            Some(b) => Ok(b),
            None => Err(config_err(msg3("option `"@, name, "` must be a boolean"@))),
        },
    }
}

pub fn parse_bool(options: &OptionMap, name: &str, default: bool) -> (r: Result<
    bool,
    OpenApiFdwError,
>)
    ensures
        same(r, parse_bool_spec(options.pairs(), name@, default)),
{
    match options.get(name) {
        None => Ok(default),
        Some(v) => match bool_word_exec(v.as_str()) {
            Some(b) => Ok(b),
            None => Err(configuration(msg3_exec("option `", name, "` must be a boolean"))),
        },
    }
}

pub open spec fn range_message(name: Seq<char>, minimum: u64, maximum: u64) -> Seq<char> {
    "option `"@ + name + "` must be between "@ + decimal(minimum as nat) + " and "@ + decimal(
        maximum as nat,
    )
}

pub open spec fn parse_optional_bounded_spec(
    opts: Seq<(Seq<char>, Seq<char>)>,
    name: Seq<char>,
    minimum: u64,
    maximum: u64,
) -> Result<Option<u64>, ErrV> {
    match map_lookup(opts, name) {
        None => Ok(None),
        Some(raw) => match parse_u64(raw) {
            Some(v) => if minimum <= v && v <= maximum {
                Ok(Some(v))
            } else {
                Err(config_err(range_message(name, minimum, maximum)))
            },
            None => Err(config_err(range_message(name, minimum, maximum))),
        },
    }
}

pub open spec fn parse_bounded_spec(
    opts: Seq<(Seq<char>, Seq<char>)>,
    name: Seq<char>,
    default: u64,
    minimum: u64,
    maximum: u64,
) -> Result<u64, ErrV> {
    match parse_optional_bounded_spec(opts, name, minimum, maximum) {
        Ok(Some(v)) => Ok(v),
        Ok(None) => Ok(default),
        Err(e) => Err(e),
    }
}

fn range_error(name: &str, minimum: u64, maximum: u64) -> (r: OpenApiFdwError)
    ensures
        r@ == config_err(range_message(name@, minimum, maximum)),
{
    let mut m = chars_of("option `");
    append_str(&mut m, name);
    append_str(&mut m, "` must be between ");
    let a = decimal_of(minimum);
    append(&mut m, &a);
    append_str(&mut m, " and ");
    let b = decimal_of(maximum);
    append(&mut m, &b);
    configuration(m)
}

pub fn parse_optional_bounded(options: &OptionMap, name: &str, minimum: u64, maximum: u64) -> (r:
    Result<Option<u64>, OpenApiFdwError>)
    ensures
        same(r, parse_optional_bounded_spec(options.pairs(), name@, minimum, maximum)),
{
    match options.get(name) {
        None => Ok(None),
        Some(raw) => {
            let v = chars_of(raw.as_str());
            match parse_u64_exec(&v) {
                Some(value) => if minimum <= value && value <= maximum {
                    Ok(Some(value))
                } else {
                    Err(range_error(name, minimum, maximum))
                },
                None => Err(range_error(name, minimum, maximum)),
            }
        },
    }
}

pub fn parse_bounded(options: &OptionMap, name: &str, default: u64, minimum: u64, maximum: u64) -> (r:
    Result<u64, OpenApiFdwError>)
    ensures
        same(r, parse_bounded_spec(options.pairs(), name@, default, minimum, maximum)),
{
    match parse_optional_bounded(options, name, minimum, maximum) {
        Ok(Some(v)) => Ok(v),
        Ok(None) => Ok(default),
        Err(e) => Err(e),
    }
}

// ---------------------------------------------------------------------------
// JSON Pointers and JSON documents
// ---------------------------------------------------------------------------

pub open spec fn parse_pointer_spec(raw: Option<Seq<char>>, name: Seq<char>) -> Result<
    Option<Seq<char>>,
    ErrV,
> {
    match raw {
        Some(v) => if v.len() == 0 {
            Ok(None)
        } else if v[0] == '/' {
            Ok(Some(v))
        } else {
            Err(
                config_err(
                    msg3("option `"@, name, "` must be an RFC 6901 JSON Pointer beginning with `/`"@),
                ),
            )
        },
        None => Ok(None),
    }
}

pub fn parse_pointer(raw: Option<&String>, name: &str) -> (r: Result<
    Option<String>,
    OpenApiFdwError,
>)
    ensures
        same_opt_str(
            r,
            parse_pointer_spec(
                match raw {
                    Some(v) => Some(v@),
                    None => None,
                },
                name@,
            ),
        ),
{
    match raw {
        Some(v) => {
            let c = chars_of(v.as_str());
            if c.len() == 0 {
                Ok(None)
            } else if c[0] == '/' {
                Ok(Some(v.clone()))
            } else {
                Err(
                    configuration(
                        msg3_exec(
                            "option `",
                            name,
                            "` must be an RFC 6901 JSON Pointer beginning with `/`",
                        ),
                    ),
                )
            }
        },
        None => Ok(None),
    }
}

pub open spec fn parse_json_spec(raw: Seq<char>, name: Seq<char>) -> Result<JsonV, ErrV> {
    match json_from_text(raw) {
        ParseOutcome::Parsed(j) => Ok(j),
        ParseOutcome::Failed(e) => Err(config_err("option `"@ + name + "` is invalid JSON: "@ + e)),
    }
}

pub fn parse_json(raw: &str, name: &str) -> (r: Result<Json, OpenApiFdwError>)
    ensures
        match r {
            Ok(j) => parse_json_spec(raw@, name@) == Ok::<JsonV, ErrV>(j@),
            Err(e) => parse_json_spec(raw@, name@) == Err::<JsonV, ErrV>(e@),
        },
{
    match parse_json_text(raw) {
        Ok(j) => Ok(j),
        Err(error) => {
            let mut m = msg3_exec("option `", name, "` is invalid JSON: ");
            append_str(&mut m, error.as_str());
            Err(configuration(m))
        },
    }
}

pub open spec fn parse_json_object_spec(raw: Seq<char>, name: Seq<char>) -> Result<
    Seq<(Seq<char>, JsonV)>,
    ErrV,
> {
    match parse_json_spec(raw, name) {
        Ok(JsonV::Object(ms)) => Ok(ms),
        Ok(_) => Err(config_err(msg3("option `"@, name, "` must be a JSON object"@))),
        Err(e) => Err(e),
    }
}

pub fn parse_json_object(raw: &str, name: &str) -> (r: Result<
    Vec<(String, Json)>,
    OpenApiFdwError,
>)
    ensures
        match r {
            Ok(ms) => parse_json_object_spec(raw@, name@) == Ok::<
                Seq<(Seq<char>, JsonV)>,
                ErrV,
            >(members_view(ms@)),
            Err(e) => parse_json_object_spec(raw@, name@) == Err::<
                Seq<(Seq<char>, JsonV)>,
                ErrV,
            >(e@),
        },
{
    match parse_json(raw, name) {
        Ok(Json::Object(ms)) => Ok(ms),
        Ok(_) => Err(configuration(msg3_exec("option `", name, "` must be a JSON object"))),
        Err(e) => Err(e),
    }
}

/// The string members of an object, or the first member whose value is not a
/// string.
pub open spec fn string_members(ms: Seq<(Seq<char>, JsonV)>) -> Result<
    Seq<(Seq<char>, Seq<char>)>,
    Seq<char>,
>
    decreases ms.len(),
{
    if ms.len() == 0 {
        Ok(Seq::empty())
    } else {
        match ms[0].1 {
            JsonV::Str(v) => match string_members(ms.drop_first()) {
                Ok(rest) => Ok(seq![(ms[0].0, v)] + rest),
                Err(k) => Err(k),
            },
            _ => Err(ms[0].0),
        }
    }
}

pub open spec fn parse_string_map_spec(raw: Seq<char>, name: Seq<char>) -> Result<
    Seq<(Seq<char>, Seq<char>)>,
    ErrV,
> {
    match parse_json_object_spec(raw, name) {
        Ok(ms) => match string_members(ms) {
            Ok(pairs) => Ok(pairs),
            Err(key) => Err(
                config_err(
                    "option `"@ + name + "` value for `"@ + key + "` must be a string"@,
                ),
            ),
        },
        Err(e) => Err(e),
    }
}

/// A JSON object of strings, in the order of its members.
pub fn parse_string_map(raw: &str, name: &str) -> (r: Result<OptionMap, OpenApiFdwError>)
    ensures
        match r {
            Ok(m) => parse_string_map_spec(raw@, name@) == Ok::<
                Seq<(Seq<char>, Seq<char>)>,
                ErrV,
            >(m.pairs()),
            Err(e) => parse_string_map_spec(raw@, name@) == Err::<
                Seq<(Seq<char>, Seq<char>)>,
                ErrV,
            >(e@),
        },
{
    let members = match parse_json_object(raw, name) {
        Ok(ms) => ms,
        Err(e) => return Err(e),
    };
    let ghost mv = members_view(members@);
    proof {
        lemma_members_view(members@);
        assert(mv.skip(0) == mv);
    }
    let mut out: Vec<(String, String)> = Vec::new();
    let mut i: usize = 0;
    while i < members.len()
        invariant
            i <= members.len(),
            mv == members_view(members@),
            parse_json_object_spec(raw@, name@) == Ok::<Seq<(Seq<char>, JsonV)>, ErrV>(mv),
            mv.len() == members@.len(),
            forall|k: int|
                0 <= k < members@.len() ==> #[trigger] mv[k] == (
                    members@[k].0@,
                    members@[k].1@,
                ),
            string_members(mv) == match string_members(mv.skip(i as int)) {
                Ok(rest) => Ok(pairs_view(out@) + rest),
                Err(k) => Err::<Seq<(Seq<char>, Seq<char>)>, Seq<char>>(k),
            },
        decreases members.len() - i,
    {
        let ghost rest = mv.skip(i as int);
        assert(rest[0] == mv[i as int]);
        assert(rest.drop_first() =~= mv.skip(i + 1));
        match &members[i].1 {
            Json::Str(v) => {
                let ghost before = out@;
                out.push((members[i].0.clone(), v.clone()));
                proof {
                    assert(pairs_view(out@) =~= pairs_view(before) + seq![(members@[i as int].0@, v@)]);
                    match string_members(mv.skip(i + 1)) {
                        Ok(r2) => {
                            assert(pairs_view(out@) + r2 =~= pairs_view(before) + (seq![(mv[i as int].0, v@)] + r2));
                        },
                        Err(_) => {},
                    }
                }
            },
            _ => {
                let mut m = msg3_exec("option `", name, "` value for `");
                append_str(&mut m, members[i].0.as_str());
                append_str(&mut m, "` must be a string");
                return Err(configuration(m));
            },
        }
        i = i + 1;
    }
    proof {
        assert(mv.skip(i as int) =~= Seq::<(Seq<char>, JsonV)>::empty());
        assert(pairs_view(out@) + Seq::<(Seq<char>, Seq<char>)>::empty() =~= pairs_view(out@));
    }
    Ok(OptionMap { entries: out })
}

/// The strings of a non-empty JSON array of non-blank strings; `None` when an
/// element is something else.
pub open spec fn string_items(items: Seq<JsonV>) -> Option<Set<Seq<char>>>
    decreases items.len(),
{
    if items.len() == 0 {
        Some(Set::empty())
    } else {
        match items[0] {
            JsonV::Str(s) => if trim(s).len() > 0 {
                match string_items(items.drop_first()) {
                    Some(rest) => Some(rest.insert(s)),
                    None => None,
                }
            } else {
                None
            },
            _ => None,
        }
    }
}

pub open spec fn parse_string_set_spec(raw: Seq<char>, name: Seq<char>) -> Result<
    Set<Seq<char>>,
    ErrV,
> {
    match parse_json_spec(raw, name) {
        Ok(JsonV::Array(items)) => if items.len() == 0 {
            Err(config_err(msg3("option `"@, name, "` must not be empty"@)))
        } else {
            match string_items(items) {
                Some(s) => Ok(s),
                None => Err(config_err(msg3("option `"@, name, "` values must be non-empty strings"@))),
            }
        },
        Ok(_) => Err(config_err(msg3("option `"@, name, "` must be a JSON array"@))),
        Err(e) => Err(e),
    }
}

/// A JSON array of non-blank strings, as a `BTreeSet`: strictly ascending.
pub fn parse_string_set(raw: &str, name: &str) -> (r: Result<Vec<String>, OpenApiFdwError>)
    ensures
        match r {
            Ok(v) => parse_string_set_spec(raw@, name@) == Ok::<Set<Seq<char>>, ErrV>(
                views(v@).to_set(),
            ) && strictly_sorted(false, views(v@)),
            Err(e) => parse_string_set_spec(raw@, name@) == Err::<Set<Seq<char>>, ErrV>(e@),
        },
{
    let value = match parse_json(raw, name) {
        Ok(v) => v,
        Err(e) => return Err(e),
    };
    let items = match value {
        Json::Array(items) => items,
        _ => return Err(configuration(msg3_exec("option `", name, "` must be a JSON array"))),
    };
    if items.len() == 0 {
        assert(crate::json::items_view(items@).len() == 0) by {
            crate::json::lemma_items_view(items@);
        }
        return Err(configuration(msg3_exec("option `", name, "` must not be empty")));
    }
    let ghost iv = crate::json::items_view(items@);
    proof {
        crate::json::lemma_items_view(items@);
        assert(iv.skip(0) == iv);
    }
    let mut strings: Vec<String> = Vec::new();
    let mut i: usize = 0;
    while i < items.len()
        invariant
            i <= items.len(),
            iv == crate::json::items_view(items@),
            parse_json_spec(raw@, name@) == Ok::<JsonV, ErrV>(JsonV::Array(iv)),
            iv.len() > 0,
            iv.len() == items@.len(),
            forall|k: int| 0 <= k < items@.len() ==> #[trigger] iv[k] == items@[k]@,
            string_items(iv) == match string_items(iv.skip(i as int)) {
                Some(rest) => Some(rest.union(views(strings@).to_set())),
                None => None::<Set<Seq<char>>>,
            },
        decreases items.len() - i,
    {
        let ghost rest = iv.skip(i as int);
        assert(rest[0] == iv[i as int]);
        assert(rest.drop_first() =~= iv.skip(i + 1));
        match &items[i] {
            Json::Str(s) => {
                let c = chars_of(s.as_str());
                let t = trim_exec(&c);
                if t.len() == 0 {
                    return Err(
                        configuration(msg3_exec("option `", name, "` values must be non-empty strings")),
                    );
                }
                let ghost before = strings@;
                strings.push(s.clone());
                proof {
                    assert(views(strings@) =~= views(before).push(s@));
                    views(before).lemma_push_to_set_commute(s@);
                    match string_items(iv.skip(i + 1)) {
                        Some(r2) => {
                            assert(r2.insert(s@).union(views(before).to_set()) =~= r2.union(
                                views(strings@).to_set(),
                            ));
                        },
                        None => {},
                    }
                }
            },
            _ => {
                return Err(
                    configuration(msg3_exec("option `", name, "` values must be non-empty strings")),
                );
            },
        }
        i = i + 1;
    }
    proof {
        assert(iv.skip(i as int) =~= Seq::<JsonV>::empty());
        assert(Set::<Seq<char>>::empty().union(views(strings@).to_set()) =~= views(strings@).to_set());
    }
    Ok(ordered_set(false, &strings))
}

// ---------------------------------------------------------------------------
// Environment secrets
// ---------------------------------------------------------------------------

/// A portable environment-variable name: `[A-Za-z_][A-Za-z0-9_]*`, at most
/// 128 characters.
pub open spec fn valid_env_name(name: Seq<char>) -> bool {
    &&& name.len() <= 128
    &&& name.len() > 0
    &&& (name[0] == '_' || is_alpha(name[0]))
    &&& forall|i: int| 0 <= i < name.len() ==> (#[trigger] name[i] == '_' || is_alnum(name[i]))
}

pub fn valid_env_name_exec(name: &Vec<char>) -> (r: bool)
    ensures
        r == valid_env_name(name@),
{
    if name.len() > 128 || name.len() == 0 {
        return false;
    }
    let first = name[0];
    if !(first == '_' || ('A' <= first && first <= 'Z') || ('a' <= first && first <= 'z')) {
        return false;
    }
    let mut i: usize = 0;
    while i < name.len()
        invariant
            i <= name.len(),
            forall|j: int| 0 <= j < i ==> (#[trigger] name@[j] == '_' || is_alnum(name@[j])),
        decreases name.len() - i,
    {
        if !(name[i] == '_' || char_is_alnum(name[i])) {
            return false;
        }
        i = i + 1;
    }
    true
}

pub open spec fn environment_secret_spec(env: Environment, name: Seq<char>, option: Seq<char>) -> Result<
    Seq<char>,
    ErrV,
> {
    if !valid_env_name(name) {
        Err(config_err(msg3("option `"@, option, "` must name an environment variable"@)))
    } else {
        match env.var(name) {
            EnvLookup::Present(v) => if v.len() > 0 {
                Ok(v)
            } else {
                Err(
                    config_err(
                        "environment variable `"@ + name + "` configured by `"@ + option
                            + "` is missing or empty"@,
                    ),
                )
            },
            EnvLookup::NotPresent => Err(
                config_err(
                    "environment variable `"@ + name + "` configured by `"@ + option
                        + "` is missing or empty"@,
                ),
            ),
            EnvLookup::NotUnicode => Err(
                config_err(
                    "environment variable `"@ + name + "` configured by `"@ + option
                        + "` is not UTF-8"@,
                ),
            ),
        }
    }
}

pub fn environment_secret(env: &Environment, name: &str, option: &str) -> (r: Result<
    String,
    OpenApiFdwError,
>)
    ensures
        same_str(r, environment_secret_spec(*env, name@, option@)),
{
    let n = chars_of(name);
    if !valid_env_name_exec(&n) {
        return Err(
            configuration(msg3_exec("option `", option, "` must name an environment variable")),
        );
    }
    match env.vars.get(name) {
        Some(v) => {
            let c = chars_of(v.as_str());
            if c.len() > 0 {
                return Ok(v.clone());
            }
        },
        None => {
            if crate::option_map::contains_string(&env.non_unicode, name) {
                let mut m = msg3_exec("environment variable `", name, "` configured by `");
                append_str(&mut m, option);
                append_str(&mut m, "` is not UTF-8");
                return Err(configuration(m));
            }
        },
    }
    let mut m = msg3_exec("environment variable `", name, "` configured by `");
    append_str(&mut m, option);
    append_str(&mut m, "` is missing or empty");
    Err(configuration(m))
}

pub open spec fn non_empty(v: Option<Seq<char>>) -> Option<Seq<char>> {
    match v {
        Some(s) => if s.len() > 0 {
            Some(s)
        } else {
            None
        },
        None => None,
    }
}

pub open spec fn secret_option_spec(
    opts: Seq<(Seq<char>, Seq<char>)>,
    env: Environment,
    literal_name: Seq<char>,
    environment_option: Seq<char>,
) -> Result<Option<Seq<char>>, ErrV> {
    let literal = non_empty(map_lookup(opts, literal_name));
    let environment_name = non_empty(map_lookup(opts, environment_option));
    if literal is Some && environment_name is Some {
        Err(
            config_err(
                "configure either `"@ + literal_name + "` or `"@ + environment_option
                    + "`, not both"@,
            ),
        )
    } else {
        match environment_name {
            Some(n) => match environment_secret_spec(env, n, environment_option) {
                Ok(v) => Ok(Some(v)),
                Err(e) => Err(e),
            },
            None => Ok(literal),
        }
    }
}

fn non_empty_get<'a>(options: &'a OptionMap, name: &str) -> (r: Option<&'a String>)
    ensures
        opt_str(
            match r {
                Some(v) => Some(*v),
                None => None,
            },
        ) == non_empty(map_lookup(options.pairs(), name@)),
{
    match options.get(name) {
        Some(v) => {
            let c = chars_of(v.as_str());
            if c.len() > 0 {
                Some(v)
            } else {
                None
            }
        },
        None => None,
    }
}

pub fn secret_option(
    options: &OptionMap,
    env: &Environment,
    literal_name: &str,
    environment_option: &str,
) -> (r: Result<Option<String>, OpenApiFdwError>)
    ensures
        same_opt_str(r, secret_option_spec(options.pairs(), *env, literal_name@, environment_option@)),
{
    let literal = non_empty_get(options, literal_name);
    let environment_name = non_empty_get(options, environment_option);
    if literal.is_some() && environment_name.is_some() {
        let mut m = msg3_exec("configure either `", literal_name, "` or `");
        append_str(&mut m, environment_option);
        append_str(&mut m, "`, not both");
        return Err(configuration(m));
    }
    match environment_name {
        Some(n) => match environment_secret(env, n.as_str(), environment_option) {
            Ok(v) => Ok(Some(v)),
            Err(e) => Err(e),
        },
        None => match literal {
            Some(v) => Ok(Some(v.clone())),
            None => Ok(None),
        },
    }
}

/// `non_empty_option`: a blank value counts as absent; an absent option takes
/// the default.
pub open spec fn non_empty_option_spec(
    opts: Seq<(Seq<char>, Seq<char>)>,
    name: Seq<char>,
    default: Option<Seq<char>>,
) -> Option<Seq<char>> {
    match map_lookup(opts, name) {
        Some(v) => if trim(v).len() == 0 {
            None
        } else {
            Some(v)
        },
        None => default,
    }
}

pub fn non_empty_option(options: &OptionMap, name: &str, default: Option<&str>) -> (r: Option<
    String,
>)
    ensures
        opt_str(r) == non_empty_option_spec(
            options.pairs(),
            name@,
            match default {
                Some(d) => Some(d@),
                None => None,
            },
        ),
{
    match options.get(name) {
        Some(v) => {
            if crate::text::is_blank(v.as_str()) {
                None
            } else {
                Some(v.clone())
            }
        },
        None => match default {
            Some(d) => Some(crate::text::str_to_string(d)),
            None => None,
        },
    }
}

// ---------------------------------------------------------------------------
// Absolute URLs
// ---------------------------------------------------------------------------

pub open spec fn validate_url_spec(raw: Seq<char>, label: Seq<char>, allow_http: bool) -> Result<
    UrlV,
    ErrV,
> {
    match url_parse(raw) {
        None => Err(config_err(msg3("`"@, label, "` is not a valid absolute URL"@))),
        Some(url) => if !(url.scheme == "https"@ || (url.scheme == "http"@ && allow_http)) {
            if url.scheme == "http"@ {
                Err(
                    config_err(
                        msg3(
                            "`"@,
                            label,
                            "` uses plain HTTP; set `allow_http` to `true` for trusted local services"@,
                        ),
                    ),
                )
            } else {
                Err(config_err(msg3("`"@, label, "` must use HTTP or HTTPS"@)))
            }
        } else if url.host is None || url.username.len() > 0 || url.password is Some {
            Err(
                config_err(
                    msg3("`"@, label, "` must have a host and must not contain embedded credentials"@),
                ),
            )
        } else if label == "base_url"@ && (url.query is Some || url.fragment is Some) {
            Err(config_err("`base_url` must not contain a query string or fragment"@))
        } else {
            Ok(url)
        },
    }
}

pub fn validate_url(raw: &str, label: &str, allow_http: bool) -> (r: Result<
    UrlParts,
    OpenApiFdwError,
>)
    ensures
        match r {
            Ok(u) => validate_url_spec(raw@, label@, allow_http) == Ok::<UrlV, ErrV>(u@),
            Err(e) => validate_url_spec(raw@, label@, allow_http) == Err::<UrlV, ErrV>(e@),
        },
{
    let url = match parse_url(raw) {
        Some(u) => u,
        None => return Err(configuration(msg3_exec("`", label, "` is not a valid absolute URL"))),
    };
    let https = str_eq(url.scheme.as_str(), "https");
    let http = str_eq(url.scheme.as_str(), "http");
    if !(https || (http && allow_http)) {
        if http {
            return Err(
                configuration(
                    msg3_exec(
                        "`",
                        label,
                        "` uses plain HTTP; set `allow_http` to `true` for trusted local services",
                    ),
                ),
            );
        }
        return Err(configuration(msg3_exec("`", label, "` must use HTTP or HTTPS")));
    }
    let user = chars_of(url.username.as_str());
    if url.host.is_none() || user.len() > 0 || url.password.is_some() {
        return Err(
            configuration(
                msg3_exec("`", label, "` must have a host and must not contain embedded credentials"),
            ),
        );
    }
    if str_eq(label, "base_url") && (url.query.is_some() || url.fragment.is_some()) {
        return Err(crate::error::config_error("`base_url` must not contain a query string or fragment"));
    }
    Ok(url)
}

} // verus!
