//! Foreign-table configuration: which endpoint a scan reads, how rows are
//! found in responses, how pages follow, and which mutations are allowed.
use vstd::prelude::*;

use crate::error::{config_error, configuration, msg3, msg3_exec, ErrV, OpenApiFdwError};
use crate::json::{Json, JsonV, members_view};
use crate::option_map::{map_lookup, OptionMap};
use crate::options::{
    same,
    config_err, non_empty_option, non_empty_option_spec, opt_str, parse_json, parse_json_object,
    parse_json_object_spec, parse_json_spec, parse_optional_bounded,
    parse_optional_bounded_spec, parse_pointer, parse_pointer_spec, parse_string_map,
    parse_string_map_spec, parse_string_set, parse_string_set_spec,
};
use crate::sorting::{strictly_sorted, views, views_contains};
use crate::text::{
    append, append_str, chars_of, contains_char, first_index, first_index_of, lemma_first_index,
    starts_with, starts_with_str, str_eq, str_to_string, string_of, subrange, trim, upper,
    upper_string,
};

verus! {

#[derive(Clone, Copy, Debug, PartialEq, Eq, Structural)]
pub enum PaginationMode {
    Auto,
    Off,
}

#[derive(Clone, Copy, Debug, PartialEq, Eq, Structural)]
pub enum TypeErrorMode {
    Error,
    Null,
}

#[derive(Clone, Copy, Debug, PartialEq, Eq, Structural)]
pub enum WriteMode {
    Columns,
    Attrs,
    Merge,
}

#[derive(Debug)]
pub struct MutationOperation {
    pub endpoint: String,
    pub method: String,
}

pub struct MutationV {
    pub endpoint: Seq<char>,
    pub method: Seq<char>,
}

pub open spec fn mutation_view(o: Option<MutationOperation>) -> Option<MutationV> {
    match o {
        Some(m) => Some(MutationV { endpoint: m.endpoint@, method: m.method@ }),
        None => None,
    }
}

#[derive(Debug)]
pub struct TableConfig {
    pub endpoint: String,
    pub method: String,
    pub response_path: Option<String>,
    pub object_path: Option<String>,
    pub query_params: Vec<(String, Json)>,
    pub request_body: Option<Json>,
    pub column_map: OptionMap,
    pub query_param_map: OptionMap,
    pub attrs_column: String,
    pub limit_param: Option<String>,
    pub page_size: Option<u64>,
    pub page_size_param: Option<String>,
    pub cursor_path: Option<String>,
    pub cursor_param: Option<String>,
    pub pagination: PaginationMode,
    pub max_pages: Option<u64>,
    pub type_error: TypeErrorMode,
    pub rowid_column: Option<String>,
    pub rowid_parameter: Option<String>,
    pub insert: Option<MutationOperation>,
    pub update: Option<MutationOperation>,
    pub delete: Option<MutationOperation>,
    pub write_mode: WriteMode,
    pub write_columns: Option<Vec<String>>,
}

// ---------------------------------------------------------------------------
// Path placeholders
// ---------------------------------------------------------------------------

pub open spec fn placeholders_rec(rem: Seq<char>, name: Seq<char>) -> Result<
    (Seq<Seq<char>>, Seq<char>),
    ErrV,
>
    decreases rem.len(),
{
    let s = first_index(rem, '{');
    if s >= rem.len() {
        Ok((Seq::empty(), rem))
    } else {
        let after = rem.skip(s + 1);
        let e = first_index(after, '}');
        if e >= after.len() {
            Err(config_err(msg3("`"@, name, "` has an unmatched `{`"@)))
        } else {
            let p = after.take(e);
            if p.len() == 0 || p.contains('{') {
                Err(config_err(msg3("`"@, name, "` has an invalid path parameter"@)))
            } else {
                proof {
                    lemma_first_index(rem, '{');
                    lemma_first_index(after, '}');
                }
                match placeholders_rec(after.skip(e + 1), name) {
                    Ok((ps, last)) => Ok((seq![p] + ps, last)),
                    Err(err) => Err(err),
                }
            }
        }
    }
}

/// The `{name}` placeholders of an endpoint template, in order.
pub open spec fn path_placeholders_spec(endpoint: Seq<char>, name: Seq<char>) -> Result<
    Seq<Seq<char>>,
    ErrV,
> {
    match placeholders_rec(endpoint, name) {
        Err(e) => Err(e),
        Ok((ps, last)) => if last.contains('}') || endpoint.take(first_index(endpoint, '{')).contains(
            '}',
        ) {
            Err(config_err(msg3("`"@, name, "` has an unmatched `}`"@)))
        } else {
            Ok(ps)
        },
    }
}

/// One step of the placeholder scan from `pos`: the next placeholder and the
/// position after it, or `None` when no `{` is left.
fn placeholder_at(text: &Vec<char>, pos: usize, name: &str) -> (r: Result<
    Option<(Vec<char>, usize)>,
    OpenApiFdwError,
>)
    requires
        pos <= text.len(),
    ensures
        match r {
            Ok(None) => placeholders_rec(text@.skip(pos as int), name@) == Ok::<
                (Seq<Seq<char>>, Seq<char>),
                ErrV,
            >((Seq::empty(), text@.skip(pos as int))),
            Ok(Some((p, next))) => pos < next <= text.len() && placeholders_rec(
                text@.skip(pos as int),
                name@,
            ) == match placeholders_rec(text@.skip(next as int), name@) {
                Ok((ps, last)) => Ok((seq![p@] + ps, last)),
                Err(err) => Err::<(Seq<Seq<char>>, Seq<char>), ErrV>(err),
            },
            Err(e) => placeholders_rec(text@.skip(pos as int), name@) == Err::<
                (Seq<Seq<char>>, Seq<char>),
                ErrV,
            >(e@),
        },
{
    let ghost rem = text@.skip(pos as int);
    proof {
        lemma_first_index(rem, '{');
    }
    let start = first_index_of(text, pos, '{');
    if start >= text.len() {
        return Ok(None);
    }
    let ghost after = rem.skip(start - pos + 1);
    assert(after =~= text@.skip(start + 1));
    proof {
        lemma_first_index(after, '}');
    }
    let end = first_index_of(text, start + 1, '}');
    if end >= text.len() {
        return Err(configuration(msg3_exec("`", name, "` has an unmatched `{`")));
    }
    let parameter = subrange(text, start + 1, end);
    assert(parameter@ =~= after.take(end - start - 1));
    if parameter.len() == 0 || contains_char(&parameter, '{') {
        return Err(configuration(msg3_exec("`", name, "` has an invalid path parameter")));
    }
    assert(after.skip(end - start) =~= text@.skip(end + 1));
    Ok(Some((parameter, end + 1)))
}

pub fn path_placeholders(endpoint: &str, name: &str) -> (r: Result<Vec<String>, OpenApiFdwError>)
    ensures
        match r {
            Ok(v) => path_placeholders_spec(endpoint@, name@) == Ok::<Seq<Seq<char>>, ErrV>(
                views(v@),
            ),
            Err(e) => path_placeholders_spec(endpoint@, name@) == Err::<Seq<Seq<char>>, ErrV>(e@),
        },
{
    let text = chars_of(endpoint);
    let mut placeholders: Vec<String> = Vec::new();
    let mut pos: usize = 0;
    assert(text@.skip(0) == text@);
    assert(views(placeholders@) =~= Seq::<Seq<char>>::empty());
    loop
        invariant
            pos <= text.len(),
            text@ == endpoint@,
            placeholders_rec(endpoint@, name@) == match placeholders_rec(
                text@.skip(pos as int),
                name@,
            ) {
                Ok((ps, last)) => Ok((views(placeholders@) + ps, last)),
                Err(err) => Err::<(Seq<Seq<char>>, Seq<char>), ErrV>(err),
            },
        ensures
            pos <= text.len(),
            text@ == endpoint@,
            placeholders_rec(endpoint@, name@) == Ok::<(Seq<Seq<char>>, Seq<char>), ErrV>(
                (views(placeholders@), text@.skip(pos as int)),
            ),
        decreases text.len() - pos,
    {
        match placeholder_at(&text, pos, name) {
            Err(e) => {
                assert(placeholders_rec(endpoint@, name@) == Err::<(Seq<Seq<char>>, Seq<char>), ErrV>(e@));
                assert(path_placeholders_spec(endpoint@, name@) == Err::<Seq<Seq<char>>, ErrV>(e@));
                return Err(e);
            },
            Ok(None) => {
                assert(views(placeholders@) + Seq::<Seq<char>>::empty() =~= views(placeholders@));
                break;
            },
            Ok(Some((parameter, next))) => {
                let ghost before = placeholders@;
                let p = string_of(&parameter);
                placeholders.push(p);
                proof {
                    crate::sorting::lemma_views_push(before, p);
                    match placeholders_rec(text@.skip(next as int), name@) {
                        Ok((ps, last)) => {
                            assert(views(before) + (seq![parameter@] + ps) =~= views(placeholders@)
                                + ps);
                        },
                        Err(_) => {},
                    }
                }
                pos = next;
            },
        }
    }
    proof {
        assert(views(placeholders@) + Seq::<Seq<char>>::empty() =~= views(placeholders@));
        lemma_first_index(text@, '{');
    }
    let last = subrange(&text, pos, text.len());
    assert(last@ =~= text@.skip(pos as int));
    let first_open = first_index_of(&text, 0, '{');
    let head = subrange(&text, 0, first_open);
    assert(head@ =~= text@.take(first_index(text@, '{')));
    assert(placeholders_rec(endpoint@, name@) == Ok::<(Seq<Seq<char>>, Seq<char>), ErrV>((views(placeholders@), last@)));
    if contains_char(&last, '}') || contains_char(&head, '}') {
        return Err(configuration(msg3_exec("`", name, "` has an unmatched `}`")));
    }
    Ok(placeholders)
}

// ---------------------------------------------------------------------------
// Mutation endpoints
// ---------------------------------------------------------------------------

pub open spec fn absolute_endpoint(e: Seq<char>) -> bool {
    starts_with(e, "http://"@) || starts_with(e, "https://"@)
}

pub open spec fn join_or(items: Seq<Seq<char>>) -> Seq<char>
    decreases items.len(),
{
    if items.len() == 0 {
        Seq::empty()
    } else if items.len() == 1 {
        items[0]
    } else {
        join_or(items.drop_last()) + " or "@ + items.last()
    }
}

pub open spec fn braced(p: Seq<char>) -> Seq<char> {
    "`{"@ + p + "}`"@
}

pub open spec fn parse_mutation_spec(
    opts: Seq<(Seq<char>, Seq<char>)>,
    endpoint_name: Seq<char>,
    method_name: Seq<char>,
    default_method: Seq<char>,
    allowed: Seq<Seq<char>>,
    rowid_parameter: Option<Seq<char>>,
    requires_rowid: bool,
) -> Result<Option<MutationV>, ErrV> {
    let endpoint = non_empty_option_spec(opts, endpoint_name, None);
    if endpoint is None && map_lookup(opts, method_name) is Some {
        Err(config_err("option `"@ + method_name + "` requires `"@ + endpoint_name + "`"@))
    } else if endpoint is None {
        Ok(None)
    } else {
        let endpoint = endpoint->0;
        let method = match map_lookup(opts, method_name) {
            Some(m) => upper(m),
            None => default_method,
        };
        if absolute_endpoint(endpoint) {
            Err(config_err(msg3("`"@, endpoint_name, "` must be relative to the server `base_url`"@)))
        } else if !allowed.contains(method) {
            Err(
                config_err(
                    "unsupported "@ + method_name + " `"@ + method + "`; use "@ + join_or(allowed),
                ),
            )
        } else {
            match path_placeholders_spec(endpoint, endpoint_name) {
                Err(e) => Err(e),
                Ok(ps) => if ps.len() > 0 && rowid_parameter is None {
                    Err(
                        config_err(
                            msg3(
                                "`"@,
                                endpoint_name,
                                "` has a path parameter but `rowid_column` is not configured"@,
                            ),
                        ),
                    )
                } else if ps.len() > 0 && !all_equal(ps, rowid_parameter->0) {
                    Err(
                        config_err(
                            "`"@ + endpoint_name
                                + "` may contain only the row identity placeholder "@ + braced(
                                rowid_parameter->0,
                            ),
                        ),
                    )
                } else if requires_rowid && rowid_parameter is None {
                    Err(config_err(msg3("`"@, endpoint_name, "` requires `rowid_column`"@)))
                } else if requires_rowid && !ps.contains(rowid_parameter->0) {
                    Err(
                        config_err(
                            "`"@ + endpoint_name + "` must contain row identity placeholder "@
                                + braced(rowid_parameter->0),
                        ),
                    )
                } else {
                    Ok(Some(MutationV { endpoint, method }))
                },
            }
        }
    }
}

fn braced_exec(out: &mut Vec<char>, p: &str)
    ensures
        final(out)@ == old(out)@ + braced(p@),
{
    let ghost o = out@;
    append_str(out, "`{");
    append_str(out, p);
    append_str(out, "}`");
    assert(out@ =~= o + braced(p@));
}

pub open spec fn all_equal(ps: Seq<Seq<char>>, p: Seq<char>) -> bool {
    forall|i: int| 0 <= i < ps.len() ==> #[trigger] ps[i] == p
}

fn views_all_equal(v: &Vec<String>, x: &str) -> (r: bool)
    ensures
        r == all_equal(views(v@), x@),
{
    let mut i: usize = 0;
    while i < v.len()
        invariant
            i <= v.len(),
            forall|j: int| 0 <= j < i ==> views(v@)[j] == x@,
        decreases v.len() - i,
    {
        if !str_eq(v[i].as_str(), x) {
            assert(views(v@)[i as int] != x@);
            return false;
        }
        i = i + 1;
    }
    true
}

fn is_absolute_endpoint(e: &str) -> (r: bool)
    ensures
        r == absolute_endpoint(e@),
{
    let v = chars_of(e);
    starts_with_str(&v, "http://") || starts_with_str(&v, "https://")
}

fn method_allowed(allowed_methods: &Vec<&str>, method: &str) -> (r: bool)
    ensures
        r == allowed_methods@.map_values(|m: &str| m@).contains(method@),
{
    let ghost allowed = allowed_methods@.map_values(|m: &str| m@);
    let mut k: usize = 0;
    while k < allowed_methods.len()
        invariant
            k <= allowed_methods.len(),
            allowed == allowed_methods@.map_values(|m: &str| m@),
            forall|j: int| 0 <= j < k ==> allowed[j] != method@,
        decreases allowed_methods.len() - k,
    {
        assert(allowed[k as int] == allowed_methods@[k as int]@);
        if str_eq(allowed_methods[k], method) {
            return true;
        }
        k = k + 1;
    }
    false
}

fn join_or_exec(allowed_methods: &Vec<&str>) -> (r: Vec<char>)
    ensures
        r@ == join_or(allowed_methods@.map_values(|m: &str| m@)),
{
    let ghost allowed = allowed_methods@.map_values(|m: &str| m@);
    let mut joined: Vec<char> = Vec::new();
    let mut j: usize = 0;
    while j < allowed_methods.len()
        invariant
            j <= allowed_methods.len(),
            allowed == allowed_methods@.map_values(|m: &str| m@),
            joined@ == join_or(allowed.take(j as int)),
        decreases allowed_methods.len() - j,
    {
        assert(allowed.take(j + 1).drop_last() =~= allowed.take(j as int));
        assert(allowed[j as int] == allowed_methods@[j as int]@);
        if j > 0 {
            append_str(&mut joined, " or ");
        }
        append_str(&mut joined, allowed_methods[j]);
        j = j + 1;
    }
    assert(allowed.take(allowed_methods.len() as int) =~= allowed);
    joined
}

pub fn parse_mutation_operation(
    options: &OptionMap,
    endpoint_name: &str,
    method_name: &str,
    default_method: &str,
    allowed_methods: &Vec<&str>,
    rowid_parameter: Option<&str>,
    requires_rowid: bool,
) -> (r: Result<Option<MutationOperation>, OpenApiFdwError>)
    requires
        allowed_methods.len() > 0,
    ensures
        ({
            let allowed = allowed_methods@.map_values(|m: &str| m@);
            let rp = match rowid_parameter {
                Some(p) => Some(p@),
                None => None,
            };
            let spec = parse_mutation_spec(
                options.pairs(),
                endpoint_name@,
                method_name@,
                default_method@,
                allowed,
                rp,
                requires_rowid,
            );
            match r {
                Ok(m) => spec == Ok::<Option<MutationV>, ErrV>(mutation_view(m)),
                Err(e) => spec == Err::<Option<MutationV>, ErrV>(e@),
            }
        }),
{
    let ghost allowed = allowed_methods@.map_values(|m: &str| m@);
    let endpoint = non_empty_option(options, endpoint_name, None);
    if endpoint.is_none() && options.contains(method_name) {
        let mut m = msg3_exec("option `", method_name, "` requires `");
        append_str(&mut m, endpoint_name);
        append_str(&mut m, "`");
        return Err(configuration(m));
    }
    let endpoint = match endpoint {
        Some(e) => e,
        None => return Ok(None),
    };
    if is_absolute_endpoint(endpoint.as_str()) {
        return Err(
            configuration(
                msg3_exec("`", endpoint_name, "` must be relative to the server `base_url`"),
            ),
        );
    }
    let method = match options.get(method_name) {
        Some(m) => upper_string(m.as_str()),
        None => str_to_string(default_method),
    };
    let found = method_allowed(allowed_methods, method.as_str());
    if !found {
        let mut m = chars_of("unsupported ");
        append_str(&mut m, method_name);
        append_str(&mut m, " `");
        append_str(&mut m, method.as_str());
        append_str(&mut m, "`; use ");
        let joined = join_or_exec(allowed_methods);
        append(&mut m, &joined);
        assert(m@ =~= "unsupported "@ + method_name@ + " `"@ + method@ + "`; use "@ + join_or(allowed));
        return Err(configuration(m));
    }
    let placeholders = match path_placeholders(endpoint.as_str(), endpoint_name) {
        Ok(p) => p,
        Err(e) => return Err(e),
    };
    if placeholders.len() > 0 {
        let expected = match rowid_parameter {
            Some(p) => p,
            None => return Err(
                configuration(
                    msg3_exec(
                        "`",
                        endpoint_name,
                        "` has a path parameter but `rowid_column` is not configured",
                    ),
                ),
            ),
        };
        if !views_all_equal(&placeholders, expected) {
            let mut m = msg3_exec("`", endpoint_name, "` may contain only the row identity placeholder ");
            braced_exec(&mut m, expected);
            assert(m@ =~= "`"@ + endpoint_name@ + "` may contain only the row identity placeholder "@
                + braced(expected@));
            return Err(configuration(m));
        }
    }
    if requires_rowid {
        let expected = match rowid_parameter {
            Some(p) => p,
            None => return Err(
                configuration(msg3_exec("`", endpoint_name, "` requires `rowid_column`")),
            ),
        };
        if !views_contains(&placeholders, expected) {
            let mut m = msg3_exec("`", endpoint_name, "` must contain row identity placeholder ");
            braced_exec(&mut m, expected);
            assert(m@ =~= "`"@ + endpoint_name@ + "` must contain row identity placeholder "@
                + braced(expected@));
            return Err(configuration(m));
        }
    }
    Ok(Some(MutationOperation { endpoint, method }))
}

// ---------------------------------------------------------------------------
// Table options
// ---------------------------------------------------------------------------

/// What a foreign table's options say, over plain values.
pub struct TableV {
    pub endpoint: Seq<char>,
    pub method: Seq<char>,
    pub response_path: Option<Seq<char>>,
    pub object_path: Option<Seq<char>>,
    pub query_params: Seq<(Seq<char>, JsonV)>,
    pub request_body: Option<JsonV>,
    pub column_map: Seq<(Seq<char>, Seq<char>)>,
    pub query_param_map: Seq<(Seq<char>, Seq<char>)>,
    pub attrs_column: Seq<char>,
    pub limit_param: Option<Seq<char>>,
    pub page_size: Option<u64>,
    pub page_size_param: Option<Seq<char>>,
    pub cursor_path: Option<Seq<char>>,
    pub cursor_param: Option<Seq<char>>,
    pub pagination: PaginationMode,
    pub max_pages: Option<u64>,
    pub type_error: TypeErrorMode,
    pub rowid_column: Option<Seq<char>>,
    pub rowid_parameter: Option<Seq<char>>,
    pub insert: Option<MutationV>,
    pub update: Option<MutationV>,
    pub delete: Option<MutationV>,
    pub write_mode: WriteMode,
    pub write_columns: Option<Set<Seq<char>>>,
}

/// The endpoint a scan reads and its method (`GET` unless `method` says `POST`).
pub open spec fn scan_target_spec(opts: Seq<(Seq<char>, Seq<char>)>) -> Result<
    (Seq<char>, Seq<char>),
    ErrV,
> {
    let endpoint = non_empty_option_spec(opts, "endpoint"@, None);
    match endpoint {
        Some(e) => if absolute_endpoint(e) {
            Err(config_err("`endpoint` must be relative to the server `base_url`"@))
        } else {
            let method = match map_lookup(opts, "method"@) {
                Some(m) => upper(m),
                None => "GET"@,
            };
            if method != "GET"@ && method != "POST"@ {
                Err(
                    config_err(
                        "unsupported method `"@ + method + "`; read scans support GET and POST"@,
                    ),
                )
            } else {
                Ok((e, method))
            }
        },
        None => Err(config_err("foreign table option `endpoint` is required"@)),
    }
}

fn scan_target(options: &OptionMap) -> (r: Result<(String, String), OpenApiFdwError>)
    ensures
        match r {
            Ok((e, m)) => scan_target_spec(options.pairs()) == Ok::<(Seq<char>, Seq<char>), ErrV>(
                (e@, m@),
            ),
            Err(err) => scan_target_spec(options.pairs()) == Err::<(Seq<char>, Seq<char>), ErrV>(
                err@,
            ),
        },
{
    let endpoint = match options.get("endpoint") {
        Some(e) => {
            if crate::text::is_blank(e.as_str()) {
                return Err(config_error("foreign table option `endpoint` is required"));
            }
            e.clone()
        },
        None => return Err(config_error("foreign table option `endpoint` is required")),
    };
    if is_absolute_endpoint(endpoint.as_str()) {
        return Err(config_error("`endpoint` must be relative to the server `base_url`"));
    }
    let method = match options.get("method") {
        Some(m) => upper_string(m.as_str()),
        None => str_to_string("GET"),
    };
    if !str_eq(method.as_str(), "GET") && !str_eq(method.as_str(), "POST") {
        let mut m = chars_of("unsupported method `");
        append_str(&mut m, method.as_str());
        append_str(&mut m, "`; read scans support GET and POST");
        return Err(configuration(m));
    }
    Ok((endpoint, method))
}

/// `pagination` (`auto` unless `none`) and `on_type_error` (`error` unless
/// `null`).
pub open spec fn scan_modes_spec(opts: Seq<(Seq<char>, Seq<char>)>) -> Result<
    (PaginationMode, TypeErrorMode),
    ErrV,
> {
    let pagination = match map_lookup(opts, "pagination"@) {
        None => Ok(PaginationMode::Auto),
        Some(v) => if v == "auto"@ {
            Ok(PaginationMode::Auto)
        } else if v == "none"@ {
            Ok(PaginationMode::Off)
        } else {
            Err(config_err("unsupported pagination mode `"@ + v + "`; use `auto` or `none`"@))
        },
    };
    match pagination {
        Err(e) => Err(e),
        Ok(p) => match map_lookup(opts, "on_type_error"@) {
            None => Ok((p, TypeErrorMode::Error)),
            Some(v) => if v == "error"@ {
                Ok((p, TypeErrorMode::Error))
            } else if v == "null"@ {
                Ok((p, TypeErrorMode::Null))
            } else {
                Err(
                    config_err(
                        "unsupported on_type_error value `"@ + v + "`; use `error` or `null`"@,
                    ),
                )
            },
        },
    }
}

fn scan_modes(options: &OptionMap) -> (r: Result<
    (PaginationMode, TypeErrorMode),
    OpenApiFdwError,
>)
    ensures
        crate::options::same(r, scan_modes_spec(options.pairs())),
{
    let pagination = match options.get("pagination") {
        None => PaginationMode::Auto,
        Some(v) => if str_eq(v.as_str(), "auto") {
            PaginationMode::Auto
        } else if str_eq(v.as_str(), "none") {
            PaginationMode::Off
        } else {
            let mut m = chars_of("unsupported pagination mode `");
            append_str(&mut m, v.as_str());
            append_str(&mut m, "`; use `auto` or `none`");
            return Err(configuration(m));
        },
    };
    let type_error = match options.get("on_type_error") {
        None => TypeErrorMode::Error,
        Some(v) => if str_eq(v.as_str(), "error") {
            TypeErrorMode::Error
        } else if str_eq(v.as_str(), "null") {
            TypeErrorMode::Null
        } else {
            let mut m = chars_of("unsupported on_type_error value `");
            append_str(&mut m, v.as_str());
            append_str(&mut m, "`; use `error` or `null`");
            return Err(configuration(m));
        },
    };
    Ok((pagination, type_error))
}

pub open spec fn path_breaking(c: char) -> bool {
    c == '{' || c == '}' || c == '/' || c == '?' || c == '#'
}

pub open spec fn has_breaking(p: Seq<char>) -> bool {
    exists|i: int| 0 <= i < p.len() && path_breaking(p[i])
}

/// `rowid_column`, and `rowid_parameter`, which defaults to it.
pub open spec fn rowid_spec(opts: Seq<(Seq<char>, Seq<char>)>) -> Result<
    (Option<Seq<char>>, Option<Seq<char>>),
    ErrV,
> {
    let column = non_empty_option_spec(opts, "rowid_column"@, None);
    let parameter = match non_empty_option_spec(opts, "rowid_parameter"@, None) {
        Some(p) => Some(p),
        None => column,
    };
    if map_lookup(opts, "rowid_parameter"@) is Some && column is None {
        Err(config_err("option `rowid_parameter` requires `rowid_column`"@))
    } else if parameter is Some && (has_breaking(parameter->0) || trim(parameter->0).len() == 0) {
        Err(config_err("option `rowid_parameter` must be a non-empty path parameter name"@))
    } else {
        Ok((column, parameter))
    }
}

fn has_path_breaking(v: &Vec<char>) -> (r: bool)
    ensures
        r == has_breaking(v@),
{
    let mut i: usize = 0;
    while i < v.len()
        invariant
            i <= v.len(),
            forall|j: int| 0 <= j < i ==> !path_breaking(v@[j]),
        decreases v.len() - i,
    {
        let c = v[i];
        if c == '{' || c == '}' || c == '/' || c == '?' || c == '#' {
            return true;
        }
        i = i + 1;
    }
    false
}

fn rowid_options(options: &OptionMap) -> (r: Result<
    (Option<String>, Option<String>),
    OpenApiFdwError,
>)
    ensures
        match r {
            Ok((c, p)) => rowid_spec(options.pairs()) == Ok::<
                (Option<Seq<char>>, Option<Seq<char>>),
                ErrV,
            >((opt_str(c), opt_str(p))),
            Err(e) => rowid_spec(options.pairs()) == Err::<
                (Option<Seq<char>>, Option<Seq<char>>),
                ErrV,
            >(e@),
        },
{
    let column = non_empty_option(options, "rowid_column", None);
    let parameter = match non_empty_option(options, "rowid_parameter", None) {
        Some(p) => Some(p),
        None => match &column {
            Some(c) => Some(c.clone()),
            None => None,
        },
    };
    if options.contains("rowid_parameter") && column.is_none() {
        return Err(config_error("option `rowid_parameter` requires `rowid_column`"));
    }
    match &parameter {
        Some(p) => {
            let chars = chars_of(p.as_str());
            let bad = has_path_breaking(&chars);
            let blank = crate::text::is_blank(p.as_str());
            if bad || blank {
                return Err(
                    config_error("option `rowid_parameter` must be a non-empty path parameter name"),
                );
            }
        },
        None => {},
    }
    Ok((column, parameter))
}

/// What the mutation options of a table say.
pub struct WritesV {
    pub insert: Option<MutationV>,
    pub update: Option<MutationV>,
    pub delete: Option<MutationV>,
    pub write_mode: WriteMode,
    pub write_columns: Option<Set<Seq<char>>>,
}

pub open spec fn post_put() -> Seq<Seq<char>> {
    seq!["POST"@, "PUT"@]
}

pub open spec fn patch_put() -> Seq<Seq<char>> {
    seq!["PATCH"@, "PUT"@]
}

pub open spec fn delete_only() -> Seq<Seq<char>> {
    seq!["DELETE"@]
}

pub open spec fn mutations_spec(
    opts: Seq<(Seq<char>, Seq<char>)>,
    parameter: Option<Seq<char>>,
) -> Result<(Option<MutationV>, Option<MutationV>, Option<MutationV>), ErrV> {
    match parse_mutation_spec(
        opts,
        "insert_endpoint"@,
        "insert_method"@,
        "POST"@,
        post_put(),
        parameter,
        false,
    ) {
        Err(e) => Err(e),
        Ok(insert) => match parse_mutation_spec(
            opts,
            "update_endpoint"@,
            "update_method"@,
            "PATCH"@,
            patch_put(),
            parameter,
            true,
        ) {
            Err(e) => Err(e),
            Ok(update) => match parse_mutation_spec(
                opts,
                "delete_endpoint"@,
                "delete_method"@,
                "DELETE"@,
                delete_only(),
                parameter,
                true,
            ) {
                Err(e) => Err(e),
                Ok(delete) => Ok((insert, update, delete)),
            },
        },
    }
}

pub open spec fn write_mode_spec(opts: Seq<(Seq<char>, Seq<char>)>) -> Result<WriteMode, ErrV> {
    match map_lookup(opts, "write_mode"@) {
        None => Ok(WriteMode::Columns),
        Some(v) => if v == "columns"@ {
            Ok(WriteMode::Columns)
        } else if v == "attrs"@ {
            Ok(WriteMode::Attrs)
        } else if v == "merge"@ {
            Ok(WriteMode::Merge)
        } else {
            Err(
                config_err(
                    "unsupported write_mode `"@ + v + "`; use `columns`, `attrs`, or `merge`"@,
                ),
            )
        },
    }
}

pub open spec fn attrs_column_spec(opts: Seq<(Seq<char>, Seq<char>)>) -> Seq<char> {
    match map_lookup(opts, "attrs_column"@) {
        Some(a) => a,
        None => "attrs"@,
    }
}

/// The mutation endpoints and the write options, given the row identity.
pub open spec fn writes_spec(
    opts: Seq<(Seq<char>, Seq<char>)>,
    column: Option<Seq<char>>,
    parameter: Option<Seq<char>>,
) -> Result<WritesV, ErrV> {
    match mutations_spec(opts, parameter) {
        Err(e) => Err(e),
        Ok((insert, update, delete)) => {
            let writable = insert is Some || update is Some || delete is Some;
            if writable && column is None {
                Err(config_err("writable foreign tables require option `rowid_column`"@))
            } else {
                match write_mode_spec(opts) {
                    Err(e) => Err(e),
                    Ok(mode) => {
                        let columns = match map_lookup(opts, "write_columns"@) {
                            None => Ok(None),
                            Some(raw) => match parse_string_set_spec(raw, "write_columns"@) {
                                Ok(set) => Ok(Some(set)),
                                Err(e) => Err(e),
                            },
                        };
                        match columns {
                            Err(e) => Err(e),
                            Ok(columns) => if !writable && (map_lookup(opts, "write_mode"@) is Some
                                || columns is Some) {
                                Err(
                                    config_err(
                                        "write options require at least one mutation endpoint"@,
                                    ),
                                )
                            } else if mode == WriteMode::Attrs && columns is Some {
                                Err(
                                    config_err(
                                        "write_columns cannot be used with write_mode `attrs`"@,
                                    ),
                                )
                            } else if columns is Some && column is Some && columns->0.contains(
                                column->0,
                            ) {
                                Err(config_err("write_columns must not contain the rowid_column"@))
                            } else if columns is Some && columns->0.contains(
                                attrs_column_spec(opts),
                            ) {
                                Err(
                                    config_err(
                                        "write_columns must not contain the attrs_column; use write_mode `attrs` or `merge`"@,
                                    ),
                                )
                            } else {
                                Ok(
                                    WritesV {
                                        insert,
                                        update,
                                        delete,
                                        write_mode: mode,
                                        write_columns: columns,
                                    },
                                )
                            },
                        }
                    },
                }
            }
        },
    }
}

fn str_opt(o: &Option<String>) -> (r: Option<&str>)
    ensures
        match r {
            Some(s) => o is Some && s@ == o->0@,
            None => o is None,
        },
{
    match o {
        Some(s) => Some(s.as_str()),
        None => None,
    }
}

fn mutations(options: &OptionMap, parameter: &Option<String>) -> (r: Result<
    (Option<MutationOperation>, Option<MutationOperation>, Option<MutationOperation>),
    OpenApiFdwError,
>)
    ensures
        match r {
            Ok((i, u, d)) => mutations_spec(options.pairs(), opt_str(*parameter)) == Ok::<
                (Option<MutationV>, Option<MutationV>, Option<MutationV>),
                ErrV,
            >((mutation_view(i), mutation_view(u), mutation_view(d))),
            Err(e) => mutations_spec(options.pairs(), opt_str(*parameter)) == Err::<
                (Option<MutationV>, Option<MutationV>, Option<MutationV>),
                ErrV,
            >(e@),
        },
{
    let p = str_opt(parameter);
    let ghost rp = match p {
        Some(x) => Some(x@),
        None => None,
    };
    assert(rp == opt_str(*parameter));
    let mut post_put_methods: Vec<&str> = Vec::new();
    post_put_methods.push("POST");
    post_put_methods.push("PUT");
    assert(post_put_methods@.map_values(|m: &str| m@) =~= post_put());
    let insert = match parse_mutation_operation(
        options,
        "insert_endpoint",
        "insert_method",
        "POST",
        &post_put_methods,
        p,
        false,
    ) {
        Ok(v) => v,
        Err(e) => return Err(e),
    };
    let mut patch_put_methods: Vec<&str> = Vec::new();
    patch_put_methods.push("PATCH");
    patch_put_methods.push("PUT");
    assert(patch_put_methods@.map_values(|m: &str| m@) =~= patch_put());
    let update = match parse_mutation_operation(
        options,
        "update_endpoint",
        "update_method",
        "PATCH",
        &patch_put_methods,
        p,
        true,
    ) {
        Ok(v) => v,
        Err(e) => return Err(e),
    };
    let mut delete_methods: Vec<&str> = Vec::new();
    delete_methods.push("DELETE");
    assert(delete_methods@.map_values(|m: &str| m@) =~= delete_only());
    let delete = match parse_mutation_operation(
        options,
        "delete_endpoint",
        "delete_method",
        "DELETE",
        &delete_methods,
        p,
        true,
    ) {
        Ok(v) => v,
        Err(e) => return Err(e),
    };
    Ok((insert, update, delete))
}

fn write_mode_option(options: &OptionMap) -> (r: Result<WriteMode, OpenApiFdwError>)
    ensures
        same(r, write_mode_spec(options.pairs())),
{
    match options.get("write_mode") {
        None => Ok(WriteMode::Columns),
        Some(v) => if str_eq(v.as_str(), "columns") {
            Ok(WriteMode::Columns)
        } else if str_eq(v.as_str(), "attrs") {
            Ok(WriteMode::Attrs)
        } else if str_eq(v.as_str(), "merge") {
            Ok(WriteMode::Merge)
        } else {
            let mut m = chars_of("unsupported write_mode `");
            append_str(&mut m, v.as_str());
            append_str(&mut m, "`; use `columns`, `attrs`, or `merge`");
            Err(configuration(m))
        },
    }
}

pub open spec fn columns_view(c: Option<Vec<String>>) -> Option<Set<Seq<char>>> {
    match c {
        Some(v) => Some(views(v@).to_set()),
        None => None,
    }
}

/// The write options: `(insert, update, delete, write_mode, write_columns)`.
fn write_options(options: &OptionMap, column: &Option<String>, parameter: &Option<String>) -> (r:
    Result<
        (
            Option<MutationOperation>,
            Option<MutationOperation>,
            Option<MutationOperation>,
            WriteMode,
            Option<Vec<String>>,
        ),
        OpenApiFdwError,
    >)
    ensures
        match r {
            Ok((i, u, d, mode, cols)) => writes_spec(
                options.pairs(),
                opt_str(*column),
                opt_str(*parameter),
            ) == Ok::<WritesV, ErrV>(
                WritesV {
                    insert: mutation_view(i),
                    update: mutation_view(u),
                    delete: mutation_view(d),
                    write_mode: mode,
                    write_columns: columns_view(cols),
                },
            ) && (cols is Some ==> strictly_sorted(false, views(cols->0@))),
            Err(e) => writes_spec(options.pairs(), opt_str(*column), opt_str(*parameter)) == Err::<
                WritesV,
                ErrV,
            >(e@),
        },
{
    let (insert, update, delete) = match mutations(options, parameter) {
        Ok(v) => v,
        Err(e) => return Err(e),
    };
    let writable = insert.is_some() || update.is_some() || delete.is_some();
    if writable && column.is_none() {
        return Err(config_error("writable foreign tables require option `rowid_column`"));
    }
    let mode = match write_mode_option(options) {
        Ok(m) => m,
        Err(e) => return Err(e),
    };
    let columns = match options.get("write_columns") {
        None => None,
        Some(raw) => match parse_string_set(raw.as_str(), "write_columns") {
            Ok(v) => Some(v),
            Err(e) => return Err(e),
        },
    };
    if !writable && (options.contains("write_mode") || columns.is_some()) {
        return Err(config_error("write options require at least one mutation endpoint"));
    }
    if mode == WriteMode::Attrs && columns.is_some() {
        return Err(config_error("write_columns cannot be used with write_mode `attrs`"));
    }
    match &columns {
        Some(cols) => {
            match column {
                Some(c) => {
                    if views_contains(cols, c.as_str()) {
                        return Err(config_error("write_columns must not contain the rowid_column"));
                    }
                },
                None => {},
            }
            let attrs = match options.get("attrs_column") {
                Some(a) => a.as_str(),
                None => "attrs",
            };
            if views_contains(cols, attrs) {
                return Err(
                    config_error(
                        "write_columns must not contain the attrs_column; use write_mode `attrs` or `merge`",
                    ),
                );
            }
        },
        None => {},
    }
    Ok((insert, update, delete, mode, columns))
}

/// The column and parameter maps, page sizes and their parameters.
pub struct TailV {
    pub column_map: Seq<(Seq<char>, Seq<char>)>,
    pub query_param_map: Seq<(Seq<char>, Seq<char>)>,
    pub page_size: Option<u64>,
    pub max_pages: Option<u64>,
}

pub open spec fn string_map_option_spec(opts: Seq<(Seq<char>, Seq<char>)>, name: Seq<char>) -> Result<
    Seq<(Seq<char>, Seq<char>)>,
    ErrV,
> {
    match map_lookup(opts, name) {
        None => Ok(Seq::empty()),
        Some(raw) => parse_string_map_spec(raw, name),
    }
}

pub open spec fn tail_spec(opts: Seq<(Seq<char>, Seq<char>)>) -> Result<TailV, ErrV> {
    match string_map_option_spec(opts, "column_map"@) {
        Err(e) => Err(e),
        Ok(column_map) => match string_map_option_spec(opts, "query_param_map"@) {
            Err(e) => Err(e),
            Ok(query_param_map) => match parse_optional_bounded_spec(
                opts,
                "page_size"@,
                1,
                1_000_000,
            ) {
                Err(e) => Err(e),
                Ok(page_size) => match parse_optional_bounded_spec(opts, "max_pages"@, 1, 10_000) {
                    Err(e) => Err(e),
                    Ok(max_pages) => Ok(TailV { column_map, query_param_map, page_size, max_pages }),
                },
            },
        },
    }
}

fn string_map_option(options: &OptionMap, name: &str) -> (r: Result<OptionMap, OpenApiFdwError>)
    ensures
        match r {
            Ok(m) => string_map_option_spec(options.pairs(), name@) == Ok::<
                Seq<(Seq<char>, Seq<char>)>,
                ErrV,
            >(m.pairs()),
            Err(e) => string_map_option_spec(options.pairs(), name@) == Err::<
                Seq<(Seq<char>, Seq<char>)>,
                ErrV,
            >(e@),
        },
{
    match options.get(name) {
        None => {
            let m = OptionMap::new();
            Ok(m)
        },
        Some(raw) => parse_string_map(raw.as_str(), name),
    }
}

/// The whole table configuration, step by step in the order in which the
/// options are checked.
pub open spec fn table_spec(opts: Seq<(Seq<char>, Seq<char>)>) -> Result<TableV, ErrV> {
    match scan_target_spec(opts) {
        Err(e) => Err(e),
        Ok((endpoint, method)) => match parse_pointer_spec(
            map_lookup(opts, "response_path"@),
            "response_path"@,
        ) {
            Err(e) => Err(e),
            Ok(response_path) => match parse_pointer_spec(
                map_lookup(opts, "object_path"@),
                "object_path"@,
            ) {
                Err(e) => Err(e),
                Ok(object_path) => match parse_pointer_spec(
                    map_lookup(opts, "cursor_path"@),
                    "cursor_path"@,
                ) {
                    Err(e) => Err(e),
                    Ok(cursor_path) => match query_params_spec(opts) {
                        Err(e) => Err(e),
                        Ok(query_params) => match request_body_spec(opts) {
                            Err(e) => Err(e),
                            Ok(request_body) => match scan_modes_spec(opts) {
                                Err(e) => Err(e),
                                Ok((pagination, type_error)) => match rowid_spec(opts) {
                                    Err(e) => Err(e),
                                    Ok((rowid_column, rowid_parameter)) => match writes_spec(
                                        opts,
                                        rowid_column,
                                        rowid_parameter,
                                    ) {
                                        Err(e) => Err(e),
                                        Ok(w) => match tail_spec(opts) {
                                            Err(e) => Err(e),
                                            Ok(t) => Ok(
                                                TableV {
                                                    endpoint,
                                                    method,
                                                    response_path,
                                                    object_path,
                                                    query_params,
                                                    request_body,
                                                    column_map: t.column_map,
                                                    query_param_map: t.query_param_map,
                                                    attrs_column: attrs_column_spec(opts),
                                                    limit_param: non_empty_option_spec(
                                                        opts,
                                                        "limit_param"@,
                                                        Some("limit"@),
                                                    ),
                                                    page_size: t.page_size,
                                                    page_size_param: non_empty_option_spec(
                                                        opts,
                                                        "page_size_param"@,
                                                        None,
                                                    ),
                                                    cursor_path,
                                                    cursor_param: non_empty_option_spec(
                                                        opts,
                                                        "cursor_param"@,
                                                        Some("cursor"@),
                                                    ),
                                                    pagination,
                                                    max_pages: t.max_pages,
                                                    type_error,
                                                    rowid_column,
                                                    rowid_parameter,
                                                    insert: w.insert,
                                                    update: w.update,
                                                    delete: w.delete,
                                                    write_mode: w.write_mode,
                                                    write_columns: w.write_columns,
                                                },
                                            ),
                                        },
                                    },
                                },
                            },
                        },
                    },
                },
            },
        },
    }
}

pub open spec fn query_params_spec(opts: Seq<(Seq<char>, Seq<char>)>) -> Result<
    Seq<(Seq<char>, JsonV)>,
    ErrV,
> {
    match map_lookup(opts, "query_params"@) {
        Some(raw) => parse_json_object_spec(raw, "query_params"@),
        None => Ok(Seq::empty()),
    }
}

pub open spec fn request_body_spec(opts: Seq<(Seq<char>, Seq<char>)>) -> Result<
    Option<JsonV>,
    ErrV,
> {
    match map_lookup(opts, "request_body"@) {
        Some(raw) => match parse_json_spec(raw, "request_body"@) {
            Ok(v) => Ok(Some(v)),
            Err(e) => Err(e),
        },
        None => Ok(None),
    }
}

impl TableConfig {
    pub open spec fn summary(&self) -> TableV {
        TableV {
            endpoint: self.endpoint@,
            method: self.method@,
            response_path: opt_str(self.response_path),
            object_path: opt_str(self.object_path),
            query_params: members_view(self.query_params@),
            request_body: match self.request_body {
                Some(j) => Some(j@),
                None => None,
            },
            column_map: self.column_map.pairs(),
            query_param_map: self.query_param_map.pairs(),
            attrs_column: self.attrs_column@,
            limit_param: opt_str(self.limit_param),
            page_size: self.page_size,
            page_size_param: opt_str(self.page_size_param),
            cursor_path: opt_str(self.cursor_path),
            cursor_param: opt_str(self.cursor_param),
            pagination: self.pagination,
            max_pages: self.max_pages,
            type_error: self.type_error,
            rowid_column: opt_str(self.rowid_column),
            rowid_parameter: opt_str(self.rowid_parameter),
            insert: mutation_view(self.insert),
            update: mutation_view(self.update),
            delete: mutation_view(self.delete),
            write_mode: self.write_mode,
            write_columns: columns_view(self.write_columns),
        }
    }

    /// Reads a foreign table's options.
    pub fn from_options(options: &OptionMap) -> (r: Result<TableConfig, OpenApiFdwError>)
        ensures
            match r {
                Ok(c) => table_spec(options.pairs()) == Ok::<TableV, ErrV>(c.summary()) && (
                c.write_columns is Some ==> strictly_sorted(false, views(c.write_columns->0@))),
                Err(e) => table_spec(options.pairs()) == Err::<TableV, ErrV>(e@),
            },
    {
        let (endpoint, method) = match scan_target(options) {
            Ok(v) => v,
            Err(e) => return Err(e),
        };
        let response_path = match parse_pointer(options.get("response_path"), "response_path") {
            Ok(v) => v,
            Err(e) => return Err(e),
        };
        let object_path = match parse_pointer(options.get("object_path"), "object_path") {
            Ok(v) => v,
            Err(e) => return Err(e),
        };
        let cursor_path = match parse_pointer(options.get("cursor_path"), "cursor_path") {
            Ok(v) => v,
            Err(e) => return Err(e),
        };
        let query_params = match options.get("query_params") {
            Some(raw) => match parse_json_object(raw.as_str(), "query_params") {
                Ok(v) => v,
                Err(e) => return Err(e),
            },
            None => Vec::new(),
        };
        proof {
            crate::json::lemma_members_view(query_params@);
        }
        let request_body = match options.get("request_body") {
            Some(raw) => match parse_json(raw.as_str(), "request_body") {
                Ok(v) => Some(v),
                Err(e) => return Err(e),
            },
            None => None,
        };
        let (pagination, type_error) = match scan_modes(options) {
            Ok(v) => v,
            Err(e) => return Err(e),
        };
        let (rowid_column, rowid_parameter) = match rowid_options(options) {
            Ok(v) => v,
            Err(e) => return Err(e),
        };
        let (insert, update, delete, write_mode, write_columns) = match write_options(
            options,
            &rowid_column,
            &rowid_parameter,
        ) {
            Ok(v) => v,
            Err(e) => return Err(e),
        };
        let column_map = match string_map_option(options, "column_map") {
            Ok(v) => v,
            Err(e) => return Err(e),
        };
        let query_param_map = match string_map_option(options, "query_param_map") {
            Ok(v) => v,
            Err(e) => return Err(e),
        };
        let page_size = match parse_optional_bounded(options, "page_size", 1, 1_000_000) {
            Ok(v) => v,
            Err(e) => return Err(e),
        };
        let max_pages = match parse_optional_bounded(options, "max_pages", 1, 10_000) {
            Ok(v) => v,
            Err(e) => return Err(e),
        };
        let attrs_column = match options.get("attrs_column") {
            Some(a) => a.clone(),
            None => str_to_string("attrs"),
        };
        let limit_param = non_empty_option(options, "limit_param", Some("limit"));
        let page_size_param = non_empty_option(options, "page_size_param", None);
        let cursor_param = non_empty_option(options, "cursor_param", Some("cursor"));
        Ok(
            TableConfig {
                endpoint,
                method,
                response_path,
                object_path,
                query_params,
                request_body,
                column_map,
                query_param_map,
                attrs_column,
                limit_param,
                page_size,
                page_size_param,
                cursor_path,
                cursor_param,
                pagination,
                max_pages,
                type_error,
                rowid_column,
                rowid_parameter,
                insert,
                update,
                delete,
                write_mode,
                write_columns,
            },
        )
    }
}

} // verus!
