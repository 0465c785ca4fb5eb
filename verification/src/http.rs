//! What the HTTP client decides: request URLs, next-page URLs, which
//! responses are JSON, when a request is retried and for how long it waits.
//! The transfers themselves are made by the caller.
use vstd::prelude::*;

use crate::error::{ErrV, OpenApiFdwError};
use crate::json::{json_from_bytes, yaml_from_bytes, BytesOutcome, Json, JsonV, ParseOutcome};
use crate::option_map::pairs_view;
use crate::server::{redact_with, Auth, AuthV, ServerConfig};
use crate::sorting::views;
use crate::text::{
    append, append_str, chars_of, decimal, decimal_of, ends_with, lower, parse_u64, split, starts_with,
    str_eq, str_to_string, string_of, trim, trim_char_end, trim_char_start,
};
use crate::urls::{
    append_query_pairs, join_url, parse_url, same_origin, set_query, url_join, url_parse, url_with_pairs,
    url_with_query, UrlParts, UrlV,
};

verus! {

pub open spec fn response_err(m: Seq<char>) -> ErrV {
    ErrV::Response(m)
}

// ---------------------------------------------------------------------------
// URLs
// ---------------------------------------------------------------------------

/// The base URL and the endpoint joined by exactly one `/`.
pub open spec fn endpoint_text(base: Seq<char>, endpoint: Seq<char>) -> Seq<char> {
    trim_char_end(base, '/') + "/"@ + trim_char_start(endpoint, '/')
}

pub open spec fn endpoint_url_spec(base: UrlV, endpoint: Seq<char>) -> Result<UrlV, ErrV> {
    match url_parse(endpoint_text(base.serialization, endpoint)) {
        Some(u) => Ok(u),
        None => Err(
            ErrV::Configuration(
                "the server base_url and table endpoint do not form a valid URL"@,
            ),
        ),
    }
}

pub fn endpoint_url(base: &UrlParts, endpoint: &str) -> (r: Result<UrlParts, OpenApiFdwError>)
    ensures
        match r {
            Ok(u) => endpoint_url_spec(base@, endpoint@) == Ok::<UrlV, ErrV>(u@),
            Err(e) => endpoint_url_spec(base@, endpoint@) == Err::<UrlV, ErrV>(e@),
        },
{
    let b = chars_of(base.serialization.as_str());
    let mut raw = crate::text::trim_char_end_exec(&b, '/');
    append_str(&mut raw, "/");
    let e = chars_of(endpoint);
    let t = trim_char_start_exec(&e, '/');
    append(&mut raw, &t);
    let text = string_of(&raw);
    match parse_url(text.as_str()) {
        Some(u) => Ok(u),
        None => Err(
            crate::error::config_error(
                "the server base_url and table endpoint do not form a valid URL",
            ),
        ),
    }
}

fn trim_char_start_exec(v: &Vec<char>, c: char) -> (r: Vec<char>)
    ensures
        r@ == trim_char_start(v@, c),
{
    let mut i: usize = 0;
    assert(v@.skip(0) == v@);
    while i < v.len() && v[i] == c
        invariant
            i <= v.len(),
            trim_char_start(v@, c) == trim_char_start(v@.skip(i as int), c),
        decreases v.len() - i,
    {
        assert(v@.skip(i as int).drop_first() == v@.skip(i + 1));
        i = i + 1;
    }
    crate::text::subrange(v, i, v.len())
}

/// Where a next-page token points: an absolute URL, the current URL with
/// another query, a path on the base URL, or a reference relative to the
/// current URL. Only HTTP(S) URLs are followed, and only on the base URL's
/// origin unless cross-origin pagination is allowed.
pub open spec fn resolve_page_url_spec(base: UrlV, current: UrlV, raw: Seq<char>, allow_cross_origin: bool) -> Result<
    UrlV,
    ErrV,
> {
    let next = if starts_with(raw, "http://"@) || starts_with(raw, "https://"@) {
        url_parse(raw)
    } else if raw.len() > 0 && raw[0] == '?' {
        url_with_query(current.serialization, raw.drop_first())
    } else if raw.len() > 0 && raw[0] == '/' {
        url_join(base.serialization, raw)
    } else {
        url_join(current.serialization, raw)
    };
    match next {
        None => Err(response_err("API returned an invalid next-page URL"@)),
        Some(u) => if u.scheme != "http"@ && u.scheme != "https"@ {
            Err(response_err("API returned a next-page URL with an unsupported scheme"@))
        } else if !allow_cross_origin && !same_origin(base, u) {
            Err(
                response_err(
                    "API returned a cross-origin next-page URL for "@
                        + crate::urls::display_origin(u)
                        + "; refusing to forward credentials"@,
                ),
            )
        } else {
            Ok(u)
        },
    }
}

pub fn resolve_page_url(base: &UrlParts, current: &UrlParts, raw: &str, allow_cross_origin: bool) -> (r:
    Result<UrlParts, OpenApiFdwError>)
    ensures
        match r {
            Ok(u) => resolve_page_url_spec(base@, current@, raw@, allow_cross_origin) == Ok::<
                UrlV,
                ErrV,
            >(u@),
            Err(e) => resolve_page_url_spec(base@, current@, raw@, allow_cross_origin) == Err::<
                UrlV,
                ErrV,
            >(e@),
        },
{
    let v = chars_of(raw);
    let next = if crate::text::starts_with_str(&v, "http://") || crate::text::starts_with_str(
        &v,
        "https://",
    ) {
        parse_url(raw)
    } else if v.len() > 0 && v[0] == '?' {
        let q = crate::text::subrange(&v, 1, v.len());
        assert(q@ =~= v@.drop_first());
        let qs = string_of(&q);
        set_query(current, qs.as_str())
    } else if v.len() > 0 && v[0] == '/' {
        join_url(base, raw)
    } else {
        join_url(current, raw)
    };
    let next = match next {
        Some(u) => u,
        None => return Err(crate::error::response_error("API returned an invalid next-page URL")),
    };
    if !crate::text::str_eq(next.scheme.as_str(), "http") && !crate::text::str_eq(
        next.scheme.as_str(),
        "https",
    ) {
        return Err(
            crate::error::response_error("API returned a next-page URL with an unsupported scheme"),
        );
    }
    if !allow_cross_origin && !crate::urls::same_origin_exec(base, &next) {
        let mut m = chars_of("API returned a cross-origin next-page URL for ");
        let origin = crate::urls::display_origin_exec(&next);
        append(&mut m, &origin);
        append_str(&mut m, "; refusing to forward credentials");
        return Err(OpenApiFdwError::Response(string_of(&m)));
    }
    Ok(next)
}

/// A followed next page stays on the base URL's origin unless cross-origin
/// pagination is allowed, and is always an HTTP(S) URL.
pub proof fn lemma_next_page_same_origin(base: UrlV, current: UrlV, raw: Seq<char>, allow_cross_origin: bool)
    ensures
        match resolve_page_url_spec(base, current, raw, allow_cross_origin) {
            Ok(u) => (allow_cross_origin || same_origin(base, u)) && (u.scheme == "http"@
                || u.scheme == "https"@),
            Err(_) => true,
        },
{
}

// ---------------------------------------------------------------------------
// Responses
// ---------------------------------------------------------------------------

/// A JSON media type: `application/json` or any `+json` type, parameters and
/// ASCII case ignored.
pub open spec fn is_json_content_type_spec(raw: Seq<char>) -> bool {
    let media = lower(trim(split(raw, ';')[0]));
    media == "application/json"@ || ends_with(media, "+json"@)
}

pub fn is_json_content_type(raw: &str) -> (r: bool)
    ensures
        r == is_json_content_type_spec(raw@),
{
    let v = chars_of(raw);
    let parts = crate::text::split_exec(&v, ';');
    proof {
        crate::json::lemma_split_nonempty(v@, ';');
    }
    let t = crate::text::trim_exec(&parts[0]);
    let media = crate::text::lower_of(&t);
    crate::text::seq_eq_str(&media, "application/json") || crate::text::ends_with_str(&media, "+json")
}

/// The body of a successful response as JSON: a declared `Content-Type`
/// must be a JSON type, and the bytes must parse.
pub open spec fn decode_json_spec(content_type: Option<Seq<char>>, body: Seq<u8>) -> Result<JsonV, ErrV> {
    if content_type is Some && !is_json_content_type_spec(content_type->0) {
        Err(response_err("response Content-Type `"@ + content_type->0 + "` is not JSON"@))
    } else {
        match json_from_bytes(body) {
            BytesOutcome::Parsed(j) => Ok(j),
            BytesOutcome::Failed(line, column) => Err(
                response_err(
                    "response body is not valid JSON at line "@ + decimal(line as nat)
                        + ", column "@ + decimal(column as nat),
                ),
            ),
        }
    }
}

pub fn decode_json_response(content_type: Option<&str>, body: &[u8]) -> (r: Result<Json, OpenApiFdwError>)
    ensures
        match r {
            Ok(j) => decode_json_spec(
                match content_type {
                    Some(c) => Some(c@),
                    None => None,
                },
                body@,
            ) == Ok::<JsonV, ErrV>(j@),
            Err(e) => decode_json_spec(
                match content_type {
                    Some(c) => Some(c@),
                    None => None,
                },
                body@,
            ) == Err::<JsonV, ErrV>(e@),
        },
{
    match content_type {
        Some(c) => if !is_json_content_type(c) {
            let mut m = chars_of("response Content-Type `");
            append_str(&mut m, c);
            append_str(&mut m, "` is not JSON");
            return Err(OpenApiFdwError::Response(string_of(&m)));
        },
        None => {},
    }
    match crate::json::parse_json_bytes(body) {
        Ok(j) => Ok(j),
        Err((line, column)) => {
            let mut m = chars_of("response body is not valid JSON at line ");
            let l = decimal_of(line as u64);
            append(&mut m, &l);
            append_str(&mut m, ", column ");
            let c = decimal_of(column as u64);
            append(&mut m, &c);
            Err(OpenApiFdwError::Response(string_of(&m)))
        },
    }
}

/// An OpenAPI document as JSON, or else as YAML.
pub open spec fn parse_spec_document_spec(raw: Seq<u8>) -> Result<JsonV, ErrV> {
    match json_from_bytes(raw) {
        BytesOutcome::Parsed(j) => Ok(j),
        BytesOutcome::Failed(_, _) => match yaml_from_bytes(raw) {
            ParseOutcome::Parsed(j) => Ok(j),
            ParseOutcome::Failed(e) => Err(
                ErrV::Spec("document is neither valid JSON nor valid YAML: "@ + e),
            ),
        },
    }
}

pub fn parse_spec_document(raw: &[u8]) -> (r: Result<Json, OpenApiFdwError>)
    ensures
        match r {
            Ok(j) => parse_spec_document_spec(raw@) == Ok::<JsonV, ErrV>(j@),
            Err(e) => parse_spec_document_spec(raw@) == Err::<JsonV, ErrV>(e@),
        },
{
    match crate::json::parse_json_bytes(raw) {
        Ok(j) => Ok(j),
        Err(_) => match crate::json::parse_yaml_bytes(raw) {
            Ok(j) => Ok(j),
            Err(e) => {
                let mut m = chars_of("document is neither valid JSON nor valid YAML: ");
                append_str(&mut m, e.as_str());
                Err(OpenApiFdwError::Spec(string_of(&m)))
            },
        },
    }
}

/// Where the OpenAPI document of a server comes from.
pub enum SpecSource {
    /// The inline `spec_json`, already parsed.
    Inline(Json),
    /// The document at `spec_url`, fetched with the given server settings.
    Remote { url: UrlParts, server: crate::server::ServerConfig },
}

/// `fetch_spec` up to the transfer: an inline document is parsed; otherwise
/// `spec_url` is fetched with the settings for document fetches (without
/// credentials unless `spec_with_auth`).
pub fn spec_source(server: &crate::server::ServerConfig) -> (r: Result<SpecSource, OpenApiFdwError>)
    ensures
        match server.spec_json {
            Some(j) => match r {
                Ok(SpecSource::Inline(doc)) => parse_spec_document_spec(
                    vstd::utf8::encode_utf8(j@),
                ) == Ok::<JsonV, ErrV>(doc@),
                Err(e) => parse_spec_document_spec(vstd::utf8::encode_utf8(j@)) == Err::<
                    JsonV,
                    ErrV,
                >(e@),
                _ => false,
            },
            None => match server.spec_url {
                None => match r {
                    Err(e) => e@ == ErrV::Spec(
                        "schema import requires server option `spec_url` or `spec_json`"@,
                    ),
                    _ => false,
                },
                Some(u) => match r {
                    Ok(SpecSource::Remote { url, server: fetch }) => url@ == u@
                        && server.fetches_spec_with(fetch),
                    _ => false,
                },
            },
        },
{
    match &server.spec_json {
        Some(raw) => {
            return match parse_spec_document(raw.as_str().as_bytes()) {
                Ok(doc) => Ok(SpecSource::Inline(doc)),
                Err(e) => Err(e),
            };
        },
        None => {},
    }
    match &server.spec_url {
        Some(u) => Ok(SpecSource::Remote { url: u.duplicate(), server: server.for_spec_fetch() }),
        None => Err(
            crate::error::spec_error("schema import requires server option `spec_url` or `spec_json`"),
        ),
    }
}

// ---------------------------------------------------------------------------
// Request URL and headers
// ---------------------------------------------------------------------------

/// The query pairs of a request: its own, then the API key where the
/// authentication puts it in the query.
pub open spec fn request_query_pairs(query: Seq<(Seq<char>, Seq<char>)>, auth: AuthV) -> Seq<(Seq<char>, Seq<char>)> {
    match auth {
        AuthV::Query { name, value } => query.push((name, value)),
        _ => query,
    }
}

/// The URL that one attempt of a request is sent to: the request URL with
/// the request's query pairs and a query API key appended.
pub fn request_url(server: &ServerConfig, url: &UrlParts, query: &Vec<(String, String)>) -> (r: Option<UrlParts>)
    ensures
        r is Some == url_with_pairs(url.serialization@, request_query_pairs(pairs_view(query@), server.auth@)) is Some,
        r matches Some(u) ==> url_with_pairs(
            url.serialization@,
            request_query_pairs(pairs_view(query@), server.auth@),
        ) == Some(u@),
{
    let mut pairs = copy_pairs(query);
    match &server.auth {
        Auth::Query { name, value } => {
            let ghost before = pairs@;
            pairs.push((name.clone(), value.clone()));
            assert(pairs_view(pairs@) =~= pairs_view(before).push((name@, value@)));
        },
        _ => {},
    }
    append_query_pairs(url, &pairs)
}

fn copy_pairs(v: &Vec<(String, String)>) -> (r: Vec<(String, String)>)
    ensures
        pairs_view(r@) == pairs_view(v@),
{
    let mut r: Vec<(String, String)> = Vec::new();
    let mut i: usize = 0;
    while i < v.len()
        invariant
            i <= v.len(),
            pairs_view(r@) == pairs_view(v@).take(i as int),
        decreases v.len() - i,
    {
        let ghost before = r@;
        r.push((v[i].0.clone(), v[i].1.clone()));
        assert(pairs_view(r@) =~= pairs_view(before).push((v@[i as int].0@, v@[i as int].1@)));
        assert(pairs_view(v@).take(i + 1) =~= pairs_view(v@).take(i as int).push(pairs_view(v@)[i as int]));
        i = i + 1;
    }
    assert(pairs_view(v@).take(i as int) =~= pairs_view(v@));
    r
}

/// A character that `HeaderName::from_bytes` accepts (RFC 9110 `tchar`).
pub open spec fn is_tchar(c: char) -> bool {
    ||| ('a' <= c && c <= 'z')
    ||| ('A' <= c && c <= 'Z')
    ||| ('0' <= c && c <= '9')
    ||| c == '!' || c == '#' || c == '$' || c == '%' || c == '&' || c == '\'' || c == '*'
    ||| c == '+' || c == '-' || c == '.' || c == '^' || c == '_' || c == '`' || c == '|' || c == '~'
}

/// The header name that `HeaderName::from_bytes` makes of a text: the text
/// in lower case where it is 1 to 65535 token characters long.
pub open spec fn header_name_spec(name: Seq<char>) -> Option<Seq<char>> {
    if 0 < name.len() && name.len() <= 65535 && forall|i: int| 0 <= i < name.len() ==> is_tchar(#[trigger] name[i]) {
        Some(lower(name))
    } else {
        None
    }
}

/// `HeaderName::from_bytes` on the UTF-8 bytes of a name, as its text.
#[verifier::external_body]
fn parse_header_name(name: &str) -> (r: Option<String>)
    ensures
        match r {
            Some(n) => header_name_spec(name@) == Some(n@),
            None => header_name_spec(name@) is None,
        },
{
    match reqwest::header::HeaderName::from_bytes(name.as_bytes()) {
        Ok(n) => Some(n.as_str().to_string()),
        Err(_) => None,
    }
}

/// A character whose UTF-8 bytes `HeaderValue::from_str` accepts: every byte
/// from 32 up except 127, and the tab.
pub open spec fn is_header_value_char(c: char) -> bool {
    (c as u32 >= 32 && c as u32 != 127) || c == '\t'
}

pub open spec fn header_value_spec(value: Seq<char>) -> bool {
    forall|i: int| 0 <= i < value.len() ==> is_header_value_char(#[trigger] value[i])
}

/// Whether `HeaderValue::from_str` accepts a value.
#[verifier::external_body]
fn header_value_ok(value: &str) -> (r: bool)
    ensures
        r == header_value_spec(value@),
{
    reqwest::header::HeaderValue::from_str(value).is_ok()
}

/// `HeaderMap::insert`: the value replaces the one under the same name, or is
/// added at the end.
pub open spec fn header_insert(h: Seq<(Seq<char>, Seq<char>)>, name: Seq<char>, value: Seq<char>) -> Seq<
    (Seq<char>, Seq<char>),
> {
    match map_lookup_index(h, name) {
        Some(i) => h.update(i, (name, value)),
        None => h.push((name, value)),
    }
}

/// The index of the first pair with a given name.
pub open spec fn map_lookup_index(h: Seq<(Seq<char>, Seq<char>)>, name: Seq<char>) -> Option<int>
    decreases h.len(),
{
    if h.len() == 0 {
        None
    } else {
        match map_lookup_index(h.drop_last(), name) {
            Some(i) => Some(i),
            None => if h.last().0 == name {
                Some(h.len() - 1)
            } else {
                None
            },
        }
    }
}

/// The configured headers inserted one by one into a header map.
pub open spec fn custom_headers_spec(pairs: Seq<(Seq<char>, Seq<char>)>) -> Result<
    Seq<(Seq<char>, Seq<char>)>,
    ErrV,
>
    decreases pairs.len(),
{
    if pairs.len() == 0 {
        Ok(Seq::empty())
    } else {
        match custom_headers_spec(pairs.drop_last()) {
            Err(e) => Err(e),
            Ok(h) => {
                let (name, value) = pairs.last();
                match header_name_spec(name) {
                    None => Err(
                        ErrV::Configuration("`"@ + name + "` is not a valid HTTP header name"@),
                    ),
                    Some(n) => if !header_value_spec(value) {
                        Err(
                            ErrV::Configuration(
                                "an HTTP header contains characters that cannot be transmitted"@,
                            ),
                        )
                    } else {
                        Ok(header_insert(h, n, value))
                    },
                }
            },
        }
    }
}

/// The headers of a request: the configured ones, a header API key, and
/// `content-type: application/json` for a request with a body that sets none.
pub open spec fn request_headers_spec(pairs: Seq<(Seq<char>, Seq<char>)>, auth: AuthV, has_body: bool) -> Result<
    Seq<(Seq<char>, Seq<char>)>,
    ErrV,
> {
    match custom_headers_spec(pairs) {
        Err(e) => Err(e),
        Ok(h) => {
            let with_auth = match auth {
                AuthV::Header { name, value } => match header_name_spec(name) {
                    None => Err(ErrV::Configuration("api_key_name is not a valid header name"@)),
                    Some(n) => if !header_value_spec(value) {
                        Err(
                            ErrV::Configuration(
                                "the configured credential cannot be represented as an HTTP header"@,
                            ),
                        )
                    } else {
                        Ok(header_insert(h, n, value))
                    },
                },
                _ => Ok(h),
            };
            match with_auth {
                Err(e) => Err(e),
                Ok(h2) => if has_body && map_lookup_index(h2, "content-type"@) is None {
                    Ok(h2.push(("content-type"@, "application/json"@)))
                } else {
                    Ok(h2)
                },
            }
        },
    }
}

fn lookup_index(h: &Vec<(String, String)>, name: &str) -> (r: Option<usize>)
    ensures
        match r {
            Some(i) => map_lookup_index(pairs_view(h@), name@) == Some(i as int) && i < h.len(),
            None => map_lookup_index(pairs_view(h@), name@) is None,
        },
{
    let ghost hv = pairs_view(h@);
    let mut i: usize = 0;
    while i < h.len()
        invariant
            i <= h.len(),
            hv == pairs_view(h@),
            hv.len() == h.len(),
            map_lookup_index(hv.take(i as int), name@) is None,
        decreases h.len() - i,
    {
        assert(hv.take(i + 1).drop_last() =~= hv.take(i as int));
        if str_eq(h[i].0.as_str(), name) {
            proof {
                assert(hv.take(i + 1).last() == hv[i as int]);
                assert(map_lookup_index(hv.take(i + 1), name@) == Some(i as int));
                lemma_lookup_index_prefix(hv, name@, i + 1);
            }
            return Some(i);
        }
        i = i + 1;
    }
    assert(hv.take(i as int) =~= hv);
    None
}

proof fn lemma_lookup_index_prefix(h: Seq<(Seq<char>, Seq<char>)>, name: Seq<char>, k: int)
    requires
        0 < k <= h.len(),
        map_lookup_index(h.take(k), name) is Some,
    ensures
        map_lookup_index(h, name) == map_lookup_index(h.take(k), name),
    decreases h.len() - k,
{
    if k < h.len() {
        assert(h.take(k + 1).drop_last() =~= h.take(k));
        assert(map_lookup_index(h.take(k + 1), name) == map_lookup_index(h.take(k), name));
        lemma_lookup_index_prefix(h, name, k + 1);
    } else {
        assert(h.take(k) =~= h);
    }
}

fn insert_header(h: &mut Vec<(String, String)>, name: String, value: String)
    ensures
        pairs_view(final(h)@) == header_insert(pairs_view(old(h)@), name@, value@),
{
    match lookup_index(h, name.as_str()) {
        Some(i) => {
            let ghost before = pairs_view(h@);
            h.set(i, (name, value));
            assert(pairs_view(h@) =~= before.update(i as int, (name@, value@)));
        },
        None => {
            let ghost before = pairs_view(h@);
            h.push((name, value));
            assert(pairs_view(h@) =~= before.push((name@, value@)));
        },
    }
}

/// `request_headers`: the header list of a request, names in lower case.
pub fn request_headers(server: &ServerConfig, has_body: bool) -> (r: Result<Vec<(String, String)>, OpenApiFdwError>)
    ensures
        match r {
            Ok(h) => request_headers_spec(server.headers.pairs(), server.auth@, has_body) == Ok::<
                Seq<(Seq<char>, Seq<char>)>,
                ErrV,
            >(pairs_view(h@)),
            Err(e) => request_headers_spec(server.headers.pairs(), server.auth@, has_body) == Err::<
                Seq<(Seq<char>, Seq<char>)>,
                ErrV,
            >(e@),
        },
{
    let ghost m = server.headers.pairs();
    let mut h: Vec<(String, String)> = Vec::new();
    let mut i: usize = 0;
    assert(m.take(0) =~= Seq::<(Seq<char>, Seq<char>)>::empty());
    assert(pairs_view(h@) =~= Seq::<(Seq<char>, Seq<char>)>::empty());
    while i < server.headers.entries.len()
        invariant
            i <= server.headers.entries.len(),
            m == server.headers.pairs(),
            m.len() == server.headers.entries.len(),
            custom_headers_spec(m.take(i as int)) == Ok::<Seq<(Seq<char>, Seq<char>)>, ErrV>(
                pairs_view(h@),
            ),
        decreases server.headers.entries.len() - i,
    {
        assert(m.take(i + 1).drop_last() =~= m.take(i as int));
        let name = &server.headers.entries[i].0;
        let value = &server.headers.entries[i].1;
        assert(m.take(i + 1).last() == (name@, value@));
        let n = match parse_header_name(name.as_str()) {
            Some(n) => n,
            None => {
                proof {
                    lemma_custom_headers_error(m, i + 1);
                }
                let mut msg = chars_of("`");
                append_str(&mut msg, name.as_str());
                append_str(&mut msg, "` is not a valid HTTP header name");
                return Err(OpenApiFdwError::Configuration(string_of(&msg)));
            },
        };
        if !header_value_ok(value.as_str()) {
            proof {
                lemma_custom_headers_error(m, i + 1);
            }
            return Err(
                crate::error::config_error(
                    "an HTTP header contains characters that cannot be transmitted",
                ),
            );
        }
        insert_header(&mut h, n, value.clone());
        i = i + 1;
    }
    assert(m.take(i as int) =~= m);
    match &server.auth {
        Auth::Header { name, value } => {
            let n = match parse_header_name(name.as_str()) {
                Some(n) => n,
                None => return Err(crate::error::config_error("api_key_name is not a valid header name")),
            };
            if !header_value_ok(value.as_str()) {
                return Err(
                    crate::error::config_error(
                        "the configured credential cannot be represented as an HTTP header",
                    ),
                );
            }
            insert_header(&mut h, n, value.clone());
        },
        _ => {},
    }
    if has_body && lookup_index(&h, "content-type").is_none() {
        let ghost before = pairs_view(h@);
        h.push((str_to_string("content-type"), str_to_string("application/json")));
        assert(pairs_view(h@) =~= before.push(("content-type"@, "application/json"@)));
    }
    Ok(h)
}

/// An error in the first `k` configured headers is the error of them all.
proof fn lemma_custom_headers_error(m: Seq<(Seq<char>, Seq<char>)>, k: int)
    requires
        0 < k <= m.len(),
        custom_headers_spec(m.take(k)) is Err,
    ensures
        custom_headers_spec(m) == custom_headers_spec(m.take(k)),
    decreases m.len() - k,
{
    if k < m.len() {
        assert(m.take(k + 1).drop_last() =~= m.take(k));
        lemma_custom_headers_error(m, k + 1);
    } else {
        assert(m.take(k) =~= m);
    }
}

// ---------------------------------------------------------------------------
// Retries
// ---------------------------------------------------------------------------

/// Methods whose HTTP semantics are idempotent; only these are retried
/// automatically, since retrying POST or PATCH after losing the response
/// could apply a mutation twice.
pub open spec fn automatically_retryable_spec(method: Seq<char>) -> bool {
    method == "GET"@ || method == "HEAD"@ || method == "PUT"@ || method == "DELETE"@
        || method == "OPTIONS"@ || method == "TRACE"@
}

pub fn automatically_retryable(method: &str) -> (r: bool)
    ensures
        r == automatically_retryable_spec(method@),
{
    str_eq(method, "GET") || str_eq(method, "HEAD") || str_eq(method, "PUT") || str_eq(method, "DELETE")
        || str_eq(method, "OPTIONS") || str_eq(method, "TRACE")
}

/// How many times a request may be repeated after its first attempt.
pub fn retry_limit(method: &str, max_retries: u64) -> (r: u64)
    ensures
        r == if automatically_retryable_spec(method@) {
            max_retries
        } else {
            0
        },
{
    if automatically_retryable(method) {
        max_retries
    } else {
        0
    }
}

/// POST and PATCH requests are never repeated.
pub proof fn lemma_mutations_not_retried()
    ensures
        !automatically_retryable_spec("POST"@),
        !automatically_retryable_spec("PATCH"@),
{
    reveal_strlit("POST");
    reveal_strlit("PATCH");
    reveal_strlit("GET");
    reveal_strlit("HEAD");
    reveal_strlit("PUT");
    reveal_strlit("DELETE");
    reveal_strlit("OPTIONS");
    reveal_strlit("TRACE");
    assert("POST"@ != "GET"@ && "POST"@ != "PUT"@ && "POST"@ != "DELETE"@) by {
        assert("POST"@.len() != "GET"@.len());
        assert("POST"@.len() != "PUT"@.len());
        assert("POST"@.len() != "DELETE"@.len());
    }
    assert("POST"@ != "OPTIONS"@ && "POST"@ != "TRACE"@) by {
        assert("POST"@.len() != "OPTIONS"@.len());
        assert("POST"@.len() != "TRACE"@.len());
    }
    assert("POST"@ != "HEAD"@) by {
        assert("POST"@[0] != "HEAD"@[0]);
    }
    assert("PATCH"@ != "GET"@ && "PATCH"@ != "PUT"@ && "PATCH"@ != "DELETE"@) by {
        assert("PATCH"@.len() != "GET"@.len());
        assert("PATCH"@.len() != "PUT"@.len());
        assert("PATCH"@.len() != "DELETE"@.len());
    }
    assert("PATCH"@ != "OPTIONS"@ && "PATCH"@ != "HEAD"@) by {
        assert("PATCH"@.len() != "OPTIONS"@.len());
        assert("PATCH"@.len() != "HEAD"@.len());
    }
    assert("PATCH"@ != "TRACE"@) by {
        assert("PATCH"@[0] != "TRACE"@[0]);
    }
}

/// Statuses worth another attempt: 408, 429, 500, 502, 503 and 504.
pub open spec fn is_retryable_status_spec(status: u16) -> bool {
    status == 408 || status == 429 || status == 500 || status == 502 || status == 503 || status
        == 504
}

pub fn is_retryable_status(status: u16) -> (r: bool)
    ensures
        r == is_retryable_status_spec(status),
{
    status == 408 || status == 429 || status == 500 || status == 502 || status == 503 || status
        == 504
}

pub open spec fn pow2(n: nat) -> nat
    decreases n,
{
    if n == 0 {
        1
    } else {
        2 * pow2((n - 1) as nat)
    }
}

pub open spec fn min_u64(a: int, b: u64) -> u64 {
    if a < b {
        a as u64
    } else {
        b
    }
}

/// 250 ms doubled with each attempt (at most 2^16 times), capped by the
/// maximum delay.
pub open spec fn exponential_delay_spec(attempt: u64, maximum_ms: u64) -> u64 {
    let e: nat = if attempt < 16 {
        attempt as nat
    } else {
        16
    };
    min_u64((250 * pow2(e)) as int, maximum_ms)
}

pub fn exponential_delay(attempt: u64, maximum_ms: u64) -> (r: u64)
    ensures
        r == exponential_delay_spec(attempt, maximum_ms),
{
    let e: u64 = if attempt < 16 {
        attempt
    } else {
        16
    };
    let mut factor: u64 = 1;
    let mut k: u64 = 0;
    while k < e
        invariant
            k <= e <= 16,
            factor == pow2(k as nat),
            factor <= 65536,
        decreases e - k,
    {
        proof {
            lemma_pow2_bound((k + 1) as nat);
        }
        factor = factor * 2;
        k = k + 1;
    }
    let delay = 250 * factor;
    if delay < maximum_ms {
        delay
    } else {
        maximum_ms
    }
}

proof fn lemma_pow2_bound(n: nat)
    requires
        n <= 16,
    ensures
        pow2(n) <= 65536,
    decreases n,
{
    reveal_with_fuel(pow2, 17);
    if n > 0 {
        lemma_pow2_bound((n - 1) as nat);
    }
}

/// The instant that `httpdate::parse_http_date` reads from a text, in whole
/// seconds after the Unix epoch, or `None` where it is not an HTTP date.
pub uninterp spec fn http_date_seconds(raw: Seq<char>) -> Option<u64>;

/// `httpdate::parse_http_date`, as seconds after the Unix epoch. The crate
/// accepts the years 1970 to 9999 only.
#[verifier::external_body]
fn parse_http_date_seconds(raw: &str) -> (r: Option<u64>)
    ensures
        r == http_date_seconds(raw@),
        r matches Some(t) ==> t < 253402300800,
{
    match httpdate::parse_http_date(raw) {
        Ok(t) => t.duration_since(std::time::UNIX_EPOCH).ok().map(|d| d.as_secs()),
        Err(_) => None,
    }
}

/// A `Retry-After` value in milliseconds: delay seconds, or the time left
/// until an HTTP date (nothing where it has passed). `now_ms` is the current
/// time in milliseconds after the Unix epoch.
pub open spec fn parse_retry_after_spec(raw: Seq<char>, now_ms: u64) -> Option<u64> {
    match parse_u64(raw) {
        Some(seconds) => Some(min_u64(seconds * 1000, u64::MAX)),
        None => match http_date_seconds(raw) {
            Some(t) => Some(
                if t * 1000 > now_ms {
                    (t * 1000 - now_ms) as u64
                } else {
                    0
                },
            ),
            None => None,
        },
    }
}

pub fn parse_retry_after(raw: &str, now_ms: u64) -> (r: Option<u64>)
    ensures
        r == parse_retry_after_spec(raw@, now_ms),
{
    let v = chars_of(raw);
    match crate::text::parse_u64_exec(&v) {
        Some(seconds) => {
            return Some(
                if seconds <= u64::MAX / 1000 {
                    seconds * 1000
                } else {
                    u64::MAX
                },
            );
        },
        None => {},
    }
    match parse_http_date_seconds(raw) {
        Some(t) => {
            let deadline = t * 1000;
            Some(
                if deadline > now_ms {
                    deadline - now_ms
                } else {
                    0
                },
            )
        },
        None => None,
    }
}

/// How long to wait before the next attempt after a retryable status: the
/// `Retry-After` header where it reads, else the exponential delay, never
/// above the maximum.
pub open spec fn retry_delay_spec(retry_after: Option<Seq<char>>, now_ms: u64, attempt: u64, maximum_ms: u64) -> u64 {
    let proposed = match retry_after {
        Some(raw) => match parse_retry_after_spec(raw, now_ms) {
            Some(d) => d,
            None => exponential_delay_spec(attempt, maximum_ms),
        },
        None => exponential_delay_spec(attempt, maximum_ms),
    };
    min_u64(proposed as int, maximum_ms)
}

pub fn retry_delay(retry_after: Option<&str>, now_ms: u64, attempt: u64, maximum_ms: u64) -> (r: u64)
    ensures
        r == retry_delay_spec(
            match retry_after {
                Some(s) => Some(s@),
                None => None,
            },
            now_ms,
            attempt,
            maximum_ms,
        ),
        r <= maximum_ms,
{
    let proposed = match retry_after {
        Some(raw) => match parse_retry_after(raw, now_ms) {
            Some(d) => d,
            None => exponential_delay(attempt, maximum_ms),
        },
        None => exponential_delay(attempt, maximum_ms),
    };
    if proposed < maximum_ms {
        proposed
    } else {
        maximum_ms
    }
}

/// What one attempt of a request came to.
#[derive(Debug)]
pub enum AttemptOutcome {
    /// A response with a 2xx status.
    Success,
    /// A response with another status, and its `Retry-After` header where it
    /// is readable text.
    Status { status: u16, retry_after: Option<String> },
    /// No response; `retryable` for a timeout, a connection or a request error.
    Transport { retryable: bool },
}

/// What the client does after an attempt.
#[derive(Debug)]
pub enum NextStep {
    /// Read the successful response.
    Accept,
    /// Wait this long, then make the next attempt.
    Retry { delay_ms: u64 },
    /// Stop with the error of this attempt.
    Fail,
}

pub open spec fn next_step_spec(
    outcome: AttemptOutcome,
    attempt: u64,
    maximum_retries: u64,
    now_ms: u64,
    maximum_delay_ms: u64,
) -> NextStep {
    match outcome {
        AttemptOutcome::Success => NextStep::Accept,
        AttemptOutcome::Status { status, retry_after } => if is_retryable_status_spec(status)
            && attempt < maximum_retries {
            NextStep::Retry {
                delay_ms: retry_delay_spec(
                    match retry_after {
                        Some(s) => Some(s@),
                        None => None,
                    },
                    now_ms,
                    attempt,
                    maximum_delay_ms,
                ),
            }
        } else {
            NextStep::Fail
        },
        AttemptOutcome::Transport { retryable } => if retryable && attempt < maximum_retries {
            NextStep::Retry { delay_ms: exponential_delay_spec(attempt, maximum_delay_ms) }
        } else {
            NextStep::Fail
        },
    }
}

/// The decision after attempt number `attempt` (from 0) of a request that
/// may be repeated `maximum_retries` times.
pub fn next_step(
    outcome: &AttemptOutcome,
    attempt: u64,
    maximum_retries: u64,
    now_ms: u64,
    maximum_delay_ms: u64,
) -> (r: NextStep)
    ensures
        r == next_step_spec(*outcome, attempt, maximum_retries, now_ms, maximum_delay_ms),
{
    match outcome {
        AttemptOutcome::Success => NextStep::Accept,
        AttemptOutcome::Status { status, retry_after } => {
            if is_retryable_status(*status) && attempt < maximum_retries {
                let header = match retry_after {
                    Some(s) => Some(s.as_str()),
                    None => None,
                };
                NextStep::Retry { delay_ms: retry_delay(header, now_ms, attempt, maximum_delay_ms) }
            } else {
                NextStep::Fail
            }
        },
        AttemptOutcome::Transport { retryable } => {
            if *retryable && attempt < maximum_retries {
                NextStep::Retry { delay_ms: exponential_delay(attempt, maximum_delay_ms) }
            } else {
                NextStep::Fail
            }
        },
    }
}

/// A request is attempted at most `retry_limit + 1` times, and never waits
/// longer than the maximum delay between attempts.
pub proof fn lemma_retries_bounded(
    outcome: AttemptOutcome,
    attempt: u64,
    maximum_retries: u64,
    now_ms: u64,
    maximum_delay_ms: u64,
)
    ensures
        next_step_spec(outcome, attempt, maximum_retries, now_ms, maximum_delay_ms) is Retry
            ==> attempt < maximum_retries,
        next_step_spec(outcome, attempt, maximum_retries, now_ms, maximum_delay_ms) matches NextStep::Retry { delay_ms }
            ==> delay_ms <= maximum_delay_ms,
        outcome is Success ==> next_step_spec(outcome, attempt, maximum_retries, now_ms, maximum_delay_ms) is Accept,
{
}

/// The number of response bytes read for the message of a failed request.
pub fn error_excerpt_limit(max_response_bytes: u64) -> (r: u64)
    ensures
        r == min_u64(max_response_bytes as int, 4096),
{
    if max_response_bytes < 4096 {
        max_response_bytes
    } else {
        4096
    }
}

/// The error of a request that ended with a non-success status: the status
/// as `Display` shows it, then the trimmed, redacted body excerpt if any.
pub open spec fn status_error_spec(status_text: Seq<char>, excerpt: Option<Seq<char>>, secrets: Seq<Seq<char>>) -> ErrV {
    let suffix = match excerpt {
        Some(body) => if trim(body).len() > 0 {
            ": "@ + redact_with(trim(body), secrets)
        } else {
            Seq::empty()
        },
        None => Seq::empty(),
    };
    ErrV::Http("remote service returned HTTP "@ + status_text + suffix)
}

pub fn status_error(server: &ServerConfig, status_text: &str, excerpt: Option<&str>) -> (r: OpenApiFdwError)
    ensures
        r@ == status_error_spec(
            status_text@,
            match excerpt {
                Some(s) => Some(s@),
                None => None,
            },
            views(server.secrets@),
        ),
{
    let mut m = chars_of("remote service returned HTTP ");
    append_str(&mut m, status_text);
    match excerpt {
        Some(body) => {
            let b = chars_of(body);
            let t = crate::text::trim_exec(&b);
            if t.len() > 0 {
                let ghost before = m@;
                append_str(&mut m, ": ");
                let ts = string_of(&t);
                let red = server.redact(ts.as_str());
                append_str(&mut m, red.as_str());
                assert(m@ =~= before + (": "@ + red@));
            }
        },
        None => {},
    }
    OpenApiFdwError::Http(string_of(&m))
}

/// The error of a request that got no response: the transport error's
/// message with every secret redacted.
pub fn transport_error(server: &ServerConfig, message: &str) -> (r: OpenApiFdwError)
    ensures
        r@ == ErrV::Http(redact_with(message@, views(server.secrets@))),
{
    OpenApiFdwError::Http(server.redact(message))
}

/// A declared `Content-Length` above the limit refuses the body unread.
pub open spec fn content_length_check_spec(length: Option<u64>, maximum: u64) -> Result<(), ErrV> {
    match length {
        Some(l) => if l > maximum {
            Err(
                response_err(
                    "response Content-Length is "@ + decimal(l as nat) + " bytes, above max_response_bytes "@
                        + decimal(maximum as nat),
                ),
            )
        } else {
            Ok(())
        },
        None => Ok(()),
    }
}

pub fn check_content_length(length: Option<u64>, maximum: u64) -> (r: Result<(), OpenApiFdwError>)
    ensures
        match r {
            Ok(_) => content_length_check_spec(length, maximum) is Ok,
            Err(e) => content_length_check_spec(length, maximum) == Err::<(), ErrV>(e@),
        },
{
    match length {
        Some(l) => if l > maximum {
            let mut m = chars_of("response Content-Length is ");
            let d = decimal_of(l);
            append(&mut m, &d);
            append_str(&mut m, " bytes, above max_response_bytes ");
            let dm = decimal_of(maximum);
            append(&mut m, &dm);
            return Err(OpenApiFdwError::Response(string_of(&m)));
        },
        None => {},
    }
    Ok(())
}

/// The body that a successful response hands on: `null` for 204 No Content,
/// else the bytes read (at most one past the limit), refused above the limit.
pub open spec fn accept_body_spec(status: u16, body: Seq<u8>, maximum: u64) -> Result<Seq<u8>, ErrV> {
    if status == 204 {
        Ok(seq![110u8, 117u8, 108u8, 108u8])
    } else if body.len() > maximum {
        Err(response_err("response exceeded max_response_bytes "@ + decimal(maximum as nat)))
    } else {
        Ok(body)
    }
}

pub fn accept_body(status: u16, body: Vec<u8>, maximum: u64) -> (r: Result<Vec<u8>, OpenApiFdwError>)
    ensures
        match r {
            Ok(b) => accept_body_spec(status, body@, maximum) == Ok::<Seq<u8>, ErrV>(b@),
            Err(e) => accept_body_spec(status, body@, maximum) == Err::<Seq<u8>, ErrV>(e@),
        },
{
    if status == 204 {
        let null = vec![110u8, 117u8, 108u8, 108u8];
        assert(null@ =~= seq![110u8, 117u8, 108u8, 108u8]);
        return Ok(null);
    }
    if body.len() as u64 > maximum {
        let mut m = chars_of("response exceeded max_response_bytes ");
        let d = decimal_of(maximum);
        append(&mut m, &d);
        return Err(OpenApiFdwError::Response(string_of(&m)));
    }
    Ok(body)
}

// ---------------------------------------------------------------------------
// Redirects
// ---------------------------------------------------------------------------

/// How the HTTP client treats redirects: not at all when `max_redirects` is
/// zero, else each one is judged by `redirect_step`.
pub enum RedirectPolicy {
    Disabled,
    Limited(u64),
}

pub fn redirect_policy(server: &ServerConfig) -> (r: RedirectPolicy)
    ensures
        server.max_redirects == 0 ==> r is Disabled,
        server.max_redirects > 0 ==> r == RedirectPolicy::Limited(server.max_redirects),
{
    if server.max_redirects == 0 {
        RedirectPolicy::Disabled
    } else {
        RedirectPolicy::Limited(server.max_redirects)
    }
}

/// What becomes of one redirect.
#[derive(Debug, PartialEq, Eq, Structural)]
pub enum RedirectStep {
    Follow,
    TooMany,
    CrossOrigin,
}

/// Whether a redirect crosses origins: from the first URL of the chain to a
/// target of another scheme, host or port.
pub open spec fn crosses_origin(first: Option<UrlV>, next: Option<UrlV>) -> bool {
    match (first, next) {
        (Some(f), Some(n)) => !same_origin(f, n),
        _ => false,
    }
}

/// A redirect after `previous` followed ones: refused once `maximum` have
/// been followed, refused when it leaves the origin of the first request,
/// followed otherwise.
pub fn redirect_step(previous: usize, maximum: u64, first: Option<&UrlParts>, next: Option<&UrlParts>) -> (r:
    RedirectStep)
    ensures
        previous >= maximum ==> r == RedirectStep::TooMany,
        previous < maximum && crosses_origin(
            match first {
                Some(f) => Some(f@),
                None => None,
            },
            match next {
                Some(n) => Some(n@),
                None => None,
            },
        ) ==> r == RedirectStep::CrossOrigin,
        previous < maximum && !crosses_origin(
            match first {
                Some(f) => Some(f@),
                None => None,
            },
            match next {
                Some(n) => Some(n@),
                None => None,
            },
        ) ==> r == RedirectStep::Follow,
{
    if previous as u64 >= maximum {
        return RedirectStep::TooMany;
    }
    match (first, next) {
        (Some(f), Some(n)) => if !crate::urls::same_origin_exec(f, n) {
            RedirectStep::CrossOrigin
        } else {
            RedirectStep::Follow
        },
        _ => RedirectStep::Follow,
    }
}

} // verus!
