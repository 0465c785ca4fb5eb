//! Foreign-server configuration: where the API is, how to authenticate, and
//! the bounds on every request.
use vstd::prelude::*;

use crate::error::{config_error, configuration, msg3, msg3_exec, ErrV, OpenApiFdwError};
use crate::option_map::{
    lemma_map_insert, map_insert, map_lookup, pairs_view, views_contain, Environment, OptionMap,
};
use crate::options::{
    config_err, environment_secret, environment_secret_spec, parse_bool, parse_bool_spec,
    parse_bounded, parse_bounded_spec, parse_string_map, parse_string_map_spec, same,
    secret_option, secret_option_spec, validate_url, validate_url_spec,
};
use crate::sorting::{ordered_set, strictly_sorted, views};
use crate::text::{
    append_str, chars_of, lower, lower_string, replace, replace_exec, str_eq, str_to_string,
    string_of, trim, trim_exec,
};
use crate::urls::{UrlParts, UrlV};

verus! {

/// The package version that the default `User-Agent` carries.
pub const PACKAGE_VERSION: &'static str = "0.4.0";

pub enum Auth {
    Anonymous,
    Header { name: String, value: String },
    Query { name: String, value: String },
}

pub enum AuthV {
    Anonymous,
    Header { name: Seq<char>, value: Seq<char> },
    Query { name: Seq<char>, value: Seq<char> },
}

impl View for Auth {
    type V = AuthV;

    open spec fn view(&self) -> AuthV {
        match self {
            Auth::Anonymous => AuthV::Anonymous,
            Auth::Header { name, value } => AuthV::Header { name: name@, value: value@ },
            Auth::Query { name, value } => AuthV::Query { name: name@, value: value@ },
        }
    }
}

impl Auth {
    pub fn duplicate(&self) -> (r: Auth)
        ensures
            r@ == self@,
    {
        match self {
            Auth::Anonymous => Auth::Anonymous,
            Auth::Header { name, value } => Auth::Header { name: name.clone(), value: value.clone() },
            Auth::Query { name, value } => Auth::Query { name: name.clone(), value: value.clone() },
        }
    }
}

pub struct ServerConfig {
    pub base_url: Option<UrlParts>,
    pub spec_url: Option<UrlParts>,
    pub spec_json: Option<String>,
    pub headers: OptionMap,
    pub auth: Auth,
    pub allow_http: bool,
    pub allow_cross_origin_pagination: bool,
    pub connect_timeout_ms: u64,
    pub request_timeout_ms: u64,
    pub max_response_bytes: u64,
    pub max_pages: u64,
    pub max_retries: u64,
    pub max_retry_delay_ms: u64,
    pub max_redirects: u64,
    pub spec_with_auth: bool,
    pub secrets: Vec<String>,
}

/// A server configuration with its secrets taken as a set.
pub struct ServerSpec {
    pub base_url: Option<UrlV>,
    pub spec_url: Option<UrlV>,
    pub spec_json: Option<Seq<char>>,
    pub headers: Seq<(Seq<char>, Seq<char>)>,
    pub auth: AuthV,
    pub allow_http: bool,
    pub limits: Limits,
    pub secrets: Set<Seq<char>>,
}

pub struct Limits {
    pub allow_cross_origin_pagination: bool,
    pub connect_timeout_ms: u64,
    pub request_timeout_ms: u64,
    pub max_response_bytes: u64,
    pub max_pages: u64,
    pub max_retries: u64,
    pub max_retry_delay_ms: u64,
    pub max_redirects: u64,
    pub spec_with_auth: bool,
}

pub open spec fn url_view(o: Option<UrlParts>) -> Option<UrlV> {
    match o {
        Some(u) => Some(u@),
        None => None,
    }
}

impl ServerConfig {
    pub open spec fn limits(&self) -> Limits {
        Limits {
            allow_cross_origin_pagination: self.allow_cross_origin_pagination,
            connect_timeout_ms: self.connect_timeout_ms,
            request_timeout_ms: self.request_timeout_ms,
            max_response_bytes: self.max_response_bytes,
            max_pages: self.max_pages,
            max_retries: self.max_retries,
            max_retry_delay_ms: self.max_retry_delay_ms,
            max_redirects: self.max_redirects,
            spec_with_auth: self.spec_with_auth,
        }
    }

    pub open spec fn summary(&self) -> ServerSpec {
        ServerSpec {
            base_url: url_view(self.base_url),
            spec_url: url_view(self.spec_url),
            spec_json: crate::options::opt_str(self.spec_json),
            headers: self.headers.pairs(),
            auth: self.auth@,
            allow_http: self.allow_http,
            limits: self.limits(),
            secrets: views(self.secrets@).to_set(),
        }
    }
}

// ---------------------------------------------------------------------------
// Where the API and its document are
// ---------------------------------------------------------------------------

pub struct Sources {
    pub allow_http: bool,
    pub base_url: Option<UrlV>,
    pub spec_url: Option<UrlV>,
    pub spec_json: Option<Seq<char>>,
}

pub open spec fn url_option_spec(opts: Seq<(Seq<char>, Seq<char>)>, name: Seq<char>, allow_http: bool) -> Result<
    Option<UrlV>,
    ErrV,
> {
    match map_lookup(opts, name) {
        None => Ok(None),
        Some(v) => match validate_url_spec(v, name, allow_http) {
            Ok(u) => Ok(Some(u)),
            Err(e) => Err(e),
        },
    }
}

pub open spec fn sources_spec(opts: Seq<(Seq<char>, Seq<char>)>) -> Result<Sources, ErrV> {
    match parse_bool_spec(opts, "allow_http"@, false) {
        Err(e) => Err(e),
        Ok(allow_http) => match url_option_spec(opts, "base_url"@, allow_http) {
            Err(e) => Err(e),
            Ok(base_url) => match url_option_spec(opts, "spec_url"@, allow_http) {
                Err(e) => Err(e),
                Ok(spec_url) => {
                    let spec_json = map_lookup(opts, "spec_json"@);
                    if base_url is None && spec_url is None && spec_json is None {
                        Err(config_err("one of `base_url`, `spec_url`, or `spec_json` is required"@))
                    } else if spec_url is Some && spec_json is Some {
                        Err(config_err("`spec_url` and `spec_json` are mutually exclusive"@))
                    } else {
                        Ok(Sources { allow_http, base_url, spec_url, spec_json })
                    }
                },
            },
        },
    }
}

fn url_option(options: &OptionMap, name: &str, allow_http: bool) -> (r: Result<
    Option<UrlParts>,
    OpenApiFdwError,
>)
    ensures
        match r {
            Ok(u) => url_option_spec(options.pairs(), name@, allow_http) == Ok::<
                Option<UrlV>,
                ErrV,
            >(url_view(u)),
            Err(e) => url_option_spec(options.pairs(), name@, allow_http) == Err::<
                Option<UrlV>,
                ErrV,
            >(e@),
        },
{
    match options.get(name) {
        None => Ok(None),
        Some(v) => match validate_url(v.as_str(), name, allow_http) {
            Ok(u) => Ok(Some(u)),
            Err(e) => Err(e),
        },
    }
}

// ---------------------------------------------------------------------------
// Headers
// ---------------------------------------------------------------------------

pub open spec fn default_user_agent() -> Seq<char> {
    "openapi_fdw/"@ + PACKAGE_VERSION@
}

pub open spec fn base_headers(opts: Seq<(Seq<char>, Seq<char>)>) -> Seq<(Seq<char>, Seq<char>)> {
    let agent = match map_lookup(opts, "user_agent"@) {
        Some(v) => v,
        None => default_user_agent(),
    };
    let accept = match map_lookup(opts, "accept"@) {
        Some(v) => v,
        None => "application/json"@,
    };
    seq![("user-agent"@, agent), ("accept"@, accept)]
}

/// Header names that the HTTP client controls itself.
pub open spec fn reserved_header(normalized: Seq<char>) -> bool {
    normalized == "host"@ || normalized == "content-length"@ || normalized == "connection"@
        || normalized == "transfer-encoding"@
}

pub open spec fn controlled_message(original: Seq<char>) -> Seq<char> {
    msg3("header `"@, original, "` is controlled by the HTTP client"@)
}

pub open spec fn validate_custom_header_spec(normalized: Seq<char>, original: Seq<char>) -> Result<
    (),
    ErrV,
> {
    if reserved_header(normalized) {
        Err(config_err(controlled_message(original)))
    } else {
        Ok(())
    }
}

pub fn validate_custom_header(normalized: &str, original: &str) -> (r: Result<(), OpenApiFdwError>)
    ensures
        same(r, validate_custom_header_spec(normalized@, original@)),
{
    if str_eq(normalized, "host") || str_eq(normalized, "content-length") || str_eq(
        normalized,
        "connection",
    ) || str_eq(normalized, "transfer-encoding") {
        return Err(
            configuration(msg3_exec("header `", original, "` is controlled by the HTTP client")),
        );
    }
    Ok(())
}

pub struct HeaderState {
    pub headers: Seq<(Seq<char>, Seq<char>)>,
    pub secrets: Seq<Seq<char>>,
    pub names: Seq<Seq<char>>,
}

pub open spec fn add_custom_headers(state: HeaderState, pairs: Seq<(Seq<char>, Seq<char>)>) -> Result<
    HeaderState,
    ErrV,
>
    decreases pairs.len(),
{
    if pairs.len() == 0 {
        Ok(state)
    } else {
        let name = pairs[0].0;
        let value = pairs[0].1;
        let normalized = lower(name);
        if reserved_header(normalized) {
            Err(config_err(controlled_message(name)))
        } else {
            add_custom_headers(
                HeaderState {
                    headers: map_insert(state.headers, normalized, value),
                    secrets: state.secrets.push(value),
                    names: state.names.push(normalized),
                },
                pairs.drop_first(),
            )
        }
    }
}

pub open spec fn add_env_headers(
    state: HeaderState,
    pairs: Seq<(Seq<char>, Seq<char>)>,
    env: Environment,
) -> Result<HeaderState, ErrV>
    decreases pairs.len(),
{
    if pairs.len() == 0 {
        Ok(state)
    } else {
        let name = pairs[0].0;
        let normalized = lower(name);
        if reserved_header(normalized) {
            Err(config_err(controlled_message(name)))
        } else if state.names.contains(normalized) {
            Err(
                config_err(
                    msg3("header `"@, name, "` is configured by both `headers` and `headers_env`"@),
                ),
            )
        } else {
            match environment_secret_spec(env, pairs[0].1, "headers_env"@) {
                Err(e) => Err(e),
                Ok(value) => add_env_headers(
                    HeaderState {
                        headers: map_insert(state.headers, normalized, value),
                        secrets: state.secrets.push(value),
                        names: state.names.push(normalized),
                    },
                    pairs.drop_first(),
                    env,
                ),
            }
        }
    }
}

pub open spec fn headers_spec(opts: Seq<(Seq<char>, Seq<char>)>, env: Environment) -> Result<
    HeaderState,
    ErrV,
> {
    let start = HeaderState { headers: base_headers(opts), secrets: Seq::empty(), names: Seq::empty() };
    let custom = match map_lookup(opts, "headers"@) {
        None => Ok(start),
        Some(raw) => match parse_string_map_spec(raw, "headers"@) {
            Err(e) => Err(e),
            Ok(pairs) => add_custom_headers(start, pairs),
        },
    };
    match custom {
        Err(e) => Err(e),
        Ok(state) => match map_lookup(opts, "headers_env"@) {
            None => Ok(state),
            Some(raw) => match parse_string_map_spec(raw, "headers_env"@) {
                Err(e) => Err(e),
                Ok(pairs) => add_env_headers(state, pairs, env),
            },
        },
    }
}

fn contains_view(v: &Vec<String>, x: &str) -> (r: bool)
    ensures
        r == views(v@).contains(x@),
{
    let r = crate::option_map::contains_string(v, x);
    proof {
        if r {
            let i = choose|i: int| 0 <= i < v@.len() && v@[i]@ == x@;
            assert(views(v@)[i] == x@);
        }
        if views(v@).contains(x@) {
            let i = choose|i: int| 0 <= i < views(v@).len() && views(v@)[i] == x@;
            assert(v@[i]@ == x@);
        }
    }
    r
}

fn add_headers(
    headers: &mut OptionMap,
    secrets: &mut Vec<String>,
    names: &mut Vec<String>,
    pairs: &OptionMap,
    env: &Environment,
    from_environment: bool,
) -> (r: Result<(), OpenApiFdwError>)
    ensures
        ({
            let start = HeaderState {
                headers: old(headers).pairs(),
                secrets: views(old(secrets)@),
                names: views(old(names)@),
            };
            let spec = if from_environment {
                add_env_headers(start, pairs.pairs(), *env)
            } else {
                add_custom_headers(start, pairs.pairs())
            };
            match r {
                Ok(()) => spec == Ok::<HeaderState, ErrV>(
                    HeaderState {
                        headers: final(headers).pairs(),
                        secrets: views(final(secrets)@),
                        names: views(final(names)@),
                    },
                ),
                Err(e) => spec == Err::<HeaderState, ErrV>(e@),
            }
        }),
{
    let ghost p = pairs.pairs();
    let ghost start = HeaderState {
        headers: headers.pairs(),
        secrets: views(secrets@),
        names: views(names@),
    };
    let ghost spec = if from_environment {
        add_env_headers(start, p, *env)
    } else {
        add_custom_headers(start, p)
    };
    let mut i: usize = 0;
    assert(p.skip(0) == p);
    while i < pairs.entries.len()
        invariant
            i <= pairs.entries.len(),
            p == pairs.pairs(),
            spec == (if from_environment {
                add_env_headers(
                    HeaderState {
                        headers: old(headers).pairs(),
                        secrets: views(old(secrets)@),
                        names: views(old(names)@),
                    },
                    p,
                    *env,
                )
            } else {
                add_custom_headers(
                    HeaderState {
                        headers: old(headers).pairs(),
                        secrets: views(old(secrets)@),
                        names: views(old(names)@),
                    },
                    p,
                )
            }),
            p.len() == pairs.entries.len(),
            spec == (if from_environment {
                add_env_headers(
                    HeaderState {
                        headers: headers.pairs(),
                        secrets: views(secrets@),
                        names: views(names@),
                    },
                    p.skip(i as int),
                    *env,
                )
            } else {
                add_custom_headers(
                    HeaderState {
                        headers: headers.pairs(),
                        secrets: views(secrets@),
                        names: views(names@),
                    },
                    p.skip(i as int),
                )
            }),
        decreases pairs.entries.len() - i,
    {
        let ghost rest = p.skip(i as int);
        assert(rest[0] == p[i as int]);
        assert(p[i as int] == (pairs.entries@[i as int].0@, pairs.entries@[i as int].1@));
        assert(rest.drop_first() =~= p.skip(i + 1));
        let name = &pairs.entries[i].0;
        let normalized = lower_string(name.as_str());
        let ghost st = HeaderState {
            headers: headers.pairs(),
            secrets: views(secrets@),
            names: views(names@),
        };
        assert(name@ == rest[0].0);
        assert(normalized@ == lower(rest[0].0));
        match validate_custom_header(normalized.as_str(), name.as_str()) {
            Ok(()) => {},
            Err(e) => {
                assert(reserved_header(normalized@));
                assert(add_custom_headers(st, rest) == Err::<HeaderState, ErrV>(e@));
                assert(add_env_headers(st, rest, *env) == Err::<HeaderState, ErrV>(e@));
                return Err(e);
            },
        }
        let value = if from_environment {
            if contains_view(names, normalized.as_str()) {
                return Err(
                    configuration(
                        msg3_exec(
                            "header `",
                            name.as_str(),
                            "` is configured by both `headers` and `headers_env`",
                        ),
                    ),
                );
            }
            match environment_secret(env, pairs.entries[i].1.as_str(), "headers_env") {
                Ok(v) => v,
                Err(e) => return Err(e),
            }
        } else {
            pairs.entries[i].1.clone()
        };
        let ghost vv = value@;
        let ghost nv = normalized@;
        let ghost s0 = secrets@;
        let ghost n0 = names@;
        let v2 = value.clone();
        let n2 = normalized.clone();
        secrets.push(v2);
        names.push(n2);
        headers.insert(normalized, value);
        proof {
            crate::sorting::lemma_views_push(s0, v2);
            crate::sorting::lemma_views_push(n0, n2);
        }
        i = i + 1;
    }
    assert(p.skip(i as int) =~= Seq::<(Seq<char>, Seq<char>)>::empty());
    Ok(())
}

fn headers_from(
    options: &OptionMap,
    env: &Environment,
) -> (r: Result<(OptionMap, Vec<String>), OpenApiFdwError>)
    ensures
        match r {
            Ok((h, s)) => headers_spec(options.pairs(), *env) matches Ok(state) && state.headers
                == h.pairs() && state.secrets == views(s@),
            Err(e) => headers_spec(options.pairs(), *env) == Err::<HeaderState, ErrV>(e@),
        },
{
    let mut headers = OptionMap::new();
    let agent = match options.get("user_agent") {
        Some(v) => v.clone(),
        None => {
            let mut a = chars_of("openapi_fdw/");
            append_str(&mut a, PACKAGE_VERSION);
            string_of(&a)
        },
    };
    let accept = match options.get("accept") {
        Some(v) => v.clone(),
        None => str_to_string("application/json"),
    };
    let ghost av = agent@;
    let ghost cv = accept@;
    headers.insert(str_to_string("user-agent"), agent);
    proof {
        crate::option_map::lemma_key_index(Seq::<(Seq<char>, Seq<char>)>::empty(), "user-agent"@);
        assert(headers.pairs() =~= seq![("user-agent"@, av)]);
    }
    headers.insert(str_to_string("accept"), accept);
    proof {
        reveal_strlit("user-agent");
        reveal_strlit("accept");
        assert("user-agent"@.len() != "accept"@.len());
        crate::option_map::lemma_key_index(seq![("user-agent"@, av)], "accept"@);
        assert(headers.pairs() =~= base_headers(options.pairs()));
    }
    let mut secrets: Vec<String> = Vec::new();
    let mut names: Vec<String> = Vec::new();
    assert(views(secrets@) =~= Seq::<Seq<char>>::empty());
    assert(views(names@) =~= Seq::<Seq<char>>::empty());
    match options.get("headers") {
        None => {},
        Some(raw) => {
            let pairs = match parse_string_map(raw.as_str(), "headers") {
                Ok(p) => p,
                Err(e) => return Err(e),
            };
            match add_headers(&mut headers, &mut secrets, &mut names, &pairs, env, false) {
                Ok(()) => {},
                Err(e) => return Err(e),
            }
        },
    }
    match options.get("headers_env") {
        None => {},
        Some(raw) => {
            let pairs = match parse_string_map(raw.as_str(), "headers_env") {
                Ok(p) => p,
                Err(e) => return Err(e),
            };
            match add_headers(&mut headers, &mut secrets, &mut names, &pairs, env, true) {
                Ok(()) => {},
                Err(e) => return Err(e),
            }
        },
    }
    Ok((headers, secrets))
}

// ---------------------------------------------------------------------------
// Authentication
// ---------------------------------------------------------------------------

pub open spec fn api_key_auth(opts: Seq<(Seq<char>, Seq<char>)>, key: Seq<char>) -> Result<AuthV, ErrV> {
    let name = match map_lookup(opts, "api_key_name"@) {
        Some(n) => n,
        None => "x-api-key"@,
    };
    let value = match map_lookup(opts, "api_key_prefix"@) {
        Some(p) => if trim(p).len() > 0 {
            trim(p) + " "@ + key
        } else {
            key
        },
        None => key,
    };
    match map_lookup(opts, "api_key_location"@) {
        None => Ok(AuthV::Header { name, value }),
        Some(l) => if l == "header"@ {
            Ok(AuthV::Header { name, value })
        } else if l == "query"@ {
            Ok(AuthV::Query { name, value })
        } else {
            Err(config_err(msg3("unsupported api_key_location `"@, l, "`; use `header` or `query`"@)))
        },
    }
}

pub open spec fn opt_seq(o: Option<Seq<char>>) -> Seq<Seq<char>> {
    match o {
        Some(v) => seq![v],
        None => Seq::empty(),
    }
}

pub open spec fn auth_secret(a: AuthV) -> Seq<Seq<char>> {
    match a {
        AuthV::Header { value, .. } => seq![value],
        AuthV::Query { value, .. } => seq![value],
        AuthV::Anonymous => Seq::empty(),
    }
}

/// The authentication, and the credentials it adds to the redaction list.
pub open spec fn auth_spec(
    opts: Seq<(Seq<char>, Seq<char>)>,
    env: Environment,
    headers: Seq<(Seq<char>, Seq<char>)>,
) -> Result<(AuthV, Seq<Seq<char>>), ErrV> {
    match secret_option_spec(opts, env, "api_key"@, "api_key_env"@) {
        Err(e) => Err(e),
        Ok(api_key) => match secret_option_spec(opts, env, "bearer_token"@, "bearer_token_env"@) {
            Err(e) => Err(e),
            Ok(bearer) => if api_key is Some && bearer is Some {
                Err(config_err("configure either `api_key` or `bearer_token`, not both"@))
            } else {
                let chosen = match bearer {
                    Some(t) => Ok(AuthV::Header { name: "authorization"@, value: "Bearer "@ + t }),
                    None => match api_key {
                        Some(k) => api_key_auth(opts, k),
                        None => Ok(AuthV::Anonymous),
                    },
                };
                match chosen {
                    Err(e) => Err(e),
                    Ok(auth) => if auth is Header && map_lookup(headers, lower(auth->Header_name))
                        is Some {
                        Err(
                            config_err(
                                msg3(
                                    "authentication header `"@,
                                    auth->Header_name,
                                    "` is also configured as a custom or built-in header"@,
                                ),
                            ),
                        )
                    } else {
                        Ok((auth, opt_seq(api_key) + opt_seq(bearer) + auth_secret(auth)))
                    },
                }
            },
        },
    }
}

fn api_key_auth_exec(options: &OptionMap, key: &String) -> (r: Result<Auth, OpenApiFdwError>)
    ensures
        match r {
            Ok(a) => api_key_auth(options.pairs(), key@) == Ok::<AuthV, ErrV>(a@),
            Err(e) => api_key_auth(options.pairs(), key@) == Err::<AuthV, ErrV>(e@),
        },
{
    let name = match options.get("api_key_name") {
        Some(n) => n.clone(),
        None => str_to_string("x-api-key"),
    };
    let value = match options.get("api_key_prefix") {
        Some(p) => {
            let c = chars_of(p.as_str());
            let t = trim_exec(&c);
            if t.len() > 0 {
                let mut v = t;
                v.push(' ');
                crate::text::append_str(&mut v, key.as_str());
                proof {
                    reveal_strlit(" ");
                    assert(" "@ =~= seq![' ']);
                }
                assert(v@ =~= trim(p@) + " "@ + key@);
                string_of(&v)
            } else {
                key.clone()
            }
        },
        None => key.clone(),
    };
    match options.get("api_key_location") {
        None => Ok(Auth::Header { name, value }),
        Some(l) => {
            if str_eq(l.as_str(), "header") {
                Ok(Auth::Header { name, value })
            } else if str_eq(l.as_str(), "query") {
                Ok(Auth::Query { name, value })
            } else {
                Err(
                    configuration(
                        msg3_exec("unsupported api_key_location `", l.as_str(), "`; use `header` or `query`"),
                    ),
                )
            }
        },
    }
}

fn auth_from(options: &OptionMap, env: &Environment, headers: &OptionMap) -> (r: Result<
    (Auth, Vec<String>),
    OpenApiFdwError,
>)
    ensures
        match r {
            Ok((a, s)) => auth_spec(options.pairs(), *env, headers.pairs()) == Ok::<
                (AuthV, Seq<Seq<char>>),
                ErrV,
            >((a@, views(s@))),
            Err(e) => auth_spec(options.pairs(), *env, headers.pairs()) == Err::<
                (AuthV, Seq<Seq<char>>),
                ErrV,
            >(e@),
        },
{
    let api_key = match secret_option(options, env, "api_key", "api_key_env") {
        Ok(v) => v,
        Err(e) => return Err(e),
    };
    let bearer = match secret_option(options, env, "bearer_token", "bearer_token_env") {
        Ok(v) => v,
        Err(e) => return Err(e),
    };
    if api_key.is_some() && bearer.is_some() {
        return Err(config_error("configure either `api_key` or `bearer_token`, not both"));
    }
    let auth = match &bearer {
        Some(t) => {
            let mut v = chars_of("Bearer ");
            append_str(&mut v, t.as_str());
            Auth::Header { name: str_to_string("authorization"), value: string_of(&v) }
        },
        None => match &api_key {
            Some(k) => match api_key_auth_exec(options, k) {
                Ok(a) => a,
                Err(e) => return Err(e),
            },
            None => Auth::Anonymous,
        },
    };
    match &auth {
        Auth::Header { name, .. } => {
            let lowered = lower_string(name.as_str());
            if headers.contains(lowered.as_str()) {
                return Err(
                    configuration(
                        msg3_exec(
                            "authentication header `",
                            name.as_str(),
                            "` is also configured as a custom or built-in header",
                        ),
                    ),
                );
            }
        },
        _ => {},
    }
    let mut secrets: Vec<String> = Vec::new();
    match api_key {
        Some(k) => secrets.push(k),
        None => {},
    }
    match bearer {
        Some(t) => secrets.push(t),
        None => {},
    }
    match &auth {
        Auth::Header { value, .. } => secrets.push(value.clone()),
        Auth::Query { value, .. } => secrets.push(value.clone()),
        Auth::Anonymous => {},
    }
    proof {
        let spec_secrets = opt_seq(crate::options::opt_str(api_key)) + opt_seq(
            crate::options::opt_str(bearer),
        ) + auth_secret(auth@);
        assert(views(secrets@) =~= spec_secrets);
    }
    Ok((auth, secrets))
}

// ---------------------------------------------------------------------------
// Bounds
// ---------------------------------------------------------------------------

pub open spec fn limits_spec(opts: Seq<(Seq<char>, Seq<char>)>) -> Result<Limits, ErrV> {
    match parse_bool_spec(opts, "allow_cross_origin_pagination"@, false) {
        Err(e) => Err(e),
        Ok(cross) => match parse_bounded_spec(opts, "connect_timeout_ms"@, 5_000, 1, 300_000) {
            Err(e) => Err(e),
            Ok(connect) => match parse_bounded_spec(
                opts,
                "request_timeout_ms"@,
                30_000,
                1,
                3_600_000,
            ) {
                Err(e) => Err(e),
                Ok(request) => match parse_bounded_spec(
                    opts,
                    "max_response_bytes"@,
                    52_428_800,
                    1,
                    536_870_912,
                ) {
                    Err(e) => Err(e),
                    Ok(response) => match parse_bounded_spec(opts, "max_pages"@, 100, 1, 10_000) {
                        Err(e) => Err(e),
                        Ok(pages) => match parse_bounded_spec(opts, "max_retries"@, 2, 0, 10) {
                            Err(e) => Err(e),
                            Ok(retries) => match parse_bounded_spec(
                                opts,
                                "max_retry_delay_ms"@,
                                5_000,
                                0,
                                60_000,
                            ) {
                                Err(e) => Err(e),
                                Ok(delay) => match parse_bounded_spec(
                                    opts,
                                    "max_redirects"@,
                                    5,
                                    0,
                                    10,
                                ) {
                                    Err(e) => Err(e),
                                    Ok(redirects) => match parse_bool_spec(
                                        opts,
                                        "spec_with_auth"@,
                                        false,
                                    ) {
                                        Err(e) => Err(e),
                                        Ok(with_auth) => Ok(
                                            Limits {
                                                allow_cross_origin_pagination: cross,
                                                connect_timeout_ms: connect,
                                                request_timeout_ms: request,
                                                max_response_bytes: response,
                                                max_pages: pages,
                                                max_retries: retries,
                                                max_retry_delay_ms: delay,
                                                max_redirects: redirects,
                                                spec_with_auth: with_auth,
                                            },
                                        ),
                                    },
                                },
                            },
                        },
                    },
                },
            },
        },
    }
}

fn limits_from(options: &OptionMap) -> (r: Result<Limits, OpenApiFdwError>)
    ensures
        same(r, limits_spec(options.pairs())),
{
    let cross = match parse_bool(options, "allow_cross_origin_pagination", false) {
        Ok(v) => v,
        Err(e) => return Err(e),
    };
    let connect = match parse_bounded(options, "connect_timeout_ms", 5_000, 1, 300_000) {
        Ok(v) => v,
        Err(e) => return Err(e),
    };
    let request = match parse_bounded(options, "request_timeout_ms", 30_000, 1, 3_600_000) {
        Ok(v) => v,
        Err(e) => return Err(e),
    };
    let response = match parse_bounded(options, "max_response_bytes", 52_428_800, 1, 536_870_912) {
        Ok(v) => v,
        Err(e) => return Err(e),
    };
    let pages = match parse_bounded(options, "max_pages", 100, 1, 10_000) {
        Ok(v) => v,
        Err(e) => return Err(e),
    };
    let retries = match parse_bounded(options, "max_retries", 2, 0, 10) {
        Ok(v) => v,
        Err(e) => return Err(e),
    };
    let delay = match parse_bounded(options, "max_retry_delay_ms", 5_000, 0, 60_000) {
        Ok(v) => v,
        Err(e) => return Err(e),
    };
    let redirects = match parse_bounded(options, "max_redirects", 5, 0, 10) {
        Ok(v) => v,
        Err(e) => return Err(e),
    };
    let with_auth = match parse_bool(options, "spec_with_auth", false) {
        Ok(v) => v,
        Err(e) => return Err(e),
    };
    Ok(
        Limits {
            allow_cross_origin_pagination: cross,
            connect_timeout_ms: connect,
            request_timeout_ms: request,
            max_response_bytes: response,
            max_pages: pages,
            max_retries: retries,
            max_retry_delay_ms: delay,
            max_redirects: redirects,
            spec_with_auth: with_auth,
        },
    )
}

// ---------------------------------------------------------------------------
// The whole server configuration
// ---------------------------------------------------------------------------

/// `ServerConfig::from_options`: each step in the order the options are read;
/// the first failing step decides the error.
pub open spec fn server_spec(opts: Seq<(Seq<char>, Seq<char>)>, env: Environment) -> Result<
    ServerSpec,
    ErrV,
> {
    match sources_spec(opts) {
        Err(e) => Err(e),
        Ok(sources) => match headers_spec(opts, env) {
            Err(e) => Err(e),
            Ok(hs) => match auth_spec(opts, env, hs.headers) {
                Err(e) => Err(e),
                Ok((auth, extra)) => match limits_spec(opts) {
                    Err(e) => Err(e),
                    Ok(limits) => Ok(
                        ServerSpec {
                            base_url: sources.base_url,
                            spec_url: sources.spec_url,
                            spec_json: sources.spec_json,
                            headers: hs.headers,
                            auth,
                            allow_http: sources.allow_http,
                            limits,
                            secrets: (hs.secrets + extra).to_set(),
                        },
                    ),
                },
            },
        },
    }
}

impl ServerConfig {
    /// Reads a foreign server's options. `environment` is the environment of
    /// the process, in which the `*_env` options are looked up.
    pub fn from_options(options: &OptionMap, environment: &Environment) -> (r: Result<
        ServerConfig,
        OpenApiFdwError,
    >)
        ensures
            match r {
                Ok(c) => server_spec(options.pairs(), *environment) == Ok::<ServerSpec, ErrV>(
                    c.summary(),
                ) && strictly_sorted(true, views(c.secrets@)),
                Err(e) => server_spec(options.pairs(), *environment) == Err::<ServerSpec, ErrV>(
                    e@,
                ),
            },
    {
        let allow_http = match parse_bool(options, "allow_http", false) {
            Ok(v) => v,
            Err(e) => return Err(e),
        };
        let base_url = match url_option(options, "base_url", allow_http) {
            Ok(v) => v,
            Err(e) => return Err(e),
        };
        let spec_url = match url_option(options, "spec_url", allow_http) {
            Ok(v) => v,
            Err(e) => return Err(e),
        };
        let spec_json = match options.get("spec_json") {
            Some(v) => Some(v.clone()),
            None => None,
        };
        if base_url.is_none() && spec_url.is_none() && spec_json.is_none() {
            return Err(config_error("one of `base_url`, `spec_url`, or `spec_json` is required"));
        }
        if spec_url.is_some() && spec_json.is_some() {
            return Err(config_error("`spec_url` and `spec_json` are mutually exclusive"));
        }
        let (headers, header_secrets) = match headers_from(options, environment) {
            Ok(v) => v,
            Err(e) => return Err(e),
        };
        let (auth, extra) = match auth_from(options, environment, &headers) {
            Ok(v) => v,
            Err(e) => return Err(e),
        };
        let limits = match limits_from(options) {
            Ok(v) => v,
            Err(e) => return Err(e),
        };
        let mut all = header_secrets;
        crate::sorting::extend_strings(&mut all, &extra);
        let secrets = ordered_set(true, &all);
        Ok(
            ServerConfig {
                base_url,
                spec_url,
                spec_json,
                headers,
                auth,
                allow_http,
                allow_cross_origin_pagination: limits.allow_cross_origin_pagination,
                connect_timeout_ms: limits.connect_timeout_ms,
                request_timeout_ms: limits.request_timeout_ms,
                max_response_bytes: limits.max_response_bytes,
                max_pages: limits.max_pages,
                max_retries: limits.max_retries,
                max_retry_delay_ms: limits.max_retry_delay_ms,
                max_redirects: limits.max_redirects,
                spec_with_auth: limits.spec_with_auth,
                secrets,
            },
        )
    }
}

} // verus!

verus! {

/// `[REDACTED]` in place of every non-empty secret, longest first.
pub open spec fn redact_with(text: Seq<char>, secrets: Seq<Seq<char>>) -> Seq<char>
    decreases secrets.len(),
{
    if secrets.len() == 0 {
        text
    } else {
        let next = if secrets[0].len() == 0 {
            text
        } else {
            replace(text, secrets[0], "[REDACTED]"@)
        };
        redact_with(next, secrets.drop_first())
    }
}

/// The headers that a document fetch keeps without `spec_with_auth`.
pub open spec fn public_headers(m: Seq<(Seq<char>, Seq<char>)>) -> Seq<(Seq<char>, Seq<char>)>
    decreases m.len(),
{
    if m.len() == 0 {
        m
    } else {
        let rest = public_headers(m.drop_last());
        if m.last().0 == "user-agent"@ || m.last().0 == "accept"@ {
            rest.push(m.last())
        } else {
            rest
        }
    }
}

pub proof fn lemma_public_headers(m: Seq<(Seq<char>, Seq<char>)>)
    ensures
        forall|i: int|
            0 <= i < public_headers(m).len() ==> (#[trigger] public_headers(m)[i].0 == "user-agent"@
                || public_headers(m)[i].0 == "accept"@),
    decreases m.len(),
{
    if m.len() > 0 {
        lemma_public_headers(m.drop_last());
        let rest = public_headers(m.drop_last());
        assert forall|i: int| 0 <= i < public_headers(m).len() implies (
        #[trigger] public_headers(m)[i].0 == "user-agent"@ || public_headers(m)[i].0 == "accept"@) by {
            if i < rest.len() {
                assert(public_headers(m)[i] == rest[i]);
            }
        }
    }
}

fn clone_url(u: &Option<UrlParts>) -> (r: Option<UrlParts>)
    ensures
        url_view(r) == url_view(*u),
{
    match u {
        Some(x) => Some(x.duplicate()),
        None => None,
    }
}

fn clone_strings(v: &Vec<String>) -> (r: Vec<String>)
    ensures
        views(r@) == views(v@),
{
    let mut r: Vec<String> = Vec::new();
    crate::sorting::extend_strings(&mut r, v);
    assert(views(r@) =~= views(v@));
    r
}

impl ServerConfig {
    pub fn duplicate(&self) -> (r: ServerConfig)
        ensures
            r.summary() == self.summary(),
            views(r.secrets@) == views(self.secrets@),
    {
        ServerConfig {
            base_url: clone_url(&self.base_url),
            spec_url: clone_url(&self.spec_url),
            spec_json: crate::urls::clone_opt(&self.spec_json),
            headers: self.headers.duplicate(),
            auth: self.auth.duplicate(),
            allow_http: self.allow_http,
            allow_cross_origin_pagination: self.allow_cross_origin_pagination,
            connect_timeout_ms: self.connect_timeout_ms,
            request_timeout_ms: self.request_timeout_ms,
            max_response_bytes: self.max_response_bytes,
            max_pages: self.max_pages,
            max_retries: self.max_retries,
            max_retry_delay_ms: self.max_retry_delay_ms,
            max_redirects: self.max_redirects,
            spec_with_auth: self.spec_with_auth,
            secrets: clone_strings(&self.secrets),
        }
    }

    /// The configuration used to fetch the OpenAPI document: without
    /// `spec_with_auth` it keeps only the `user-agent` and `accept` headers,
    /// drops the authentication and has nothing left to redact.
    /// The settings with which a document is fetched: all of them with
    /// `spec_with_auth`; otherwise without credentials (no auth, no secrets,
    /// only the `user-agent` and `accept` headers).
    pub open spec fn fetches_spec_with(&self, r: ServerConfig) -> bool {
        &&& self.spec_with_auth ==> r.summary() == self.summary() && views(r.secrets@) == views(
            self.secrets@,
        )
        &&& !self.spec_with_auth ==> {
            &&& r.headers.pairs() == public_headers(self.headers.pairs())
            &&& r.auth@ == AuthV::Anonymous
            &&& r.secrets@.len() == 0
            &&& r.limits() == self.limits()
            &&& url_view(r.base_url) == url_view(self.base_url)
            &&& url_view(r.spec_url) == url_view(self.spec_url)
            &&& crate::options::opt_str(r.spec_json) == crate::options::opt_str(self.spec_json)
            &&& r.allow_http == self.allow_http
        }
    }

    pub fn for_spec_fetch(&self) -> (r: ServerConfig)
        ensures
            self.fetches_spec_with(r),
    {
        let mut safe = self.duplicate();
        if self.spec_with_auth {
            return safe;
        }
        let mut kept: Vec<(String, String)> = Vec::new();
        let mut i: usize = 0;
        let ghost m = self.headers.pairs();
        while i < self.headers.entries.len()
            invariant
                i <= self.headers.entries.len(),
                m == self.headers.pairs(),
                m.len() == self.headers.entries.len(),
                pairs_view(kept@) == public_headers(m.take(i as int)),
            decreases self.headers.entries.len() - i,
        {
            let name = &self.headers.entries[i].0;
            assert(m.take(i + 1).drop_last() =~= m.take(i as int));
            assert(m[i as int] == (name@, self.headers.entries@[i as int].1@));
            if str_eq(name.as_str(), "user-agent") || str_eq(name.as_str(), "accept") {
                let ghost before = kept@;
                kept.push((name.clone(), self.headers.entries[i].1.clone()));
                assert(pairs_view(kept@) =~= pairs_view(before).push(m[i as int]));
            }
            i = i + 1;
        }
        assert(m.take(i as int) =~= m);
        safe.headers = OptionMap { entries: kept };
        safe.auth = Auth::Anonymous;
        safe.secrets = Vec::new();
        safe
    }

    /// `ServerConfig::redact`: every configured secret replaced in a text.
    pub fn redact(&self, text: &str) -> (r: String)
        ensures
            r@ == redact_with(text@, views(self.secrets@)),
    {
        let mut safe = chars_of(text);
        let ghost all = views(self.secrets@);
        let mut i: usize = 0;
        assert(all.skip(0) == all);
        while i < self.secrets.len()
            invariant
                i <= self.secrets.len(),
                all == views(self.secrets@),
                redact_with(text@, all) == redact_with(safe@, all.skip(i as int)),
            decreases self.secrets.len() - i,
        {
            let secret = chars_of(self.secrets[i].as_str());
            assert(all.skip(i as int)[0] == secret@);
            assert(all.skip(i as int).drop_first() =~= all.skip(i + 1));
            if secret.len() > 0 {
                let marker = chars_of("[REDACTED]");
                safe = replace_exec(&safe, &secret, &marker);
            }
            i = i + 1;
        }
        assert(all.skip(i as int) =~= Seq::<Seq<char>>::empty());
        string_of(&safe)
    }
}


// ---------------------------------------------------------------------------
// Debug text
// ---------------------------------------------------------------------------

pub open spec fn bool_word(b: bool) -> Seq<char> {
    if b {
        "true"@
    } else {
        "false"@
    }
}

pub open spec fn url_text(u: Option<UrlV>) -> Seq<char> {
    match u {
        Some(x) => x.serialization,
        None => "None"@,
    }
}

/// The authentication without its credential.
pub open spec fn auth_text(a: AuthV) -> Seq<char> {
    match a {
        AuthV::Anonymous => "None"@,
        AuthV::Header { name, .. } => "Header { name: "@ + name + ", value: [REDACTED] }"@,
        AuthV::Query { name, .. } => "Query { name: "@ + name + ", value: [REDACTED] }"@,
    }
}

pub open spec fn header_names_text(m: Seq<(Seq<char>, Seq<char>)>) -> Seq<char> {
    crate::text::join(m.map_values(|p: (Seq<char>, Seq<char>)| p.0), ", "@)
}

pub open spec fn json_bytes_text(j: Option<Seq<char>>) -> Seq<char> {
    match j {
        Some(x) => crate::text::decimal(crate::control::model::byte_len(x) as nat),
        None => "None"@,
    }
}

pub open spec fn debug_head(c: ServerSpec) -> Seq<char> {
    "ServerConfig { base_url: "@ + url_text(c.base_url) + ", spec_url: "@ + url_text(c.spec_url)
        + ", spec_json_bytes: "@ + json_bytes_text(c.spec_json) + ", header_names: ["@
        + header_names_text(c.headers) + "], auth: "@ + auth_text(c.auth)
}

pub open spec fn debug_limits(c: ServerSpec) -> Seq<char> {
    ", allow_http: "@ + bool_word(c.allow_http) + ", allow_cross_origin_pagination: "@ + bool_word(
        c.limits.allow_cross_origin_pagination,
    ) + ", connect_timeout_ms: "@ + crate::text::decimal(c.limits.connect_timeout_ms as nat)
        + ", request_timeout_ms: "@ + crate::text::decimal(c.limits.request_timeout_ms as nat)
        + ", max_response_bytes: "@ + crate::text::decimal(c.limits.max_response_bytes as nat)
        + ", max_pages: "@ + crate::text::decimal(c.limits.max_pages as nat) + ", max_retries: "@
        + crate::text::decimal(c.limits.max_retries as nat) + ", max_retry_delay_ms: "@
        + crate::text::decimal(c.limits.max_retry_delay_ms as nat) + ", max_redirects: "@
        + crate::text::decimal(c.limits.max_redirects as nat) + ", spec_with_auth: "@ + bool_word(
        c.limits.spec_with_auth,
    ) + " }"@
}

/// The configuration as its debug text: URLs, the size of an inline
/// document, header names without values, the authentication without its
/// credential, and the limits.
pub open spec fn debug_text_spec(c: ServerSpec) -> Seq<char> {
    debug_head(c) + debug_limits(c)
}

fn push_bool(out: &mut Vec<char>, b: bool)
    ensures
        final(out)@ == old(out)@ + bool_word(b),
{
    if b {
        append_str(out, "true");
    } else {
        append_str(out, "false");
    }
}

fn push_number(out: &mut Vec<char>, n: u64)
    ensures
        final(out)@ == old(out)@ + crate::text::decimal(n as nat),
{
    let d = crate::text::decimal_of(n);
    crate::text::append(out, &d);
}

fn push_url(out: &mut Vec<char>, u: &Option<UrlParts>)
    ensures
        final(out)@ == old(out)@ + url_text(url_view(*u)),
{
    match u {
        Some(x) => append_str(out, x.serialization.as_str()),
        None => append_str(out, "None"),
    }
}

impl ServerConfig {
    /// The `Debug` text of the configuration, which never shows a header
    /// value or a credential.
    pub fn debug_text(&self) -> (r: String)
        ensures
            r@ == debug_text_spec(self.summary()),
    {
        let mut out = self.debug_head_exec();
        let tail = self.debug_limits_exec();
        crate::text::append(&mut out, &tail);
        string_of(&out)
    }

    fn debug_head_exec(&self) -> (r: Vec<char>)
        ensures
            r@ == debug_head(self.summary()),
    {
        let mut out = chars_of("ServerConfig { base_url: ");
        push_url(&mut out, &self.base_url);
        append_str(&mut out, ", spec_url: ");
        push_url(&mut out, &self.spec_url);
        append_str(&mut out, ", spec_json_bytes: ");
        match &self.spec_json {
            Some(j) => push_number(&mut out, crate::control::model::byte_length(j.as_str()) as u64),
            None => append_str(&mut out, "None"),
        }
        append_str(&mut out, ", header_names: [");
        let joined = self.header_names_exec();
        crate::text::append(&mut out, &joined);
        append_str(&mut out, "], auth: ");
        match &self.auth {
            Auth::Anonymous => append_str(&mut out, "None"),
            Auth::Header { name, .. } => {
                let ghost before = out@;
                append_str(&mut out, "Header { name: ");
                append_str(&mut out, name.as_str());
                append_str(&mut out, ", value: [REDACTED] }");
                assert(out@ =~= before + auth_text(self.auth@));
            },
            Auth::Query { name, .. } => {
                let ghost before = out@;
                append_str(&mut out, "Query { name: ");
                append_str(&mut out, name.as_str());
                append_str(&mut out, ", value: [REDACTED] }");
                assert(out@ =~= before + auth_text(self.auth@));
            },
        }
        out
    }

    fn header_names_exec(&self) -> (r: Vec<char>)
        ensures
            r@ == header_names_text(self.headers.pairs()),
    {
        let mut names: Vec<Vec<char>> = Vec::new();
        let ghost m = self.headers.pairs();
        let mut i: usize = 0;
        while i < self.headers.entries.len()
            invariant
                i <= self.headers.entries.len(),
                m == self.headers.pairs(),
                m.len() == self.headers.entries.len(),
                names@.map_values(|v: Vec<char>| v@) == m.map_values(|p: (Seq<char>, Seq<char>)| p.0).take(
                    i as int,
                ),
            decreases self.headers.entries.len() - i,
        {
            let n = chars_of(self.headers.entries[i].0.as_str());
            let ghost before = names@;
            names.push(n);
            assert(names@.map_values(|v: Vec<char>| v@) =~= before.map_values(|v: Vec<char>| v@).push(
                m[i as int].0,
            ));
            assert(m.map_values(|p: (Seq<char>, Seq<char>)| p.0).take(i + 1) =~= m.map_values(
                |p: (Seq<char>, Seq<char>)| p.0,
            ).take(i as int).push(m[i as int].0));
            i = i + 1;
        }
        assert(m.map_values(|p: (Seq<char>, Seq<char>)| p.0).take(i as int) =~= m.map_values(
            |p: (Seq<char>, Seq<char>)| p.0,
        ));
        crate::text::join_exec(&names, ", ")
    }

    fn debug_limits_exec(&self) -> (r: Vec<char>)
        ensures
            r@ == debug_limits(self.summary()),
    {
        let mut out = chars_of(", allow_http: ");
        push_bool(&mut out, self.allow_http);
        append_str(&mut out, ", allow_cross_origin_pagination: ");
        push_bool(&mut out, self.allow_cross_origin_pagination);
        append_str(&mut out, ", connect_timeout_ms: ");
        push_number(&mut out, self.connect_timeout_ms);
        append_str(&mut out, ", request_timeout_ms: ");
        push_number(&mut out, self.request_timeout_ms);
        append_str(&mut out, ", max_response_bytes: ");
        push_number(&mut out, self.max_response_bytes);
        append_str(&mut out, ", max_pages: ");
        push_number(&mut out, self.max_pages);
        append_str(&mut out, ", max_retries: ");
        push_number(&mut out, self.max_retries);
        append_str(&mut out, ", max_retry_delay_ms: ");
        push_number(&mut out, self.max_retry_delay_ms);
        append_str(&mut out, ", max_redirects: ");
        push_number(&mut out, self.max_redirects);
        append_str(&mut out, ", spec_with_auth: ");
        push_bool(&mut out, self.spec_with_auth);
        append_str(&mut out, " }");
        out
    }
}

} // verus!
