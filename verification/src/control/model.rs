//! Source definitions as the control plane accepts, stores and exports them.
use vstd::prelude::*;

use crate::option_map::{keys_sorted, OptionMap};
use crate::options::{opt_str, valid_env_name, valid_env_name_exec};
use crate::text::{
    append, append_str, chars_of, decimal, decimal_of, eq_ignore_case, eq_ignore_case_exec,
    is_digit, is_lower, str_eq, string_of, trim, upper,
};
use crate::urls::{parse_url, url_parse, UrlParts, UrlV};

verus! {

pub const API_VERSION: &'static str = "openapi-fdw/v1";

pub const MANIFEST_KIND: &'static str = "OpenApiFdwBundle";

pub const DEFAULT_CONNECT_TIMEOUT_MS: u64 = 5_000;

pub const DEFAULT_REQUEST_TIMEOUT_MS: u64 = 30_000;

pub const DEFAULT_MAX_RESPONSE_BYTES: u64 = 52_428_800;

pub const DEFAULT_MAX_PAGES: u64 = 100;

pub const DEFAULT_MAX_RETRIES: u64 = 2;

pub const DEFAULT_SAMPLE_LIMIT: u32 = 20;

/// The length in bytes of the UTF-8 encoding of a string (`str::len`).
pub open spec fn byte_len(s: Seq<char>) -> usize {
    crate::text::utf8_len(s) as usize
}

pub(crate) fn byte_length(s: &str) -> (r: usize)
    ensures
        r == byte_len(s@),
{
    s.len()
}

// ---------------------------------------------------------------------------
// Types
// ---------------------------------------------------------------------------

#[derive(Clone, Copy, Debug, PartialEq, Eq, Structural)]
pub enum ApiKeyLocation {
    Header,
    Query,
}

#[derive(Debug)]
pub struct SecretValue {
    pub value: Option<String>,
    pub env: Option<String>,
    pub configured: bool,
}

#[derive(Debug)]
pub enum AuthDefinition {
    Anonymous,
    Bearer { secret: SecretValue },
    ApiKey {
        secret: SecretValue,
        name: String,
        location: ApiKeyLocation,
        prefix: Option<String>,
    },
}

#[derive(Debug)]
pub struct ServerSettings {
    pub allow_http: bool,
    pub spec_with_auth: bool,
    pub user_agent: Option<String>,
    pub connect_timeout_ms: u64,
    pub request_timeout_ms: u64,
    pub max_response_bytes: u64,
    pub max_pages: u64,
    pub max_retries: u64,
}

/// One API source: the foreign server, its schema and the import selection.
/// `headers` and `headers_env` keep their names in ascending order.
#[derive(Debug)]
pub struct SourceDefinition {
    pub name: String,
    pub schema: String,
    pub remote_schema: String,
    pub spec_url: Option<String>,
    pub spec_json: Option<String>,
    pub base_url: Option<String>,
    pub methods: Vec<String>,
    pub include_attrs: bool,
    pub writable: bool,
    pub tables: Vec<String>,
    pub auth: AuthDefinition,
    pub headers: OptionMap,
    pub headers_env: OptionMap,
    pub settings: ServerSettings,
}

#[derive(Debug)]
pub struct Bundle {
    pub api_version: String,
    pub kind: String,
    pub sources: Vec<SourceDefinition>,
}

#[derive(Debug)]
pub struct ApplyRequest {
    pub source: SourceDefinition,
    pub replace: bool,
}

#[derive(Debug)]
pub struct DeleteRequest {
    pub confirm: String,
}

#[derive(Debug)]
pub struct SampleQuery {
    pub limit: u32,
    pub filter_column: Option<String>,
    pub filter_value: Option<String>,
}

#[derive(Debug)]
pub struct ColumnState {
    pub name: String,
    pub data_type: String,
    pub ordinal: i16,
}

#[derive(Debug)]
pub struct TableState {
    pub schema: String,
    pub name: String,
    pub endpoint: String,
    pub method: String,
    pub write_operations: Vec<String>,
    pub columns: Vec<ColumnState>,
}

#[derive(Debug)]
pub struct Discovery {
    pub tables: Vec<TableState>,
    pub sql: String,
}

#[derive(Debug)]
pub struct MutationResult {
    pub ok: bool,
    pub message: String,
    pub sql: String,
}

// ---------------------------------------------------------------------------
// Views
// ---------------------------------------------------------------------------

pub struct SecretV {
    pub value: Option<Seq<char>>,
    pub env: Option<Seq<char>>,
    pub configured: bool,
}

pub enum AuthV {
    Anonymous,
    Bearer { secret: SecretV },
    ApiKey {
        secret: SecretV,
        name: Seq<char>,
        location: ApiKeyLocation,
        prefix: Option<Seq<char>>,
    },
}

pub struct SettingsV {
    pub allow_http: bool,
    pub spec_with_auth: bool,
    pub user_agent: Option<Seq<char>>,
    pub connect_timeout_ms: u64,
    pub request_timeout_ms: u64,
    pub max_response_bytes: u64,
    pub max_pages: u64,
    pub max_retries: u64,
}

pub struct SourceV {
    pub name: Seq<char>,
    pub schema: Seq<char>,
    pub remote_schema: Seq<char>,
    pub spec_url: Option<Seq<char>>,
    pub spec_json: Option<Seq<char>>,
    pub base_url: Option<Seq<char>>,
    pub methods: Seq<Seq<char>>,
    pub include_attrs: bool,
    pub writable: bool,
    pub tables: Seq<Seq<char>>,
    pub auth: AuthV,
    pub headers: Seq<(Seq<char>, Seq<char>)>,
    pub headers_env: Seq<(Seq<char>, Seq<char>)>,
    pub settings: SettingsV,
}

impl View for SecretValue {
    type V = SecretV;

    open spec fn view(&self) -> SecretV {
        SecretV { value: opt_str(self.value), env: opt_str(self.env), configured: self.configured }
    }
}

impl View for AuthDefinition {
    type V = AuthV;

    open spec fn view(&self) -> AuthV {
        match self {
            AuthDefinition::Anonymous => AuthV::Anonymous,
            AuthDefinition::Bearer { secret } => AuthV::Bearer { secret: secret@ },
            AuthDefinition::ApiKey { secret, name, location, prefix } => AuthV::ApiKey {
                secret: secret@,
                name: name@,
                location: *location,
                prefix: opt_str(*prefix),
            },
        }
    }
}

impl View for ServerSettings {
    type V = SettingsV;

    open spec fn view(&self) -> SettingsV {
        SettingsV {
            allow_http: self.allow_http,
            spec_with_auth: self.spec_with_auth,
            user_agent: opt_str(self.user_agent),
            connect_timeout_ms: self.connect_timeout_ms,
            request_timeout_ms: self.request_timeout_ms,
            max_response_bytes: self.max_response_bytes,
            max_pages: self.max_pages,
            max_retries: self.max_retries,
        }
    }
}

impl View for SourceDefinition {
    type V = SourceV;

    open spec fn view(&self) -> SourceV {
        SourceV {
            name: self.name@,
            schema: self.schema@,
            remote_schema: self.remote_schema@,
            spec_url: opt_str(self.spec_url),
            spec_json: opt_str(self.spec_json),
            base_url: opt_str(self.base_url),
            methods: crate::sorting::views(self.methods@),
            include_attrs: self.include_attrs,
            writable: self.writable,
            tables: crate::sorting::views(self.tables@),
            auth: self.auth@,
            headers: self.headers.pairs(),
            headers_env: self.headers_env.pairs(),
            settings: self.settings@,
        }
    }
}

// ---------------------------------------------------------------------------
// Field validators
// ---------------------------------------------------------------------------

pub open spec fn identifier_rest(c: char) -> bool {
    c == '_' || is_lower(c) || is_digit(c)
}

/// A lowercase PostgreSQL identifier: `[_a-z][_a-z0-9]*`, at most 63 bytes
/// (all of its characters are ASCII, so bytes and characters agree).
pub open spec fn valid_identifier(value: Seq<char>) -> bool {
    &&& value.len() <= 63
    &&& value.len() > 0
    &&& (value[0] == '_' || is_lower(value[0]))
    &&& forall|i: int| 1 <= i < value.len() ==> #[trigger] identifier_rest(value[i])
}

pub open spec fn validate_identifier_spec(value: Seq<char>, label: Seq<char>) -> Result<(), Seq<char>> {
    if valid_identifier(value) {
        Ok(())
    } else {
        Err(
            label + " `"@ + value
                + "` must be a lowercase PostgreSQL identifier of at most 63 bytes"@,
        )
    }
}

fn identifier_tail(v: &Vec<char>) -> (r: bool)
    ensures
        r == forall|i: int| 1 <= i < v@.len() ==> #[trigger] identifier_rest(v@[i]),
{
    let mut i: usize = 1;
    while i < v.len()
        invariant
            1 <= i,
            forall|j: int| 1 <= j < i && j < v@.len() ==> #[trigger] identifier_rest(v@[j]),
        decreases v.len() - i,
    {
        let c = v[i];
        if !(c == '_' || ('a' <= c && c <= 'z') || ('0' <= c && c <= '9')) {
            assert(!identifier_rest(v@[i as int]));
            return false;
        }
        i = i + 1;
    }
    true
}

pub fn validate_identifier(value: &str, label: &str) -> (r: Result<(), String>)
    ensures
        match r {
            Ok(()) => validate_identifier_spec(value@, label@) is Ok,
            Err(e) => validate_identifier_spec(value@, label@) == Err::<(), Seq<char>>(e@),
        },
{
    let v = chars_of(value);
    let valid = v.len() <= 63 && v.len() > 0 && (v[0] == '_' || ('a' <= v[0] && v[0] <= 'z'))
        && identifier_tail(&v);
    if valid {
        Ok(())
    } else {
        let mut m = chars_of(label);
        append_str(&mut m, " `");
        append(&mut m, &v);
        append_str(&mut m, "` must be a lowercase PostgreSQL identifier of at most 63 bytes");
        Err(string_of(&m))
    }
}

pub open spec fn validate_environment_name_spec(value: Seq<char>, label: Seq<char>) -> Result<
    (),
    Seq<char>,
> {
    if valid_env_name(value) {
        Ok(())
    } else {
        Err(label + " `"@ + value + "` is not a valid environment-variable name"@)
    }
}

pub fn validate_environment_name(value: &str, label: &str) -> (r: Result<(), String>)
    ensures
        match r {
            Ok(()) => validate_environment_name_spec(value@, label@) is Ok,
            Err(e) => validate_environment_name_spec(value@, label@) == Err::<(), Seq<char>>(e@),
        },
{
    let v = chars_of(value);
    if valid_env_name_exec(&v) {
        Ok(())
    } else {
        let mut m = chars_of(label);
        append_str(&mut m, " `");
        append(&mut m, &v);
        append_str(&mut m, "` is not a valid environment-variable name");
        Err(string_of(&m))
    }
}

/// An HTTP token character (RFC 9110 `tchar`).
pub open spec fn is_tchar(c: char) -> bool {
    ||| crate::text::is_alnum(c)
    ||| c == '!' || c == '#' || c == '$' || c == '%' || c == '&' || c == '\''
    ||| c == '*' || c == '+' || c == '-' || c == '.' || c == '^' || c == '_'
    ||| c == '`' || c == '|' || c == '~'
}

/// A header name: 1 to 128 token characters (ASCII, so bytes and characters
/// agree).
pub open spec fn valid_header_name(value: Seq<char>) -> bool {
    &&& value.len() > 0
    &&& value.len() <= 128
    &&& forall|i: int| 0 <= i < value.len() ==> #[trigger] is_tchar(value[i])
}

pub open spec fn validate_header_name_spec(value: Seq<char>) -> Result<(), Seq<char>> {
    if valid_header_name(value) {
        Ok(())
    } else {
        Err("header name `"@ + value + "` is invalid"@)
    }
}

fn tchar(c: char) -> (r: bool)
    ensures
        r == is_tchar(c),
{
    crate::text::char_is_alnum(c) || c == '!' || c == '#' || c == '$' || c == '%' || c == '&' || c
        == '\'' || c == '*' || c == '+' || c == '-' || c == '.' || c == '^' || c == '_' || c == '`'
        || c == '|' || c == '~'
}

fn all_tchar(v: &Vec<char>) -> (r: bool)
    ensures
        r == forall|i: int| 0 <= i < v@.len() ==> #[trigger] is_tchar(v@[i]),
{
    let mut i: usize = 0;
    while i < v.len()
        invariant
            i <= v.len(),
            forall|j: int| 0 <= j < i ==> #[trigger] is_tchar(v@[j]),
        decreases v.len() - i,
    {
        if !tchar(v[i]) {
            return false;
        }
        i = i + 1;
    }
    true
}

pub fn validate_header_name(value: &str) -> (r: Result<(), String>)
    ensures
        match r {
            Ok(()) => validate_header_name_spec(value@) is Ok,
            Err(e) => validate_header_name_spec(value@) == Err::<(), Seq<char>>(e@),
        },
{
    let v = chars_of(value);
    let valid = v.len() > 0 && v.len() <= 128 && all_tchar(&v);
    if valid {
        Ok(())
    } else {
        let mut m = chars_of("header name `");
        append(&mut m, &v);
        append_str(&mut m, "` is invalid");
        Err(string_of(&m))
    }
}

pub open spec fn validate_http_url_spec(value: Seq<char>, label: Seq<char>, allow_http: bool) -> Result<
    UrlV,
    Seq<char>,
> {
    match url_parse(value) {
        None => Err("`"@ + label + "` is not an absolute URL"@),
        Some(url) => if url.scheme != "https"@ && !(url.scheme == "http"@ && allow_http) {
            if url.scheme == "http"@ {
                Err("`"@ + label + "` uses HTTP; enable allowHttp explicitly"@)
            } else {
                Err("`"@ + label + "` must use HTTP or HTTPS"@)
            }
        } else if url.host is None || url.username.len() > 0 || url.password is Some {
            Err("`"@ + label + "` must have a host and cannot embed credentials"@)
        } else {
            Ok(url)
        },
    }
}

fn label_message(prefix: &str, label: &str, suffix: &str) -> (r: String)
    ensures
        r@ == prefix@ + label@ + suffix@,
{
    let mut m = chars_of(prefix);
    append_str(&mut m, label);
    append_str(&mut m, suffix);
    string_of(&m)
}

pub fn validate_http_url(value: &str, label: &str, allow_http: bool) -> (r: Result<
    UrlParts,
    String,
>)
    ensures
        match r {
            Ok(u) => validate_http_url_spec(value@, label@, allow_http) == Ok::<UrlV, Seq<char>>(
                u@,
            ),
            Err(e) => validate_http_url_spec(value@, label@, allow_http) == Err::<
                UrlV,
                Seq<char>,
            >(e@),
        },
{
    let url = match parse_url(value) {
        Some(u) => u,
        None => return Err(label_message("`", label, "` is not an absolute URL")),
    };
    let https = str_eq(url.scheme.as_str(), "https");
    let http = str_eq(url.scheme.as_str(), "http");
    if !https && !(http && allow_http) {
        if http {
            return Err(label_message("`", label, "` uses HTTP; enable allowHttp explicitly"));
        }
        return Err(label_message("`", label, "` must use HTTP or HTTPS"));
    }
    let user = chars_of(url.username.as_str());
    if url.host.is_none() || user.len() > 0 || url.password.is_some() {
        return Err(label_message("`", label, "` must have a host and cannot embed credentials"));
    }
    Ok(url)
}

pub open spec fn bounded_spec(value: u64, minimum: u64, maximum: u64, label: Seq<char>) -> Result<
    (),
    Seq<char>,
> {
    if minimum <= value && value <= maximum {
        Ok(())
    } else {
        Err(
            label + " must be between "@ + decimal(minimum as nat) + " and "@ + decimal(
                maximum as nat,
            ),
        )
    }
}

pub fn bounded(value: u64, minimum: u64, maximum: u64, label: &str) -> (r: Result<(), String>)
    ensures
        match r {
            Ok(()) => bounded_spec(value, minimum, maximum, label@) is Ok,
            Err(e) => bounded_spec(value, minimum, maximum, label@) == Err::<(), Seq<char>>(e@),
        },
{
    if minimum <= value && value <= maximum {
        Ok(())
    } else {
        let mut m = chars_of(label);
        append_str(&mut m, " must be between ");
        let a = decimal_of(minimum);
        append(&mut m, &a);
        append_str(&mut m, " and ");
        let b = decimal_of(maximum);
        append(&mut m, &b);
        Err(string_of(&m))
    }
}

// ---------------------------------------------------------------------------
// Secrets, authentication and server settings
// ---------------------------------------------------------------------------

/// An empty string counts as absent.
pub open spec fn present(v: Option<Seq<char>>) -> Option<Seq<char>> {
    match v {
        Some(x) => if x.len() == 0 {
            None
        } else {
            Some(x)
        },
        None => None,
    }
}

pub open spec fn secret_validate_spec(s: SecretV, label: Seq<char>, require_credentials: bool) -> Result<
    (),
    Seq<char>,
> {
    let value = present(s.value);
    let environment = present(s.env);
    if value is Some && environment is Some {
        Err("configure "@ + label + " as a literal or environment reference, not both"@)
    } else if environment is Some && validate_environment_name_spec(environment->0, label) is Err {
        validate_environment_name_spec(environment->0, label)
    } else if require_credentials && value is None && environment is None {
        Err(
            label + ": "@ + if s.configured {
                "the exported value was redacted; re-enter it"@
            } else {
                "a value or environment reference is required"@
            },
        )
    } else {
        Ok(())
    }
}

/// A secret without its literal value: the environment reference stays, and
/// `configured` records that a literal was set.
pub open spec fn secret_redacted(s: SecretV) -> SecretV {
    SecretV {
        value: None,
        env: s.env,
        configured: s.configured || (s.value is Some && s.value->0.len() > 0),
    }
}

fn filled(v: &Option<String>) -> (r: Option<&String>)
    ensures
        match r {
            Some(x) => present(opt_str(*v)) == Some(x@),
            None => present(opt_str(*v)) is None,
        },
{
    match v {
        Some(x) => {
            if x.as_str().is_empty() {
                None
            } else {
                Some(x)
            }
        },
        None => None,
    }
}

impl SecretValue {
    pub fn validate(&self, label: &str, require_credentials: bool) -> (r: Result<(), String>)
        ensures
            match r {
                Ok(()) => secret_validate_spec(self@, label@, require_credentials) is Ok,
                Err(e) => secret_validate_spec(self@, label@, require_credentials) == Err::<
                    (),
                    Seq<char>,
                >(e@),
            },
    {
        let value = filled(&self.value);
        let environment = filled(&self.env);
        if value.is_some() && environment.is_some() {
            return Err(
                label_message("configure ", label, " as a literal or environment reference, not both"),
            );
        }
        match environment {
            Some(e) => match validate_environment_name(e.as_str(), label) {
                Ok(()) => {},
                Err(err) => return Err(err),
            },
            None => {},
        }
        if require_credentials && value.is_none() && environment.is_none() {
            let detail = if self.configured {
                "the exported value was redacted; re-enter it"
            } else {
                "a value or environment reference is required"
            };
            let mut m = chars_of(label);
            append_str(&mut m, ": ");
            append_str(&mut m, detail);
            return Err(string_of(&m));
        }
        Ok(())
    }

    pub fn redacted(&self) -> (r: SecretValue)
        ensures
            r@ == secret_redacted(self@),
    {
        let configured = self.configured || match &self.value {
            Some(v) => !v.as_str().is_empty(),
            None => false,
        };
        SecretValue { value: None, env: crate::urls::clone_opt(&self.env), configured }
    }

    pub fn duplicate(&self) -> (r: SecretValue)
        ensures
            r@ == self@,
    {
        SecretValue {
            value: crate::urls::clone_opt(&self.value),
            env: crate::urls::clone_opt(&self.env),
            configured: self.configured,
        }
    }
}

pub open spec fn auth_validate_spec(a: AuthV, require_credentials: bool) -> Result<(), Seq<char>> {
    match a {
        AuthV::Anonymous => Ok(()),
        AuthV::Bearer { secret } => secret_validate_spec(secret, "bearer token"@, require_credentials),
        AuthV::ApiKey { secret, name, prefix, .. } => match secret_validate_spec(
            secret,
            "API key"@,
            require_credentials,
        ) {
            Err(e) => Err(e),
            Ok(()) => if trim(name).len() == 0 || byte_len(name) > 128 {
                Err("API-key name must contain 1 to 128 characters"@)
            } else if prefix is Some && byte_len(prefix->0) > 64 {
                Err("API-key prefix cannot exceed 64 characters"@)
            } else {
                Ok(())
            },
        },
    }
}

pub open spec fn auth_redacted(a: AuthV) -> AuthV {
    match a {
        AuthV::Anonymous => AuthV::Anonymous,
        AuthV::Bearer { secret } => AuthV::Bearer { secret: secret_redacted(secret) },
        AuthV::ApiKey { secret, name, location, prefix } => AuthV::ApiKey {
            secret: secret_redacted(secret),
            name,
            location,
            prefix,
        },
    }
}

impl AuthDefinition {
    pub fn validate(&self, require_credentials: bool) -> (r: Result<(), String>)
        ensures
            match r {
                Ok(()) => auth_validate_spec(self@, require_credentials) is Ok,
                Err(e) => auth_validate_spec(self@, require_credentials) == Err::<(), Seq<char>>(
                    e@,
                ),
            },
    {
        match self {
            AuthDefinition::Anonymous => Ok(()),
            AuthDefinition::Bearer { secret } => secret.validate("bearer token", require_credentials),
            AuthDefinition::ApiKey { secret, name, prefix, .. } => {
                match secret.validate("API key", require_credentials) {
                    Ok(()) => {},
                    Err(e) => return Err(e),
                }
                if crate::text::is_blank(name.as_str()) || byte_length(name.as_str()) > 128 {
                    return Err(crate::text::str_to_string("API-key name must contain 1 to 128 characters"));
                }
                match prefix {
                    Some(p) => if byte_length(p.as_str()) > 64 {
                        return Err(crate::text::str_to_string("API-key prefix cannot exceed 64 characters"));
                    },
                    None => {},
                }
                Ok(())
            },
        }
    }

    pub fn redacted(&self) -> (r: AuthDefinition)
        ensures
            r@ == auth_redacted(self@),
    {
        match self {
            AuthDefinition::Anonymous => AuthDefinition::Anonymous,
            AuthDefinition::Bearer { secret } => AuthDefinition::Bearer { secret: secret.redacted() },
            AuthDefinition::ApiKey { secret, name, location, prefix } => AuthDefinition::ApiKey {
                secret: secret.redacted(),
                name: name.clone(),
                location: *location,
                prefix: crate::urls::clone_opt(prefix),
            },
        }
    }

    pub fn duplicate(&self) -> (r: AuthDefinition)
        ensures
            r@ == self@,
    {
        match self {
            AuthDefinition::Anonymous => AuthDefinition::Anonymous,
            AuthDefinition::Bearer { secret } => AuthDefinition::Bearer { secret: secret.duplicate() },
            AuthDefinition::ApiKey { secret, name, location, prefix } => AuthDefinition::ApiKey {
                secret: secret.duplicate(),
                name: name.clone(),
                location: *location,
                prefix: crate::urls::clone_opt(prefix),
            },
        }
    }
}

pub open spec fn settings_validate_spec(s: SettingsV) -> Result<(), Seq<char>> {
    if bounded_spec(s.connect_timeout_ms, 1, 300_000, "connectTimeoutMs"@) is Err {
        bounded_spec(s.connect_timeout_ms, 1, 300_000, "connectTimeoutMs"@)
    } else if bounded_spec(s.request_timeout_ms, 1, 3_600_000, "requestTimeoutMs"@) is Err {
        bounded_spec(s.request_timeout_ms, 1, 3_600_000, "requestTimeoutMs"@)
    } else if bounded_spec(s.max_response_bytes, 1, 536_870_912, "maxResponseBytes"@) is Err {
        bounded_spec(s.max_response_bytes, 1, 536_870_912, "maxResponseBytes"@)
    } else if bounded_spec(s.max_pages, 1, 10_000, "maxPages"@) is Err {
        bounded_spec(s.max_pages, 1, 10_000, "maxPages"@)
    } else if bounded_spec(s.max_retries, 0, 10, "maxRetries"@) is Err {
        bounded_spec(s.max_retries, 0, 10, "maxRetries"@)
    } else if s.user_agent is Some && byte_len(s.user_agent->0) > 512 {
        Err("userAgent cannot exceed 512 characters"@)
    } else {
        Ok(())
    }
}

impl ServerSettings {
    pub fn validate(&self) -> (r: Result<(), String>)
        ensures
            match r {
                Ok(()) => settings_validate_spec(self@) is Ok,
                Err(e) => settings_validate_spec(self@) == Err::<(), Seq<char>>(e@),
            },
    {
        match bounded(self.connect_timeout_ms, 1, 300_000, "connectTimeoutMs") {
            Ok(()) => {},
            Err(e) => return Err(e),
        }
        match bounded(self.request_timeout_ms, 1, 3_600_000, "requestTimeoutMs") {
            Ok(()) => {},
            Err(e) => return Err(e),
        }
        match bounded(self.max_response_bytes, 1, 536_870_912, "maxResponseBytes") {
            Ok(()) => {},
            Err(e) => return Err(e),
        }
        match bounded(self.max_pages, 1, 10_000, "maxPages") {
            Ok(()) => {},
            Err(e) => return Err(e),
        }
        match bounded(self.max_retries, 0, 10, "maxRetries") {
            Ok(()) => {},
            Err(e) => return Err(e),
        }
        match &self.user_agent {
            Some(agent) => if byte_length(agent.as_str()) > 512 {
                return Err(crate::text::str_to_string("userAgent cannot exceed 512 characters"));
            },
            None => {},
        }
        Ok(())
    }

    pub fn duplicate(&self) -> (r: ServerSettings)
        ensures
            r@ == self@,
    {
        ServerSettings {
            allow_http: self.allow_http,
            spec_with_auth: self.spec_with_auth,
            user_agent: crate::urls::clone_opt(&self.user_agent),
            connect_timeout_ms: self.connect_timeout_ms,
            request_timeout_ms: self.request_timeout_ms,
            max_response_bytes: self.max_response_bytes,
            max_pages: self.max_pages,
            max_retries: self.max_retries,
        }
    }
}

pub open spec fn default_settings() -> SettingsV {
    SettingsV {
        allow_http: false,
        spec_with_auth: false,
        user_agent: None,
        connect_timeout_ms: DEFAULT_CONNECT_TIMEOUT_MS,
        request_timeout_ms: DEFAULT_REQUEST_TIMEOUT_MS,
        max_response_bytes: DEFAULT_MAX_RESPONSE_BYTES,
        max_pages: DEFAULT_MAX_PAGES,
        max_retries: DEFAULT_MAX_RETRIES,
    }
}

impl Default for ServerSettings {
    fn default() -> (r: ServerSettings)
        ensures
            r@ == default_settings(),
    {
        ServerSettings {
            allow_http: false,
            spec_with_auth: false,
            user_agent: None,
            connect_timeout_ms: DEFAULT_CONNECT_TIMEOUT_MS,
            request_timeout_ms: DEFAULT_REQUEST_TIMEOUT_MS,
            max_response_bytes: DEFAULT_MAX_RESPONSE_BYTES,
            max_pages: DEFAULT_MAX_PAGES,
            max_retries: DEFAULT_MAX_RETRIES,
        }
    }
}

// ---------------------------------------------------------------------------
// Source definitions
// ---------------------------------------------------------------------------

/// The first failing check over a list, in order.
pub open spec fn first_error(
    items: Seq<Seq<char>>,
    check: spec_fn(Seq<char>) -> Result<(), Seq<char>>,
) -> Result<(), Seq<char>>
    decreases items.len(),
{
    if items.len() == 0 {
        Ok(())
    } else {
        match check(items[0]) {
            Err(e) => Err(e),
            Ok(()) => first_error(items.drop_first(), check),
        }
    }
}

pub proof fn lemma_first_error_step(
    items: Seq<Seq<char>>,
    check: spec_fn(Seq<char>) -> Result<(), Seq<char>>,
    i: int,
)
    requires
        0 <= i < items.len(),
    ensures
        first_error(items.skip(i), check) == match check(items[i]) {
            Err(e) => Err(e),
            Ok(()) => first_error(items.skip(i + 1), check),
        },
{
    assert(items.skip(i).drop_first() =~= items.skip(i + 1));
}

pub open spec fn method_key(m: Seq<char>) -> Seq<char> {
    upper(trim(m))
}

/// The import methods in order: each `GET` or `POST` (ignoring case and
/// surrounding space), none twice.
pub open spec fn methods_spec(ms: Seq<Seq<char>>, seen: Seq<Seq<char>>) -> Result<(), Seq<char>>
    decreases ms.len(),
{
    if ms.len() == 0 {
        Ok(())
    } else {
        let n = method_key(ms[0]);
        if n != "GET"@ && n != "POST"@ {
            Err("unsupported method `"@ + ms[0] + "`; use GET or POST"@)
        } else if seen.contains(n) {
            Err("method `"@ + ms[0] + "` is listed more than once"@)
        } else {
            methods_spec(ms.drop_first(), seen.push(n))
        }
    }
}

pub open spec fn keys_of(m: Seq<(Seq<char>, Seq<char>)>) -> Seq<Seq<char>> {
    m.map_values(|p: (Seq<char>, Seq<char>)| p.0)
}

pub open spec fn values_of(m: Seq<(Seq<char>, Seq<char>)>) -> Seq<Seq<char>> {
    m.map_values(|p: (Seq<char>, Seq<char>)| p.1)
}

pub open spec fn header_conflict(
    literal: Seq<(Seq<char>, Seq<char>)>,
    environment: Seq<(Seq<char>, Seq<char>)>,
) -> bool {
    exists|i: int, j: int|
        0 <= i < literal.len() && 0 <= j < environment.len() && eq_ignore_case(
            #[trigger] literal[i].0,
            #[trigger] environment[j].0,
        )
}

pub open spec fn has_redacted_value(m: Seq<(Seq<char>, Seq<char>)>) -> bool {
    exists|i: int| 0 <= i < m.len() && #[trigger] m[i].1 == "[REDACTED]"@
}

/// Identifiers, the document source, the base URL, methods and tables.
pub open spec fn source_head_spec(s: SourceV) -> Result<(), Seq<char>> {
    if validate_identifier_spec(s.name, "source name"@) is Err {
        validate_identifier_spec(s.name, "source name"@)
    } else if validate_identifier_spec(s.schema, "schema"@) is Err {
        validate_identifier_spec(s.schema, "schema"@)
    } else if validate_identifier_spec(s.remote_schema, "remote schema"@) is Err {
        validate_identifier_spec(s.remote_schema, "remote schema"@)
    } else if s.spec_url is Some && s.spec_json is Some {
        Err("provide `specUrl` or `specJson`, not both"@)
    } else if s.spec_url is None && s.spec_json is None {
        Err("one of `specUrl` or `specJson` is required"@)
    } else if s.spec_url is Some && validate_http_url_spec(
        s.spec_url->0,
        "specUrl"@,
        s.settings.allow_http,
    ) is Err {
        Err(validate_http_url_spec(s.spec_url->0, "specUrl"@, s.settings.allow_http)->Err_0)
    } else if s.spec_json is Some && trim(s.spec_json->0).len() == 0 {
        Err("`specJson` cannot be empty"@)
    } else if s.base_url is Some && validate_http_url_spec(
        s.base_url->0,
        "baseUrl"@,
        s.settings.allow_http,
    ) is Err {
        Err(validate_http_url_spec(s.base_url->0, "baseUrl"@, s.settings.allow_http)->Err_0)
    } else if s.base_url is Some && (validate_http_url_spec(
        s.base_url->0,
        "baseUrl"@,
        s.settings.allow_http,
    )->Ok_0.query is Some || validate_http_url_spec(
        s.base_url->0,
        "baseUrl"@,
        s.settings.allow_http,
    )->Ok_0.fragment is Some) {
        Err("`baseUrl` cannot contain a query string or fragment"@)
    } else if s.methods.len() == 0 {
        Err("select at least one import method"@)
    } else if methods_spec(s.methods, Seq::empty()) is Err {
        methods_spec(s.methods, Seq::empty())
    } else if first_error(s.tables, |t: Seq<char>| validate_identifier_spec(t, "table"@)) is Err {
        first_error(s.tables, |t: Seq<char>| validate_identifier_spec(t, "table"@))
    } else if !s.tables.no_duplicates() {
        Err("the selected table list contains duplicates"@)
    } else {
        Ok(())
    }
}

/// Headers, authentication and settings.
pub open spec fn source_tail_spec(s: SourceV, require_credentials: bool) -> Result<(), Seq<char>> {
    let names = keys_of(s.headers) + keys_of(s.headers_env);
    if first_error(names, |n: Seq<char>| validate_header_name_spec(n)) is Err {
        first_error(names, |n: Seq<char>| validate_header_name_spec(n))
    } else if first_error(
        values_of(s.headers_env),
        |v: Seq<char>| validate_environment_name_spec(v, "header environment variable"@),
    ) is Err {
        first_error(
            values_of(s.headers_env),
            |v: Seq<char>| validate_environment_name_spec(v, "header environment variable"@),
        )
    } else if header_conflict(s.headers, s.headers_env) {
        Err("a header cannot be configured both literally and by environment"@)
    } else if has_redacted_value(s.headers) && require_credentials {
        Err("re-enter redacted literal header values before applying"@)
    } else if auth_validate_spec(s.auth, require_credentials) is Err {
        auth_validate_spec(s.auth, require_credentials)
    } else {
        settings_validate_spec(s.settings)
    }
}

pub open spec fn source_validate_spec(s: SourceV, require_credentials: bool) -> Result<(), Seq<char>> {
    match source_head_spec(s) {
        Err(e) => Err(e),
        Ok(()) => source_tail_spec(s, require_credentials),
    }
}

pub open spec fn same_unit(r: Result<(), String>, s: Result<(), Seq<char>>) -> bool {
    match r {
        Ok(()) => s is Ok,
        Err(e) => s == Err::<(), Seq<char>>(e@),
    }
}

fn contains_chars(seen: &Vec<Vec<char>>, n: &Vec<char>) -> (r: bool)
    ensures
        r == seen@.map_values(|v: Vec<char>| v@).contains(n@),
{
    let ghost sv = seen@.map_values(|v: Vec<char>| v@);
    let mut j: usize = 0;
    while j < seen.len()
        invariant
            j <= seen.len(),
            sv == seen@.map_values(|v: Vec<char>| v@),
            forall|k: int| 0 <= k < j ==> sv[k] != n@,
        decreases seen.len() - j,
    {
        if crate::text::seq_eq(&seen[j], n) {
            assert(sv[j as int] == n@);
            return true;
        }
        j = j + 1;
    }
    false
}

fn check_methods(methods: &Vec<String>) -> (r: Result<(), String>)
    ensures
        same_unit(r, methods_spec(crate::sorting::views(methods@), Seq::empty())),
{
    let ghost ms = crate::sorting::views(methods@);
    let mut seen: Vec<Vec<char>> = Vec::new();
    let mut i: usize = 0;
    assert(ms.skip(0) =~= ms);
    assert(seen@.map_values(|v: Vec<char>| v@) =~= Seq::<Seq<char>>::empty());
    while i < methods.len()
        invariant
            i <= methods.len(),
            ms == crate::sorting::views(methods@),
            methods_spec(ms, Seq::empty()) == methods_spec(
                ms.skip(i as int),
                seen@.map_values(|v: Vec<char>| v@),
            ),
        decreases methods.len() - i,
    {
        let ghost sv = seen@.map_values(|v: Vec<char>| v@);
        assert(ms.skip(i as int).drop_first() =~= ms.skip(i + 1));
        assert(ms.skip(i as int)[0] == methods@[i as int]@);
        let raw = chars_of(methods[i].as_str());
        let trimmed = crate::text::trim_exec(&raw);
        let n = crate::text::upper_of(&trimmed);
        if !crate::text::seq_eq_str(&n, "GET") && !crate::text::seq_eq_str(&n, "POST") {
            return Err(label_message("unsupported method `", methods[i].as_str(), "`; use GET or POST"));
        }
        if contains_chars(&seen, &n) {
            return Err(label_message("method `", methods[i].as_str(), "` is listed more than once"));
        }
        seen.push(n);
        assert(seen@.map_values(|v: Vec<char>| v@) =~= sv.push(n@));
        i = i + 1;
    }
    Ok(())
}

fn check_identifiers(items: &Vec<String>, label: &str) -> (r: Result<(), String>)
    ensures
        same_unit(
            r,
            first_error(
                crate::sorting::views(items@),
                |t: Seq<char>| validate_identifier_spec(t, label@),
            ),
        ),
{
    let ghost xs = crate::sorting::views(items@);
    let ghost check = |t: Seq<char>| validate_identifier_spec(t, label@);
    let mut i: usize = 0;
    assert(xs.skip(0) =~= xs);
    while i < items.len()
        invariant
            i <= items.len(),
            xs == crate::sorting::views(items@),
            check == (|t: Seq<char>| validate_identifier_spec(t, label@)),
            first_error(xs, check) == first_error(xs.skip(i as int), check),
        decreases items.len() - i,
    {
        proof {
            lemma_first_error_step(xs, check, i as int);
        }
        match validate_identifier(items[i].as_str(), label) {
            Ok(()) => {},
            Err(e) => return Err(e),
        }
        i = i + 1;
    }
    assert(xs.skip(i as int) =~= Seq::<Seq<char>>::empty());
    Ok(())
}

fn has_duplicates(items: &Vec<String>) -> (r: bool)
    ensures
        r == !crate::sorting::views(items@).no_duplicates(),
{
    let ghost xs = crate::sorting::views(items@);
    let mut i: usize = 0;
    while i < items.len()
        invariant
            i <= items.len(),
            xs == crate::sorting::views(items@),
            forall|a: int, b: int| 0 <= a < i && 0 <= b < i && a != b ==> xs[a] != xs[b],
        decreases items.len() - i,
    {
        let mut j: usize = 0;
        while j < i
            invariant
                j <= i < items.len(),
                xs == crate::sorting::views(items@),
                forall|b: int| 0 <= b < j ==> xs[b] != xs[i as int],
            decreases i - j,
        {
            if str_eq(items[j].as_str(), items[i].as_str()) {
                assert(xs[j as int] == xs[i as int]);
                return true;
            }
            j = j + 1;
        }
        i = i + 1;
    }
    false
}

impl SourceDefinition {
    fn validate_head(&self) -> (r: Result<(), String>)
        ensures
            same_unit(r, source_head_spec(self@)),
    {
        match validate_identifier(self.name.as_str(), "source name") {
            Ok(()) => {},
            Err(e) => return Err(e),
        }
        match validate_identifier(self.schema.as_str(), "schema") {
            Ok(()) => {},
            Err(e) => return Err(e),
        }
        match validate_identifier(self.remote_schema.as_str(), "remote schema") {
            Ok(()) => {},
            Err(e) => return Err(e),
        }
        if self.spec_url.is_some() && self.spec_json.is_some() {
            return Err(crate::text::str_to_string("provide `specUrl` or `specJson`, not both"));
        }
        if self.spec_url.is_none() && self.spec_json.is_none() {
            return Err(crate::text::str_to_string("one of `specUrl` or `specJson` is required"));
        }
        match &self.spec_url {
            Some(u) => match validate_http_url(u.as_str(), "specUrl", self.settings.allow_http) {
                Ok(_) => {},
                Err(e) => return Err(e),
            },
            None => {},
        }
        match &self.spec_json {
            Some(j) => if crate::text::is_blank(j.as_str()) {
                return Err(crate::text::str_to_string("`specJson` cannot be empty"));
            },
            None => {},
        }
        match &self.base_url {
            Some(u) => match validate_http_url(u.as_str(), "baseUrl", self.settings.allow_http) {
                Ok(parsed) => if parsed.query.is_some() || parsed.fragment.is_some() {
                    return Err(
                        crate::text::str_to_string("`baseUrl` cannot contain a query string or fragment"),
                    );
                },
                Err(e) => return Err(e),
            },
            None => {},
        }
        if self.methods.len() == 0 {
            return Err(crate::text::str_to_string("select at least one import method"));
        }
        match check_methods(&self.methods) {
            Ok(()) => {},
            Err(e) => return Err(e),
        }
        match check_identifiers(&self.tables, "table") {
            Ok(()) => {},
            Err(e) => return Err(e),
        }
        if has_duplicates(&self.tables) {
            return Err(crate::text::str_to_string("the selected table list contains duplicates"));
        }
        Ok(())
    }
}

fn check_header_names(headers: &OptionMap, headers_env: &OptionMap) -> (r: Result<(), String>)
    ensures
        same_unit(
            r,
            first_error(
                keys_of(headers.pairs()) + keys_of(headers_env.pairs()),
                |n: Seq<char>| validate_header_name_spec(n),
            ),
        ),
{
    let ghost names = keys_of(headers.pairs()) + keys_of(headers_env.pairs());
    let ghost check = |n: Seq<char>| validate_header_name_spec(n);
    let ghost n1 = headers.entries.len();
    assert(names.skip(0) =~= names);
    let mut i: usize = 0;
    while i < headers.entries.len()
        invariant
            i <= headers.entries.len(),
            n1 == headers.entries.len(),
            names == keys_of(headers.pairs()) + keys_of(headers_env.pairs()),
            check == (|n: Seq<char>| validate_header_name_spec(n)),
            first_error(names, check) == first_error(names.skip(i as int), check),
        decreases headers.entries.len() - i,
    {
        proof {
            lemma_first_error_step(names, check, i as int);
            assert(names[i as int] == headers.entries@[i as int].0@);
        }
        match validate_header_name(headers.entries[i].0.as_str()) {
            Ok(()) => {},
            Err(e) => return Err(e),
        }
        i = i + 1;
    }
    let mut j: usize = 0;
    while j < headers_env.entries.len()
        invariant
            j <= headers_env.entries.len(),
            n1 == headers.entries.len(),
            names == keys_of(headers.pairs()) + keys_of(headers_env.pairs()),
            names.len() == n1 + headers_env.entries.len(),
            check == (|n: Seq<char>| validate_header_name_spec(n)),
            first_error(names, check) == first_error(names.skip(n1 + j), check),
        decreases headers_env.entries.len() - j,
    {
        proof {
            lemma_first_error_step(names, check, n1 + j);
            assert(names[n1 + j] == headers_env.entries@[j as int].0@);
        }
        match validate_header_name(headers_env.entries[j].0.as_str()) {
            Ok(()) => {},
            Err(e) => return Err(e),
        }
        j = j + 1;
    }
    assert(names.skip(n1 + j) =~= Seq::<Seq<char>>::empty());
    Ok(())
}

fn check_environment_values(headers_env: &OptionMap) -> (r: Result<(), String>)
    ensures
        same_unit(
            r,
            first_error(
                values_of(headers_env.pairs()),
                |v: Seq<char>| validate_environment_name_spec(v, "header environment variable"@),
            ),
        ),
{
    let ghost xs = values_of(headers_env.pairs());
    let ghost check = |v: Seq<char>| validate_environment_name_spec(v, "header environment variable"@);
    assert(xs.skip(0) =~= xs);
    let mut i: usize = 0;
    while i < headers_env.entries.len()
        invariant
            i <= headers_env.entries.len(),
            xs == values_of(headers_env.pairs()),
            check == (|v: Seq<char>| validate_environment_name_spec(v, "header environment variable"@)),
            first_error(xs, check) == first_error(xs.skip(i as int), check),
        decreases headers_env.entries.len() - i,
    {
        proof {
            lemma_first_error_step(xs, check, i as int);
            assert(xs[i as int] == headers_env.entries@[i as int].1@);
        }
        match validate_environment_name(headers_env.entries[i].1.as_str(), "header environment variable") {
            Ok(()) => {},
            Err(e) => return Err(e),
        }
        i = i + 1;
    }
    assert(xs.skip(i as int) =~= Seq::<Seq<char>>::empty());
    Ok(())
}

fn conflicting(literal: &OptionMap, environment: &OptionMap) -> (r: bool)
    ensures
        r == header_conflict(literal.pairs(), environment.pairs()),
{
    let ghost l = literal.pairs();
    let ghost e = environment.pairs();
    let mut i: usize = 0;
    while i < literal.entries.len()
        invariant
            i <= literal.entries.len(),
            l == literal.pairs(),
            e == environment.pairs(),
            forall|a: int, b: int|
                0 <= a < i && 0 <= b < e.len() ==> !eq_ignore_case(#[trigger] l[a].0, #[trigger] e[b].0),
        decreases literal.entries.len() - i,
    {
        let x = chars_of(literal.entries[i].0.as_str());
        let mut j: usize = 0;
        while j < environment.entries.len()
            invariant
                j <= environment.entries.len(),
                i < literal.entries.len(),
                l == literal.pairs(),
                e == environment.pairs(),
                x@ == l[i as int].0,
                forall|b: int| 0 <= b < j ==> !eq_ignore_case(x@, #[trigger] e[b].0),
            decreases environment.entries.len() - j,
        {
            let y = chars_of(environment.entries[j].0.as_str());
            if eq_ignore_case_exec(&x, &y) {
                assert(eq_ignore_case(l[i as int].0, e[j as int].0));
                return true;
            }
            j = j + 1;
        }
        i = i + 1;
    }
    false
}

fn any_redacted(m: &OptionMap) -> (r: bool)
    ensures
        r == has_redacted_value(m.pairs()),
{
    let ghost p = m.pairs();
    let mut i: usize = 0;
    while i < m.entries.len()
        invariant
            i <= m.entries.len(),
            p == m.pairs(),
            forall|a: int| 0 <= a < i ==> #[trigger] p[a].1 != "[REDACTED]"@,
        decreases m.entries.len() - i,
    {
        if str_eq(m.entries[i].1.as_str(), "[REDACTED]") {
            assert(p[i as int].1 == "[REDACTED]"@);
            return true;
        }
        i = i + 1;
    }
    false
}

impl SourceDefinition {
    fn validate_tail(&self, require_credentials: bool) -> (r: Result<(), String>)
        ensures
            same_unit(r, source_tail_spec(self@, require_credentials)),
    {
        match check_header_names(&self.headers, &self.headers_env) {
            Ok(()) => {},
            Err(e) => return Err(e),
        }
        match check_environment_values(&self.headers_env) {
            Ok(()) => {},
            Err(e) => return Err(e),
        }
        if conflicting(&self.headers, &self.headers_env) {
            return Err(
                crate::text::str_to_string(
                    "a header cannot be configured both literally and by environment",
                ),
            );
        }
        if any_redacted(&self.headers) && require_credentials {
            return Err(
                crate::text::str_to_string("re-enter redacted literal header values before applying"),
            );
        }
        match self.auth.validate(require_credentials) {
            Ok(()) => {},
            Err(e) => return Err(e),
        }
        self.settings.validate()
    }

    /// Checks a definition before it is planned or applied. With
    /// `require_credentials`, every secret must have a value or an environment
    /// reference.
    pub fn validate(&self, require_credentials: bool) -> (r: Result<(), String>)
        ensures
            same_unit(r, source_validate_spec(self@, require_credentials)),
    {
        match self.validate_head() {
            Ok(()) => {},
            Err(e) => return Err(e),
        }
        self.validate_tail(require_credentials)
    }
}

// ---------------------------------------------------------------------------
// Redaction and normalized methods
// ---------------------------------------------------------------------------

pub open spec fn redact_values(m: Seq<(Seq<char>, Seq<char>)>) -> Seq<(Seq<char>, Seq<char>)> {
    m.map_values(|p: (Seq<char>, Seq<char>)| (p.0, "[REDACTED]"@))
}

/// A definition that can be exported: literal header values and literal
/// secrets are gone; names, environment references and settings stay.
pub open spec fn source_redacted(s: SourceV) -> SourceV {
    SourceV {
        name: s.name,
        schema: s.schema,
        remote_schema: s.remote_schema,
        spec_url: s.spec_url,
        spec_json: s.spec_json,
        base_url: s.base_url,
        methods: s.methods,
        include_attrs: s.include_attrs,
        writable: s.writable,
        tables: s.tables,
        auth: auth_redacted(s.auth),
        headers: redact_values(s.headers),
        headers_env: s.headers_env,
        settings: s.settings,
    }
}

fn clone_strings(v: &Vec<String>) -> (r: Vec<String>)
    ensures
        crate::sorting::views(r@) == crate::sorting::views(v@),
{
    let mut out: Vec<String> = Vec::new();
    let mut i: usize = 0;
    while i < v.len()
        invariant
            i <= v.len(),
            crate::sorting::views(out@) == crate::sorting::views(v@).take(i as int),
        decreases v.len() - i,
    {
        let ghost before = out@;
        out.push(v[i].clone());
        proof {
            crate::sorting::lemma_views_push(before, v@[i as int]);
            assert(crate::sorting::views(v@).take(i + 1) =~= crate::sorting::views(v@).take(
                i as int,
            ).push(v@[i as int]@));
        }
        i = i + 1;
    }
    assert(crate::sorting::views(v@).take(v.len() as int) =~= crate::sorting::views(v@));
    out
}

fn redact_map(m: &OptionMap) -> (r: OptionMap)
    ensures
        r.pairs() == redact_values(m.pairs()),
{
    let mut out: Vec<(String, String)> = Vec::new();
    let mut i: usize = 0;
    while i < m.entries.len()
        invariant
            i <= m.entries.len(),
            out@.len() == i,
            m.pairs().len() == m.entries.len(),
            crate::option_map::pairs_view(out@) == redact_values(m.pairs()).take(i as int),
        decreases m.entries.len() - i,
    {
        let ghost before = out@;
        let name = m.entries[i].0.clone();
        let value = crate::text::str_to_string("[REDACTED]");
        out.push((name, value));
        proof {
            let a = crate::option_map::pairs_view(out@);
            let b = redact_values(m.pairs()).take(i + 1);
            assert(a.len() == b.len());
            assert forall|j: int| 0 <= j < a.len() implies a[j] == b[j] by {
                if j < i {
                    assert(out@[j] == before[j]);
                    assert(crate::option_map::pairs_view(before)[j] == redact_values(m.pairs()).take(
                        i as int,
                    )[j]);
                } else {
                    assert(out@[j] == (name, value));
                    assert(m.pairs()[j] == (m.entries@[j].0@, m.entries@[j].1@));
                }
            }
            assert(a =~= b);
        }
        i = i + 1;
    }
    assert(redact_values(m.pairs()).take(m.entries.len() as int) =~= redact_values(m.pairs()));
    OptionMap { entries: out }
}

impl SourceDefinition {
    /// The definition with literal secrets replaced, as it is exported.
    pub fn redacted(&self) -> (r: SourceDefinition)
        ensures
            r@ == source_redacted(self@),
    {
        SourceDefinition {
            name: self.name.clone(),
            schema: self.schema.clone(),
            remote_schema: self.remote_schema.clone(),
            spec_url: crate::urls::clone_opt(&self.spec_url),
            spec_json: crate::urls::clone_opt(&self.spec_json),
            base_url: crate::urls::clone_opt(&self.base_url),
            methods: clone_strings(&self.methods),
            include_attrs: self.include_attrs,
            writable: self.writable,
            tables: clone_strings(&self.tables),
            auth: self.auth.redacted(),
            headers: redact_map(&self.headers),
            headers_env: self.headers_env.duplicate(),
            settings: self.settings.duplicate(),
        }
    }

    pub fn duplicate(&self) -> (r: SourceDefinition)
        ensures
            r@ == self@,
    {
        SourceDefinition {
            name: self.name.clone(),
            schema: self.schema.clone(),
            remote_schema: self.remote_schema.clone(),
            spec_url: crate::urls::clone_opt(&self.spec_url),
            spec_json: crate::urls::clone_opt(&self.spec_json),
            base_url: crate::urls::clone_opt(&self.base_url),
            methods: clone_strings(&self.methods),
            include_attrs: self.include_attrs,
            writable: self.writable,
            tables: clone_strings(&self.tables),
            auth: self.auth.duplicate(),
            headers: self.headers.duplicate(),
            headers_env: self.headers_env.duplicate(),
            settings: self.settings.duplicate(),
        }
    }

    /// The import methods as the `methods` option of `IMPORT FOREIGN SCHEMA`
    /// takes them: trimmed, upper case, comma separated.
    pub fn normalized_methods(&self) -> (r: String)
        ensures
            r@ == crate::text::join(self@.methods.map_values(|m: Seq<char>| method_key(m)), ","@),
    {
        let ghost ms = self@.methods;
        let mut keys: Vec<Vec<char>> = Vec::new();
        let mut i: usize = 0;
        while i < self.methods.len()
            invariant
                i <= self.methods.len(),
                ms == crate::sorting::views(self.methods@),
                ms.len() == self.methods.len(),
                keys@.len() == i,
                keys@.map_values(|v: Vec<char>| v@) == ms.map_values(|m: Seq<char>| method_key(m)).take(
                    i as int,
                ),
            decreases self.methods.len() - i,
        {
            let raw = chars_of(self.methods[i].as_str());
            let trimmed = crate::text::trim_exec(&raw);
            let k = crate::text::upper_of(&trimmed);
            let ghost before = keys@;
            keys.push(k);
            proof {
                let a = keys@.map_values(|v: Vec<char>| v@);
                let b = ms.map_values(|m: Seq<char>| method_key(m)).take(i + 1);
                assert(a.len() == b.len());
                assert forall|j: int| 0 <= j < a.len() implies a[j] == b[j] by {
                    if j < i {
                        assert(keys@[j] == before[j]);
                        assert(before.map_values(|v: Vec<char>| v@)[j] == ms.map_values(
                            |m: Seq<char>| method_key(m),
                        ).take(i as int)[j]);
                    } else {
                        assert(ms[j] == self.methods@[j]@);
                    }
                }
                assert(a =~= b);
            }
            i = i + 1;
        }
        assert(ms.map_values(|m: Seq<char>| method_key(m)).take(self.methods.len() as int)
            =~= ms.map_values(|m: Seq<char>| method_key(m)));
        let joined = crate::text::join_exec(&keys, ",");
        string_of(&joined)
    }
}

// ---------------------------------------------------------------------------
// Bundles
// ---------------------------------------------------------------------------

pub open spec fn source_views(s: Seq<SourceDefinition>) -> Seq<SourceV> {
    s.map_values(|x: SourceDefinition| x@)
}

/// Each source valid, in order, and no source name twice.
pub open spec fn bundle_sources_spec(ss: Seq<SourceV>, seen: Seq<Seq<char>>, require_credentials: bool) -> Result<
    (),
    Seq<char>,
>
    decreases ss.len(),
{
    if ss.len() == 0 {
        Ok(())
    } else {
        match source_validate_spec(ss[0], require_credentials) {
            Err(e) => Err(e),
            Ok(()) => if seen.contains(ss[0].name) {
                Err("source `"@ + ss[0].name + "` appears more than once"@)
            } else {
                bundle_sources_spec(ss.drop_first(), seen.push(ss[0].name), require_credentials)
            },
        }
    }
}

pub open spec fn bundle_validate_spec(
    api_version: Seq<char>,
    kind: Seq<char>,
    sources: Seq<SourceV>,
    require_credentials: bool,
) -> Result<(), Seq<char>> {
    if api_version != API_VERSION@ {
        Err("unsupported apiVersion `"@ + api_version + "`"@)
    } else if kind != MANIFEST_KIND@ {
        Err("unsupported manifest kind `"@ + kind + "`"@)
    } else if sources.len() == 0 {
        Err("the bundle has no sources"@)
    } else {
        bundle_sources_spec(sources, Seq::empty(), require_credentials)
    }
}

impl Bundle {
    pub fn new(sources: Vec<SourceDefinition>) -> (r: Bundle)
        ensures
            r.api_version@ == API_VERSION@,
            r.kind@ == MANIFEST_KIND@,
            r.sources == sources,
    {
        Bundle {
            api_version: crate::text::str_to_string(API_VERSION),
            kind: crate::text::str_to_string(MANIFEST_KIND),
            sources,
        }
    }

    pub fn validate(&self, require_credentials: bool) -> (r: Result<(), String>)
        ensures
            same_unit(
                r,
                bundle_validate_spec(
                    self.api_version@,
                    self.kind@,
                    source_views(self.sources@),
                    require_credentials,
                ),
            ),
    {
        if !str_eq(self.api_version.as_str(), API_VERSION) {
            return Err(label_message("unsupported apiVersion `", self.api_version.as_str(), "`"));
        }
        if !str_eq(self.kind.as_str(), MANIFEST_KIND) {
            return Err(label_message("unsupported manifest kind `", self.kind.as_str(), "`"));
        }
        if self.sources.len() == 0 {
            return Err(crate::text::str_to_string("the bundle has no sources"));
        }
        let ghost ss = source_views(self.sources@);
        let mut names: Vec<String> = Vec::new();
        let mut i: usize = 0;
        assert(ss.skip(0) =~= ss);
        assert(crate::sorting::views(names@) =~= Seq::<Seq<char>>::empty());
        while i < self.sources.len()
            invariant
                i <= self.sources.len(),
                ss == source_views(self.sources@),
                ss.len() == self.sources.len(),
                self.api_version@ == API_VERSION@,
                self.kind@ == MANIFEST_KIND@,
                self.sources.len() > 0,
                bundle_sources_spec(ss, Seq::empty(), require_credentials) == bundle_sources_spec(
                    ss.skip(i as int),
                    crate::sorting::views(names@),
                    require_credentials,
                ),
            decreases self.sources.len() - i,
        {
            assert(ss.skip(i as int).drop_first() =~= ss.skip(i + 1));
            assert(ss.skip(i as int)[0] == self.sources@[i as int]@);
            match self.sources[i].validate(require_credentials) {
                Ok(()) => {},
                Err(e) => return Err(e),
            }
            if crate::sorting::views_contains(&names, self.sources[i].name.as_str()) {
                return Err(
                    label_message("source `", self.sources[i].name.as_str(), "` appears more than once"),
                );
            }
            let ghost before = names@;
            names.push(self.sources[i].name.clone());
            proof {
                crate::sorting::lemma_views_push(before, self.sources@[i as int].name);
            }
            i = i + 1;
        }
        Ok(())
    }
}

// ---------------------------------------------------------------------------
// Laws of redaction
// ---------------------------------------------------------------------------

/// Redacting an exported definition again changes nothing.
pub proof fn lemma_redaction_idempotent(s: SourceV)
    ensures
        source_redacted(source_redacted(s)) == source_redacted(s),
{
    assert(redact_values(redact_values(s.headers)) =~= redact_values(s.headers));
}

/// A redacted definition holds no literal secret: every literal header value
/// is `[REDACTED]` and no secret keeps its value, while header names,
/// environment references and everything else stay as they were.
pub proof fn lemma_redaction_keeps_references(s: SourceV)
    ensures
        keys_of(source_redacted(s).headers) == keys_of(s.headers),
        forall|i: int|
            0 <= i < s.headers.len() ==> #[trigger] source_redacted(s).headers[i].1 == "[REDACTED]"@,
        source_redacted(s).headers_env == s.headers_env,
        match (s.auth, source_redacted(s).auth) {
            (AuthV::Anonymous, AuthV::Anonymous) => true,
            (AuthV::Bearer { secret: a }, AuthV::Bearer { secret: b }) => b.value is None && b.env
                == a.env,
            (
                AuthV::ApiKey { secret: a, name: n, location: l, prefix: p },
                AuthV::ApiKey { secret: b, name: m, location: k, prefix: q },
            ) => b.value is None && b.env == a.env && n == m && l == k && p == q,
            _ => false,
        },
{
    assert(keys_of(redact_values(s.headers)) =~= keys_of(s.headers));
}

/// An accepted definition, once redacted, is still accepted where
/// credentials are not required (as when a bundle is exported and read back
/// for planning).
pub proof fn lemma_redacted_stays_valid(s: SourceV, require_credentials: bool)
    requires
        source_validate_spec(s, require_credentials) is Ok,
    ensures
        source_validate_spec(source_redacted(s), false) is Ok,
{
    let r = source_redacted(s);
    assert(keys_of(r.headers) =~= keys_of(s.headers));
    assert(source_head_spec(r) == source_head_spec(s));
    assert(!header_conflict(r.headers, r.headers_env)) by {
        if header_conflict(r.headers, r.headers_env) {
            let (i, j) = choose|i: int, j: int|
                0 <= i < r.headers.len() && 0 <= j < r.headers_env.len() && eq_ignore_case(
                    #[trigger] r.headers[i].0,
                    #[trigger] r.headers_env[j].0,
                );
            assert(r.headers[i].0 == s.headers[i].0);
            assert(eq_ignore_case(s.headers[i].0, s.headers_env[j].0));
        }
    }
}


// ---------------------------------------------------------------------------
// Defaults of omitted fields
// ---------------------------------------------------------------------------

/// The remote schema imported when a source names none.
pub fn default_remote_schema() -> (r: String)
    ensures
        r@ == "api"@,
{
    crate::text::str_to_string("api")
}

/// `GET` only, when a source lists no import methods.
pub fn default_methods() -> (r: Vec<String>)
    ensures
        crate::sorting::views(r@) == seq!["GET"@],
{
    let mut v: Vec<String> = Vec::new();
    v.push(crate::text::str_to_string("GET"));
    assert(crate::sorting::views(v@) =~= seq!["GET"@]);
    v
}

/// The header that carries an API key when none is named.
pub fn default_api_key_name() -> (r: String)
    ensures
        r@ == "x-api-key"@,
{
    crate::text::str_to_string("x-api-key")
}

pub fn default_true() -> (r: bool)
    ensures
        r,
{
    true
}

pub fn default_connect_timeout() -> (r: u64)
    ensures
        r == DEFAULT_CONNECT_TIMEOUT_MS,
{
    DEFAULT_CONNECT_TIMEOUT_MS
}

pub fn default_request_timeout() -> (r: u64)
    ensures
        r == DEFAULT_REQUEST_TIMEOUT_MS,
{
    DEFAULT_REQUEST_TIMEOUT_MS
}

pub fn default_max_response() -> (r: u64)
    ensures
        r == DEFAULT_MAX_RESPONSE_BYTES,
{
    DEFAULT_MAX_RESPONSE_BYTES
}

pub fn default_max_pages() -> (r: u64)
    ensures
        r == DEFAULT_MAX_PAGES,
{
    DEFAULT_MAX_PAGES
}

pub fn default_max_retries() -> (r: u64)
    ensures
        r == DEFAULT_MAX_RETRIES,
{
    DEFAULT_MAX_RETRIES
}

pub fn default_sample_limit() -> (r: u32)
    ensures
        r == DEFAULT_SAMPLE_LIMIT,
{
    DEFAULT_SAMPLE_LIMIT
}

/// Whether a flag is off (such fields are left out when serialized).
pub fn is_false(value: &bool) -> (r: bool)
    ensures
        r == !*value,
{
    !*value
}

} // verus!
