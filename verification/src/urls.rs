//! Absolute URLs as plain values.
//!
//! Parsing, joining and query replacement are done by the `url` crate; the
//! library keeps the components it reads (`UrlParts::as_str`, `scheme`, `host_str`,
//! `username`, `password`, `port`, `port_or_known_default`, `query`,
//! `fragment`) and decides everything else in verified code.
use vstd::prelude::*;

use crate::text::{append, append_str, chars_of, eq_ignore_case, eq_ignore_case_exec, decimal, decimal_of};

verus! {

#[verifier::external_type_specification]
#[verifier::external_body]
pub struct ExUrl(::url::Url);

#[derive(Debug)]
pub struct UrlParts {
    pub serialization: String,
    pub scheme: String,
    pub username: String,
    pub password: Option<String>,
    pub host: Option<String>,
    pub port: Option<u16>,
    pub known_port: Option<u16>,
    pub query: Option<String>,
    pub fragment: Option<String>,
}

pub struct UrlV {
    pub serialization: Seq<char>,
    pub scheme: Seq<char>,
    pub username: Seq<char>,
    pub password: Option<Seq<char>>,
    pub host: Option<Seq<char>>,
    pub port: Option<u16>,
    pub known_port: Option<u16>,
    pub query: Option<Seq<char>>,
    pub fragment: Option<Seq<char>>,
}

pub open spec fn opt_view(o: Option<String>) -> Option<Seq<char>> {
    match o {
        Some(s) => Some(s@),
        None => None,
    }
}

impl View for UrlParts {
    type V = UrlV;

    open spec fn view(&self) -> UrlV {
        UrlV {
            serialization: self.serialization@,
            scheme: self.scheme@,
            username: self.username@,
            password: opt_view(self.password),
            host: opt_view(self.host),
            port: self.port,
            known_port: self.known_port,
            query: opt_view(self.query),
            fragment: opt_view(self.fragment),
        }
    }
}

pub fn clone_opt(o: &Option<String>) -> (r: Option<String>)
    ensures
        opt_view(r) == opt_view(*o),
{
    match o {
        Some(s) => Some(s.clone()),
        None => None,
    }
}

impl UrlParts {
    pub fn duplicate(&self) -> (r: UrlParts)
        ensures
            r@ == self@,
    {
        UrlParts {
            serialization: self.serialization.clone(),
            scheme: self.scheme.clone(),
            username: self.username.clone(),
            password: clone_opt(&self.password),
            host: clone_opt(&self.host),
            port: self.port,
            known_port: self.known_port,
            query: clone_opt(&self.query),
            fragment: clone_opt(&self.fragment),
        }
    }
}

/// `url::Url::parse` of an input.
pub uninterp spec fn url_parse(input: Seq<char>) -> Option<UrlV>;

/// `UrlParts::join` of an input onto the URL whose serialization is `base`.
pub uninterp spec fn url_join(base: Seq<char>, input: Seq<char>) -> Option<UrlV>;

/// The URL whose serialization is `url` after `Url::set_query(Some(query))`,
/// or `None` where `url` does not parse.
pub uninterp spec fn url_with_query(url: Seq<char>, query: Seq<char>) -> Option<UrlV>;

/// Copies the components of a `url::Url` that the library reads.
#[verifier::external_body]
fn components(url: &::url::Url) -> UrlParts {
    UrlParts {
        serialization: url.as_str().to_string(),
        scheme: url.scheme().to_string(),
        username: url.username().to_string(),
        password: url.password().map(str::to_string),
        host: url.host_str().map(str::to_string),
        port: url.port(),
        known_port: url.port_or_known_default(),
        query: url.query().map(str::to_string),
        fragment: url.fragment().map(str::to_string),
    }
}

/// `url::Url::parse`. The result is named: the components of the parsed URL,
/// or `None` where the crate reports a parse error.
#[verifier::external_body]
pub fn parse_url(raw: &str) -> (r: Option<UrlParts>)
    ensures
        r is Some == url_parse(raw@) is Some,
        r matches Some(u) ==> url_parse(raw@) == Some(u@),
{
    match ::url::Url::parse(raw) {
        Ok(url) => Some(components(&url)),
        Err(_) => None,
    }
}

/// `UrlParts::join`. A `UrlParts` is the parse of its own serialization, which the body
/// reads back before joining.
#[verifier::external_body]
pub fn join_url(base: &UrlParts, raw: &str) -> (r: Option<UrlParts>)
    ensures
        r is Some == url_join(base.serialization@, raw@) is Some,
        r matches Some(u) ==> url_join(base.serialization@, raw@) == Some(u@),
{
    match ::url::Url::parse(&base.serialization) {
        Ok(parsed) => match parsed.join(raw) {
            Ok(url) => Some(components(&url)),
            Err(_) => None,
        },
        Err(_) => None,
    }
}

/// `Url::set_query(Some(query))` on the URL that the serialization parses to.
#[verifier::external_body]
pub fn set_query(url: &UrlParts, query: &str) -> (r: Option<UrlParts>)
    ensures
        r is Some == url_with_query(url.serialization@, query@) is Some,
        r matches Some(u) ==> url_with_query(url.serialization@, query@) == Some(u@),
{
    match ::url::Url::parse(&url.serialization) {
        Ok(mut parsed) => {
            parsed.set_query(Some(query));
            Some(components(&parsed))
        },
        Err(_) => None,
    }
}

/// Same scheme and host (ignoring ASCII case) and the same effective port.
pub open spec fn same_origin(left: UrlV, right: UrlV) -> bool {
    &&& eq_ignore_case(left.scheme, right.scheme)
    &&& left.host is Some && right.host is Some
    &&& eq_ignore_case(left.host->0, right.host->0)
    &&& left.known_port == right.known_port
}

pub fn same_origin_exec(left: &UrlParts, right: &UrlParts) -> (r: bool)
    ensures
        r == same_origin(left@, right@),
{
    let ls = chars_of(left.scheme.as_str());
    let rs = chars_of(right.scheme.as_str());
    if !eq_ignore_case_exec(&ls, &rs) {
        return false;
    }
    match (&left.host, &right.host) {
        (Some(lh), Some(rh)) => {
            let a = chars_of(lh.as_str());
            let b = chars_of(rh.as_str());
            eq_ignore_case_exec(&a, &b) && left.known_port == right.known_port
        },
        _ => false,
    }
}

/// `scheme://host[:port]`, with `?` for a missing host.
pub open spec fn display_origin(url: UrlV) -> Seq<char> {
    let host = match url.host {
        Some(h) => h,
        None => seq!['?'],
    };
    let base = url.scheme + seq![':', '/', '/'] + host;
    match url.port {
        Some(p) => base + seq![':'] + decimal(p as nat),
        None => base,
    }
}

pub fn display_origin_exec(url: &UrlParts) -> (r: Vec<char>)
    ensures
        r@ == display_origin(url@),
{
    let mut out = chars_of(url.scheme.as_str());
    let sep = vec![':', '/', '/'];
    append(&mut out, &sep);
    match &url.host {
        Some(h) => append_str(&mut out, h.as_str()),
        None => out.push('?'),
    }
    match url.port {
        Some(p) => {
            out.push(':');
            let d = decimal_of(p as u64);
            append(&mut out, &d);
        },
        None => {},
    }
    assert(out@ =~= display_origin(url@));
    out
}

/// The URL whose serialization is `url` after each pair is appended to its
/// query with `query_pairs_mut().append_pair` (form-urlencoded), or `None`
/// where `url` does not parse.
pub uninterp spec fn url_with_pairs(url: Seq<char>, pairs: Seq<(Seq<char>, Seq<char>)>) -> Option<UrlV>;

/// `Url::query_pairs_mut` on the URL that the serialization parses to,
/// appending each pair in order with `append_pair`.
#[verifier::external_body]
pub fn append_query_pairs(url: &UrlParts, pairs: &Vec<(String, String)>) -> (r: Option<UrlParts>)
    ensures
        r is Some == url_with_pairs(url.serialization@, crate::option_map::pairs_view(pairs@)) is Some,
        r matches Some(u) ==> url_with_pairs(url.serialization@, crate::option_map::pairs_view(pairs@))
            == Some(u@),
{
    match ::url::Url::parse(&url.serialization) {
        Ok(mut parsed) => {
            {
                let mut query = parsed.query_pairs_mut();
                for (name, value) in pairs {
                    query.append_pair(name, value);
                }
            }
            Some(components(&parsed))
        },
        Err(_) => None,
    }
}

} // verus!
