//! Administrator credentials of the control plane: the bearer token, the
//! session cookie derived from it, and the header that marks a mutation.
use vstd::prelude::*;

use sha2::Digest;

use crate::text::{
    append, append_str, chars_of, split, split_exec, split_once, split_once_exec, starts_with,
    string_of, trim, trim_exec,
};

verus! {

pub const COOKIE_NAME: &'static str = "openapi_fdw_session";

/// The SHA-256 digest of a byte string.
pub uninterp spec fn sha256_digest(data: Seq<u8>) -> Seq<u8>;

/// `sha2::Sha256::digest`: the 32-byte digest, named by `sha256_digest`.
#[verifier::external_body]
fn sha256(data: &[u8]) -> (r: Vec<u8>)
    ensures
        r@ == sha256_digest(data@),
        r@.len() == 32,
{
    sha2::Sha256::digest(data).to_vec()
}

/// `subtle::ConstantTimeEq::ct_eq` on byte slices: 1 exactly when the slices
/// have the same length and the same bytes.
#[verifier::external_body]
fn ct_eq_bytes(a: &[u8], b: &[u8]) -> (r: bool)
    ensures
        r == (a@ == b@),
{
    bool::from(subtle::ConstantTimeEq::ct_eq(a, b))
}

/// Equality of two byte strings without a data-dependent early exit.
pub fn constant_time_equal(expected: &[u8], candidate: &[u8]) -> (r: bool)
    ensures
        r == (expected@ == candidate@),
{
    expected.len() == candidate.len() && ct_eq_bytes(expected, candidate)
}

pub open spec fn hex_digit(n: u8) -> char {
    if n < 10 {
        (48 + n) as char
    } else {
        (97 + n - 10) as char
    }
}

/// Lower-case hexadecimal, two digits per byte.
pub open spec fn hex(bytes: Seq<u8>) -> Seq<char>
    decreases bytes.len(),
{
    if bytes.len() == 0 {
        Seq::empty()
    } else {
        hex(bytes.drop_last()) + seq![hex_digit(bytes.last() / 16), hex_digit(bytes.last() % 16)]
    }
}

fn hex_digit_exec(n: u8) -> (r: char)
    requires
        n < 16,
    ensures
        r == hex_digit(n),
{
    if n < 10 {
        (48u8 + n) as char
    } else {
        (97u8 + n - 10) as char
    }
}

fn hex_exec(bytes: &Vec<u8>) -> (r: Vec<char>)
    ensures
        r@ == hex(bytes@),
{
    let mut out: Vec<char> = Vec::new();
    let mut i: usize = 0;
    while i < bytes.len()
        invariant
            i <= bytes.len(),
            out@ == hex(bytes@.take(i as int)),
        decreases bytes.len() - i,
    {
        assert(bytes@.take(i + 1).drop_last() =~= bytes@.take(i as int));
        let b = bytes[i];
        out.push(hex_digit_exec(b / 16));
        out.push(hex_digit_exec(b % 16));
        i = i + 1;
    }
    assert(bytes@.take(bytes.len() as int) =~= bytes@);
    out
}

pub open spec fn session_prefix() -> Seq<u8> {
    vstd::utf8::encode_utf8("openapi-fdw-control-session-v1\0"@)
}

/// The session token of an administrator token: the hexadecimal SHA-256 of a
/// fixed label followed by the token.
pub open spec fn session_token_of(admin_token: Seq<char>) -> Seq<char> {
    hex(sha256_digest(session_prefix() + vstd::utf8::encode_utf8(admin_token)))
}

pub struct AuthState {
    admin_token: String,
    session_token: String,
    cookie_secure: bool,
}

/// A cookie header's value for `name`: the first `;`-separated part that,
/// trimmed, reads `name=value`.
pub open spec fn cookie_in(parts: Seq<Seq<char>>, name: Seq<char>) -> Option<Seq<char>>
    decreases parts.len(),
{
    if parts.len() == 0 {
        None
    } else {
        match split_once(trim(parts[0]), '=') {
            Some((candidate, value)) => if candidate == name {
                Some(value)
            } else {
                cookie_in(parts.drop_first(), name)
            },
            None => cookie_in(parts.drop_first(), name),
        }
    }
}

pub open spec fn cookie_value_spec(header: Seq<char>, name: Seq<char>) -> Option<Seq<char>> {
    cookie_in(split(header, ';'), name)
}

pub fn cookie_value(header: &str, name: &str) -> (r: Option<String>)
    ensures
        crate::options::opt_str(r) == cookie_value_spec(header@, name@),
{
    let h = chars_of(header);
    let parts = split_exec(&h, ';');
    let ghost ps = split(h@, ';');
    let n = chars_of(name);
    let mut i: usize = 0;
    assert(ps.skip(0) =~= ps);
    while i < parts.len()
        invariant
            i <= parts.len(),
            parts@.len() == ps.len(),
            forall|k: int| 0 <= k < parts@.len() ==> #[trigger] parts@[k]@ == ps[k],
            n@ == name@,
            ps == split(header@, ';'),
            cookie_in(ps, name@) == cookie_in(ps.skip(i as int), name@),
        decreases parts.len() - i,
    {
        assert(ps.skip(i as int).drop_first() =~= ps.skip(i + 1));
        assert(ps.skip(i as int)[0] == parts@[i as int]@);
        let t = trim_exec(&parts[i]);
        match split_once_exec(&t, '=') {
            Some((candidate, value)) => {
                if crate::text::seq_eq(&candidate, &n) {
                    assert(split_once(trim(ps.skip(i as int)[0]), '=') == Some((candidate@, value@)));
                    assert(cookie_in(ps.skip(i as int), name@) == Some(value@));
                    return Some(string_of(&value));
                }
            },
            None => {},
        }
        i = i + 1;
    }
    None
}

pub open spec fn authorized_spec(
    admin_token: Seq<char>,
    session_token: Seq<char>,
    authorization: Option<Seq<char>>,
    cookie: Option<Seq<char>>,
) -> bool {
    ||| (authorization matches Some(a) && starts_with(a, "Bearer "@) && a.skip(7) == admin_token)
    ||| (cookie matches Some(c) && cookie_value_spec(c, COOKIE_NAME@) == Some(session_token))
}

pub open spec fn cookie_suffix(secure: bool) -> Seq<char> {
    if secure {
        "; Secure"@
    } else {
        Seq::empty()
    }
}

impl AuthState {
    pub closed spec fn admin(&self) -> Seq<char> {
        self.admin_token@
    }

    pub closed spec fn session(&self) -> Seq<char> {
        self.session_token@
    }

    pub closed spec fn secure(&self) -> bool {
        self.cookie_secure
    }

    pub fn new(admin_token: String, cookie_secure: bool) -> (r: AuthState)
        ensures
            r.admin() == admin_token@,
            r.session() == session_token_of(admin_token@),
            r.session().len() == 64,
            forall|i: int| 0 <= i < r.session().len() ==> #[trigger] is_hex_char(r.session()[i]),
            r.secure() == cookie_secure,
    {
        let prefix: &str = "openapi-fdw-control-session-v1\0";
        let mut data: Vec<u8> = vstd::slice::slice_to_vec(prefix.as_bytes());
        let token_bytes = vstd::slice::slice_to_vec(admin_token.as_str().as_bytes());
        let ghost p = data@;
        let mut i: usize = 0;
        while i < token_bytes.len()
            invariant
                i <= token_bytes.len(),
                data@ == p + token_bytes@.take(i as int),
            decreases token_bytes.len() - i,
        {
            data.push(token_bytes[i]);
            i = i + 1;
            assert(data@ =~= p + token_bytes@.take(i as int));
        }
        assert(token_bytes@.take(token_bytes.len() as int) =~= token_bytes@);
        let digest = sha256(data.as_slice());
        let token = hex_exec(&digest);
        proof {
            lemma_hex_chars(digest@);
        }
        AuthState { admin_token, session_token: string_of(&token), cookie_secure }
    }

    /// Whether a candidate is the administrator token, compared in constant
    /// time.
    pub fn verify_token(&self, candidate: &str) -> (r: bool)
        ensures
            r == (candidate@ == self.admin()),
    {
        let r = constant_time_equal(self.admin_token.as_str().as_bytes(), candidate.as_bytes());
        proof {
            vstd::utf8::encode_utf8_decode_utf8(candidate@);
            vstd::utf8::encode_utf8_decode_utf8(self.admin_token@);
        }
        r
    }

    /// Whether a request is the administrator's: an `Authorization: Bearer`
    /// header with the token, or the session cookie. The two header values are
    /// passed as text where they are present and readable.
    pub fn authorized(&self, authorization: Option<&str>, cookie: Option<&str>) -> (r: bool)
        ensures
            r == authorized_spec(
                self.admin(),
                self.session(),
                match authorization {
                    Some(a) => Some(a@),
                    None => None,
                },
                match cookie {
                    Some(c) => Some(c@),
                    None => None,
                },
            ),
    {
        match authorization {
            Some(a) => {
                let v = chars_of(a);
                if crate::text::starts_with_str(&v, "Bearer ") {
                    proof {
                        reveal_strlit("Bearer ");
                    }
                    let candidate = crate::text::subrange(&v, 7, v.len());
                    assert(candidate@ =~= a@.skip(7));
                    let c = string_of(&candidate);
                    if self.verify_token(c.as_str()) {
                        return true;
                    }
                }
            },
            None => {},
        }
        match cookie {
            Some(c) => match cookie_value(c, COOKIE_NAME) {
                Some(found) => {
                    let r = constant_time_equal(
                        self.session_token.as_str().as_bytes(),
                        found.as_str().as_bytes(),
                    );
                    proof {
                        vstd::utf8::encode_utf8_decode_utf8(found@);
                        vstd::utf8::encode_utf8_decode_utf8(self.session_token@);
                    }
                    r
                },
                None => false,
            },
            None => false,
        }
    }

    /// The `Set-Cookie` value that starts a session.
    pub fn session_cookie(&self) -> (r: String)
        ensures
            r@ == COOKIE_NAME@ + "="@ + self.session()
                + "; Path=/; HttpOnly; SameSite=Strict; Max-Age=43200"@ + cookie_suffix(
                self.secure(),
            ),
    {
        let mut out = chars_of(COOKIE_NAME);
        append_str(&mut out, "=");
        append_str(&mut out, self.session_token.as_str());
        append_str(&mut out, "; Path=/; HttpOnly; SameSite=Strict; Max-Age=43200");
        if self.cookie_secure {
            append_str(&mut out, "; Secure");
        }
        string_of(&out)
    }

    /// The `Set-Cookie` value that ends a session.
    pub fn clear_cookie(&self) -> (r: String)
        ensures
            r@ == COOKIE_NAME@ + "=; Path=/; HttpOnly; SameSite=Strict; Max-Age=0"@ + cookie_suffix(
                self.secure(),
            ),
    {
        let mut out = chars_of(COOKIE_NAME);
        append_str(&mut out, "=; Path=/; HttpOnly; SameSite=Strict; Max-Age=0");
        if self.cookie_secure {
            append_str(&mut out, "; Secure");
        }
        string_of(&out)
    }
}

/// Whether the `x-openapi-fdw-request` header reads `control-plane`.
pub fn has_mutation_header(value: Option<&str>) -> (r: bool)
    ensures
        r == (value matches Some(v) && v@ == "control-plane"@),
{
    match value {
        Some(v) => crate::text::str_eq(v, "control-plane"),
        None => false,
    }
}

// ---------------------------------------------------------------------------
// Laws
// ---------------------------------------------------------------------------

pub open spec fn is_hex_char(c: char) -> bool {
    ('0' <= c && c <= '9') || ('a' <= c && c <= 'f')
}

proof fn lemma_hex_chars(bytes: Seq<u8>)
    ensures
        hex(bytes).len() == 2 * bytes.len(),
        forall|i: int| 0 <= i < hex(bytes).len() ==> #[trigger] is_hex_char(hex(bytes)[i]),
    decreases bytes.len(),
{
    if bytes.len() > 0 {
        lemma_hex_chars(bytes.drop_last());
        let b = bytes.last();
        assert(b / 16 < 16 && b % 16 < 16);
        let tail = seq![hex_digit(b / 16), hex_digit(b % 16)];
        assert(is_hex_char(tail[0]) && is_hex_char(tail[1]));
        assert forall|i: int| 0 <= i < hex(bytes).len() implies #[trigger] is_hex_char(hex(bytes)[i]) by {
            if i >= hex(bytes.drop_last()).len() {
                assert(hex(bytes)[i] == tail[i - hex(bytes.drop_last()).len()]);
            } else {
                assert(hex(bytes)[i] == hex(bytes.drop_last())[i]);
            }
        }
    }
}

proof fn lemma_split_without(s: Seq<char>, c: char)
    requires
        !s.contains(c),
    ensures
        split(s, c) == seq![s],
{
    crate::text::lemma_first_index(s, c);
}

proof fn lemma_trim_plain(s: Seq<char>)
    requires
        s.len() > 0,
        !crate::text::is_space(s[0]),
        !crate::text::is_space(s.last()),
    ensures
        trim(s) == s,
{
    assert(crate::text::trim_start(s) == s);
    assert(crate::text::trim_end(s) == s);
}

/// The administrator token, sent as a bearer token, is accepted.
pub proof fn lemma_bearer_token_authorizes(admin: Seq<char>, session: Seq<char>)
    ensures
        authorized_spec(admin, session, Some("Bearer "@ + admin), None),
{
    reveal_strlit("Bearer ");
    assert(("Bearer "@ + admin).skip(7) =~= admin);
    assert(("Bearer "@ + admin).take(7) =~= "Bearer "@);
}

/// The cookie that a login sets authenticates the requests that carry it
/// back: a `Cookie` header `openapi_fdw_session=<token>` is accepted.
pub proof fn lemma_session_cookie_authorizes(admin: Seq<char>)
    ensures
        authorized_spec(
            admin,
            session_token_of(admin),
            None,
            Some(COOKIE_NAME@ + "="@ + session_token_of(admin)),
        ),
{
    let token = session_token_of(admin);
    let digest = sha256_digest(session_prefix() + vstd::utf8::encode_utf8(admin));
    lemma_hex_chars(digest);
    reveal_strlit("openapi_fdw_session");
    reveal_strlit("=");
    let header = COOKIE_NAME@ + "="@ + token;
    let name = COOKIE_NAME@;
    assert(!header.contains(';')) by {
        if header.contains(';') {
            let w = choose|w: int| 0 <= w < header.len() && header[w] == ';';
            if w > name.len() {
                assert(header[w] == token[w - name.len() - 1]);
                assert(is_hex_char(token[w - name.len() - 1]));
            }
        }
    }
    lemma_split_without(header, ';');
    assert(header[0] == 'o');
    if token.len() > 0 {
        assert(header.last() == token.last());
        assert(is_hex_char(token[token.len() - 1]));
    }
    lemma_trim_plain(header);
    crate::text::lemma_first_index(header, '=');
    assert(header[name.len() as int] == '=');
    assert forall|j: int| 0 <= j < name.len() implies header[j] != '=' by {
        assert(header[j] == name[j]);
    }
    assert(crate::text::first_index(header, '=') == name.len());
    assert(header.take(name.len() as int) =~= name);
    assert(header.skip(name.len() as int + 1) =~= token);
    assert(split_once(trim(header), '=') == Some((name, token)));
    assert(cookie_in(seq![header], name) == Some(token));
}

} // verus!
