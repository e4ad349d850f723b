//! The local control API's own logic: bearer tokens, the precedence of the
//! token store, request errors, home-relative paths, loopback host names,
//! and the registry of asynchronous transcription jobs.
use vstd::prelude::*;
use vstd::string::StringExecFns;
use crate::config::IntegrationsConfig;
use crate::paths::join;
use crate::text::{decimal, str_chars, trim, u64_to_decimal};

verus! {

broadcast use vstd::string::group_string_axioms;

// ---------------------------------------------------------------------------
// Tokens
// ---------------------------------------------------------------------------

/// Prefix of every bearer token: it marks the value as a Thoth secret key.
pub const TOKEN_PREFIX: &'static str = "sk-thoth-";

/// Number of base62 characters after the prefix.
pub const TOKEN_SECRET_LEN: usize = 40;

/// Random bytes at or above this value are rejected, so that the 62 symbols
/// stay equally likely (248 is four times 62).
pub const REJECTION_BOUND: u8 = 248;

/// The base62 symbol for `d` (`0-9`, then `A-Z`, then `a-z`).
pub open spec fn base62_char(d: int) -> char {
    if d < 10 {
        (48 + d) as char
    } else if d < 36 {
        (65 + d - 10) as char
    } else {
        (97 + d - 36) as char
    }
}

/// `c` is one of the 62 base62 symbols.
pub open spec fn is_base62(c: char) -> bool {
    (48 <= c as int <= 57) || (65 <= c as int <= 90) || (97 <= c as int <= 122)
}

/// A token of the canonical shape: the prefix, then exactly
/// [`TOKEN_SECRET_LEN`] base62 symbols.
pub open spec fn canonical_token(t: Seq<char>) -> bool {
    &&& t.len() == TOKEN_PREFIX@.len() + TOKEN_SECRET_LEN
    &&& t.take(TOKEN_PREFIX@.len() as int) == TOKEN_PREFIX@
    &&& forall|i: int| TOKEN_PREFIX@.len() <= i < t.len() ==> is_base62(#[trigger] t[i])
}

/// The secret after drawing `bytes`: each byte below [`REJECTION_BOUND`]
/// contributes the symbol for its value modulo 62, until the secret is full.
pub open spec fn absorb(secret: Seq<char>, bytes: Seq<u8>) -> Seq<char>
    decreases bytes.len(),
{
    if secret.len() >= TOKEN_SECRET_LEN || bytes.len() == 0 {
        secret
    } else if bytes[0] < REJECTION_BOUND {
        absorb(secret.push(base62_char((bytes[0] % 62) as int)), bytes.drop_first())
    } else {
        absorb(secret, bytes.drop_first())
    }
}

/// The base62 symbol for a digit below 62.
pub fn base62_digit(d: u8) -> (c: char)
    requires
        d < 62,
    ensures
        c == base62_char(d as int),
        is_base62(c),
{
    if d < 10 {
        (48u8 + d) as char
    } else if d < 36 {
        (55u8 + d) as char
    } else {
        (61u8 + d) as char
    }
}

/// Draw symbols for the secret from random bytes by rejection sampling.
pub fn absorb_random_bytes(secret: &mut Vec<char>, bytes: &[u8])
    requires
        old(secret)@.len() <= TOKEN_SECRET_LEN,
    ensures
        final(secret)@ == absorb(old(secret)@, bytes@),
{
    let mut i: usize = 0;
    assert(bytes@.skip(0) =~= bytes@);
    while i < bytes.len()
        invariant
            i <= bytes@.len(),
            secret@.len() <= TOKEN_SECRET_LEN,
            absorb(secret@, bytes@.skip(i as int)) == absorb(old(secret)@, bytes@),
        decreases bytes@.len() - i,
    {
        if secret.len() == TOKEN_SECRET_LEN {
            return;
        }
        let b = bytes[i];
        assert(bytes@.skip(i as int).drop_first() =~= bytes@.skip(i + 1));
        if b < REJECTION_BOUND {
            secret.push(base62_digit(b % 62));
        }
        i = i + 1;
    }
}

/// Drawing keeps the secret made of base62 symbols, never longer than
/// [`TOKEN_SECRET_LEN`], and never shorter than before.
pub proof fn lemma_absorb_keeps_shape(secret: Seq<char>, bytes: Seq<u8>)
    requires
        secret.len() <= TOKEN_SECRET_LEN,
        forall|i: int| 0 <= i < secret.len() ==> is_base62(#[trigger] secret[i]),
    ensures
        secret.len() <= absorb(secret, bytes).len() <= TOKEN_SECRET_LEN,
        forall|i: int| 0 <= i < absorb(secret, bytes).len() ==> is_base62(#[trigger] absorb(secret, bytes)[i]),
        absorb(secret, bytes).take(secret.len() as int) == secret,
    decreases bytes.len(),
{
    if secret.len() >= TOKEN_SECRET_LEN || bytes.len() == 0 {
        assert(secret.take(secret.len() as int) =~= secret);
    } else if bytes[0] < REJECTION_BOUND {
        let d = (bytes[0] % 62) as int;
        let s2 = secret.push(base62_char(d));
        assert(is_base62(base62_char(d)));
        assert forall|i: int| 0 <= i < s2.len() implies is_base62(#[trigger] s2[i]) by {
            if i < secret.len() {
                assert(s2[i] == secret[i]);
            }
        }
        lemma_absorb_keeps_shape(s2, bytes.drop_first());
        assert(absorb(s2, bytes.drop_first()).take(secret.len() as int) =~= absorb(s2, bytes.drop_first()).take(
            s2.len() as int,
        ).take(secret.len() as int));
        assert(s2.take(secret.len() as int) =~= secret);
    } else {
        lemma_absorb_keeps_shape(secret, bytes.drop_first());
    }
}

/// Sixty-four bytes from the operating system's secure random source.
///
/// Wraps `getrandom::fill` on a 64-byte buffer. The bytes are random, so
/// nothing is claimed of them but their number. Like the caller it serves,
/// it panics when the operating system's generator is unavailable.
#[verifier::external_body]
fn random_bytes() -> (r: Vec<u8>)
    ensures
        r@.len() == 64,
{
    let mut buf = [0u8; 64];
    getrandom::fill(&mut buf).expect("OS CSPRNG unavailable");
    buf.to_vec()
}

/// The token for a full secret: the prefix followed by the secret.
pub fn token_with_secret(secret: &[char]) -> (r: String)
    ensures
        r@ == TOKEN_PREFIX@ + secret@,
{
    let mut r = String::from_str(TOKEN_PREFIX);
    let s = crate::text::chars_to_string(secret);
    r.append(s.as_str());
    r
}

/// Generate a new bearer token of the canonical shape: the prefix and 40
/// base62 symbols drawn from the operating system's secure random source by
/// rejection sampling. Should the draws ever run out (after `u64::MAX`
/// rounds of 64 bytes), the rest of the secret is filled from one more draw
/// without rejection.
pub fn generate_token() -> (r: String)
    ensures
        canonical_token(r@),
{
    let mut secret: Vec<char> = Vec::new();
    let mut rounds: u64 = 0;
    while secret.len() < TOKEN_SECRET_LEN && rounds < u64::MAX
        invariant
            secret@.len() <= TOKEN_SECRET_LEN,
            forall|i: int| 0 <= i < secret@.len() ==> is_base62(#[trigger] secret@[i]),
        decreases u64::MAX - rounds,
    {
        let buf = random_bytes();
        proof {
            lemma_absorb_keeps_shape(secret@, buf@);
        }
        absorb_random_bytes(&mut secret, buf.as_slice());
        rounds = rounds + 1;
    }
    if secret.len() < TOKEN_SECRET_LEN {
        let buf = random_bytes();
        let mut i: usize = 0;
        while secret.len() < TOKEN_SECRET_LEN
            invariant
                secret@.len() <= TOKEN_SECRET_LEN,
                i + TOKEN_SECRET_LEN - secret@.len() <= 64,
                buf@.len() == 64,
                forall|j: int| 0 <= j < secret@.len() ==> is_base62(#[trigger] secret@[j]),
            decreases TOKEN_SECRET_LEN - secret@.len(),
        {
            secret.push(base62_digit(buf[i] % 62));
            i = i + 1;
        }
    }
    let r = token_with_secret(secret.as_slice());
    assert(r@.take(TOKEN_PREFIX@.len() as int) =~= TOKEN_PREFIX@);
    assert forall|i: int| TOKEN_PREFIX@.len() <= i < r@.len() implies is_base62(#[trigger] r@[i]) by {
        assert(r@[i] == secret@[i - TOKEN_PREFIX@.len()]);
    }
    r
}

/// Choose the token to use, in precedence order: an already stored token
/// wins; otherwise the token the config file held before the store
/// existed (`legacy`); otherwise a freshly generated one.
pub fn resolve(stored: Option<String>, legacy: Option<String>) -> (r: String)
    ensures
        stored matches Some(s) ==> r == s,
        stored is None ==> (legacy matches Some(l) ==> r == l),
        stored is None && legacy is None ==> canonical_token(r@),
{
    match stored {
        Some(s) => s,
        None => match legacy {
            Some(l) => l,
            None => generate_token(),
        },
    }
}

/// The stable bearer token, from what the store holds (`stored`) and what the
/// config file held before the store existed (`legacy`), and whether it must be
/// written to the store: it must exactly when the store held nothing.
pub fn get_or_create_token(stored: Option<String>, legacy: Option<String>) -> (r: (String, bool))
    ensures
        stored matches Some(s) ==> r.0 == s && !r.1,
        stored is None ==> r.1 && (legacy matches Some(l) ==> r.0 == l) && (legacy is None ==> canonical_token(
            r.0@,
        )),
{
    match stored {
        Some(s) => (s, false),
        None => (resolve(None, legacy), true),
    }
}

/// A fresh token for an explicit rotation; the caller persists it.
pub fn rotate() -> (r: String)
    ensures
        canonical_token(r@),
{
    generate_token()
}

/// What a stored value yields as a token: its trimmed text, unless that is
/// empty.
pub fn nonempty_trimmed(raw: &str) -> (r: Option<String>)
    ensures
        trim(raw@).len() == 0 ==> r is None,
        trim(raw@).len() > 0 ==> (r matches Some(t) && t@ == trim(raw@)),
{
    let v = str_chars(raw);
    let t = crate::text::trim_chars(v.as_slice());
    if t.len() == 0 {
        None
    } else {
        Some(crate::text::chars_to_string(t.as_slice()))
    }
}

// ---------------------------------------------------------------------------
// Errors and small request checks
// ---------------------------------------------------------------------------

/// An error answered by the control API, by the HTTP status it maps to.
#[derive(Debug)]
pub enum AppError {
    /// Answered with 500.
    Internal(String),
    /// Answered with 404.
    NotFound(String),
    /// Answered with 400.
    BadRequest(String),
}

/// The text of the error for a dictionary index past the end.
pub open spec fn index_out_of_range_message(index: nat, count: nat) -> Seq<char> {
    "dictionary index "@ + decimal(index) + " out of range (have "@ + decimal(count) + " entries)"@
}

/// Reject a dictionary index at or past `count` (the number of entries) as
/// not found.
pub fn check_dictionary_index(index: usize, count: usize) -> (r: Result<(), AppError>)
    ensures
        index < count ==> r is Ok,
        index >= count ==> (r matches Err(AppError::NotFound(m)) && m@ == index_out_of_range_message(
            index as nat,
            count as nat,
        )),
{
    if index >= count {
        proof {
            reveal_strlit("dictionary index ");
            reveal_strlit(" out of range (have ");
            reveal_strlit(" entries)");
        }
        let mut m = String::from_str("dictionary index ");
        let a = u64_to_decimal(index as u64);
        m.append(a.as_str());
        m.append(" out of range (have ");
        let b = u64_to_decimal(count as u64);
        m.append(b.as_str());
        m.append(" entries)");
        return Err(AppError::NotFound(m));
    }
    Ok(())
}

/// Enabling the MCP server also enables the control API that hosts it;
/// disabling it leaves the API as it was.
pub fn apply_mcp_enabled(cfg: &mut IntegrationsConfig, enabled: bool)
    ensures
        final(cfg).mcp_enabled == enabled,
        final(cfg).api_enabled == (enabled || old(cfg).api_enabled),
        final(cfg).api_port == old(cfg).api_port,
{
    cfg.mcp_enabled = enabled;
    if enabled {
        cfg.api_enabled = true;
    }
}

/// Status of the integrations, as reported to the settings panel.
#[derive(Debug, Clone, Copy, PartialEq, Eq, Structural)]
pub struct IntegrationsStatus {
    /// Whether the control API is enabled.
    pub api_enabled: bool,
    /// Whether its server is running.
    pub api_running: bool,
    /// Its port.
    pub api_port: u16,
    /// Whether the MCP server is enabled.
    pub mcp_enabled: bool,
    /// Whether a token is stored.
    pub has_token: bool,
}

/// The status for a configuration, the server's running state and whether a
/// token is stored.
pub fn integrations_status(cfg: &IntegrationsConfig, running: bool, has_token: bool) -> (r: IntegrationsStatus)
    ensures
        r == (IntegrationsStatus {
            api_enabled: cfg.api_enabled,
            api_running: running,
            api_port: cfg.api_port,
            mcp_enabled: cfg.mcp_enabled,
            has_token,
        }),
{
    IntegrationsStatus {
        api_enabled: cfg.api_enabled,
        api_running: running,
        api_port: cfg.api_port,
        mcp_enabled: cfg.mcp_enabled,
        has_token,
    }
}

// ---------------------------------------------------------------------------
// Home-relative paths
// ---------------------------------------------------------------------------

/// The error when `~` cannot be expanded for want of a home directory.
pub open spec fn no_home_message() -> Seq<char> {
    "could not determine the home directory to expand `~`"@
}

/// The error for a `~user` path.
pub open spec fn unsupported_home_path_message(path: Seq<char>) -> Seq<char> {
    "unsupported home-relative path: "@ + path
        + ". Only `~` and `~/...` are supported; `~user` paths are not. Use an absolute path instead."@
}

/// A path with a leading `~` expanded against `home`: `~` is the home
/// directory and `~/rest` is `rest` under it; `~user` is refused; any other
/// path is returned unchanged.
pub open spec fn expand_with(path: Seq<char>, home: Option<Seq<char>>) -> Result<Seq<char>, Seq<char>> {
    if path.len() == 0 || path[0] != '~' {
        Ok(path)
    } else if path.len() > 1 && path[1] != '/' {
        Err(unsupported_home_path_message(path))
    } else {
        match home {
            None => Err(no_home_message()),
            Some(h) => if path.len() <= 2 {
                Ok(h)
            } else {
                Ok(join(h, path.skip(2)))
            },
        }
    }
}

/// A `Result` of strings by its text.
pub open spec fn result_view(r: Result<String, String>) -> Result<Seq<char>, Seq<char>> {
    match r {
        Ok(s) => Ok(s@),
        Err(e) => Err(e@),
    }
}

/// Expand a leading `~` in `path` against the home directory `home`.
pub fn expand_user_path_with(path: &str, home: Option<&str>) -> (r: Result<String, String>)
    ensures
        result_view(r) == expand_with(path@, match home {
            Some(h) => Some(h@),
            None => None,
        }),
{
    let v = str_chars(path);
    if v.len() == 0 || v[0] != '~' {
        return Ok(String::from_str(path));
    }
    if v.len() > 1 && v[1] != '/' {
        proof {
            reveal_strlit("unsupported home-relative path: ");
            reveal_strlit(
                ". Only `~` and `~/...` are supported; `~user` paths are not. Use an absolute path instead.",
            );
        }
        let mut m = String::from_str("unsupported home-relative path: ");
        m.append(path);
        m.append(
            ". Only `~` and `~/...` are supported; `~user` paths are not. Use an absolute path instead.",
        );
        return Err(m);
    }
    match home {
        None => Err(String::from_str("could not determine the home directory to expand `~`")),
        Some(h) => {
            if v.len() <= 2 {
                Ok(String::from_str(h))
            } else {
                let rest = crate::text::chars_to_string(vstd::slice::slice_subrange(v.as_slice(), 2, v.len()));
                Ok(crate::paths::path_join(h, rest.as_str()))
            }
        },
    }
}

/// Expand a leading `~` in `path` to the current user's home directory. The
/// home directory is looked up only for `~` and `~/...`.
pub fn expand_user_path(path: &str) -> (r: Result<String, String>)
    ensures
        exists|home: Option<Seq<char>>| result_view(r) == expand_with(path@, home),
{
    let v = str_chars(path);
    if v.len() == 0 || v[0] != '~' || (v.len() > 1 && v[1] != '/') {
        let r = expand_user_path_with(path, None);
        assert(result_view(r) == expand_with(path@, None));
        return r;
    }
    match crate::paths::home_dir() {
        None => {
            let r = expand_user_path_with(path, None);
            assert(result_view(r) == expand_with(path@, None));
            r
        },
        Some(h) => {
            let r = expand_user_path_with(path, Some(h.as_str()));
            assert(result_view(r) == expand_with(path@, Some(h@)));
            r
        },
    }
}

// ---------------------------------------------------------------------------
// Loopback host names
// ---------------------------------------------------------------------------

/// `s` without any leading or trailing `c`.
pub open spec fn trim_char(s: Seq<char>, c: char) -> Seq<char> {
    trim_char_end(trim_char_start(s, c), c)
}

/// `s` without any leading `c`.
pub open spec fn trim_char_start(s: Seq<char>, c: char) -> Seq<char>
    decreases s.len(),
{
    if s.len() > 0 && s[0] == c {
        trim_char_start(s.drop_first(), c)
    } else {
        s
    }
}

/// `s` without any trailing `c`.
pub open spec fn trim_char_end(s: Seq<char>, c: char) -> Seq<char>
    decreases s.len(),
{
    if s.len() > 0 && s.last() == c {
        trim_char_end(s.drop_last(), c)
    } else {
        s
    }
}

/// ASCII uppercase letters mapped to lowercase, other characters kept.
pub open spec fn ascii_lower(c: char) -> char {
    if 65 <= c as int <= 90 {
        ((c as int) + 32) as char
    } else {
        c
    }
}

/// A string with its ASCII letters lowercased.
pub open spec fn ascii_lowercase(s: Seq<char>) -> Seq<char> {
    s.map_values(|c: char| ascii_lower(c))
}

/// A host name (without port) names a loopback address: once any square
/// brackets are stripped and ASCII letters lowercased, it is `localhost`,
/// `127.0.0.1` or `::1`.
pub open spec fn spec_is_loopback_hostname(host: Seq<char>) -> bool {
    let h = ascii_lowercase(trim_char(trim_char(host, '['), ']'));
    h == "localhost"@ || h == "127.0.0.1"@ || h == "::1"@
}

fn trim_char_chars(s: &[char], c: char) -> (r: Vec<char>)
    ensures
        r@ == trim_char(s@, c),
{
    let mut lo: usize = 0;
    assert(s@.skip(0) =~= s@);
    while lo < s.len() && s[lo] == c
        invariant
            lo <= s@.len(),
            trim_char_start(s@.skip(lo as int), c) == trim_char_start(s@, c),
        decreases s@.len() - lo,
    {
        assert(s@.skip(lo as int).drop_first() =~= s@.skip(lo + 1));
        lo = lo + 1;
    }
    let mut hi: usize = s.len();
    assert(s@.subrange(lo as int, hi as int) =~= s@.skip(lo as int));
    while hi > lo && s[hi - 1] == c
        invariant
            lo <= hi <= s@.len(),
            trim_char_end(s@.subrange(lo as int, hi as int), c) == trim_char(s@, c),
        decreases hi,
    {
        assert(s@.subrange(lo as int, hi as int).drop_last() =~= s@.subrange(lo as int, hi - 1));
        hi = hi - 1;
    }
    let mut r: Vec<char> = Vec::new();
    let mut k: usize = lo;
    while k < hi
        invariant
            lo <= k <= hi <= s@.len(),
            r@ == s@.subrange(lo as int, k as int),
        decreases hi - k,
    {
        r.push(s[k]);
        assert(r@ =~= s@.subrange(lo as int, k + 1));
        k = k + 1;
    }
    r
}

/// Whether two strings are equal, compared in time that does not depend on
/// where they differ.
///
/// Wraps `subtle::ConstantTimeEq::ct_eq` on the strings' bytes, converted to
/// `bool`: its result is 1 exactly when the byte slices have the same length
/// and the same bytes, which for text is when the strings are equal.
#[verifier::external_body]
fn constant_time_eq(a: &str, b: &str) -> (r: bool)
    ensures
        r == (a@ == b@),
{
    subtle::ConstantTimeEq::ct_eq(a.as_bytes(), b.as_bytes()).into()
}

/// The header value a request must carry to be authorised with `token`.
pub open spec fn bearer_header(token: Seq<char>) -> Seq<char> {
    "Bearer "@ + token
}

/// Whether an `Authorization` header value authorises a request: it must be
/// `Bearer ` followed by exactly the token. A missing header (or one that is
/// not text) does not.
pub fn bearer_authorized(header: Option<&str>, token: &str) -> (r: bool)
    ensures
        r == (header matches Some(h) && h@ == bearer_header(token@)),
{
    match header {
        None => false,
        Some(h) => {
            let v = str_chars(h);
            let p = str_chars("Bearer ");
            proof {
                reveal_strlit("Bearer ");
            }
            if !crate::text::chars_start_with(v.as_slice(), p.as_slice()) {
                assert(!(h@ == bearer_header(token@))) by {
                    if h@ == bearer_header(token@) {
                        assert(h@.take(7) =~= p@);
                    }
                }
                return false;
            }
            let rest = crate::text::chars_to_string(vstd::slice::slice_subrange(v.as_slice(), 7, v.len()));
            let r = constant_time_eq(rest.as_str(), token);
            assert(h@ == bearer_header(token@) <==> rest@ == token@) by {
                assert(h@ =~= p@ + h@.skip(7));
                assert(rest@ =~= h@.skip(7));
                if h@ == bearer_header(token@) {
                    assert(h@.skip(7) =~= token@);
                }
            }
            r
        },
    }
}

/// Whether a host name (a `Host` header's host part, without port) names a
/// loopback address.
pub fn is_loopback_hostname(host: &str) -> (r: bool)
    ensures
        r == spec_is_loopback_hostname(host@),
{
    let v = str_chars(host);
    let a = trim_char_chars(v.as_slice(), '[');
    let b = trim_char_chars(a.as_slice(), ']');
    let mut lower: Vec<char> = Vec::new();
    let mut i: usize = 0;
    while i < b.len()
        invariant
            i <= b@.len(),
            lower@ == ascii_lowercase(b@.take(i as int)),
        decreases b@.len() - i,
    {
        let c = b[i];
        let l = if c >= 'A' && c <= 'Z' {
            ((c as u32) + 32) as u8 as char
        } else {
            c
        };
        assert(l == ascii_lower(c));
        lower.push(l);
        assert(lower@ =~= ascii_lowercase(b@.take(i + 1)));
        i = i + 1;
    }
    assert(b@.take(b@.len() as int) =~= b@);
    let l1 = str_chars("localhost");
    let l2 = str_chars("127.0.0.1");
    let l3 = str_chars("::1");
    crate::text::chars_eq(lower.as_slice(), l1.as_slice()) || crate::text::chars_eq(lower.as_slice(), l2.as_slice())
        || crate::text::chars_eq(lower.as_slice(), l3.as_slice())
}

} // verus!
