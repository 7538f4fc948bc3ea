use vstd::prelude::*;
use vstd::string::StringExecFns;
use crate::error::Error;
use crate::models::context_data::GoogleOAuthClientIds;

verus! {

/// The identity providers that the credential layer accepts.
#[derive(Debug, Copy, Clone, PartialEq, Eq, Structural)]
pub enum Provider {
    Google,
}

/// The identity that a validated provider token yields: what the core needs
/// to find or register the user.
#[derive(Debug, Clone, PartialEq, Eq)]
pub struct OAuth2User {
    pub display_name: String,
    pub email: String,
}

/// The credential pair handed to a freshly authenticated user. Signing is
/// outside the core; only the identities and expiries matter here.
#[derive(Debug, Clone, PartialEq, Eq)]
pub struct Credentials {
    pub access_token: String,
    pub access_token_expires_at: u64,
    pub refresh_token: String,
    pub refresh_token_expires_at: u64,
}

/// Relies on `std::time::SystemTime::now` and `duration_since`: seconds since
/// the Unix epoch, or zero on a clock that reads before the epoch. Nothing is
/// promised of the clock's reading.
#[verifier::external_body]
pub fn unixtime() -> (r: u64) {
    std::time::SystemTime::now()
        .duration_since(std::time::UNIX_EPOCH)
        .map(|d| d.as_secs())
        .unwrap_or(0)
}

/// The moment `n` whole days after `now`, saturating at the far end of the
/// representable range.
pub fn seconds_in_n_days(now: u64, n: u64) -> (r: u64)
    ensures
        n * 86400 + now <= u64::MAX ==> r == now + n * 86400,
        n * 86400 + now > u64::MAX ==> r == u64::MAX,
{
    let day: u64 = 24 * 60 * 60;
    match n.checked_mul(day) {
        Some(secs) => match now.checked_add(secs) {
            Some(t) => t,
            None => u64::MAX,
        },
        None => {
            proof {
                assert(n * 86400 >= u64::MAX + 1 ==> n * 86400 + now > u64::MAX) by (nonlinear_arith);
            }
            u64::MAX
        },
    }
}

/// The Unix time right now.
pub fn unixtime_in_n_days(n: u64) -> (r: u64) {
    let now = unixtime();
    seconds_in_n_days(now, n)
}

/// Whether an issuer string is one of the two accepted Google issuers.
pub open spec fn valid_issuer(iss: Seq<char>) -> bool {
    iss == "https://accounts.google.com"@ || iss == "accounts.google.com"@
}

/// The identity checks on a decoded Google token: the issuer must be
/// Google's, the audience must be one of this deployment's client
/// identifiers, and the token must not have expired. The signature itself is
/// checked by the transport layer that decoded the token.
pub fn validate_google_id_token(
    iss: &String,
    aud: &String,
    name: &String,
    email: &String,
    expires_at: u64,
    client_ids: &GoogleOAuthClientIds,
    now: u64,
) -> (r: Result<OAuth2User, Error>)
    ensures
        (match r {
            Ok(u) => {
                &&& valid_issuer(iss@)
                &&& (aud@ == client_ids.android@ || aud@ == client_ids.ios@)
                &&& now <= expires_at
                &&& u.display_name@ == name@
                &&& u.email@ == email@
            },
            Err(e) => e == Error::NotAuthenticated && (!valid_issuer(iss@) || (aud@
                != client_ids.android@ && aud@ != client_ids.ios@) || now > expires_at),
        }),
{
    if !(*iss == "https://accounts.google.com".to_owned() || *iss
        == "accounts.google.com".to_owned()) {
        return Err(Error::NotAuthenticated);
    }
    if !(*aud == client_ids.android || *aud == client_ids.ios) {
        return Err(Error::NotAuthenticated);
    }
    if now > expires_at {
        return Err(Error::NotAuthenticated);
    }
    Ok(OAuth2User { display_name: name.clone(), email: email.clone() })
}


/// The whitespace characters that may separate the scheme from the token.
pub open spec fn is_space(c: char) -> bool {
    c == ' ' || c == '\t' || c == '\n' || c == '\r' || c == '\u{b}' || c == '\u{c}'
}

/// The count of leading whitespace characters.
pub open spec fn space_run(s: Seq<char>) -> int
    decreases s.len(),
{
    if s.len() == 0 || !is_space(s[0]) {
        0
    } else {
        1 + space_run(s.subrange(1, s.len() as int))
    }
}

/// The count of leading non-whitespace characters.
pub open spec fn word_run(s: Seq<char>) -> int
    decreases s.len(),
{
    if s.len() == 0 || is_space(s[0]) {
        0
    } else {
        1 + word_run(s.subrange(1, s.len() as int))
    }
}

proof fn lemma_space_run_exact(s: Seq<char>, i: int)
    requires
        0 <= i <= s.len(),
        forall|j: int| 0 <= j < i ==> is_space(#[trigger] s[j]),
        i < s.len() ==> !is_space(s[i]),
    ensures
        space_run(s) == i,
    decreases i,
{
    if i == 0 {
    } else {
        let t = s.subrange(1, s.len() as int);
        assert(is_space(s[0]));
        assert forall|j: int| 0 <= j < i - 1 implies is_space(#[trigger] t[j]) by {
            assert(t[j] == s[j + 1]);
        }
        if i - 1 < t.len() {
            assert(t[i - 1] == s[i]);
        }
        lemma_space_run_exact(t, i - 1);
    }
}

proof fn lemma_word_run_exact(s: Seq<char>, i: int)
    requires
        0 <= i <= s.len(),
        forall|j: int| 0 <= j < i ==> !is_space(#[trigger] s[j]),
        i < s.len() ==> is_space(s[i]),
    ensures
        word_run(s) == i,
    decreases i,
{
    if i == 0 {
    } else {
        let t = s.subrange(1, s.len() as int);
        assert(!is_space(s[0]));
        assert forall|j: int| 0 <= j < i - 1 implies !is_space(#[trigger] t[j]) by {
            assert(t[j] == s[j + 1]);
        }
        if i - 1 < t.len() {
            assert(t[i - 1] == s[i]);
        }
        lemma_word_run_exact(t, i - 1);
    }
}

/// The bearer token carried by an authorization header: the scheme word
/// (either capitalisation), at least one whitespace character, then the
/// longest run of non-whitespace characters; anything may follow.
pub open spec fn bearer_token_of(h: Seq<char>) -> Option<Seq<char>> {
    if h.len() >= 6 && (h[0] == 'B' || h[0] == 'b') && h.subrange(1, 6) == "earer"@ {
        let after = h.subrange(6, h.len() as int);
        let ws = space_run(after);
        if ws >= 1 {
            let rest = after.subrange(ws, after.len() as int);
            let tk = word_run(rest);
            if tk >= 1 {
                Some(rest.subrange(0, tk))
            } else {
                None
            }
        } else {
            None
        }
    } else {
        None
    }
}

fn space_char(c: char) -> (r: bool)
    ensures
        r == is_space(c),
{
    c == ' ' || c == '\t' || c == '\n' || c == '\r' || c == '\u{b}' || c == '\u{c}'
}

/// Extracts the bearer token from an authorization header, or nothing when
/// the header is not of the bearer shape.
pub fn extract_bearer_token(authorization_header: &str) -> (r: Option<String>)
    ensures
        (match r {
            Some(t) => bearer_token_of(authorization_header@) == Some(t@),
            None => bearer_token_of(authorization_header@) is None,
        }),
{
    let h = authorization_header;
    let n = h.unicode_len();
    if n < 6 {
        return None;
    }
    let c0 = h.get_char(0);
    if !(c0 == 'B' || c0 == 'b') {
        return None;
    }
    let scheme = h.substring_char(1, 6);
    if !(scheme.to_owned() == "earer".to_owned()) {
        proof {
            assert(h@.subrange(1, 6) != "earer"@);
        }
        return None;
    }
    proof {
        assert(h@.subrange(1, 6) == "earer"@);
    }
    let ghost after = h@.subrange(6, n as int);
    let mut ws: usize = 0;
    let mut ws_end = false;
    while !ws_end && 6 + ws < n
        invariant
            6 + ws <= n,
            n == h@.len(),
            n >= 6,
            after == h@.subrange(6, n as int),
            forall|j: int| 0 <= j < ws ==> is_space(#[trigger] after[j]),
            ws_end ==> (ws < after.len() && !is_space(after[ws as int])),
        decreases n - (6 + ws) + (if ws_end {
            0int
        } else {
            1int
        }),
    {
        let c = h.get_char(6 + ws);
        proof {
            assert(after[ws as int] == h@[6 + ws]);
        }
        if space_char(c) {
            ws = ws + 1;
        } else {
            ws_end = true;
        }
    }
    proof {
        lemma_space_run_exact(after, ws as int);
    }
    if ws == 0 {
        return None;
    }
    let ghost rest = after.subrange(ws as int, after.len() as int);
    let start = 6 + ws;
    let mut tk: usize = 0;
    let mut tk_end = false;
    while !tk_end && start + tk < n
        invariant
            start + tk <= n,
            start == 6 + ws,
            6 + ws <= n,
            n == h@.len(),
            after == h@.subrange(6, n as int),
            rest == after.subrange(ws as int, after.len() as int),
            forall|j: int| 0 <= j < tk ==> !is_space(#[trigger] rest[j]),
            tk_end ==> (tk < rest.len() && is_space(rest[tk as int])),
        decreases n - (start + tk) + (if tk_end {
            0int
        } else {
            1int
        }),
    {
        let c = h.get_char(start + tk);
        proof {
            assert(rest[tk as int] == h@[start + tk]);
        }
        if space_char(c) {
            tk_end = true;
        } else {
            tk = tk + 1;
        }
    }
    proof {
        lemma_word_run_exact(rest, tk as int);
    }
    if tk == 0 {
        return None;
    }
    let token = h.substring_char(start, start + tk);
    proof {
        assert(token@ =~= rest.subrange(0, tk as int));
    }
    Some(token.to_owned())
}

} // verus!
