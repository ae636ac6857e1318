//! Decisions around fetching fresh usage figures: the access token taken
//! from the stored credentials, the reply of the usage endpoint split into
//! body and HTTP status, and how long further fetches are held off.
use vstd::prelude::*;
use crate::text::{chars_of, trimmed_end, trimmed_start, trim, string_of_range, has_no, range_equals};

verus! {

/// Seconds that further fetches wait after a fetch starts.
pub const FETCH_LOCK_SECS: u64 = 30;
/// Seconds that further fetches wait after the endpoint answers 429.
pub const RATE_LIMIT_LOCK_SECS: u64 = 300;

/// The OAuth part of the stored credentials.
pub struct OAuthCredentials {
    pub access_token: Option<String>,
}

/// The stored credentials, as far as the status line reads them.
pub struct Credentials {
    pub oauth: Option<OAuthCredentials>,
}

/// The access token of the credentials, when there is a non-empty one.
pub open spec fn access_token_spec(creds: Credentials) -> Option<Seq<char>> {
    match creds.oauth {
        Some(o) => match o.access_token {
            Some(t) => if t@.len() > 0 {
                Some(t@)
            } else {
                None
            },
            None => None,
        },
        None => None,
    }
}

/// The access token to send, if the credentials hold a non-empty one.
pub fn access_token(creds: &Credentials) -> (r: Option<String>)
    ensures
        r matches Some(t) ==> access_token_spec(*creds) == Some(t@),
        r is None ==> access_token_spec(*creds) is None,
{
    match &creds.oauth {
        Some(o) => match &o.access_token {
            Some(t) => if t.as_str().is_empty() {
                None
            } else {
                Some(t.clone())
            },
            None => None,
        },
        None => None,
    }
}

/// The reply of the usage request: the response body, a newline, then the
/// HTTP status code. Splits the trimmed text at its last newline.
pub fn split_reply(raw: &str) -> (r: Option<(String, String)>)
    ensures
        match r {
            Some((body, status)) => body@ + seq!['\n'] + status@ == trim(raw@) && has_no(
                status@,
                '\n',
            ),
            None => has_no(trim(raw@), '\n'),
        },
{
    let v = chars_of(raw);
    let e = trimmed_end(&v, 0, v.len());
    let b = trimmed_start(&v, 0, e);
    assert(v@.subrange(0, v@.len() as int) =~= raw@);
    let ghost t = v@.subrange(b as int, e as int);
    assert(t == trim(raw@));
    let mut j = e;
    while j > b
        invariant
            b <= j <= e <= v.len(),
            forall|k: int| j <= k < e ==> v@[k] != '\n',
            t == v@.subrange(b as int, e as int),
            t == trim(raw@),
        decreases j,
    {
        if v[j - 1] == '\n' {
            let k = j - 1;
            let body = string_of_range(&v, b, k);
            let status = string_of_range(&v, k + 1, e);
            assert(body@ + seq!['\n'] + status@ =~= t);
            return Some((body, status));
        }
        j -= 1;
    }
    assert forall|k: int| 0 <= k < t.len() implies t[k] != '\n' by {
        assert(t[k] == v@[b + k]);
    }
    None
}

/// What the HTTP status of the usage request means for the fetch.
#[derive(PartialEq, Eq, Structural, Debug, Clone, Copy)]
pub enum ReplyStatus {
    /// `429`: rate limited; hold off further fetches for longer.
    RateLimited,
    /// A `2xx` status: the body holds the figures.
    Success,
    /// Anything else.
    Failed,
}

pub open spec fn reply_status_spec(status: Seq<char>) -> ReplyStatus {
    if status == "429"@ {
        ReplyStatus::RateLimited
    } else if status.len() > 0 && status[0] == '2' {
        ReplyStatus::Success
    } else {
        ReplyStatus::Failed
    }
}

/// Classifies the HTTP status text of the usage request.
pub fn classify_status(status: &str) -> (r: ReplyStatus)
    ensures
        r == reply_status_spec(status@),
{
    let v = chars_of(status);
    assert(v@.subrange(0, v@.len() as int) =~= v@);
    if range_equals(&v, 0, v.len(), "429") {
        ReplyStatus::RateLimited
    } else if v.len() > 0 && v[0] == '2' {
        ReplyStatus::Success
    } else {
        ReplyStatus::Failed
    }
}

/// Until when further fetches wait: 300 seconds after a 429 answer, 30
/// seconds otherwise.
pub fn lock_expiry(now: u64, rate_limited: bool) -> (r: u64)
    requires
        now + (if rate_limited {
            RATE_LIMIT_LOCK_SECS
        } else {
            FETCH_LOCK_SECS
        }) <= u64::MAX,
    ensures
        r == now + (if rate_limited {
            RATE_LIMIT_LOCK_SECS
        } else {
            FETCH_LOCK_SECS
        }),
{
    if rate_limited {
        now + RATE_LIMIT_LOCK_SECS
    } else {
        now + FETCH_LOCK_SECS
    }
}

} // verus!
