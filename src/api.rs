//! The hosting-API client's state and decisions: authentication, quota
//! tracking, request retries and the chunked parallel batch plan. The
//! transport itself lives with the caller.
use vstd::prelude::*;
use crate::text::{cat, chars_of};
use vstd::string::StringSliceAdditionalSpecFns;

verus! {

/// Requests left at or below which the quota counts as exhausted.
pub const RATE_LIMIT_BUFFER: usize = 5;

/// How many units of a batch run at once.
pub const MAX_CONCURRENT: usize = 10;

/// Seconds after which a cached installation token is refreshed.
pub const TOKEN_REFRESH_MARGIN_SECS: u64 = 3300;

/// Attempts made for one request that keeps hitting the rate limit.
pub const MAX_ATTEMPTS: u32 = 3;

/// Seconds to wait after a rate-limit answer.
pub const RATE_LIMIT_WAIT_SECS: u64 = 60;

/// Milliseconds to wait between two chunks of a batch.
pub const CHUNK_DELAY_MILLIS: u64 = 1500;

/// Credentials of an app installation.
#[derive(Debug, Clone)]
pub struct GitHubAppAuth {
    pub app_id: String,
    pub installation_id: String,
    pub private_key: String,
}

#[derive(Debug, Clone)]
pub enum AuthMethod {
    Token(String),
    App(GitHubAppAuth),
    Anonymous,
}

/// Quota state read from the most recent response headers.
#[derive(Debug, Clone)]
pub struct RateLimit {
    pub remaining: usize,
    pub limit: usize,
    pub reset: usize,
}

pub open spec fn digit_value(c: char) -> int {
    c as int - '0' as int
}

/// The value of a string of decimal digits.
pub open spec fn decimal_value(s: Seq<char>) -> int
    decreases s.len(),
{
    if s.len() == 0 {
        0
    } else {
        decimal_value(s.drop_last()) * 10 + digit_value(s.last())
    }
}

pub open spec fn all_digits(s: Seq<char>) -> bool {
    forall|i: int| 0 <= i < s.len() ==> '0' <= #[trigger] s[i] && s[i] <= '9'
}

/// The unsigned integer a header value spells, as `usize`'s `FromStr` reads
/// it: an optional `+`, then one or more decimal digits, within range.
pub open spec fn header_number(s: Seq<char>) -> Option<int> {
    let d = if s.len() > 0 && s[0] == '+' {
        s.subrange(1, s.len() as int)
    } else {
        s
    };
    if d.len() > 0 && all_digits(d) && decimal_value(d) <= usize::MAX {
        Some(decimal_value(d))
    } else {
        None
    }
}

proof fn lemma_decimal_nonneg(s: Seq<char>)
    requires
        all_digits(s),
    ensures
        decimal_value(s) >= 0,
    decreases s.len(),
{
    if s.len() > 0 {
        lemma_decimal_nonneg(s.drop_last());
    }
}

pub fn parse_usize(s: &str) -> (r: Option<usize>)
    ensures
        match r {
            Some(n) => header_number(s@) == Some(n as int),
            None => header_number(s@) is None,
        },
{
    let c = chars_of(s);
    let start: usize = if c.len() > 0 && c[0] == '+' {
        1
    } else {
        0
    };
    let ghost d = if s@.len() > 0 && s@[0] == '+' {
        s@.subrange(1, s@.len() as int)
    } else {
        s@
    };
    assert(d =~= c@.subrange(start as int, c@.len() as int));
    if start >= c.len() {
        return None;
    }
    let mut v: usize = 0;
    let mut i: usize = start;
    while i < c.len()
        invariant
            start <= i <= c@.len(),
            c@ == s@,
            d == (if s@.len() > 0 && s@[0] == '+' {
                s@.subrange(1, s@.len() as int)
            } else {
                s@
            }),
            d =~= c@.subrange(start as int, c@.len() as int),
            all_digits(c@.subrange(start as int, i as int)),
            v as int == decimal_value(c@.subrange(start as int, i as int)),
        decreases c@.len() - i,
    {
        let ch = c[i];
        assert(c@.subrange(start as int, i + 1).drop_last() =~= c@.subrange(start as int, i as int));
        if ch < '0' || ch > '9' {
            assert(!all_digits(d)) by {
                assert(d[i - start] == ch);
            }
            assert(header_number(s@) is None);
            return None;
        }
        let dv = (ch as u32 - '0' as u32) as usize;
        if v > (usize::MAX - dv) / 10 {
            proof {
                assert(decimal_value(c@.subrange(start as int, i + 1)) == v * 10 + dv);
                assert(v * 10 + dv > usize::MAX) by (nonlinear_arith)
                    requires v > (usize::MAX - dv) / 10, dv <= 9;
                assert(d.subrange(0, (i + 1 - start) as int) =~= c@.subrange(start as int, i + 1));
                lemma_prefix_bound(d, (i + 1 - start) as int);
                assert(header_number(s@) is None);
            }
            return None;
        }
        assert(v * 10 + dv <= usize::MAX) by (nonlinear_arith)
            requires v <= (usize::MAX - dv) / 10, dv <= 9;
        v = v * 10 + dv;
        i = i + 1;
    }
    assert(c@.subrange(start as int, i as int) =~= d);
    Some(v)
}

/// A longer run of digits never spells a smaller number.
proof fn lemma_prefix_bound(d: Seq<char>, k: int)
    requires
        0 <= k <= d.len(),
        all_digits(d.subrange(0, k)),
    ensures
        all_digits(d) ==> decimal_value(d) >= decimal_value(d.subrange(0, k)),
    decreases d.len() - k,
{
    if k < d.len() && all_digits(d) {
        assert(d.subrange(0, k + 1).drop_last() =~= d.subrange(0, k));
        lemma_decimal_nonneg(d.subrange(0, k));
        lemma_prefix_bound(d, k + 1);
    } else if k == d.len() {
        assert(d.subrange(0, k) =~= d);
    }
}

impl RateLimit {
    pub fn new() -> (r: Self)
        ensures
            r.remaining == usize::MAX,
            r.limit == 0,
            r.reset == 0,
    {
        RateLimit { remaining: usize::MAX, limit: 0, reset: 0 }
    }

    pub fn remaining(&self) -> (r: usize)
        ensures
            r == self.remaining,
    {
        self.remaining
    }

    pub fn limit(&self) -> (r: usize)
        ensures
            r == self.limit,
    {
        self.limit
    }

    /// More requests are left than the safety buffer.
    pub fn has_remaining(&self) -> (r: bool)
        ensures
            r == (self.remaining > RATE_LIMIT_BUFFER),
    {
        self.remaining > RATE_LIMIT_BUFFER
    }

    /// Takes each counter whose header came with a readable number; the
    /// others keep their value.
    pub fn update_from_headers(&mut self, remaining: Option<&str>, limit: Option<&str>, reset: Option<&str>)
        ensures
            final(self).remaining as int == header_update(old(self).remaining as int, remaining),
            final(self).limit as int == header_update(old(self).limit as int, limit),
            final(self).reset as int == header_update(old(self).reset as int, reset),
    {
        if let Some(h) = remaining {
            if let Some(n) = parse_usize(h) {
                self.remaining = n;
            }
        }
        if let Some(h) = limit {
            if let Some(n) = parse_usize(h) {
                self.limit = n;
            }
        }
        if let Some(h) = reset {
            if let Some(n) = parse_usize(h) {
                self.reset = n;
            }
        }
    }
}

/// A counter after a response: the header's number if it has one.
pub open spec fn header_update(old: int, header: Option<&str>) -> int {
    match header {
        Some(h) => match header_number(h@) {
            Some(n) => n,
            None => old,
        },
        None => old,
    }
}

/// What to do for the token of the next request.
#[derive(Debug, Clone)]
pub enum TokenAction {
    /// Send this token, or none.
    Use(Option<String>),
    /// Exchange a fresh signed assertion for an installation token, then
    /// `store_token` it.
    Refresh,
}

/// The client's state: how it authenticates, its cached installation token
/// with the second it was obtained, the quota and the number of calls made.
#[derive(Debug, Clone)]
pub struct GitHubClient {
    pub auth: AuthMethod,
    pub cached_token: Option<(String, u64)>,
    pub rate_limit: RateLimit,
    pub calls: usize,
}

impl GitHubClient {
    pub fn new(token: Option<String>) -> (r: Self)
        ensures
            match token {
                Some(t) => r.auth matches AuthMethod::Token(u) && u@ == t@,
                None => r.auth is Anonymous,
            },
            r.cached_token is None,
            r.rate_limit.remaining == usize::MAX,
            r.rate_limit.limit == 0,
            r.calls == 0,
    {
        let auth = match token {
            Some(t) => AuthMethod::Token(t),
            None => AuthMethod::Anonymous,
        };
        GitHubClient { auth, cached_token: None, rate_limit: RateLimit::new(), calls: 0 }
    }

    pub fn with_app(app_auth: GitHubAppAuth) -> (r: Self)
        ensures
            r.auth matches AuthMethod::App(a) && a.app_id@ == app_auth.app_id@
                && a.installation_id@ == app_auth.installation_id@ && a.private_key@
                == app_auth.private_key@,
            r.cached_token is None,
            r.rate_limit.remaining == usize::MAX,
            r.calls == 0,
    {
        GitHubClient {
            auth: AuthMethod::App(app_auth),
            cached_token: None,
            rate_limit: RateLimit::new(),
            calls: 0,
        }
    }

    pub fn api_calls(&self) -> (r: usize)
        ensures
            r == self.calls,
    {
        self.calls
    }

    /// Counts one request sent.
    pub fn record_call(&mut self)
        ensures
            final(self).calls == if old(self).calls == usize::MAX {
                usize::MAX
            } else {
                (old(self).calls + 1) as usize
            },
            final(self).auth == old(self).auth,
            final(self).cached_token == old(self).cached_token,
            final(self).rate_limit == old(self).rate_limit,
    {
        if self.calls < usize::MAX {
            self.calls = self.calls + 1;
        }
    }

    /// The token for a request sent at second `now`: the static token, none,
    /// or the cached installation token while it is younger than the refresh
    /// margin; otherwise a refresh is due.
    pub fn get_token(&self, now: u64) -> (r: TokenAction)
        ensures
            match self.auth {
                AuthMethod::Token(t) => r matches TokenAction::Use(Some(u)) && u@ == t@,
                AuthMethod::Anonymous => r matches TokenAction::Use(None),
                AuthMethod::App(_) => match self.cached_token {
                    Some((t, at)) => if at <= now && now - at < TOKEN_REFRESH_MARGIN_SECS {
                        r matches TokenAction::Use(Some(u)) && u@ == t@
                    } else {
                        r is Refresh
                    },
                    None => r is Refresh,
                },
            },
    {
        match &self.auth {
            AuthMethod::Token(t) => TokenAction::Use(Some(t.clone())),
            AuthMethod::Anonymous => TokenAction::Use(None),
            AuthMethod::App(_) => match &self.cached_token {
                Some((t, at)) => {
                    if *at <= now && now - *at < TOKEN_REFRESH_MARGIN_SECS {
                        TokenAction::Use(Some(t.clone()))
                    } else {
                        TokenAction::Refresh
                    }
                },
                None => TokenAction::Refresh,
            },
        }
    }

    /// Caches an installation token obtained at second `now`.
    pub fn store_token(&mut self, token: String, now: u64)
        ensures
            final(self).cached_token matches Some((t, at)) && t@ == token@ && at == now,
            final(self).auth == old(self).auth,
            final(self).rate_limit == old(self).rate_limit,
            final(self).calls == old(self).calls,
    {
        self.cached_token = Some((token, now));
    }
}

/// What to do after one attempt of a request.
#[derive(Debug, Clone, Copy, PartialEq, Eq, Structural)]
pub enum RetryAction {
    /// The answer is in: read the body.
    Accept,
    /// Rate limited: wait, then try again.
    WaitAndRetry,
    /// Rate limited once too often.
    GiveUp,
    /// The resource does not exist.
    NotFound,
    /// Any other failure, reported as it is.
    Fail,
}

/// The decision after attempt `attempt` (from 0) ended with `status` (`None`
/// for a transport failure without a status). `not_found_is_signal` tells
/// whether a 404 answer is a domain signal rather than an error.
pub fn retry_action(attempt: u32, status: Option<u16>, not_found_is_signal: bool) -> (r: RetryAction)
    ensures
        r == match status {
            Some(code) => if 200 <= code < 300 {
                RetryAction::Accept
            } else if code == 404 && not_found_is_signal {
                RetryAction::NotFound
            } else if code == 403 || code == 429 {
                if attempt + 1 < MAX_ATTEMPTS {
                    RetryAction::WaitAndRetry
                } else {
                    RetryAction::GiveUp
                }
            } else {
                RetryAction::Fail
            },
            None => RetryAction::Fail,
        },
{
    match status {
        Some(code) => {
            if 200 <= code && code < 300 {
                RetryAction::Accept
            } else if code == 404 && not_found_is_signal {
                RetryAction::NotFound
            } else if code == 403 || code == 429 {
                if attempt < MAX_ATTEMPTS - 1 {
                    RetryAction::WaitAndRetry
                } else {
                    RetryAction::GiveUp
                }
            } else {
                RetryAction::Fail
            }
        },
        None => RetryAction::Fail,
    }
}

/// What a parallel batch hands back: the results of the units that ran,
/// how many ran, how many there were, and whether quota exhaustion cut the
/// batch short.
#[derive(Debug)]
pub struct BatchResult<R> {
    pub results: Vec<R>,
    pub processed: usize,
    pub total: usize,
    pub stopped_by_rate_limit: bool,
}

/// The number of chunks of width `width` that cover `total` units.
pub fn chunk_count(total: usize, width: usize) -> (r: usize)
    requires
        width > 0,
    ensures
        r == total / width + if total % width == 0 {
            0int
        } else {
            1int
        },
{
    let q = total / width;
    if total % width == 0 {
        q
    } else {
        assert(width >= 2);
        assert(q < usize::MAX) by (nonlinear_arith)
            requires
                q == total / width,
                width >= 2,
                total <= usize::MAX,
        ;
        q + 1
    }
}

/// The cooperative stop signal of a running batch.
#[derive(Debug, Clone, Copy)]
pub struct BatchControl {
    pub stopped: bool,
}

impl BatchControl {
    pub fn new() -> (r: Self)
        ensures
            !r.stopped,
    {
        BatchControl { stopped: false }
    }

    /// Whether a unit may start, given the quota it sees: it may not once the
    /// batch is stopped or the quota is exhausted, and seeing exhaustion stops
    /// the batch.
    pub fn may_start(&mut self, remaining: usize) -> (r: bool)
        ensures
            r == (!old(self).stopped && remaining > RATE_LIMIT_BUFFER),
            final(self).stopped == (old(self).stopped || remaining <= RATE_LIMIT_BUFFER),
    {
        if self.stopped {
            return false;
        }
        if remaining <= RATE_LIMIT_BUFFER {
            self.stopped = true;
            return false;
        }
        true
    }

    /// After a unit finished: exhaustion seen then stops the batch; the
    /// unit's result is kept either way.
    pub fn after_unit(&mut self, remaining: usize)
        ensures
            final(self).stopped == (old(self).stopped || remaining <= RATE_LIMIT_BUFFER),
    {
        if remaining <= RATE_LIMIT_BUFFER {
            self.stopped = true;
        }
    }

    /// Whether to wait before the chunk that follows chunk `index` of
    /// `count`: only between chunks, and only while the batch runs.
    pub fn delay_after_chunk(&self, index: usize, count: usize) -> (r: bool)
        ensures
            r == (index + 1 < count && !self.stopped),
    {
        index < count && index + 1 < count && !self.stopped
    }

    /// Whether the next chunk may begin.
    pub fn may_start_chunk(&self) -> (r: bool)
        ensures
            r == !self.stopped,
    {
        !self.stopped
    }
}

pub open spec fn is_unreserved(b: u8) -> bool {
    (97u8 <= b <= 122u8) || (65u8 <= b <= 90u8) || (48u8 <= b <= 57u8) || b == 45u8 || b == 95u8
        || b == 46u8 || b == 126u8
}

pub open spec fn hex_digit(n: u8) -> char {
    if n < 10 {
        ((n + 48u8) as u8) as char
    } else {
        ((n - 10 + 65u8) as u8) as char
    }
}

/// Percent-encoding of the bytes of a query: unreserved ASCII stays, every
/// other byte becomes `%` and two upper-case hex digits.
pub open spec fn url_encoding(bytes: Seq<u8>) -> Seq<char>
    decreases bytes.len(),
{
    if bytes.len() == 0 {
        Seq::empty()
    } else {
        let b = bytes.last();
        url_encoding(bytes.drop_last()) + if is_unreserved(b) {
            seq![b as char]
        } else {
            seq!['%', hex_digit(b / 16), hex_digit(b % 16)]
        }
    }
}

/// Relies on `String::push`: appends one character.
#[verifier::external_body]
fn push_char(s: &mut String, c: char)
    ensures
        final(s)@ == old(s)@.push(c),
{
    s.push(c)
}

fn hex_digit_exec(n: u8) -> (r: char)
    requires
        n < 16,
    ensures
        r == hex_digit(n),
{
    if n < 10 {
        (n + 48u8) as char
    } else {
        (n - 10 + 65u8) as char
    }
}

pub fn urlencoded(s: &str) -> (r: String)
    ensures
        r@ == url_encoding(s.spec_bytes()),
{
    let bytes = s.as_bytes();
    let mut r = String::new();
    let mut i: usize = 0;
    while i < bytes.len()
        invariant
            i <= bytes@.len(),
            bytes@ == s.spec_bytes(),
            r@ == url_encoding(bytes@.subrange(0, i as int)),
        decreases bytes@.len() - i,
    {
        let b = bytes[i];
        assert(bytes@.subrange(0, i + 1).drop_last() =~= bytes@.subrange(0, i as int));
        if (97u8 <= b && b <= 122u8) || (65u8 <= b && b <= 90u8) || (48u8 <= b && b <= 57u8) || b == 45u8
            || b == 95u8 || b == 46u8 || b == 126u8 {
            push_char(&mut r, b as char);
        } else {
            push_char(&mut r, '%');
            push_char(&mut r, hex_digit_exec(b / 16));
            push_char(&mut r, hex_digit_exec(b % 16));
        }
        i = i + 1;
    }
    assert(bytes@.subrange(0, bytes@.len() as int) =~= bytes@);
    r
}

pub open spec fn api_url(rest: Seq<char>) -> Seq<char> {
    "https://api.github.com"@ + rest
}

/// The address of a repository's metadata.
pub fn repository_url(owner: &str, repo: &str) -> (r: String)
    ensures
        r@ == api_url("/repos/"@ + owner@ + "/"@ + repo@),
{
    let mut r = String::from_str("https://api.github.com/repos/");
    r.append(owner);
    r.append("/");
    r.append(repo);
    proof {
        reveal_strlit("https://api.github.com/repos/");
        reveal_strlit("https://api.github.com");
        reveal_strlit("/repos/");
    }
    assert(r@ =~= api_url("/repos/"@ + owner@ + "/"@ + repo@));
    r
}

/// The address of a repository resource below its metadata address.
pub fn repository_resource_url(owner: &str, repo: &str, rest: &str) -> (r: String)
    ensures
        r@ == api_url("/repos/"@ + owner@ + "/"@ + repo@) + rest@,
{
    let base = repository_url(owner, repo);
    cat(base.as_str(), rest)
}

/// The address of one page of a search.
pub fn search_url(kind: &str, query: &str, page: u32) -> (r: String)
    ensures
        r@ == api_url("/search/"@ + kind@ + "?q="@ + url_encoding(query.spec_bytes()) + "&per_page=100&page="@)
            + decimal_text(page as nat),
{
    let mut r = String::from_str("https://api.github.com/search/");
    r.append(kind);
    r.append("?q=");
    let q = urlencoded(query);
    r.append(q.as_str());
    r.append("&per_page=100&page=");
    let p = decimal_string(page as u64);
    r.append(p.as_str());
    proof {
        reveal_strlit("https://api.github.com/search/");
        reveal_strlit("https://api.github.com");
        reveal_strlit("/search/");
    }
    assert(r@ =~= api_url("/search/"@ + kind@ + "?q="@ + url_encoding(query.spec_bytes()) + "&per_page=100&page="@)
        + decimal_text(page as nat));
    r
}

/// The decimal spelling of a number.
pub open spec fn decimal_text(n: nat) -> Seq<char>
    decreases n,
{
    if n < 10 {
        seq![(n + '0' as nat) as char]
    } else {
        decimal_text(n / 10) + seq![((n % 10) + '0' as nat) as char]
    }
}

pub fn decimal_string(n: u64) -> (r: String)
    ensures
        r@ == decimal_text(n as nat),
    decreases n,
{
    if n < 10 {
        let mut r = String::new();
        push_char(&mut r, ((n as u8) + 48u8) as char);
        assert(r@ =~= decimal_text(n as nat));
        r
    } else {
        let mut r = decimal_string(n / 10);
        push_char(&mut r, (((n % 10) as u8) + 48u8) as char);
        r
    }
}

} // verus!
