//! Rate limiting of requests: every client address has a counter per window
//! of thirty seconds, kept apart for the search routes; a request whose
//! counter reaches the limit of its kind is sent to the failure route.

use vstd::prelude::*;
use crate::strings::{decimal, push_decimal, push_str};

verus! {

/// The path under which every route of the server is mounted.
pub const BASE_PATH: &'static str = "/api/tilings";
/// The first part of every counter key.
pub const KEY_PREFIX: &'static str = "RATE_LIMITER";
/// Length of a counting window, in seconds.
pub const WINDOW_SECONDS: u64 = 30;
/// The route that answers a refused request, below `BASE_PATH`.
pub const FAILURE_ROUTE: &'static str = "/v1/fail-rait-limit";
/// The search routes, below `BASE_PATH`, which have a limit of their own.
pub const OMNI_SEARCH_ROUTE: &'static str = "/v1/omni-search";
pub const TILING_SEARCH_ROUTE: &'static str = "/v1/tiling-search";

/// What `regex::Regex::new(pattern)` followed by `is_match(haystack)` gives:
/// `None` where the pattern does not compile.
pub uninterp spec fn spec_regex_is_match(pattern: Seq<char>, haystack: Seq<char>) -> Option<bool>;

/// Compiles `pattern` with `regex::Regex::new` and tests `haystack` with
/// `Regex::is_match`. The contract names the outcome; of the one pattern
/// the library uses, an anchored alternation of two literal routes, it
/// states what it matches: a text that starts with either route.
#[verifier::external_body]
fn regex_is_match(pattern: &str, haystack: &str) -> (r: Option<bool>)
    ensures
        r == spec_regex_is_match(pattern@, haystack@),
        pattern@ == spec_search_pattern() ==> r == Some(spec_is_search_path(haystack@)),
{
    match regex::Regex::new(pattern) {
        Ok(re) => Some(re.is_match(haystack)),
        Err(_) => None,
    }
}

/// The regular expression that the paths of the search routes match: an
/// anchored alternation of the two routes below `BASE_PATH`.
pub open spec fn spec_search_pattern() -> Seq<char> {
    "^("@ + BASE_PATH@ + OMNI_SEARCH_ROUTE@ + "|"@ + BASE_PATH@ + TILING_SEARCH_ROUTE@ + ")"@
}

/// Whether a path starts with one of the search routes below `BASE_PATH`.
pub open spec fn spec_is_search_path(path: Seq<char>) -> bool {
    (BASE_PATH@ + OMNI_SEARCH_ROUTE@).is_prefix_of(path) || (BASE_PATH@ + TILING_SEARCH_ROUTE@).is_prefix_of(path)
}

/// The key of the counter of `ip` in the window that starts at `window`.
pub open spec fn spec_counter_key(ip: Seq<char>, is_search: bool, window: nat) -> Seq<char> {
    KEY_PREFIX@ + ":"@ + ip + (if is_search { ":search:"@ } else { ":"@ }) + decimal(window)
}

/// The limits of the counters: one for the search routes, one for the rest.
#[derive(Debug, Clone, Copy, PartialEq, Eq, Structural)]
pub struct RateLimiter {
    pub default_max_count_in_window: usize,
    pub search_max_count_in_window: usize,
}

/// What to do with a request before its counter is read: send it to the
/// failure route, or raise the counter under `key`, letting it expire after
/// `expire_seconds`.
#[derive(Debug, PartialEq, Eq)]
pub enum RateLimitAction {
    Fail,
    Count { key: String, expire_seconds: usize, is_search: bool },
}

impl RateLimiter {
    pub fn new(default_max_count_in_window: usize, search_max_count_in_window: usize) -> (r: RateLimiter)
        ensures
            r.default_max_count_in_window == default_max_count_in_window,
            r.search_max_count_in_window == search_max_count_in_window,
    {
        RateLimiter { default_max_count_in_window, search_max_count_in_window }
    }

    /// The path that refused requests are sent to.
    pub fn failure_path() -> (p: String)
        ensures
            p@ == BASE_PATH@ + FAILURE_ROUTE@,
    {
        let mut p = String::new();
        push_str(&mut p, BASE_PATH);
        push_str(&mut p, FAILURE_ROUTE);
        p
    }

    /// The start of the window that holds the second `now_secs`.
    pub fn window_start(now_secs: u64) -> (w: u64)
        ensures
            w == (now_secs / WINDOW_SECONDS) * WINDOW_SECONDS,
            w <= now_secs < w + WINDOW_SECONDS,
            w % WINDOW_SECONDS == 0,
    {
        (now_secs / WINDOW_SECONDS) * WINDOW_SECONDS
    }

    /// The regular expression that the paths of the search routes match.
    pub fn search_pattern() -> (p: String)
        ensures
            p@ == spec_search_pattern(),
    {
        let mut p = String::new();
        push_str(&mut p, "^(");
        push_str(&mut p, BASE_PATH);
        push_str(&mut p, OMNI_SEARCH_ROUTE);
        push_str(&mut p, "|");
        push_str(&mut p, BASE_PATH);
        push_str(&mut p, TILING_SEARCH_ROUTE);
        push_str(&mut p, ")");
        p
    }

    /// Whether `path` is one of a search route: whether the search pattern
    /// compiles and matches it, that is, whether the path starts with one of
    /// the search routes.
    pub fn is_search_path(path: &str) -> (b: bool)
        ensures
            b == (spec_regex_is_match(spec_search_pattern(), path@) == Some(true)),
            b == spec_is_search_path(path@),
    {
        let pattern = Self::search_pattern();
        match regex_is_match(pattern.as_str(), path) {
            Some(b) => b,
            None => false,
        }
    }

    /// The key of the counter of `ip` in the window that starts at `window`.
    pub fn counter_key(ip: &str, is_search: bool, window: u64) -> (key: String)
        ensures
            key@ == spec_counter_key(ip@, is_search, window as nat),
    {
        let mut key = String::new();
        push_str(&mut key, KEY_PREFIX);
        push_str(&mut key, ":");
        push_str(&mut key, ip);
        if is_search {
            push_str(&mut key, ":search:");
        } else {
            push_str(&mut key, ":");
        }
        push_decimal(&mut key, window);
        key
    }

    /// The limit of the counters of search routes or of the other routes.
    pub fn max_count(&self, is_search: bool) -> (m: usize)
        ensures
            m == if is_search { self.search_max_count_in_window } else { self.default_max_count_in_window },
    {
        if is_search {
            self.search_max_count_in_window
        } else {
            self.default_max_count_in_window
        }
    }

    /// What to do with a request from `ip` (`None` where the client's address
    /// is unknown) at the second `now_secs`, to a search route or not.
    pub fn plan(ip: Option<&str>, is_search: bool, now_secs: u64) -> (a: RateLimitAction)
        ensures
            ip.is_none() ==> a == RateLimitAction::Fail,
            ip matches Some(ip) ==> a matches RateLimitAction::Count { key, expire_seconds, is_search: s }
                && key@ == spec_counter_key(ip@, is_search, ((now_secs / WINDOW_SECONDS) * WINDOW_SECONDS) as nat)
                && expire_seconds == WINDOW_SECONDS
                && s == is_search,
    {
        match ip {
            None => RateLimitAction::Fail,
            Some(ip) => {
                let window = Self::window_start(now_secs);
                let key = Self::counter_key(ip, is_search, window);
                RateLimitAction::Count { key, expire_seconds: 30, is_search }
            },
        }
    }

    /// Whether a request passes, given the counter after it was raised
    /// (`None` where the store could not be reached): it passes while the
    /// counter stays below the limit of its kind.
    pub fn admits(&self, count: Option<usize>, is_search: bool) -> (pass: bool)
        ensures
            pass == (count matches Some(c) && c < (if is_search {
                self.search_max_count_in_window
            } else {
                self.default_max_count_in_window
            })),
    {
        match count {
            None => false,
            Some(c) => c < self.max_count(is_search),
        }
    }
}

} // verus!
