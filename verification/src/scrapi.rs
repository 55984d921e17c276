//! The decisions of the SCRAPI registration flow, apart from its HTTP
//! transport: the base URL, where an entry is, and what a polling response
//! calls for next.
use vstd::prelude::*;
use crate::text::{str_chars, string_from_chars, str_eq, concat};

verus! {

/// The SCRAPI API version this client speaks.
pub const API_VERSION: &'static str = "2026-03-26";

/// The polling window, in milliseconds.
pub const POLL_TIMEOUT_MS: u64 = 30_000;

/// The default interval between polling attempts, in milliseconds.
pub const POLL_INTERVAL_MS: u64 = 1_000;

/// The shortest interval between polling attempts, in milliseconds.
pub const MIN_POLL_INTERVAL_MS: u64 = 10;

/// A text with every trailing `/` removed.
pub open spec fn trim_trailing_slashes(s: Seq<char>) -> Seq<char>
    decreases s.len(),
{
    if s.len() > 0 && s.last() == '/' {
        trim_trailing_slashes(s.drop_last())
    } else {
        s
    }
}

/// A base URL with its trailing slashes removed ends in no slash, and
/// removing them again changes nothing.
pub proof fn lemma_trim_trailing_slashes(s: Seq<char>)
    ensures
        !(trim_trailing_slashes(s).len() > 0 && trim_trailing_slashes(s).last() == '/'),
        trim_trailing_slashes(trim_trailing_slashes(s)) == trim_trailing_slashes(s),
        trim_trailing_slashes(s).is_prefix_of(s),
    decreases s.len(),
{
    if s.len() > 0 && s.last() == '/' {
        lemma_trim_trailing_slashes(s.drop_last());
        assert(trim_trailing_slashes(s).is_prefix_of(s.drop_last()));
    } else {
        assert(s.is_prefix_of(s)) by {
            assert(s.take(s.len() as int) =~= s);
        }
    }
}

/// The base URL with its trailing slashes removed (`trim_end_matches('/')`).
pub fn normalize_base_url(base_url: &str) -> (r: String)
    ensures
        r@ == trim_trailing_slashes(base_url@),
{
    let chars = str_chars(base_url);
    let mut n: usize = chars.len();
    proof {
        assert(chars@.take(n as int) =~= chars@);
    }
    while n > 0 && chars[n - 1] == '/'
        invariant
            n <= chars@.len(),
            chars@ == base_url@,
            trim_trailing_slashes(base_url@) == trim_trailing_slashes(chars@.take(n as int)),
        decreases n,
    {
        proof {
            assert(chars@.take(n as int).drop_last() =~= chars@.take(n - 1));
        }
        n = n - 1;
    }
    let mut out: Vec<char> = Vec::new();
    let mut i: usize = 0;
    while i < n
        invariant
            i <= n <= chars@.len(),
            out@ == chars@.take(i as int),
        decreases n - i,
    {
        out.push(chars[i]);
        i = i + 1;
        proof {
            assert(out@ =~= chars@.take(i as int));
        }
    }
    string_from_chars(out.as_slice())
}

/// Whether a character may appear in a transaction identifier.
pub open spec fn txid_char(c: char) -> bool {
    ('a' <= c && c <= 'z') || ('A' <= c && c <= 'Z') || ('0' <= c && c <= '9') || c == '.' || c == '-' || c == '_'
}

/// Whether a transaction identifier is nonempty and made only of ASCII
/// letters, digits, `.`, `-` and `_`.
pub open spec fn valid_txid(id: Seq<char>) -> bool {
    id.len() > 0 && forall|i: int| 0 <= i < id.len() ==> txid_char(#[trigger] id[i])
}

/// The transaction identifier an entry path names under the submission
/// path: the part after `submission_path` and `/`, when it is valid.
pub open spec fn entry_txid(submission_path: Seq<char>, entry_path: Seq<char>) -> Option<Seq<char>> {
    let prefix = submission_path.push('/');
    if entry_path.len() >= prefix.len() && entry_path.take(prefix.len() as int) == prefix
        && valid_txid(entry_path.skip(prefix.len() as int)) {
        Some(entry_path.skip(prefix.len() as int))
    } else {
        None
    }
}

/// The transaction identifier of a `303` entry location, given the
/// submission path and the path of the resolved location.
pub fn txid_from_entry_path(submission_path: &str, entry_path: &str) -> (r: Option<String>)
    ensures
        match entry_txid(submission_path@, entry_path@) {
            Some(id) => r matches Some(s) && s@ == id,
            None => r is None,
        },
{
    let prefix = str_chars(submission_path);
    let path = str_chars(entry_path);
    let n = prefix.len();
    if path.len() <= n {
        return None;
    }
    let mut i: usize = 0;
    while i < n
        invariant
            i <= n < path@.len(),
            n == prefix@.len(),
            prefix@ == submission_path@,
            path@ == entry_path@,
            forall|k: int| 0 <= k < i ==> path@[k] == prefix@[k],
        decreases n - i,
    {
        if path[i] != prefix[i] {
            proof {
                assert(entry_path@.take(n + 1)[i as int] != submission_path@.push('/')[i as int]);
            }
            return None;
        }
        i = i + 1;
    }
    if path[n] != '/' {
        proof {
            assert(entry_path@.take(n + 1)[n as int] != submission_path@.push('/')[n as int]);
        }
        return None;
    }
    if path.len() == n + 1 {
        proof {
            assert(entry_path@.skip(n + 1).len() == 0);
        }
        return None;
    }
    proof {
        assert(entry_path@.take(n + 1) =~= submission_path@.push('/'));
    }
    let mut id: Vec<char> = Vec::new();
    let mut j: usize = n + 1;
    while j < path.len()
        invariant
            n + 1 <= j <= path@.len(),
            path@ == entry_path@,
            n == submission_path@.len(),
            id@ == path@.subrange(n + 1, j as int),
            forall|k: int| 0 <= k < id@.len() ==> txid_char(#[trigger] id@[k]),
        decreases path@.len() - j,
    {
        let c = path[j];
        let ok = ('a' <= c && c <= 'z') || ('A' <= c && c <= 'Z') || ('0' <= c && c <= '9') || c == '.' || c == '-' || c == '_';
        if !ok {
            proof {
                assert(entry_path@.skip(n + 1)[j - (n + 1)] == c);
            }
            return None;
        }
        id.push(c);
        j = j + 1;
        proof {
            assert(id@ =~= path@.subrange(n + 1, j as int));
        }
    }
    proof {
        assert(id@ =~= entry_path@.skip(n + 1));
    }
    Some(string_from_chars(id.as_slice()))
}

/// The transaction identifier a `303` answer to a submission names: the
/// entry its `Location` resolves to must share the submission URL's origin,
/// carry no fragment, and be one `/entries/{txid}` under the submission
/// path.
pub fn accept_entry_location(submission_path: &str, entry_path: &str, same_origin: bool, has_fragment: bool)
    -> (r: Option<String>)
    ensures
        match entry_txid(submission_path@, entry_path@) {
            Some(id) => if same_origin && !has_fragment { r matches Some(s) && s@ == id } else { r is None },
            None => r is None,
        },
{
    let txid = txid_from_entry_path(submission_path, entry_path);
    if !same_origin || has_fragment {
        return None;
    }
    txid
}

/// What the client does after one polling response.
#[derive(Debug, Clone, Copy, PartialEq, Eq, Structural)]
pub enum PollAction {
    /// A `200`: the body is the receipt.
    Receipt,
    /// A `302`: wait this many milliseconds, then poll again.
    Wait(u64),
    /// The polling window has no room for the wait.
    Timeout,
    /// Any other status is an error carrying the status and body.
    Unexpected,
}

/// The wait a `302` asks for: its `Retry-After` seconds, or the default
/// interval, and never less than the minimum interval.
pub open spec fn poll_wait(retry_after_secs: Option<u64>) -> int {
    let ms: int = match retry_after_secs {
        Some(s) => s * 1000,
        None => POLL_INTERVAL_MS as int,
    };
    if ms < MIN_POLL_INTERVAL_MS { MIN_POLL_INTERVAL_MS as int } else { ms }
}

/// What a polling response calls for, with `remaining_ms` of the window
/// left.
pub open spec fn poll_decision(status: u16, retry_after_secs: Option<u64>, remaining_ms: u64) -> PollAction {
    if status == 200 {
        PollAction::Receipt
    } else if status == 302 {
        if poll_wait(retry_after_secs) >= remaining_ms {
            PollAction::Timeout
        } else {
            PollAction::Wait(poll_wait(retry_after_secs) as u64)
        }
    } else {
        PollAction::Unexpected
    }
}

/// A `302` is answered by a wait that fits in the time left, never by one
/// that does not: a wait is at least the minimum interval and shorter than
/// the remaining window, it is the `Retry-After` seconds in milliseconds
/// (or the default interval) when that is above the minimum, and the same
/// response with more time left gives the same wait, with less time left
/// (down to that wait) a timeout.
pub proof fn lemma_poll_wait_fits(retry_after_secs: Option<u64>, remaining_ms: u64, other_ms: u64)
    ensures
        poll_decision(302, retry_after_secs, remaining_ms) matches PollAction::Wait(w) ==> {
            &&& MIN_POLL_INTERVAL_MS <= w < remaining_ms
            &&& match retry_after_secs {
                Some(s) => s * 1000 >= MIN_POLL_INTERVAL_MS ==> w == s * 1000,
                None => true,
            }
            &&& retry_after_secs is None ==> w == POLL_INTERVAL_MS
            &&& poll_decision(302, retry_after_secs, other_ms)
                == (if w < other_ms { PollAction::Wait(w) } else { PollAction::Timeout })
        },
        poll_decision(302, retry_after_secs, remaining_ms) is Timeout && other_ms <= remaining_ms
            ==> poll_decision(302, retry_after_secs, other_ms) is Timeout,
        poll_decision(302, retry_after_secs, remaining_ms) is Timeout ==> match retry_after_secs {
            Some(s) => s * 1000 >= remaining_ms || MIN_POLL_INTERVAL_MS >= remaining_ms,
            None => POLL_INTERVAL_MS >= remaining_ms,
        },
        poll_decision(200, retry_after_secs, remaining_ms) is Receipt,
{
}

/// Decides the next step of polling (see `poll_decision`).
pub fn next_poll_action(status: u16, retry_after_secs: Option<u64>, remaining_ms: u64) -> (r: PollAction)
    ensures
        r == poll_decision(status, retry_after_secs, remaining_ms),
        r matches PollAction::Wait(w) ==> MIN_POLL_INTERVAL_MS <= w < remaining_ms,
        status == 302 && retry_after_secs is None && POLL_INTERVAL_MS < remaining_ms ==> r == PollAction::Wait(POLL_INTERVAL_MS),
        status == 302 && r is Timeout ==> match retry_after_secs {
            Some(s) => s * 1000 >= remaining_ms || MIN_POLL_INTERVAL_MS >= remaining_ms,
            None => POLL_INTERVAL_MS >= remaining_ms,
        },
{
    if status == 200 {
        return PollAction::Receipt;
    }
    if status != 302 {
        return PollAction::Unexpected;
    }
    let wait: u64 = match retry_after_secs {
        Some(s) => {
            if s > u64::MAX / 1000 {
                assert(s * 1000 > u64::MAX) by (nonlinear_arith)
                    requires
                        s > u64::MAX / 1000,
                ;
                return PollAction::Timeout;
            }
            assert(s * 1000 <= u64::MAX) by (nonlinear_arith)
                requires
                    s <= u64::MAX / 1000,
            ;
            s * 1000
        },
        None => POLL_INTERVAL_MS,
    };
    let wait = if wait < MIN_POLL_INTERVAL_MS { MIN_POLL_INTERVAL_MS } else { wait };
    if wait >= remaining_ms {
        PollAction::Timeout
    } else {
        PollAction::Wait(wait)
    }
}

} // verus!
