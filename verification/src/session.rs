use vstd::prelude::*;

verus! {

use vstd::string::StrSliceExecFns;
use vstd::string::StringExecFns;

/// Number of seconds a cached session stays valid after it was created.
pub const SESSION_TTL_SECS: i64 = 600;

/// Latest timestamp the renderer accepts: the last second of year 9999.
pub const MAX_SESSION_TS: i64 = 253_402_300_799;

/// The RFC 3339 rendering of a Unix timestamp (in seconds, UTC).
pub uninterp spec fn rfc3339_chars(ts: int) -> Seq<char>;

/// The session file line for a creation time and a password.
pub open spec fn session_line(ts: int, password: Seq<char>) -> Seq<char> {
    rfc3339_chars(ts) + "::"@ + password
}

/// True when a session created at `created_at` is still valid at `now`
/// (both in seconds): its age must not exceed the time-to-live.
pub fn session_fresh(created_at: i64, now: i64) -> (r: bool)
    ensures
        r == (now - created_at <= SESSION_TTL_SECS),
{
    (now as i128) - (created_at as i128) <= SESSION_TTL_SECS as i128
}

/// Relies on chrono's `Utc::now` and `timestamp`: the current time as Unix
/// seconds; nothing is promised of the value.
#[verifier::external_body]
pub fn now_ts() -> i64 {
    chrono::Utc::now().timestamp()
}

/// Relies on chrono's `DateTime::<Utc>::from_timestamp` and `to_rfc3339`:
/// the rendering is a function of the timestamp alone; the call succeeds for
/// timestamps up to year 9999; the rendering is nonempty, never holds two
/// adjacent colons, and never ends in a colon.
#[verifier::external_body]
fn format_timestamp(ts: i64) -> (r: String)
    requires
        0 <= ts <= MAX_SESSION_TS,
    ensures
        r@ == rfc3339_chars(ts as int),
        r@.len() > 0,
        r@[r@.len() - 1] != ':',
        forall|i: int| 0 <= i && i + 1 < r@.len() ==> !(#[trigger] r@[i] == ':' && r@[i + 1] == ':'),
{
    chrono::DateTime::<chrono::Utc>::from_timestamp(ts, 0).unwrap().to_rfc3339()
}

/// Relies on chrono's `DateTime::parse_from_rfc3339` and `timestamp`: it
/// accepts what `to_rfc3339` produced and returns the same timestamp.
#[verifier::external_body]
fn parse_timestamp(s: &str) -> (r: Option<i64>)
    ensures
        forall|t: int|
            0 <= t <= MAX_SESSION_TS && s@ == #[trigger] rfc3339_chars(t) ==> r == Some(t as i64),
{
    match chrono::DateTime::parse_from_rfc3339(s) {
        Ok(d) => Some(d.timestamp()),
        Err(_) => None,
    }
}

/// Index of the first "::" in `s`, or -1 when there is none.
pub open spec fn first_double_colon(s: Seq<char>) -> int
    decreases s.len(),
{
    if s.len() < 2 {
        -1
    } else if s[0] == ':' && s[1] == ':' {
        0
    } else {
        let rest = first_double_colon(s.skip(1));
        if rest < 0 {
            -1
        } else {
            rest + 1
        }
    }
}

/// What the index of the first "::" means: a nonnegative index points at two
/// adjacent colons with no earlier pair, and -1 says no such pair exists.
pub proof fn lemma_first_double_colon(s: Seq<char>)
    ensures
        first_double_colon(s) < 0 ==> forall|j: int|
            0 <= j && j + 1 < s.len() ==> !(#[trigger] s[j] == ':' && s[j + 1] == ':'),
        first_double_colon(s) >= 0 ==> first_double_colon(s) + 1 < s.len() && s[first_double_colon(
            s,
        )] == ':' && s[first_double_colon(s) + 1] == ':' && forall|j: int|
            0 <= j < first_double_colon(s) ==> !(#[trigger] s[j] == ':' && s[j + 1] == ':'),
    decreases s.len(),
{
    if s.len() >= 2 && !(s[0] == ':' && s[1] == ':') {
        lemma_first_double_colon(s.skip(1));
        let rest = first_double_colon(s.skip(1));
        if rest < 0 {
            assert forall|j: int| 0 <= j && j + 1 < s.len() implies !(#[trigger] s[j] == ':' && s[
                j + 1] == ':') by {
                if j > 0 {
                    assert(s.skip(1)[j - 1] == s[j]);
                    assert(s.skip(1)[j] == s[j + 1]);
                }
            }
        } else {
            assert(s[rest + 1] == s.skip(1)[rest]);
            assert(s[rest + 2] == s.skip(1)[rest + 1]);
            assert forall|j: int| 0 <= j < rest + 1 implies !(#[trigger] s[j] == ':' && s[j + 1]
                == ':') by {
                if j > 0 {
                    assert(s.skip(1)[j - 1] == s[j]);
                    assert(s.skip(1)[j] == s[j + 1]);
                }
            }
        }
    }
}

/// The first "::" of a sequence whose position `i` holds its only leading
/// pair of adjacent colons is exactly at `i`.
pub proof fn lemma_first_double_colon_is(s: Seq<char>, i: int)
    requires
        0 <= i,
        i + 1 < s.len(),
        s[i] == ':',
        s[i + 1] == ':',
        forall|j: int| 0 <= j < i ==> !(#[trigger] s[j] == ':' && s[j + 1] == ':'),
    ensures
        first_double_colon(s) == i,
    decreases i,
{
    if i > 0 {
        assert forall|j: int| 0 <= j < i - 1 implies !(#[trigger] s.skip(1)[j] == ':' && s.skip(
            1,
        )[j + 1] == ':') by {
            assert(s.skip(1)[j] == s[j + 1]);
            assert(s.skip(1)[j + 1] == s[j + 2]);
        }
        assert(s.skip(1)[i - 1] == s[i]);
        assert(s.skip(1)[i] == s[i + 1]);
        lemma_first_double_colon_is(s.skip(1), i - 1);
    }
}

/// Index of the first "::" in `s`, or `None` when there is none.
fn find_double_colon(s: &str) -> (r: Option<usize>)
    ensures
        r matches Some(i) ==> first_double_colon(s@) == i,
        r is None ==> first_double_colon(s@) < 0,
{
    let len = s.unicode_len();
    if len < 1 {
        proof {
            lemma_first_double_colon(s@);
        }
        return None;
    }
    let mut i: usize = 0;
    while i + 1 < len
        invariant
            0 <= i,
            i < len,
            len == s@.len(),
            len >= 1,
            forall|j: int| 0 <= j < i ==> !(#[trigger] s@[j] == ':' && s@[j + 1] == ':'),
        decreases len - i,
    {
        if s.get_char(i) == ':' && s.get_char(i + 1) == ':' {
            proof {
                lemma_first_double_colon_is(s@, i as int);
            }
            return Some(i);
        }
        i = i + 1;
    }
    proof {
        lemma_first_double_colon(s@);
    }
    None
}

/// Writes the session file line `<RFC3339 timestamp>::<password>`.
pub fn render_session_line(ts: i64, password: &str) -> (r: String)
    requires
        0 <= ts <= MAX_SESSION_TS,
    ensures
        r@ == session_line(ts as int, password@),
        first_double_colon(password@) < 0 ==> first_double_colon(r@) == rfc3339_chars(
            ts as int,
        ).len(),
{
    let stamp = format_timestamp(ts);
    let ghost stamp_view = stamp@;
    let mut line = stamp;
    line.append("::");
    line.append(password);
    proof {
        reveal_strlit("::");
        assert(line@ =~= stamp_view + "::"@ + password@);
        if first_double_colon(password@) < 0 {
            let n = stamp_view.len() as int;
            lemma_first_double_colon(password@);
            assert forall|j: int| 0 <= j < n implies !(#[trigger] line@[j] == ':' && line@[j + 1]
                == ':') by {
                if j + 1 < n {
                    assert(line@[j] == stamp_view[j]);
                    assert(line@[j + 1] == stamp_view[j + 1]);
                } else {
                    assert(line@[j] == stamp_view[n - 1]);
                }
            }
            lemma_first_double_colon_is(line@, n);
        }
    }
    line
}

/// Reads a session file line `<RFC3339 timestamp>::<password>`: the cached
/// password when the line has exactly two fields, the first parses as a
/// timestamp, and the session's age at `now` is within the time-to-live;
/// nothing otherwise. Expired lines are only reported absent, never deleted
/// here: deleting the file is the watchdog's job.
pub fn parse_session_line(line: &str, now: i64) -> (r: Option<String>)
    ensures
        r matches Some(p) ==> first_double_colon(line@) >= 0 && p@ == line@.skip(
            first_double_colon(line@) + 2,
        ) && first_double_colon(p@) < 0,
        forall|ts: int, pw: Seq<char>|
            0 <= ts <= MAX_SESSION_TS && line@ == #[trigger] session_line(ts, pw)
                && first_double_colon(line@) == rfc3339_chars(ts).len() && first_double_colon(pw)
                < 0 ==> (if now - ts <= SESSION_TTL_SECS {
                (r matches Some(p) && p@ == pw)
            } else {
                r is None
            }),
{
    let idx = match find_double_colon(line) {
        Some(i) => i,
        None => {
            return None;
        },
    };
    proof {
        lemma_first_double_colon(line@);
    }
    let len = line.unicode_len();
    let left = line.substring_char(0, idx);
    let rest = line.substring_char(idx + 2, len);
    proof {
        reveal_strlit("::");
        assert forall|ts: int, pw: Seq<char>|
            line@ == #[trigger] session_line(ts, pw) && first_double_colon(line@) == rfc3339_chars(
                ts,
            ).len() implies left@ == rfc3339_chars(ts) && rest@ == pw by {
            assert(left@ =~= rfc3339_chars(ts));
            assert(rest@ =~= pw);
        }
    }
    if find_double_colon(rest).is_some() {
        return None;
    }
    let ts = match parse_timestamp(left) {
        Some(t) => t,
        None => {
            return None;
        },
    };
    if session_fresh(ts, now) {
        Some(rest.to_owned())
    } else {
        None
    }
}

/// Saving then loading: a session line written at `ts` yields the password
/// back while its age at `now` is within the time-to-live, and nothing once
/// more time has elapsed. The password must not itself contain the "::"
/// field separator.
pub fn save_then_load_line(ts: i64, now: i64, password: &str) -> (r: Option<String>)
    requires
        0 <= ts <= MAX_SESSION_TS,
        first_double_colon(password@) < 0,
    ensures
        now - ts <= SESSION_TTL_SECS ==> (r matches Some(p) && p@ == password@),
        now - ts > SESSION_TTL_SECS ==> r is None,
{
    let line = render_session_line(ts, password);
    parse_session_line(line.as_str(), now)
}

} // verus!

