use vstd::prelude::*;

verus! {

use vstd::string::StrSliceExecFns;

/// The whitespace the PID-file reader strips around the number.
pub open spec fn is_space(c: char) -> bool {
    c == ' ' || c == '\n' || c == '\t' || c == '\r'
}

/// `s` with leading and trailing whitespace removed.
pub open spec fn trim_spaces(s: Seq<char>) -> Seq<char>
    decreases s.len(),
{
    if s.len() == 0 {
        s
    } else if is_space(s[0]) {
        trim_spaces(s.skip(1))
    } else if is_space(s.last()) {
        trim_spaces(s.drop_last())
    } else {
        s
    }
}

/// Every char is a decimal digit.
pub open spec fn all_digits(s: Seq<char>) -> bool {
    forall|i: int| 0 <= i < s.len() ==> '0' <= #[trigger] s[i] <= '9'
}

/// The number the digits spell, read left to right.
pub open spec fn digits_value(s: Seq<char>) -> int
    decreases s.len(),
{
    if s.len() == 0 {
        0
    } else {
        digits_value(s.drop_last()) * 10 + (s.last() as int - '0' as int)
    }
}

/// A digit string's value is nonnegative and no smaller than any prefix's.
proof fn lemma_digits_prefix(s: Seq<char>, i: int)
    requires
        all_digits(s),
        0 <= i <= s.len(),
    ensures
        0 <= digits_value(s.take(i)) <= digits_value(s),
    decreases s.len(),
{
    if s.len() == 0 {
        assert(s.take(i) =~= s);
    } else {
        lemma_digits_prefix(s.drop_last(), if i < s.len() { i } else { i - 1 });
        if i < s.len() {
            assert(s.take(i) =~= s.drop_last().take(i));
        } else {
            assert(s.take(i) =~= s);
            assert(s.drop_last().take(i - 1) =~= s.drop_last());
        }
    }
}

/// Trimming a sequence whose spaces sit exactly outside `a..b` leaves
/// `s[a..b]`.
proof fn lemma_trim_bounds(s: Seq<char>, a: int, b: int)
    requires
        0 <= a <= b <= s.len(),
        forall|i: int| 0 <= i < a ==> is_space(#[trigger] s[i]),
        forall|i: int| b <= i < s.len() ==> is_space(#[trigger] s[i]),
        a < b ==> !is_space(s[a]) && !is_space(s[b - 1]),
    ensures
        trim_spaces(s) == s.subrange(a, b),
    decreases s.len(),
{
    if s.len() == 0 {
        assert(trim_spaces(s) =~= s.subrange(a, b));
    } else if is_space(s[0]) {
        if a == b {
            assert forall|i: int| 0 <= i < s.skip(1).len() implies is_space(
                #[trigger] s.skip(1)[i],
            ) by {
                assert(s.skip(1)[i] == s[i + 1]);
            }
            lemma_trim_bounds(s.skip(1), 0, 0);
            assert(s.subrange(a, b) =~= s.skip(1).subrange(0, 0));
        } else {
            assert(a >= 1);
            assert forall|i: int| 0 <= i < a - 1 implies is_space(#[trigger] s.skip(1)[i]) by {
                assert(s.skip(1)[i] == s[i + 1]);
            }
            assert forall|i: int| b - 1 <= i < s.skip(1).len() implies is_space(
                #[trigger] s.skip(1)[i],
            ) by {
                assert(s.skip(1)[i] == s[i + 1]);
            }
            assert(s.skip(1)[a - 1] == s[a]);
            assert(s.skip(1)[b - 2] == s[b - 1]);
            lemma_trim_bounds(s.skip(1), a - 1, b - 1);
            assert(s.subrange(a, b) =~= s.skip(1).subrange(a - 1, b - 1));
        }
    } else if is_space(s.last()) {
        assert(a == 0);
        assert(b < s.len());
        assert forall|i: int| b <= i < s.drop_last().len() implies is_space(
            #[trigger] s.drop_last()[i],
        ) by {
            assert(s.drop_last()[i] == s[i]);
        }
        lemma_trim_bounds(s.drop_last(), a, b);
        assert(s.subrange(a, b) =~= s.drop_last().subrange(a, b));
    } else {
        assert(a == 0);
        assert(b == s.len());
        assert(trim_spaces(s) =~= s.subrange(a, b));
    }
}

/// Reads a decimal process id from the PID file's text: after stripping
/// surrounding whitespace the text must be one or more digits whose value
/// fits an `i32`; anything else reads as nothing.
pub fn parse_pid(s: &str) -> (r: Option<i32>)
    ensures
        ({
            let t = trim_spaces(s@);
            if t.len() > 0 && all_digits(t) && digits_value(t) <= i32::MAX {
                (r matches Some(p) && p == digits_value(t))
            } else {
                r is None
            }
        }),
{
    let len = s.unicode_len();
    let mut start: usize = 0;
    while start < len && is_space_char(s.get_char(start))
        invariant
            0 <= start <= len,
            len == s@.len(),
            forall|i: int| 0 <= i < start ==> is_space(#[trigger] s@[i]),
        decreases len - start,
    {
        start = start + 1;
    }
    let mut end: usize = len;
    while end > start && is_space_char(s.get_char(end - 1))
        invariant
            start <= end <= len,
            len == s@.len(),
            forall|i: int| 0 <= i < start ==> is_space(#[trigger] s@[i]),
            forall|i: int| end <= i < len ==> is_space(#[trigger] s@[i]),
        decreases end,
    {
        end = end - 1;
    }
    proof {
        lemma_trim_bounds(s@, start as int, end as int);
    }
    let ghost t = trim_spaces(s@);
    if start == end {
        return None;
    }
    let mut acc: u64 = 0;
    let mut i: usize = start;
    while i < end
        invariant
            start <= i <= end <= len,
            len == s@.len(),
            t == trim_spaces(s@),
            t == s@.subrange(start as int, end as int),
            acc <= i32::MAX,
            forall|j: int| 0 <= j < i - start ==> '0' <= #[trigger] t[j] <= '9',
            acc == digits_value(t.take(i - start)),
        decreases end - i,
    {
        let c = s.get_char(i);
        if !('0' <= c && c <= '9') {
            proof {
                assert(t[i - start] == s@[i as int]);
            }
            return None;
        }
        proof {
            assert(t[i - start] == s@[i as int]);
            assert(t.take(i - start + 1).drop_last() =~= t.take(i - start));
            assert(t.take(i - start + 1).last() == t[i - start]);
        }
        acc = acc * 10 + ((c as u32 - '0' as u32) as u64);
        if acc > i32::MAX as u64 {
            proof {
                if all_digits(t) && digits_value(t) <= i32::MAX {
                    lemma_digits_prefix(t, i - start + 1);
                }
            }
            return None;
        }
        i = i + 1;
    }
    proof {
        assert(t.take(end - start) =~= t);
    }
    Some(acc as i32)
}

/// Whitespace test used by the PID parser.
fn is_space_char(c: char) -> (r: bool)
    ensures
        r == is_space(c),
{
    c == ' ' || c == '\n' || c == '\t' || c == '\r'
}

/// Relies on nix's `kill` with no signal: a pure liveness probe of the
/// process id; whether the process is alive depends on the machine's state,
/// so nothing is promised of the outcome.
#[verifier::external_body]
fn pid_alive(pid: i32) -> bool {
    nix::sys::signal::kill(nix::unistd::Pid::from_raw(pid), None).is_ok()
}

/// Whether the watchdog is already running, judged from the PID file's text
/// (`None` when the file is absent): false when the file is absent or does
/// not read as a process id, and otherwise the verdict of a liveness probe
/// of the recorded id.
pub fn is_beacon_running(pid_file_text: Option<&str>) -> (r: bool)
    ensures
        pid_file_text is None ==> !r,
        (match pid_file_text {
            Some(s) => {
                let t = trim_spaces(s@);
                !(t.len() > 0 && all_digits(t) && digits_value(t) <= i32::MAX)
            },
            None => true,
        }) ==> !r,
{
    match pid_file_text {
        Some(text) => match parse_pid(text) {
            Some(pid) => pid_alive(pid),
            None => false,
        },
        None => false,
    }
}

/// What one watchdog tick does to the session file.
pub enum TickAction {
    /// Delete the stale session file and log the deletion.
    DeleteSessionAndLog,
    /// Leave the file alone and log a normal check.
    LogOnly,
}

/// The watchdog's decision each tick: delete the session file (and log the
/// deletion) exactly when the file still exists but no longer loads as a
/// fresh session; otherwise only log the check.
pub fn beacon_tick_action(session_loaded: bool, session_file_exists: bool) -> (r: TickAction)
    ensures
        (r is DeleteSessionAndLog) == (!session_loaded && session_file_exists),
{
    if !session_loaded && session_file_exists {
        TickAction::DeleteSessionAndLog
    } else {
        TickAction::LogOnly
    }
}

} // verus!
