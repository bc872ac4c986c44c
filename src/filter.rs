//! The commit filter: a message pattern and a before / after time window,
//! each checked independently of the others.
use vstd::prelude::*;

verus! {

/// The time of a commit: seconds since the Unix epoch and the offset of the
/// author's time zone in minutes. Times order by seconds, then by offset.
#[derive(Clone, Copy, Debug, PartialEq, Eq, Structural)]
pub struct CommitTime {
    pub seconds: i64,
    pub offset_minutes: i32,
}

/// `a` is strictly earlier than `b`.
pub open spec fn time_lt(a: CommitTime, b: CommitTime) -> bool {
    a.seconds < b.seconds || (a.seconds == b.seconds && a.offset_minutes < b.offset_minutes)
}

impl CommitTime {
    pub fn new(seconds: i64, offset_minutes: i32) -> (r: CommitTime)
        ensures
            r.seconds == seconds,
            r.offset_minutes == offset_minutes,
    {
        CommitTime { seconds, offset_minutes }
    }

    /// Whether `self` is strictly earlier than `other`.
    pub fn is_before(&self, other: &CommitTime) -> (r: bool)
        ensures
            r == time_lt(*self, *other),
    {
        self.seconds < other.seconds || (self.seconds == other.seconds && self.offset_minutes
            < other.offset_minutes)
    }
}

/// `needle` occurs in `haystack` as a contiguous run.
pub open spec fn contains_text(haystack: Seq<char>, needle: Seq<char>) -> bool {
    exists|i: int|
        0 <= i && i + needle.len() <= haystack.len() && #[trigger] haystack.subrange(
            i,
            i + needle.len(),
        ) == needle
}

/// Relies on `str::contains` with a string pattern: true exactly when
/// `needle` occurs in `haystack` as a contiguous run of characters.
#[verifier::external_body]
fn text_contains(haystack: &str, needle: &str) -> (r: bool)
    ensures
        r == contains_text(haystack@, needle@),
{
    haystack.contains(needle)
}

/// The message rule: no pattern admits every commit; a pattern admits a
/// commit whose message holds it, case-sensitively, and rejects one without
/// a message.
pub open spec fn message_admits(pattern: Option<Seq<char>>, message: Option<Seq<char>>) -> bool {
    match pattern {
        None => true,
        Some(p) => match message {
            None => false,
            Some(m) => contains_text(m, p),
        },
    }
}

/// The time rule: the time is strictly earlier than `before` and strictly
/// later than `after`, each where that bound is set.
pub open spec fn time_admits(
    timestamp: CommitTime,
    before: Option<CommitTime>,
    after: Option<CommitTime>,
) -> bool {
    (match before {
        None => true,
        Some(b) => time_lt(timestamp, b),
    }) && (match after {
        None => true,
        Some(a) => time_lt(a, timestamp),
    })
}

/// Whether a commit passes the whole filter.
pub open spec fn filter_admits(
    pattern: Option<Seq<char>>,
    before: Option<CommitTime>,
    after: Option<CommitTime>,
    message: Option<Seq<char>>,
    timestamp: CommitTime,
) -> bool {
    message_admits(pattern, message) && time_admits(timestamp, before, after)
}

pub open spec fn str_opt_view(o: Option<&str>) -> Option<Seq<char>> {
    match o {
        Some(s) => Some(s@),
        None => None,
    }
}

pub open spec fn string_opt_view(o: Option<String>) -> Option<Seq<char>> {
    match o {
        Some(s) => Some(s@),
        None => None,
    }
}

/// Whether a commit message passes the message pattern `grep`.
pub fn commit_message_matches(msg: Option<&str>, grep: &Option<String>) -> (r: bool)
    ensures
        r == message_admits(string_opt_view(*grep), str_opt_view(msg)),
{
    match grep {
        None => true,
        Some(pattern) => match msg {
            None => false,
            Some(m) => text_contains(m, pattern.as_str()),
        },
    }
}

/// Whether `timestamp` lies inside the window set by `before` and `after`.
pub fn commit_timestamp_is_in_range(
    timestamp: CommitTime,
    before: Option<CommitTime>,
    after: Option<CommitTime>,
) -> (r: bool)
    ensures
        r == time_admits(timestamp, before, after),
{
    if let Some(b) = before {
        if !timestamp.is_before(&b) {
            return false;
        }
    }
    if let Some(a) = after {
        return a.is_before(&timestamp);
    }
    true
}

/// Whether a commit with this message and time passes the filter.
pub fn commit_passes_filter(
    grep: &Option<String>,
    before: Option<CommitTime>,
    after: Option<CommitTime>,
    msg: Option<&str>,
    timestamp: CommitTime,
) -> (r: bool)
    ensures
        r == filter_admits(string_opt_view(*grep), before, after, str_opt_view(msg), timestamp),
{
    commit_message_matches(msg, grep) && commit_timestamp_is_in_range(timestamp, before, after)
}

/// With a before-bound alone, a commit is kept exactly when its time is
/// earlier than the bound, whatever its message.
pub proof fn lemma_before_bound_alone(
    before: CommitTime,
    message: Option<Seq<char>>,
    timestamp: CommitTime,
)
    ensures
        filter_admits(None, Some(before), None, message, timestamp) == time_lt(timestamp, before),
{
}

/// With a message pattern alone, a commit is kept exactly when its message
/// holds the pattern, whatever its time.
pub proof fn lemma_pattern_alone(pattern: Seq<char>, message: Option<Seq<char>>, timestamp: CommitTime)
    ensures
        filter_admits(Some(pattern), None, None, message, timestamp) == (message matches Some(
            m,
        ) && contains_text(m, pattern)),
{
}

/// Setting or removing a message pattern never changes the outcome of the
/// time comparison, nor do the time bounds change the outcome of the message
/// check: a commit is kept exactly when it passes both on their own.
pub proof fn lemma_filter_rules_independent(
    pattern: Option<Seq<char>>,
    before: Option<CommitTime>,
    after: Option<CommitTime>,
    message: Option<Seq<char>>,
    timestamp: CommitTime,
)
    ensures
        filter_admits(pattern, before, after, message, timestamp) == (filter_admits(
            None,
            before,
            after,
            message,
            timestamp,
        ) && filter_admits(pattern, None, None, message, timestamp)),
        filter_admits(None, before, after, message, timestamp) == time_admits(
            timestamp,
            before,
            after,
        ),
        filter_admits(pattern, None, None, message, timestamp) == message_admits(pattern, message),
{
}

} // verus!
