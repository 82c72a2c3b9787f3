//! Multi-line log aggregation: consecutive raw lines are grouped into one
//! event until a line that plainly starts a new entry (a timestamp, a log
//! level, a complete JSON object) or a large enough time gap arrives.

use vstd::prelude::*;

use crate::strings::{chars_slice, is_digit, is_space, lower_seq, str_chars};

verus! {

#[derive(Clone, Copy, Debug, PartialEq, Eq, Structural)]
pub enum Decision {
    StartNew,
    NoOpinion,
}

#[derive(Clone, Copy, Debug, PartialEq, Eq, Structural)]
pub struct Ruling {
    pub decision: Decision,
    pub complete: bool,
}

pub struct AggregatedEvent {
    pub line: String,
    pub container_ts: Option<String>,
}

pub struct LineView<'a> {
    pub content: &'a str,
}

impl<'a> LineView<'a> {
    pub fn new(content: &'a str) -> (r: LineView<'a>)
        ensures
            r.content@ == content@,
    {
        LineView { content }
    }
}

#[derive(Clone, Copy, Debug, PartialEq, Eq, Structural)]
pub struct Vote {
    pub decision: Decision,
    pub complete: bool,
}

impl Vote {
    pub fn start(complete: bool) -> (r: Vote)
        ensures
            r.decision == Decision::StartNew,
            r.complete == complete,
    {
        Vote { decision: Decision::StartNew, complete }
    }
}

/// What `serde_json` accepts as one complete JSON document. The result
/// depends on the text alone.
pub uninterp spec fn is_json_text(s: Seq<char>) -> bool;

/// Relies on `serde_json::from_str::<serde_json::Value>`: whether the text
/// parses as one JSON value, a function of the text alone.
#[verifier::external_body]
fn json_parses(s: &str) -> (r: bool)
    ensures
        r == is_json_text(s@),
{
    serde_json::from_str::<serde_json::Value>(s).is_ok()
}

/// Milliseconds since the epoch of an RFC 3339 timestamp, `None` when the
/// text is not one; a function of the text alone.
pub uninterp spec fn rfc3339_ms(s: Seq<char>) -> Option<i64>;

/// Relies on `time::OffsetDateTime::parse` with the RFC 3339 format: the
/// parse is a pure function of the text.
#[verifier::external_body]
pub fn parse_rfc3339_to_epoch_millis(s: &str) -> (r: Option<i64>)
    ensures
        r == rfc3339_ms(s@),
{
    let parsed = time::OffsetDateTime::parse(s, &time::format_description::well_known::Rfc3339)
        .ok()?;
    let seconds = parsed.unix_timestamp();
    let millis = i64::from(parsed.millisecond());
    Some(seconds.saturating_mul(1000).saturating_add(millis))
}

/// The trimmed line when it is brace- or bracket-delimited: a candidate for
/// JSON parsing.
pub open spec fn spec_json_candidate(s: Seq<char>) -> Option<Seq<char>> {
    let t = crate::strings::trim_seq(s);
    if t.len() > 0 && ((t[0] == '{' && t.last() == '}') || (t[0] == '[' && t.last() == ']')) {
        Some(t)
    } else {
        None
    }
}

pub fn extract_json_candidate(v: &Vec<char>) -> (r: Option<Vec<char>>)
    ensures
        match r {
            Some(c) => spec_json_candidate(v@) == Some(c@),
            None => spec_json_candidate(v@) is None,
        },
{
    let t = crate::strings::chars_trim(v);
    if t.len() > 0 && ((t[0] == '{' && t[t.len() - 1] == '}') || (t[0] == '[' && t[t.len() - 1]
        == ']')) {
        Some(t)
    } else {
        None
    }
}

/// Ten characters starting at `i` forming `dddd-dd-dd` (or with `/`): the
/// index just past the date, if it matches.
pub open spec fn spec_date_at(s: Seq<char>, i: int) -> Option<int> {
    if i < 0 || i + 9 >= s.len() {
        None
    } else if is_digit(s[i]) && is_digit(s[i + 1]) && is_digit(s[i + 2]) && is_digit(s[i + 3]) && (
    s[i + 4] == '-' || s[i + 4] == '/') && is_digit(s[i + 5]) && is_digit(s[i + 6]) && (s[i + 7]
        == '-' || s[i + 7] == '/') && is_digit(s[i + 8]) && is_digit(s[i + 9]) {
        Some(i + 10)
    } else {
        None
    }
}

pub fn match_date_at(v: &Vec<char>, i: usize) -> (r: Option<usize>)
    ensures
        match r {
            Some(e) => spec_date_at(v@, i as int) == Some(e as int),
            None => spec_date_at(v@, i as int) is None,
        },
{
    if i >= v.len() || v.len() - i <= 9 {
        return None;
    }
    if ('0' <= v[i] && v[i] <= '9') && ('0' <= v[i + 1] && v[i + 1] <= '9') && ('0' <= v[i + 2] && v[i + 2] <= '9') && ('0' <= v[i
        + 3] && v[i
        + 3] <= '9') && (v[i + 4] == '-' || v[i + 4] == '/') && ('0' <= v[i + 5] && v[i + 5] <= '9')
        && ('0' <= v[i + 6] && v[i + 6] <= '9') && (v[i + 7] == '-' || v[i + 7] == '/') && ('0' <= v[i
        + 8] && v[i
        + 8] <= '9') && ('0' <= v[i + 9] && v[i + 9] <= '9') {
        Some(i + 10)
    } else {
        None
    }
}

/// First index at or after `i` that does not hold a digit.
pub open spec fn digits_end(s: Seq<char>, i: int) -> int
    decreases s.len() - i,
{
    if 0 <= i < s.len() && is_digit(s[i]) {
        digits_end(s, i + 1)
    } else {
        i
    }
}

fn scan_digits_end(v: &Vec<char>, i: usize) -> (r: usize)
    requires
        i <= v@.len(),
    ensures
        r == digits_end(v@, i as int),
        i <= r <= v@.len(),
    decreases v@.len() - i,
{
    if i < v.len() && ('0' <= v[i] && v[i] <= '9') {
        scan_digits_end(v, i + 1)
    } else {
        i
    }
}

/// `hh:mm:ss` starting at `i`, with an optional fraction and an optional
/// timezone tail: the index just past the match.
pub open spec fn spec_time_at(s: Seq<char>, i: int) -> Option<int> {
    if i < 0 || i + 7 >= s.len() {
        None
    } else if is_digit(s[i]) && is_digit(s[i + 1]) && s[i + 2] == ':' && is_digit(s[i + 3])
        && is_digit(s[i + 4]) && s[i + 5] == ':' && is_digit(s[i + 6]) && is_digit(s[i + 7]) {
        let base = i + 8;
        let frac = if base < s.len() && (s[base] == '.' || s[base] == ',') {
            if digits_end(s, base + 1) == base + 1 {
                None
            } else {
                Some(digits_end(s, base + 1))
            }
        } else {
            Some(base)
        };
        match frac {
            None => None,
            Some(end) => if end < s.len() && (s[end] == 'Z' || s[end] == 'z') {
                Some(end + 1)
            } else if end < s.len() && (s[end] == '+' || s[end] == '-') {
                if end + 5 < s.len() && is_digit(s[end + 1]) && is_digit(s[end + 2]) && s[end + 3]
                    == ':' && is_digit(s[end + 4]) && is_digit(s[end + 5]) {
                    Some(end + 6)
                } else {
                    Some(end)
                }
            } else {
                Some(end)
            },
        }
    } else {
        None
    }
}

pub fn match_time_at(v: &Vec<char>, i: usize) -> (r: Option<usize>)
    ensures
        match r {
            Some(e) => spec_time_at(v@, i as int) == Some(e as int),
            None => spec_time_at(v@, i as int) is None,
        },
{
    if i >= v.len() || v.len() - i <= 7 {
        return None;
    }
    if !(('0' <= v[i] && v[i] <= '9') && ('0' <= v[i + 1] && v[i + 1] <= '9') && v[i + 2] == ':' && ('0' <= v[i
        + 3] && v[i
        + 3] <= '9') && ('0' <= v[i + 4] && v[i + 4] <= '9') && v[i + 5] == ':' && ('0' <= v[i
        + 6] && v[i
        + 6] <= '9') && ('0' <= v[i + 7] && v[i + 7] <= '9')) {
        return None;
    }
    let base: usize = i + 8;
    let mut end: usize = base;
    if base < v.len() && (v[base] == '.' || v[base] == ',') {
        let de = scan_digits_end(v, base + 1);
        if de == base + 1 {
            return None;
        }
        end = de;
    }
    if end < v.len() && (v[end] == 'Z' || v[end] == 'z') {
        return Some(end + 1);
    }
    if end < v.len() && (v[end] == '+' || v[end] == '-') {
        if v.len() - end > 5 && ('0' <= v[end + 1] && v[end + 1] <= '9') && ('0' <= v[end + 2] && v[end + 2] <= '9') && v[end
            + 3] == ':' && ('0' <= v[end + 4] && v[end + 4] <= '9') && ('0' <= v[end + 5] && v[end + 5] <= '9') {
            return Some(end + 6);
        }
    }
    Some(end)
}

/// Whether a run of the token starting at `i` holds a full date-`T`-time
/// stamp.
pub open spec fn dt_scan(s: Seq<char>, i: int) -> bool
    decreases s.len() - i,
{
    if i < 0 || i + 10 >= s.len() {
        false
    } else if (match spec_date_at(s, i) {
        Some(end) => end < s.len() && (s[end] == 'T' || s[end] == 't') && spec_time_at(
            s,
            end + 1,
        ) is Some,
        None => false,
    }) {
        true
    } else {
        dt_scan(s, i + 1)
    }
}

pub fn token_contains_datetime(v: &Vec<char>) -> (r: bool)
    ensures
        r == dt_scan(v@, 0),
{
    token_contains_datetime_from(v, 0)
}

fn token_contains_datetime_from(v: &Vec<char>, i: usize) -> (r: bool)
    requires
        i <= v@.len(),
    ensures
        r == dt_scan(v@, i as int),
    decreases v@.len() - i,
{
    if v.len() - i <= 10 {
        return false;
    }
    let hit = match match_date_at(v, i) {
        Some(end) => if end < v.len() && (v[end] == 'T' || v[end] == 't') {
            match match_time_at(v, end + 1) {
                Some(_) => true,
                None => false,
            }
        } else {
            false
        },
        None => false,
    };
    if hit {
        true
    } else {
        token_contains_datetime_from(v, i + 1)
    }
}

pub open spec fn date_scan(s: Seq<char>, i: int) -> bool
    decreases s.len() - i,
{
    if i < 0 || i + 9 >= s.len() {
        false
    } else if spec_date_at(s, i) is Some {
        true
    } else {
        date_scan(s, i + 1)
    }
}

pub fn token_contains_date(v: &Vec<char>) -> (r: bool)
    ensures
        r == date_scan(v@, 0),
{
    token_contains_date_from(v, 0)
}

fn token_contains_date_from(v: &Vec<char>, i: usize) -> (r: bool)
    requires
        i <= v@.len(),
    ensures
        r == date_scan(v@, i as int),
    decreases v@.len() - i,
{
    if v.len() - i <= 9 {
        false
    } else if match_date_at(v, i).is_some() {
        true
    } else {
        token_contains_date_from(v, i + 1)
    }
}

pub open spec fn time_scan(s: Seq<char>, i: int) -> bool
    decreases s.len() - i,
{
    if i < 0 || i + 7 >= s.len() {
        false
    } else if spec_time_at(s, i) is Some {
        true
    } else {
        time_scan(s, i + 1)
    }
}

pub fn token_contains_time(v: &Vec<char>) -> (r: bool)
    ensures
        r == time_scan(v@, 0),
{
    token_contains_time_from(v, 0)
}

fn token_contains_time_from(v: &Vec<char>, i: usize) -> (r: bool)
    requires
        i <= v@.len(),
    ensures
        r == time_scan(v@, i as int),
    decreases v@.len() - i,
{
    if v.len() - i <= 7 {
        false
    } else if match_time_at(v, i).is_some() {
        true
    } else {
        token_contains_time_from(v, i + 1)
    }
}

pub open spec fn is_alpha(c: char) -> bool {
    ('a' <= c && c <= 'z') || ('A' <= c && c <= 'Z')
}

/// First index at or after `i` without an ASCII letter.
pub open spec fn alpha_end(s: Seq<char>, i: int) -> int
    decreases s.len() - i,
{
    if 0 <= i < s.len() && is_alpha(s[i]) {
        alpha_end(s, i + 1)
    } else {
        i
    }
}

fn scan_alpha_end(v: &Vec<char>, i: usize) -> (r: usize)
    requires
        i <= v@.len(),
    ensures
        r == alpha_end(v@, i as int),
        i <= r <= v@.len(),
    decreases v@.len() - i,
{
    if i < v.len() && (('a' <= v[i] && v[i] <= 'z') || ('A' <= v[i] && v[i] <= 'Z')) {
        scan_alpha_end(v, i + 1)
    } else {
        i
    }
}

/// The severity words a new log entry may start with, compared without case.
pub open spec fn spec_is_level(w: Seq<char>) -> bool {
    lower_seq(w) == lower_seq("TRACE"@) || lower_seq(w) == lower_seq("DEBUG"@) || lower_seq(w)
        == lower_seq("INFO"@) || lower_seq(w) == lower_seq("WARN"@) || lower_seq(w) == lower_seq(
        "WARNING"@,
    ) || lower_seq(w) == lower_seq("ERROR"@) || lower_seq(w) == lower_seq("FATAL"@) || lower_seq(w)
        == lower_seq("CRITICAL"@) || lower_seq(w) == lower_seq("PANIC"@)
}

pub fn is_level(w: &Vec<char>) -> (r: bool)
    ensures
        r == spec_is_level(w@),
{
    let lw = crate::strings::chars_lower(w);
    level_matches(&lw, "TRACE") || level_matches(&lw, "DEBUG") || level_matches(&lw, "INFO")
        || level_matches(&lw, "WARN") || level_matches(&lw, "WARNING") || level_matches(&lw, "ERROR")
        || level_matches(&lw, "FATAL") || level_matches(&lw, "CRITICAL") || level_matches(
        &lw,
        "PANIC",
    )
}

fn level_matches(lw: &Vec<char>, level: &str) -> (r: bool)
    ensures
        r == (lw@ == lower_seq(level@)),
{
    let lv = str_chars(level);
    let ll = crate::strings::chars_lower(&lv);
    let mut i: usize = 0;
    if lw.len() != ll.len() {
        return false;
    }
    while i < lw.len()
        invariant
            i <= lw@.len(),
            lw@.len() == ll@.len(),
            ll@ == lower_seq(level@),
            forall|j: int| 0 <= j < i ==> lw@[j] == ll@[j],
        decreases lw@.len() - i,
    {
        if lw[i] != ll[i] {
            return false;
        }
        i = i + 1;
    }
    proof {
        assert(lw@ =~= ll@);
    }
    true
}

/// Whether some alphabetic run of the token is a severity word.
pub open spec fn sev_scan(s: Seq<char>, i: int) -> bool
    decreases s.len() - i, 1int,
{
    if i < 0 || i >= s.len() {
        false
    } else if !is_alpha(s[i]) {
        sev_scan(s, i + 1)
    } else {
        sev_scan_word(s, i)
    }
}

pub open spec fn sev_scan_word(s: Seq<char>, i: int) -> bool
    decreases s.len() - i, 0int,
{
    if 0 <= i < s.len() && is_alpha(s[i]) {
        let e = alpha_end(s, i);
        spec_is_level(s.subrange(i, e)) || (if e <= i || e > s.len() {
            false
        } else {
            sev_scan(s, e)
        })
    } else {
        false
    }
}

pub fn token_has_severity(v: &Vec<char>) -> (r: bool)
    ensures
        r == sev_scan(v@, 0),
{
    token_has_severity_from(v, 0)
}

fn token_has_severity_from(v: &Vec<char>, i: usize) -> (r: bool)
    requires
        i <= v@.len(),
    ensures
        r == sev_scan(v@, i as int),
    decreases v@.len() - i, 1int,
{
    proof {
        reveal_with_fuel(sev_scan, 2);
        reveal_with_fuel(sev_scan_word, 2);
    }
    if i >= v.len() {
        return false;
    }
    if !(('a' <= v[i] && v[i] <= 'z') || ('A' <= v[i] && v[i] <= 'Z')) {
        return token_has_severity_from(v, i + 1);
    }
    let e = scan_alpha_end(v, i);
    proof {
        lemma_alpha_end_progress(v@, i as int);
    }
    let word = chars_slice(v, i, e);
    if is_level(&word) {
        return true;
    }
    token_has_severity_from(v, e)
}

proof fn lemma_alpha_end_bounds(s: Seq<char>, i: int)
    requires
        0 <= i <= s.len(),
    ensures
        i <= alpha_end(s, i) <= s.len(),
    decreases s.len() - i,
{
    if i < s.len() && is_alpha(s[i]) {
        lemma_alpha_end_bounds(s, i + 1);
    }
}

proof fn lemma_alpha_end_progress(s: Seq<char>, i: int)
    requires
        0 <= i < s.len(),
        is_alpha(s[i]),
    ensures
        i < alpha_end(s, i) <= s.len(),
{
    lemma_alpha_end_bounds(s, i + 1);
}

/// The first five whitespace-separated tokens of the line.
pub open spec fn spec_tokens(s: Seq<char>, i: int, left: int) -> Seq<Seq<char>>
    decreases s.len() - i, 1int,
{
    if i < 0 || i >= s.len() || left <= 0 {
        Seq::empty()
    } else if is_space(s[i]) {
        spec_tokens(s, i + 1, left)
    } else {
        spec_tokens_word(s, i, left)
    }
}

pub open spec fn spec_tokens_word(s: Seq<char>, i: int, left: int) -> Seq<Seq<char>>
    decreases s.len() - i, 0int,
{
    if 0 <= i < s.len() && !is_space(s[i]) && left > 0 {
        let e = nonspace_end(s, i);
        if e <= i || e > s.len() {
            Seq::empty()
        } else {
            seq![s.subrange(i, e)] + spec_tokens(s, e, left - 1)
        }
    } else {
        Seq::empty()
    }
}

pub open spec fn nonspace_end(s: Seq<char>, i: int) -> int
    decreases s.len() - i,
{
    if 0 <= i < s.len() && !is_space(s[i]) {
        nonspace_end(s, i + 1)
    } else {
        i
    }
}

fn scan_nonspace_end(v: &Vec<char>, i: usize) -> (r: usize)
    requires
        i <= v@.len(),
    ensures
        r == nonspace_end(v@, i as int),
        i <= r <= v@.len(),
    decreases v@.len() - i,
{
    if i < v.len() && !(v[i] == ' ' || v[i] == '\t' || v[i] == '\n' || v[i] == '\r') {
        scan_nonspace_end(v, i + 1)
    } else {
        i
    }
}

/// Collects the first five tokens.
fn leading_tokens(v: &Vec<char>) -> (r: Vec<Vec<char>>)
    ensures
        r@.map_values(|t: Vec<char>| t@) == spec_tokens(v@, 0, 5),
{
    let mut r: Vec<Vec<char>> = Vec::new();
    leading_tokens_from(v, 0, 5, &mut r);
    proof {
        assert(r@.map_values(|t: Vec<char>| t@) =~= Seq::<Seq<char>>::empty() + spec_tokens(
            v@,
            0,
            5,
        ));
    }
    r
}

fn leading_tokens_from(v: &Vec<char>, i: usize, left: usize, r: &mut Vec<Vec<char>>)
    requires
        i <= v@.len(),
    ensures
        final(r)@.map_values(|t: Vec<char>| t@) == old(r)@.map_values(|t: Vec<char>| t@)
            + spec_tokens(v@, i as int, left as int),
    decreases v@.len() - i,
{
    proof {
        reveal_with_fuel(spec_tokens, 2);
        reveal_with_fuel(spec_tokens_word, 2);
    }
    if i >= v.len() || left == 0 {
        proof {
            assert(r@.map_values(|t: Vec<char>| t@) =~= r@.map_values(|t: Vec<char>| t@)
                + spec_tokens(v@, i as int, left as int));
        }
        return;
    }
    if v[i] == ' ' || v[i] == '\t' || v[i] == '\n' || v[i] == '\r' {
        leading_tokens_from(v, i + 1, left, r);
        return;
    }
    let e = scan_nonspace_end(v, i);
    proof {
        lemma_nonspace_end_progress(v@, i as int);
    }
    let word = chars_slice(v, i, e);
    let ghost before = r@.map_values(|t: Vec<char>| t@);
    r.push(word);
    proof {
        assert(r@.map_values(|t: Vec<char>| t@) =~= before + seq![v@.subrange(i as int, e as int)]);
    }
    leading_tokens_from(v, e, left - 1, r);
    proof {
        assert(before + seq![v@.subrange(i as int, e as int)] + spec_tokens(
            v@,
            e as int,
            left - 1,
        ) =~= before + (seq![v@.subrange(i as int, e as int)] + spec_tokens(v@, e as int, left - 1)));
    }
}

proof fn lemma_nonspace_end_bounds(s: Seq<char>, i: int)
    requires
        0 <= i <= s.len(),
    ensures
        i <= nonspace_end(s, i) <= s.len(),
    decreases s.len() - i,
{
    if i < s.len() && !is_space(s[i]) {
        lemma_nonspace_end_bounds(s, i + 1);
    }
}

proof fn lemma_nonspace_end_progress(s: Seq<char>, i: int)
    requires
        0 <= i < s.len(),
        !is_space(s[i]),
    ensures
        i < nonspace_end(s, i) <= s.len(),
{
    lemma_nonspace_end_bounds(s, i + 1);
}

/// A line starts a new entry when one of its first five tokens carries a
/// date-time stamp, a date token is followed by a time token, or a token
/// carries a severity word.
pub open spec fn spec_start_signal(s: Seq<char>) -> bool {
    let toks = spec_tokens(s, 0, 5);
    toks.len() > 0 && ((exists|i: int| 0 <= i < toks.len() && dt_scan(#[trigger] toks[i], 0)) || (
    exists|i: int|
        0 <= i && i + 1 < toks.len() && date_scan(#[trigger] toks[i], 0) && time_scan(
            toks[i + 1],
            0,
        ))
        || (exists|i: int| 0 <= i < toks.len() && sev_scan(#[trigger] toks[i], 0)))
}

#[verifier::loop_isolation(false)]
pub fn has_start_signal(v: &Vec<char>) -> (r: bool)
    ensures
        r == spec_start_signal(v@),
{
    let toks = leading_tokens(v);
    let ghost tv = spec_tokens(v@, 0, 5);
    proof {
        let mapped = toks@.map_values(|t: Vec<char>| t@);
        assert(mapped.len() == toks@.len());
        assert(forall|j: int| 0 <= j < toks@.len() ==> mapped[j] == (#[trigger] toks@[j])@);
        assert(tv.len() == toks@.len());
        assert(forall|j: int| 0 <= j < toks@.len() ==> tv[j] == (#[trigger] toks@[j])@);
    }
    if toks.len() == 0 {
        return false;
    }
    let mut i: usize = 0;
    while i < toks.len()
        invariant
            i <= toks@.len(),
            tv.len() == toks@.len(),
            forall|j: int| 0 <= j < toks@.len() ==> tv[j] == (#[trigger] toks@[j])@,
            forall|j: int| 0 <= j < i ==> !dt_scan(#[trigger] tv[j], 0),
        decreases toks@.len() - i,
    {
        if token_contains_datetime(&toks[i]) {
            proof {
                assert(tv[i as int] == toks@[i as int]@);
                assert(dt_scan(tv[i as int], 0));
                assert(tv.len() == toks@.len());
            }
            return true;
        }
        i = i + 1;
    }
    let mut i2: usize = 0;
    while toks.len() - i2 > 1
        invariant
            i2 <= toks@.len(),
            tv.len() == toks@.len(),
            forall|j: int| 0 <= j < toks@.len() ==> tv[j] == (#[trigger] toks@[j])@,
            forall|j: int| 0 <= j < tv.len() ==> !dt_scan(#[trigger] tv[j], 0),
            forall|j: int|
                0 <= j < i2 && j + 1 < tv.len() ==> !(date_scan(#[trigger] tv[j], 0) && time_scan(
                    tv[j + 1],
                    0,
                )),
        decreases toks@.len() - i2,
    {
        if token_contains_date(&toks[i2]) && token_contains_time(&toks[i2 + 1]) {
            proof {
                assert(tv[i2 as int] == toks@[i2 as int]@);
                assert(tv[i2 as int + 1] == toks@[i2 as int + 1]@);
                assert(date_scan(tv[i2 as int], 0) && time_scan(tv[i2 as int + 1], 0));
                assert(tv.len() == toks@.len());
            }
            return true;
        }
        i2 = i2 + 1;
    }
    let mut i3: usize = 0;
    while i3 < toks.len()
        invariant
            i3 <= toks@.len(),
            tv.len() == toks@.len(),
            forall|j: int| 0 <= j < toks@.len() ==> tv[j] == (#[trigger] toks@[j])@,
            forall|j: int| 0 <= j < tv.len() ==> !dt_scan(#[trigger] tv[j], 0),
            forall|j: int|
                0 <= j && j + 1 < tv.len() ==> !(date_scan(#[trigger] tv[j], 0) && time_scan(
                    tv[j + 1],
                    0,
                )),
            forall|j: int| 0 <= j < i3 ==> !sev_scan(#[trigger] tv[j], 0),
        decreases toks@.len() - i3,
    {
        if token_has_severity(&toks[i3]) {
            proof {
                assert(tv[i3 as int] == toks@[i3 as int]@);
                assert(sev_scan(tv[i3 as int], 0));
                assert(tv.len() == toks@.len());
            }
            return true;
        }
        i3 = i3 + 1;
    }
    false
}

/// The ruling the classifier stack gives a line: complete JSON documents
/// start a complete entry, start signals start an open entry, all else is
/// no opinion.
pub open spec fn spec_ruling(content: Seq<char>) -> Ruling {
    if (match spec_json_candidate(content) {
        Some(c) => is_json_text(c),
        None => false,
    }) {
        Ruling { decision: Decision::StartNew, complete: true }
    } else if spec_start_signal(content) {
        Ruling { decision: Decision::StartNew, complete: false }
    } else {
        Ruling { decision: Decision::NoOpinion, complete: false }
    }
}

pub struct JsonClassifier;

impl JsonClassifier {
    pub fn classify(view: &LineView<'_>) -> (r: Option<Vote>)
        ensures
            match r {
                Some(vote) => vote == (Vote { decision: Decision::StartNew, complete: true })
                    && (match spec_json_candidate(view.content@) {
                    Some(c) => is_json_text(c),
                    None => false,
                }),
                None => !(match spec_json_candidate(view.content@) {
                    Some(c) => is_json_text(c),
                    None => false,
                }),
            },
    {
        let cv = str_chars(view.content);
        match extract_json_candidate(&cv) {
            Some(c) => {
                let cs = crate::strings::chars_string(&c);
                if json_parses(cs.as_str()) {
                    Some(Vote::start(true))
                } else {
                    None
                }
            },
            None => None,
        }
    }
}

pub struct TokenSignalClassifier;

impl TokenSignalClassifier {
    pub fn classify(view: &LineView<'_>) -> (r: Option<Vote>)
        ensures
            match r {
                Some(vote) => vote == (Vote { decision: Decision::StartNew, complete: false })
                    && spec_start_signal(view.content@),
                None => !spec_start_signal(view.content@),
            },
    {
        let cv = str_chars(view.content);
        if has_start_signal(&cv) {
            Some(Vote::start(false))
        } else {
            None
        }
    }
}

/// The classifier stack: JSON documents first, then token signals.
pub struct Router;

impl Router {
    pub fn new() -> (r: Router) {
        Router
    }

    pub fn classify(&self, view: &LineView<'_>) -> (r: Ruling)
        ensures
            r == spec_ruling(view.content@),
    {
        match JsonClassifier::classify(view) {
            Some(vote) => Ruling { decision: vote.decision, complete: vote.complete },
            None => match TokenSignalClassifier::classify(view) {
                Some(vote) => Ruling { decision: vote.decision, complete: vote.complete },
                None => Ruling { decision: Decision::NoOpinion, complete: false },
            },
        }
    }
}

/// First index holding ASCII whitespace, scanning from `i`.
pub open spec fn space_scan(s: Seq<char>, i: int) -> Option<int>
    decreases s.len() - i,
{
    if i < 0 || i >= s.len() {
        None
    } else if is_space(s[i]) {
        Some(i)
    } else {
        space_scan(s, i + 1)
    }
}

fn find_space(v: &Vec<char>, i: usize) -> (r: Option<usize>)
    requires
        i <= v@.len(),
    ensures
        match r {
            Some(k) => space_scan(v@, i as int) == Some(k as int) && i <= k < v@.len(),
            None => space_scan(v@, i as int) is None,
        },
    decreases v@.len() - i,
{
    if i >= v.len() {
        None
    } else if v[i] == ' ' || v[i] == '\t' || v[i] == '\n' || v[i] == '\r' {
        Some(i)
    } else {
        find_space(v, i + 1)
    }
}

/// The outer timestamp a runtime may prefix lines with: the first
/// whitespace-separated word when it parses as RFC 3339, with the remaining
/// text and the parsed milliseconds.
pub open spec fn spec_outer_split(s: Seq<char>) -> (Option<Seq<char>>, Seq<char>, Option<i64>) {
    match space_scan(s, 0) {
        Some(i) => {
            let ts = s.subrange(0, i);
            match rfc3339_ms(ts) {
                Some(ms) => (Some(ts), s.subrange(i + 1, s.len() as int), Some(ms)),
                None => (None, s, None),
            }
        },
        None => match rfc3339_ms(s) {
            Some(ms) => (Some(s), Seq::empty(), Some(ms)),
            None => (None, s, None),
        },
    }
}

/// Splits an outer timestamp off the line.
pub fn extract_outer_timestamp(v: &Vec<char>) -> (r: (Option<Vec<char>>, Vec<char>, Option<i64>))
    ensures
        ({
            let (ts, content, ms) = spec_outer_split(v@);
            (match r.0 {
                Some(t) => ts == Some(t@),
                None => ts is None,
            }) && r.1@ == content && r.2 == ms
        }),
{
    match find_space(v, 0) {
        Some(idx) => {
            let ts = chars_slice(v, 0, idx);
            let tss = crate::strings::chars_string(&ts);
            match parse_rfc3339_to_epoch_millis(tss.as_str()) {
                Some(ms) => {
                    let n = v.len();
                    let rest = chars_slice(v, idx + 1, n);
                    (Some(ts), rest, Some(ms))
                },
                None => (None, chars_slice(v, 0, v.len()), None),
            }
        },
        None => {
            let whole = crate::strings::chars_string(v);
            match parse_rfc3339_to_epoch_millis(whole.as_str()) {
                Some(ms) => (Some(chars_slice(v, 0, v.len())), Vec::new(), Some(ms)),
                None => (None, chars_slice(v, 0, v.len()), None),
            }
        },
    }
}

/// The view of one aggregated event: its text and the outer timestamp.
pub open spec fn ev_model(e: AggregatedEvent) -> (Seq<char>, Option<Seq<char>>) {
    (
        e.line@,
        match e.container_ts {
            Some(t) => Some(t@),
            None => None,
        },
    )
}

/// Whether the gap before this line ends the entry under construction:
/// judged by outer timestamps when both are known and ordered, else by
/// arrival times.
pub open spec fn spec_gap_exceeded(
    last_outer: Option<i64>,
    cur: Option<i64>,
    last_ingest: Option<u64>,
    now: u64,
    max_gap: u64,
) -> bool {
    if last_outer is Some && cur is Some && cur->Some_0 >= last_outer->Some_0 {
        cur->Some_0 - last_outer->Some_0 > max_gap
    } else {
        match last_ingest {
            Some(l) => now >= l && now - l > max_gap,
            None => false,
        }
    }
}

/// Groups consecutive raw lines into aggregated events. Lines arrive with
/// their arrival time in milliseconds; an entry is closed by a new start
/// signal or a gap larger than `max_gap_ms`.
pub struct MultilineAggregator {
    pub router: Router,
    pub buffer: String,
    pub last_ingest_ms: Option<u64>,
    pub max_gap_ms: u64,
    pub current_container_ts: Option<String>,
    pub last_outer_ts: Option<i64>,
}

pub open spec fn opt_view(o: Option<String>) -> Option<Seq<char>> {
    match o {
        Some(s) => Some(s@),
        None => None,
    }
}

impl MultilineAggregator {
    pub fn new(max_gap_ms: u64) -> (r: MultilineAggregator)
        ensures
            r.buffer@ == Seq::<char>::empty(),
            r.last_ingest_ms is None,
            r.max_gap_ms == max_gap_ms,
            r.current_container_ts is None,
            r.last_outer_ts is None,
    {
        MultilineAggregator {
            router: Router::new(),
            buffer: String::new(),
            last_ingest_ms: None,
            max_gap_ms,
            current_container_ts: None,
            last_outer_ts: None,
        }
    }

    /// Takes the entry under construction as one event, if any.
    pub fn take_event(&mut self) -> (r: Option<AggregatedEvent>)
        ensures
            final(self).max_gap_ms == old(self).max_gap_ms,
            final(self).last_ingest_ms == old(self).last_ingest_ms,
            final(self).last_outer_ts == old(self).last_outer_ts,
            final(self).buffer@ == Seq::<char>::empty(),
            match r {
                Some(e) => old(self).buffer@.len() > 0 && final(self).current_container_ts is None
                    && ev_model(e) == (
                    old(self).buffer@,
                    opt_view(old(self).current_container_ts),
                ),
                None => old(self).buffer@.len() == 0 && final(self).current_container_ts == old(
                    self,
                ).current_container_ts,
            },
    {
        if self.buffer.as_str().is_empty() {
            None
        } else {
            let line = self.buffer.clone();
            self.buffer = String::new();
            let ts = match &self.current_container_ts {
                Some(t) => Some(t.clone()),
                None => None,
            };
            self.current_container_ts = None;
            Some(AggregatedEvent { line, container_ts: ts })
        }
    }

    pub fn flush(&mut self) -> (r: Option<AggregatedEvent>)
        ensures
            final(self).max_gap_ms == old(self).max_gap_ms,
            final(self).last_ingest_ms == old(self).last_ingest_ms,
            final(self).last_outer_ts == old(self).last_outer_ts,
            final(self).buffer@ == Seq::<char>::empty(),
            match r {
                Some(e) => old(self).buffer@.len() > 0 && ev_model(e) == (
                    old(self).buffer@,
                    opt_view(old(self).current_container_ts),
                ),
                None => old(self).buffer@.len() == 0,
            },
    {
        self.take_event()
    }

    /// Begins a new entry with this line's content and outer timestamp.
    pub fn start_new_entry(&mut self, content: &Vec<char>, container_ts: &Option<Vec<char>>)
        requires
            old(self).buffer@.len() == 0,
        ensures
            final(self).max_gap_ms == old(self).max_gap_ms,
            final(self).last_ingest_ms == old(self).last_ingest_ms,
            final(self).last_outer_ts == old(self).last_outer_ts,
            final(self).buffer@ == content@,
            opt_view(final(self).current_container_ts) == (match container_ts {
                Some(t) => Some(t@),
                None => None::<Seq<char>>,
            }),
    {
        self.current_container_ts = match container_ts {
            Some(t) => Some(crate::strings::chars_string(t)),
            None => None,
        };
        let cs = crate::strings::chars_string(content);
        self.buffer.append(cs.as_str());
        proof {
            assert(self.buffer@ =~= content@);
        }
    }

    /// Appends this line to the entry under construction.
    pub fn append_line(&mut self, content: &Vec<char>)
        ensures
            final(self).max_gap_ms == old(self).max_gap_ms,
            final(self).last_ingest_ms == old(self).last_ingest_ms,
            final(self).last_outer_ts == old(self).last_outer_ts,
            final(self).current_container_ts == old(self).current_container_ts,
            final(self).buffer@ == if old(self).buffer@.len() > 0 {
                old(self).buffer@ + "\n"@ + content@
            } else {
                old(self).buffer@ + content@
            },
    {
        if !self.buffer.as_str().is_empty() {
            self.buffer.append("\n");
        }
        let cs = crate::strings::chars_string(content);
        self.buffer.append(cs.as_str());
    }

    /// Feeds one line; hands back the events it closed. The line's outer
    /// timestamp is split off first; a gap or a start signal flushes the
    /// entry under construction, and a complete line flushes itself too.
    pub fn push_line(&mut self, line: &str, now_ms: u64) -> (flushed: Vec<AggregatedEvent>)
        ensures
            ({
                let (ts, content, cur) = spec_outer_split(line@);
                let gap = spec_gap_exceeded(
                    old(self).last_outer_ts,
                    cur,
                    old(self).last_ingest_ms,
                    now_ms,
                    old(self).max_gap_ms,
                );
                let ruling = spec_ruling(content);
                let is_start = ruling.decision == Decision::StartNew;
                &&& final(self).max_gap_ms == old(self).max_gap_ms
                &&& final(self).last_ingest_ms == Some(now_ms)
                &&& final(self).last_outer_ts == (if cur is Some {
                    cur
                } else {
                    old(self).last_outer_ts
                })
                &&& if gap || is_start {
                    if ruling.complete {
                        final(self).buffer@ == Seq::<char>::empty() && flushed@.map_values(
                            |e: AggregatedEvent| ev_model(e),
                        ) == (if old(self).buffer@.len() > 0 {
                            seq![(old(self).buffer@, opt_view(old(self).current_container_ts))]
                        } else {
                            Seq::empty()
                        }) + seq![(content, ts)]
                    } else {
                        final(self).buffer@ == content && opt_view(
                            final(self).current_container_ts,
                        ) == ts && flushed@.map_values(|e: AggregatedEvent| ev_model(e)) == (if old(
                            self,
                        ).buffer@.len() > 0 {
                            seq![(old(self).buffer@, opt_view(old(self).current_container_ts))]
                        } else {
                            Seq::empty()
                        })
                    }
                } else {
                    flushed@.len() == 0 && (if old(self).buffer@.len() == 0 {
                        final(self).buffer@ == content && opt_view(
                            final(self).current_container_ts,
                        ) == ts
                    } else {
                        final(self).buffer@ == old(self).buffer@ + "\n"@ + content
                            && final(self).current_container_ts == old(
                            self,
                        ).current_container_ts
                    })
                }
            }),
    {
        let mut flushed: Vec<AggregatedEvent> = Vec::new();
        let lv = str_chars(line);
        let (container_ts, content, current_outer_ts) = extract_outer_timestamp(&lv);
        let arrival_gap_exceeded = match self.last_ingest_ms {
            Some(last) => now_ms >= last && now_ms - last > self.max_gap_ms,
            None => false,
        };
        let gap_exceeded = match (self.last_outer_ts, current_outer_ts) {
            (Some(prev), Some(curr)) => if curr >= prev {
                (curr as i128) - (prev as i128) > (self.max_gap_ms as i128)
            } else {
                arrival_gap_exceeded
            },
            _ => arrival_gap_exceeded,
        };
        let cs = crate::strings::chars_string(&content);
        let view = LineView::new(cs.as_str());
        let ruling = self.router.classify(&view);
        let is_start = matches!(ruling.decision, Decision::StartNew);

        if gap_exceeded || is_start {
            match self.take_event() {
                Some(e) => flushed.push(e),
                None => {},
            }
            let ghost f0 = flushed@;
            self.start_new_entry(&content, &container_ts);
            proof {
                if spec_ruling(content@).complete {
                    crate::ports::lemma_trim_len(content@);
                }
            }
            if ruling.complete {
                match self.take_event() {
                    Some(e) => {
                        flushed.push(e);
                    },
                    None => {},
                }
            }
            self.last_ingest_ms = Some(now_ms);
            match current_outer_ts {
                Some(ts) => {
                    self.last_outer_ts = Some(ts);
                },
                None => {},
            }
            proof {
                lemma_push_models(flushed@);
            }
            return flushed;
        }
        if self.buffer.as_str().is_empty() {
            self.start_new_entry(&content, &container_ts);
        } else {
            self.append_line(&content);
        }
        self.last_ingest_ms = Some(now_ms);
        match current_outer_ts {
            Some(ts) => {
                self.last_outer_ts = Some(ts);
            },
            None => {},
        }
        flushed
    }
}

/// Unfolds the event-model views of a short vector of flushed events.
proof fn lemma_push_models(f: Seq<AggregatedEvent>)
    ensures
        f.map_values(|e: AggregatedEvent| ev_model(e)).len() == f.len(),
        forall|i: int|
            0 <= i < f.len() ==> f.map_values(|e: AggregatedEvent| ev_model(e))[i] == ev_model(
                #[trigger] f[i],
            ),
{
}

} // verus!
