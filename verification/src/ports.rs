//! Parsing of compose port publications.
//!
//! Short-form entries look like `[host-ip:][host-port:]container-port[/proto]`
//! with IPv6 brackets and `${VAR:-default}` / `${VAR-default}` expressions
//! allowed in place of a port number.

use vstd::prelude::*;

use crate::strings::{
    all_digits, chars_find, chars_rfind, chars_slice, chars_trim, dec_value, is_digit,
    parse_u64_digits, str_chars, trim_seq,
};

verus! {

/// The value of a port token: a run of digits (an optional `+` sign allowed,
/// as Rust's integer parsing accepts), in range for `u16`.
pub open spec fn spec_plain_port(s: Seq<char>) -> Option<u16> {
    let digits = if s.len() > 0 && s[0] == '+' {
        s.drop_first()
    } else {
        s
    };
    if digits.len() > 0 && all_digits(digits) && dec_value(digits) <= u16::MAX {
        Some(dec_value(digits) as u16)
    } else {
        None
    }
}

/// Parses a `u16` the way `str::parse::<u16>` does on the inputs this crate
/// meets: an optional leading `+`, then decimal digits.
pub fn parse_u16_chars(v: &Vec<char>) -> (r: Option<u16>)
    ensures
        r == spec_plain_port(v@),
{
    let digits: Vec<char> = if v.len() > 0 && v[0] == '+' {
        let d = chars_slice(v, 1, v.len());
        proof {
            assert(d@ =~= v@.drop_first());
        }
        d
    } else {
        let d = chars_slice(v, 0, v.len());
        proof {
            assert(d@ =~= v@);
        }
        d
    };
    match parse_u64_digits(&digits) {
        Some(n) => if n <= 65535 {
            Some(n as u16)
        } else {
            proof {
                crate::strings::lemma_dec_value_nonneg(digits@);
            }
            None
        },
        None => {
            proof {
                if digits@.len() > 0 && all_digits(digits@) && dec_value(digits@) <= u16::MAX {
                    crate::strings::lemma_dec_value_nonneg(digits@);
                }
            }
            None
        },
    }
}

/// The default text of `${VAR:-default}` or `${VAR-default}`, if `s` has
/// that shape.
pub open spec fn spec_env_default(s: Seq<char>) -> Option<Seq<char>> {
    if s.len() >= 3 && s[0] == '$' && s[1] == '{' && s.last() == '}' {
        let inner = s.subrange(2, s.len() - 1);
        match first_idx_of_colon_dash(inner) {
            Some(i) => Some(inner.subrange(i + 2, inner.len() as int)),
            None => match first_idx_of(inner, '-') {
                Some(i) => Some(inner.subrange(i + 1, inner.len() as int)),
                None => None,
            },
        }
    } else {
        None
    }
}

/// First index where `:-` occurs.
pub open spec fn first_idx_of_colon_dash(s: Seq<char>) -> Option<int>
    decreases s.len(),
{
    if s.len() < 2 {
        None
    } else if s[0] == ':' && s[1] == '-' {
        Some(0int)
    } else {
        match first_idx_of_colon_dash(s.drop_first()) {
            Some(i) => Some(i + 1),
            None => None,
        }
    }
}

pub open spec fn first_idx_of(s: Seq<char>, c: char) -> Option<int>
    decreases s.len(),
{
    if s.len() == 0 {
        None
    } else if s[0] == c {
        Some(0int)
    } else {
        match first_idx_of(s.drop_first(), c) {
            Some(i) => Some(i + 1),
            None => None,
        }
    }
}

pub proof fn lemma_first_idx_of(s: Seq<char>, c: char)
    ensures
        match first_idx_of(s, c) {
            Some(i) => 0 <= i < s.len() && s[i] == c && forall|j: int| 0 <= j < i ==> s[j] != c,
            None => forall|j: int| 0 <= j < s.len() ==> s[j] != c,
        },
    decreases s.len(),
{
    if s.len() > 0 && s[0] != c {
        lemma_first_idx_of(s.drop_first(), c);
        match first_idx_of(s.drop_first(), c) {
            Some(i) => {
                assert(s.drop_first()[i] == s[i + 1]);
                assert forall|j: int| 0 <= j < i + 1 implies s[j] != c by {
                    if j > 0 {
                        assert(s.drop_first()[j - 1] == s[j]);
                    }
                }
            },
            None => {
                assert forall|j: int| 0 <= j < s.len() implies s[j] != c by {
                    if j > 0 {
                        assert(s.drop_first()[j - 1] == s[j]);
                    }
                }
            },
        }
    }
}

pub proof fn lemma_first_idx_of_colon_dash(s: Seq<char>)
    ensures
        match first_idx_of_colon_dash(s) {
            Some(i) => 0 <= i && i + 1 < s.len() && s[i] == ':' && s[i + 1] == '-' && forall|j: int|
                0 <= j < i ==> !((#[trigger] s[j]) == ':' && s[j + 1] == '-'),
            None => forall|j: int|
                0 <= j && j + 1 < s.len() ==> !((#[trigger] s[j]) == ':' && s[j + 1] == '-'),
        },
    decreases s.len(),
{
    if s.len() >= 2 && !(s[0] == ':' && s[1] == '-') {
        lemma_first_idx_of_colon_dash(s.drop_first());
        match first_idx_of_colon_dash(s.drop_first()) {
            Some(i) => {
                assert(s.drop_first()[i] == s[i + 1]);
                assert(s.drop_first()[i + 1] == s[i + 2]);
                assert forall|j: int| 0 <= j < i + 1 implies !((#[trigger] s[j]) == ':' && s[j + 1]
                    == '-') by {
                    if j > 0 {
                        assert(s.drop_first()[j - 1] == s[j]);
                        assert(s.drop_first()[j] == s[j + 1]);
                    }
                }
            },
            None => {
                assert forall|j: int| 0 <= j && j + 1 < s.len() implies !((#[trigger] s[j]) == ':'
                    && s[j + 1] == '-') by {
                    if j > 0 {
                        assert(s.drop_first()[j - 1] == s[j]);
                        assert(s.drop_first()[j] == s[j + 1]);
                    }
                }
            },
        }
    }
}

/// Finds the first occurrence of `:-` in `v`.
pub fn find_colon_dash(v: &Vec<char>) -> (r: Option<usize>)
    ensures
        match r {
            Some(i) => first_idx_of_colon_dash(v@) == Some(i as int),
            None => first_idx_of_colon_dash(v@) is None,
        },
{
    proof {
        lemma_first_idx_of_colon_dash(v@);
    }
    if v.len() < 2 {
        return None;
    }
    let mut i: usize = 0;
    while i + 1 < v.len()
        invariant
            i + 1 <= v@.len(),
            2 <= v@.len(),
            v@.len() <= usize::MAX,
            forall|j: int| 0 <= j < i ==> !((#[trigger] v@[j]) == ':' && v@[j + 1] == '-'),
        decreases v@.len() - i,
    {
        if v[i] == ':' && v[i + 1] == '-' {
            proof {
                lemma_colon_dash_at(v@, i as int);
            }
            return Some(i);
        }
        i = i + 1;
    }
    proof {
        match first_idx_of_colon_dash(v@) {
            Some(k) => {
                lemma_first_idx_of_colon_dash(v@);
                assert(!(v@[k] == ':' && v@[k + 1] == '-'));
            },
            None => {},
        }
    }
    None
}

proof fn lemma_colon_dash_at(s: Seq<char>, i: int)
    requires
        0 <= i,
        i + 1 < s.len(),
        s[i] == ':',
        s[i + 1] == '-',
        forall|j: int| 0 <= j < i ==> !((#[trigger] s[j]) == ':' && s[j + 1] == '-'),
    ensures
        first_idx_of_colon_dash(s) == Some(i),
    decreases s.len(),
{
    if i > 0 {
        assert forall|j: int| 0 <= j < i - 1 implies !((#[trigger] s.drop_first()[j]) == ':'
            && s.drop_first()[j + 1] == '-') by {
            assert(s.drop_first()[j] == s[j + 1]);
            assert(s.drop_first()[j + 1] == s[j + 2]);
        }
        assert(s.drop_first()[i - 1] == s[i]);
        assert(s.drop_first()[i] == s[i + 1]);
        lemma_colon_dash_at(s.drop_first(), i - 1);
    }
}

/// Extracts the default text of an environment expression.
pub fn env_default(v: &Vec<char>) -> (r: Option<Vec<char>>)
    ensures
        match r {
            Some(d) => spec_env_default(v@) == Some(d@),
            None => spec_env_default(v@) is None,
        },
{
    if !(v.len() >= 3 && v[0] == '$' && v[1] == '{' && v[v.len() - 1] == '}') {
        return None;
    }
    let inner = chars_slice(v, 2, v.len() - 1);
    proof {
        assert(inner@ =~= v@.subrange(2, v@.len() - 1));
    }
    match find_colon_dash(&inner) {
        Some(i) => {
            proof {
                lemma_first_idx_of_colon_dash(inner@);
            }
            let d = chars_slice(&inner, i + 2, inner.len());
            Some(d)
        },
        None => {
            proof {
                lemma_first_idx_of(inner@, '-');
            }
            match chars_find(&inner, '-') {
                Some(i) => {
                    proof {
                        lemma_first_idx_at(inner@, '-', i as int);
                    }
                    let d = chars_slice(&inner, i + 1, inner.len());
                    Some(d)
                },
                None => {
                    proof {
                        if first_idx_of(inner@, '-') matches Some(k) {
                            lemma_first_idx_of(inner@, '-');
                        }
                    }
                    None
                },
            }
        },
    }
}

pub proof fn lemma_first_idx_at(s: Seq<char>, c: char, i: int)
    requires
        0 <= i < s.len(),
        s[i] == c,
        forall|j: int| 0 <= j < i ==> s[j] != c,
    ensures
        first_idx_of(s, c) == Some(i),
    decreases s.len(),
{
    if i > 0 {
        assert forall|j: int| 0 <= j < i - 1 implies s.drop_first()[j] != c by {
            assert(s.drop_first()[j] == s[j + 1]);
        }
        assert(s.drop_first()[i - 1] == s[i]);
        lemma_first_idx_at(s.drop_first(), c, i - 1);
    }
}

/// The port a token denotes: a plain number, or the numeric default of an
/// environment expression, resolved recursively. The default text is
/// trimmed and stripped of one layer of quotes before the retry.
pub open spec fn spec_port_token(s: Seq<char>) -> Option<u16>
    decreases s.len(), 1int,
    via spec_port_token_decreases
{
    let t = trim_seq(s);
    if t.len() == 0 {
        None
    } else if spec_plain_port(t) is Some {
        spec_plain_port(t)
    } else {
        match spec_env_default(t) {
            Some(d) => spec_port_token_default(t, d),
            None => None,
        }
    }
}

#[via_fn]
proof fn spec_port_token_decreases(s: Seq<char>) {
    lemma_trim_len(s);
}

pub open spec fn spec_port_token_default(t: Seq<char>, d: Seq<char>) -> Option<u16>
    decreases t.len(), 0int,
{
    let cleaned = unquote(trim_seq(d));
    if cleaned.len() < t.len() {
        spec_port_token(cleaned)
    } else {
        None
    }
}

/// Strips matching pairs of double then single quotes from both ends, as
/// `trim_matches` does one character at a time.
pub open spec fn unquote(s: Seq<char>) -> Seq<char> {
    strip_matches(strip_matches(s, '"'), '\'')
}

pub open spec fn strip_matches(s: Seq<char>, c: char) -> Seq<char>
    decreases s.len(),
{
    if s.len() >= 1 && s[0] == c {
        strip_matches(s.drop_first(), c)
    } else if s.len() >= 1 && s.last() == c {
        strip_matches(s.drop_last(), c)
    } else {
        s
    }
}

/// Removes every leading and trailing `c`.
pub fn chars_strip_matches(v: &Vec<char>, c: char) -> (r: Vec<char>)
    ensures
        r@ == strip_matches(v@, c),
        r@.len() <= v@.len(),
{
    let mut start: usize = 0;
    let mut end: usize = v.len();
    proof {
        assert(v@.subrange(0, v@.len() as int) =~= v@);
    }
    while start < end && v[start] == c
        invariant
            start <= end,
            end == v@.len(),
            strip_matches(v@, c) == strip_matches(v@.subrange(start as int, end as int), c),
        decreases end - start,
    {
        proof {
            let cur = v@.subrange(start as int, end as int);
            assert(cur.drop_first() =~= v@.subrange(start + 1, end as int));
        }
        start = start + 1;
    }
    while start < end && v[end - 1] == c
        invariant
            start <= end <= v@.len(),
            strip_matches(v@, c) == strip_matches(v@.subrange(start as int, end as int), c),
            start < end ==> v@[start as int] != c,
        decreases end,
    {
        proof {
            let cur = v@.subrange(start as int, end as int);
            assert(cur.drop_last() =~= v@.subrange(start as int, end - 1));
        }
        end = end - 1;
    }
    proof {
        let cur = v@.subrange(start as int, end as int);
        assert(strip_matches(cur, c) == cur);
    }
    chars_slice(v, start, end)
}

/// Parses one port token as the original inline tests expect:
/// `"8080"` gives 8080, `"${PORT:-3000}"` and `"${PORT-3000}"` give 3000.
pub fn parse_port_token(v: &Vec<char>) -> (r: Option<u16>)
    ensures
        r == spec_port_token(v@),
    decreases v@.len(),
{
    let t = chars_trim(v);
    if t.len() == 0 {
        return None;
    }
    match parse_u16_chars(&t) {
        Some(p) => Some(p),
        None => {
            match env_default(&t) {
                Some(d) => {
                    let trimmed = chars_trim(&d);
                    let cleaned = chars_strip_matches(
                        &chars_strip_matches(&trimmed, '"'),
                        '\'',
                    );
                    proof {
                        lemma_trim_len(v@);
                        lemma_trim_len(d@);
                        lemma_env_default_shorter(t@, d@);
                    }
                    if cleaned.len() < t.len() {
                        parse_port_token(&cleaned)
                    } else {
                        None
                    }
                },
                None => None,
            }
        },
    }
}

pub proof fn lemma_trim_len(s: Seq<char>)
    ensures
        trim_seq(s).len() <= s.len(),
    decreases s.len(),
{
    if s.len() > 0 {
        if crate::strings::is_space(s[0]) {
            lemma_trim_len(s.drop_first());
        } else if crate::strings::is_space(s.last()) {
            lemma_trim_len(s.drop_last());
        }
    }
}

/// The scanner behind the container-port separator: walks the characters
/// keeping track of whether it stands inside a `${...}` expression or a
/// `[...]` bracket pair, and remembers the last top-level colon.
pub open spec fn sep_scan(
    s: Seq<char>,
    i: int,
    in_env: bool,
    in_br: bool,
    last: Option<int>,
) -> Option<int>
    decreases s.len() - i,
{
    if i < 0 || i >= s.len() {
        last
    } else {
        let c = s[i];
        if c == '[' && !in_env {
            sep_scan(s, i + 1, in_env, true, last)
        } else if c == ']' && !in_env {
            sep_scan(s, i + 1, in_env, false, last)
        } else if c == '$' && !in_env && i + 1 < s.len() && s[i + 1] == '{' {
            sep_scan(s, i + 1, true, in_br, last)
        } else if c == '}' && in_env {
            sep_scan(s, i + 1, false, in_br, last)
        } else if c == ':' && !in_env && !in_br {
            sep_scan(s, i + 1, in_env, in_br, Some(i))
        } else {
            sep_scan(s, i + 1, in_env, in_br, last)
        }
    }
}

/// Index of the colon separating the host part from the container port:
/// the last colon outside environment expressions and IPv6 brackets.
pub open spec fn spec_port_separator(s: Seq<char>) -> Option<int> {
    sep_scan(s, 0, false, false, None)
}

/// Finds the separator before the container port in a short-form entry.
pub fn find_container_port_separator(v: &Vec<char>) -> (r: Option<usize>)
    ensures
        match r {
            Some(i) => spec_port_separator(v@) == Some(i as int) && i < v@.len(),
            None => spec_port_separator(v@) is None,
        },
{
    let mut i: usize = 0;
    let mut in_env: bool = false;
    let mut in_br: bool = false;
    let mut last: Option<usize> = None;
    while i < v.len()
        invariant
            i <= v@.len(),
            spec_port_separator(v@) == sep_scan(
                v@,
                i as int,
                in_env,
                in_br,
                match last {
                    Some(k) => Some(k as int),
                    None => None,
                },
            ),
            match last {
                Some(k) => k < i,
                None => true,
            },
        decreases v@.len() - i,
    {
        let c = v[i];
        if c == '[' && !in_env {
            in_br = true;
        } else if c == ']' && !in_env {
            in_br = false;
        } else if c == '$' && !in_env && i + 1 < v.len() && v[i + 1] == '{' {
            in_env = true;
        } else if c == '}' && in_env {
            in_env = false;
        } else if c == ':' && !in_env && !in_br {
            last = Some(i);
        }
        i = i + 1;
    }
    last
}

/// The container port a short-form entry maps to: the text after the last
/// top-level colon (or the whole entry), parsed as a port token. The entry
/// is first cut at the first `/` and trimmed.
pub open spec fn spec_container_port(s: Seq<char>) -> Option<u16> {
    let head = match first_idx_of(s, '/') {
        Some(i) => s.subrange(0, i),
        None => s,
    };
    let entry = trim_seq(head);
    if entry.len() == 0 {
        None
    } else {
        let tail = match spec_port_separator(entry) {
            Some(i) => entry.subrange(i + 1, entry.len() as int),
            None => entry,
        };
        let token = trim_seq(tail);
        if token.len() == 0 {
            None
        } else {
            spec_port_token(token)
        }
    }
}

/// Parses the container port out of a short-form publication entry.
pub fn parse_container_port(s: &str) -> (r: Option<u16>)
    ensures
        r == spec_container_port(s@),
{
    let v = str_chars(s);
    parse_container_port_chars(&v)
}

pub fn parse_container_port_chars(v: &Vec<char>) -> (r: Option<u16>)
    ensures
        r == spec_container_port(v@),
{
    proof {
        lemma_first_idx_of(v@, '/');
    }
    let head = match chars_find(v, '/') {
        Some(i) => {
            proof {
                lemma_first_idx_at(v@, '/', i as int);
            }
            chars_slice(v, 0, i)
        },
        None => chars_slice(v, 0, v.len()),
    };
    proof {
        if first_idx_of(v@, '/') is None {
            assert(head@ =~= v@);
        }
    }
    let entry = chars_trim(&head);
    if entry.len() == 0 {
        return None;
    }
    let tail = match find_container_port_separator(&entry) {
        Some(i) => chars_slice(&entry, i + 1, entry.len()),
        None => chars_slice(&entry, 0, entry.len()),
    };
    proof {
        if spec_port_separator(entry@) is None {
            assert(tail@ =~= entry@);
        }
    }
    let token = chars_trim(&tail);
    if token.len() == 0 {
        return None;
    }
    proof {
        lemma_trim_twice(tail@);
    }
    parse_port_token(&tail)
}

/// Trimming is idempotent, so parsing the already-trimmed tail directly
/// gives the token's value.
proof fn lemma_trim_twice(s: Seq<char>)
    ensures
        trim_seq(trim_seq(s)) == trim_seq(s),
    decreases s.len(),
{
    if s.len() > 0 {
        if crate::strings::is_space(s[0]) {
            lemma_trim_twice(s.drop_first());
        } else if crate::strings::is_space(s.last()) {
            lemma_trim_twice(s.drop_last());
        }
    }
}

/// The protocol chosen for a port a proxy listens on.
#[derive(Clone, Copy, Debug, PartialEq, Eq, Structural)]
pub enum ProxyProtocol {
    Http,
    Tcp,
}

/// The closed list of port numbers treated as HTTP by default.
pub open spec fn is_known_http_port(p: u16) -> bool {
    p == 80 || p == 443 || p == 3000 || p == 3001 || p == 3002 || p == 5173 || p == 8000 || p
        == 8080 || p == 8100 || p == 9000 || p == 10000 || p == 15672
}

/// Guesses HTTP for the closed list of well-known developer ports, TCP
/// otherwise.
pub fn guess_protocol(port: u16) -> (r: ProxyProtocol)
    ensures
        r == ProxyProtocol::Http <==> is_known_http_port(port),
{
    if port == 80 || port == 443 || port == 3000 || port == 3001 || port == 3002 || port == 5173
        || port == 8000 || port == 8080 || port == 8100 || port == 9000 || port == 10000 || port
        == 15672 {
        ProxyProtocol::Http
    } else {
        ProxyProtocol::Tcp
    }
}

/// Inserts `x` into a strictly increasing vector, keeping it strictly
/// increasing and adding `x` to the set of members.
#[verifier::rlimit(100)]
#[verifier::spinoff_prover]
pub fn sorted_insert(v: &mut Vec<u16>, x: u16)
    requires
        strictly_increasing(old(v)@),
    ensures
        strictly_increasing(final(v)@),
        forall|y: u16| #[trigger] final(v)@.contains(y) ==> (old(v)@.contains(y) || y == x),
        forall|y: u16| #[trigger] old(v)@.contains(y) ==> final(v)@.contains(y),
        final(v)@.contains(x),
{
    let mut i: usize = 0;
    while i < v.len() && v[i] < x
        invariant
            i <= v@.len(),
            strictly_increasing(v@),
            v@ == old(v)@,
            forall|j: int| 0 <= j < i ==> v@[j] < x,
        decreases v@.len() - i,
    {
        i = i + 1;
    }
    if i < v.len() && v[i] == x {
        proof {
            assert(v@[i as int] == x);
            assert(v@.contains(x));
        }
        return;
    }
    let ghost before = v@;
    v.insert(i, x);
    proof {
        assert(v@[i as int] == x);
        assert(v@.contains(x));
        assert forall|k: int, l: int| 0 <= k < l < v@.len() implies v@[k] < v@[l] by {
            if l < i {
            } else if k < i && l == i {
            } else if k < i && l > i {
                assert(v@[l] == before[l - 1]);
            } else if k == i {
                assert(v@[l] == before[l - 1]);
                assert(before[l - 1] >= before[i as int]);
            } else {
                assert(v@[k] == before[k - 1]);
                assert(v@[l] == before[l - 1]);
            }
        }
        assert forall|y: u16| v@.contains(y) implies (before.contains(y) || y == x) by {
            let w = choose|w: int| 0 <= w < v@.len() && v@[w] == y;
            if w < i {
                assert(before[w] == y);
            } else if w > i {
                assert(before[w - 1] == y);
            }
        }
        assert forall|y: u16| before.contains(y) || y == x implies v@.contains(y) by {
            if y == x {
                assert(v@[i as int] == x);
            } else {
                let w = choose|w: int| 0 <= w < before.len() && before[w] == y;
                if w < i {
                    assert(v@[w] == y);
                } else {
                    assert(v@[w + 1] == y);
                }
            }
        }
    }
}

pub open spec fn strictly_increasing(s: Seq<u16>) -> bool {
    forall|k: int, l: int| 0 <= k < l < s.len() ==> s[k] < s[l]
}

proof fn lemma_env_default_shorter(t: Seq<char>, d: Seq<char>)
    requires
        spec_env_default(t) == Some(d),
    ensures
        d.len() < t.len(),
{
    let inner = t.subrange(2, t.len() - 1);
    lemma_first_idx_of_colon_dash(inner);
    lemma_first_idx_of(inner, '-');
}

} // verus!
