//! Character-level string utilities with exact specifications.
//!
//! The rest of the library manipulates text as `Vec<char>` so that every
//! transformation can be stated over `Seq<char>`; these helpers bridge
//! between `&str`/`String` and character vectors and give the basic
//! searching, splitting and case-folding operations exact contracts.

use vstd::prelude::*;

verus! {

pub open spec fn is_upper(c: char) -> bool {
    'A' <= c && c <= 'Z'
}

pub open spec fn lower_char(c: char) -> char {
    if is_upper(c) {
        (((c as u8) + 32) as char)
    } else {
        c
    }
}

pub open spec fn lower_seq(s: Seq<char>) -> Seq<char> {
    s.map_values(|c: char| lower_char(c))
}

pub open spec fn is_digit(c: char) -> bool {
    '0' <= c && c <= '9'
}

pub open spec fn digit_val(c: char) -> int {
    c as int - '0' as int
}

/// Numeric value of a sequence of decimal digits, most significant first.
pub open spec fn dec_value(s: Seq<char>) -> int
    decreases s.len(),
{
    if s.len() == 0 {
        0
    } else {
        dec_value(s.drop_last()) * 10 + digit_val(s.last())
    }
}

pub open spec fn all_digits(s: Seq<char>) -> bool {
    forall|i: int| 0 <= i < s.len() ==> is_digit(#[trigger] s[i])
}

pub open spec fn is_space(c: char) -> bool {
    c == ' ' || c == '\t' || c == '\n' || c == '\r'
}

/// Turns a string slice into the vector of its characters.
pub fn str_chars(s: &str) -> (v: Vec<char>)
    ensures
        v@ == s@,
{
    let n: usize = s.unicode_len();
    let mut v: Vec<char> = Vec::new();
    let mut i: usize = 0;
    while i < n
        invariant
            i <= n,
            n == s@.len(),
            v@ == s@.subrange(0, i as int),
        decreases n - i,
    {
        let c = s.get_char(i);
        v.push(c);
        i = i + 1;
        assert(v@ =~= s@.subrange(0, i as int));
    }
    assert(v@ =~= s@);
    v
}

/// Relies on `String`'s `FromIterator<char>` impl from std: collecting the
/// characters of a slice yields the string of exactly those characters.
#[verifier::external_body]
pub fn chars_string(v: &Vec<char>) -> (s: String)
    ensures
        s@ == v@,
{
    v.iter().collect()
}

/// Builds a `String` from a character vector, consuming it.
pub fn chars_into_string(v: Vec<char>) -> (s: String)
    ensures
        s@ == v@,
{
    chars_string(&v)
}

pub fn str_eq(a: &str, b: &str) -> (r: bool)
    ensures
        r == (a@ == b@),
{
    let na: usize = a.unicode_len();
    let nb: usize = b.unicode_len();
    if na != nb {
        return false;
    }
    let mut i: usize = 0;
    while i < na
        invariant
            i <= na,
            na == a@.len(),
            na == b@.len(),
            forall|j: int| 0 <= j < i ==> a@[j] == b@[j],
        decreases na - i,
    {
        if a.get_char(i) != b.get_char(i) {
            return false;
        }
        i = i + 1;
    }
    proof {
        assert(a@ =~= b@);
    }
    true
}

pub fn chars_eq_str(v: &Vec<char>, s: &str) -> (r: bool)
    ensures
        r == (v@ == s@),
{
    let n: usize = s.unicode_len();
    if v.len() != n {
        return false;
    }
    let mut i: usize = 0;
    while i < n
        invariant
            i <= n,
            n == s@.len(),
            n == v@.len(),
            forall|j: int| 0 <= j < i ==> v@[j] == s@[j],
        decreases n - i,
    {
        if v[i] != s.get_char(i) {
            return false;
        }
        i = i + 1;
    }
    proof {
        assert(v@ =~= s@);
    }
    true
}

pub fn chars_starts_with(v: &Vec<char>, prefix: &str) -> (r: bool)
    ensures
        r == (v@.len() >= prefix@.len() && v@.subrange(0, prefix@.len() as int) == prefix@),
{
    let n: usize = prefix.unicode_len();
    if v.len() < n {
        return false;
    }
    let mut i: usize = 0;
    while i < n
        invariant
            i <= n,
            n == prefix@.len(),
            n <= v@.len(),
            forall|j: int| 0 <= j < i ==> v@[j] == prefix@[j],
        decreases n - i,
    {
        if v[i] != prefix.get_char(i) {
            return false;
        }
        i = i + 1;
    }
    proof {
        assert(v@.subrange(0, n as int) =~= prefix@);
    }
    true
}

pub fn chars_ends_with(v: &Vec<char>, suffix: &str) -> (r: bool)
    ensures
        r == (v@.len() >= suffix@.len() && v@.subrange(
            v@.len() - suffix@.len(),
            v@.len() as int,
        ) == suffix@),
{
    let n: usize = suffix.unicode_len();
    let len: usize = v.len();
    if len < n {
        return false;
    }
    let base: usize = len - n;
    let mut i: usize = 0;
    while i < n
        invariant
            i <= n,
            n == suffix@.len(),
            base == v@.len() - n,
            len == v@.len(),
            forall|j: int| 0 <= j < i ==> v@[base + j] == suffix@[j],
        decreases n - i,
    {
        if v[base + i] != suffix.get_char(i) {
            return false;
        }
        i = i + 1;
    }
    proof {
        assert(v@.subrange(v@.len() - n, v@.len() as int) =~= suffix@);
    }
    true
}

/// The subrange of `v` from `from` (inclusive) to `to` (exclusive).
pub fn chars_slice(v: &Vec<char>, from: usize, to: usize) -> (r: Vec<char>)
    requires
        from <= to <= v@.len(),
    ensures
        r@ == v@.subrange(from as int, to as int),
{
    let mut r: Vec<char> = Vec::new();
    let mut i: usize = from;
    while i < to
        invariant
            from <= i <= to <= v@.len(),
            r@ == v@.subrange(from as int, i as int),
        decreases to - i,
    {
        r.push(v[i]);
        i = i + 1;
        assert(r@ =~= v@.subrange(from as int, i as int));
    }
    r
}

/// Index of the first occurrence of `c` in `v`, if any.
pub fn chars_find(v: &Vec<char>, c: char) -> (r: Option<usize>)
    ensures
        r matches Some(i) ==> i < v@.len() && v@[i as int] == c && forall|j: int|
            0 <= j < i ==> v@[j] != c,
        r is None ==> forall|j: int| 0 <= j < v@.len() ==> v@[j] != c,
{
    let mut i: usize = 0;
    while i < v.len()
        invariant
            i <= v@.len(),
            forall|j: int| 0 <= j < i ==> v@[j] != c,
        decreases v@.len() - i,
    {
        if v[i] == c {
            return Some(i);
        }
        i = i + 1;
    }
    None
}

/// Index of the last occurrence of `c` in `v`, if any.
pub fn chars_rfind(v: &Vec<char>, c: char) -> (r: Option<usize>)
    ensures
        r matches Some(i) ==> i < v@.len() && v@[i as int] == c && forall|j: int|
            i < j < v@.len() ==> v@[j] != c,
        r is None ==> forall|j: int| 0 <= j < v@.len() ==> v@[j] != c,
{
    let mut i: usize = v.len();
    while i > 0
        invariant
            i <= v@.len(),
            forall|j: int| i <= j < v@.len() ==> v@[j] != c,
        decreases i,
    {
        i = i - 1;
        if v[i] == c {
            return Some(i);
        }
    }
    None
}

/// Whether `p` is a prefix of `s`.
pub open spec fn has_prefix(s: Seq<char>, p: Seq<char>) -> bool {
    s.len() >= p.len() && s.subrange(0, p.len() as int) == p
}

pub open spec fn matches_at(s: Seq<char>, sub: Seq<char>, i: int) -> bool {
    0 <= i && i + sub.len() <= s.len() && s.subrange(i, i + sub.len()) == sub
}

pub open spec fn contains_seq(s: Seq<char>, sub: Seq<char>) -> bool {
    exists|i: int| matches_at(s, sub, i)
}

/// Whether `sub` occurs as a contiguous run inside `v`.
pub fn chars_contains(v: &Vec<char>, sub: &str) -> (r: bool)
    ensures
        r == contains_seq(v@, sub@),
{
    let n: usize = sub.unicode_len();
    if n == 0 {
        proof {
            assert(v@.subrange(0, 0) =~= sub@);
            assert(matches_at(v@, sub@, 0));
        }
        return true;
    }
    if n > v.len() {
        proof {
            assert(forall|i: int| !matches_at(v@, sub@, i));
        }
        return false;
    }
    let last: usize = v.len() - n;
    let mut i: usize = 0;
    while i <= last
        invariant
            i <= last + 1,
            last == v@.len() - n,
            1 <= n == sub@.len(),
            n <= v@.len(),
            v@.len() <= usize::MAX,
            forall|k: int| 0 <= k < i ==> !matches_at(v@, sub@, k),
        decreases last + 1 - i,
    {
        let mut j: usize = 0;
        let mut all: bool = true;
        while j < n
            invariant
                j <= n,
                i + n <= v@.len(),
                v@.len() <= usize::MAX,
                n == sub@.len(),
                all == (forall|t: int| 0 <= t < j ==> v@[i + t] == sub@[t]),
            decreases n - j,
        {
            if v[i + j] != sub.get_char(j) {
                all = false;
                assert(!(forall|t: int| 0 <= t < j + 1 ==> v@[i + t] == sub@[t])) by {
                    assert(v@[i + j as int] != sub@[j as int]);
                }
            }
            j = j + 1;
        }
        if all {
            proof {
                assert(v@.subrange(i as int, i + n) =~= sub@);
                assert(matches_at(v@, sub@, i as int));
            }
            return true;
        }
        proof {
            assert(!matches_at(v@, sub@, i as int)) by {
                if matches_at(v@, sub@, i as int) {
                    assert(forall|t: int|
                        0 <= t < n ==> #[trigger] v@.subrange(i as int, i + n)[t] == v@[i + t]);
                }
            }
        }
        i = i + 1;
    }
    proof {
        assert(forall|k: int| !matches_at(v@, sub@, k)) by {
            assert(forall|k: int| k > last ==> !matches_at(v@, sub@, k));
        }
    }
    false
}

/// ASCII lower-casing: `A`..`Z` map to `a`..`z`, all else is unchanged.
pub fn chars_lower(v: &Vec<char>) -> (r: Vec<char>)
    ensures
        r@ == lower_seq(v@),
{
    let mut r: Vec<char> = Vec::new();
    let mut i: usize = 0;
    while i < v.len()
        invariant
            i <= v@.len(),
            r@ == lower_seq(v@.subrange(0, i as int)),
        decreases v@.len() - i,
    {
        let c = v[i];
        if 'A' <= c && c <= 'Z' {
            let b: u8 = (c as u8) + 32;
            r.push(b as char);
        } else {
            r.push(c);
        }
        i = i + 1;
        assert(r@ =~= lower_seq(v@.subrange(0, i as int))) by {
            assert(lower_seq(v@.subrange(0, i as int)) =~= lower_seq(
                v@.subrange(0, i - 1),
            ).push(lower_char(v@[i - 1])));
        }
    }
    assert(v@.subrange(0, v@.len() as int) =~= v@);
    r
}

pub open spec fn trim_start_idx(s: Seq<char>) -> int
    decreases s.len(),
{
    if s.len() == 0 || !is_space(s[0]) {
        0
    } else {
        1 + trim_start_idx(s.drop_first())
    }
}

/// The trimmed view of `s`: the longest inner subrange without leading or
/// trailing ASCII whitespace.
pub open spec fn trim_seq(s: Seq<char>) -> Seq<char>
    decreases s.len(),
{
    if s.len() == 0 {
        s
    } else if is_space(s[0]) {
        trim_seq(s.drop_first())
    } else if is_space(s.last()) {
        trim_seq(s.drop_last())
    } else {
        s
    }
}

/// Removes leading and trailing ASCII whitespace.
#[verifier::rlimit(60)]
pub fn chars_trim(v: &Vec<char>) -> (r: Vec<char>)
    ensures
        r@ == trim_seq(v@),
{
    let mut start: usize = 0;
    let mut end: usize = v.len();
    proof {
        assert(v@.subrange(0, v@.len() as int) =~= v@);
    }
    while start < end && (v[start] == ' ' || v[start] == '\t' || v[start] == '\n' || v[start]
        == '\r')
        invariant
            start <= end,
            end == v@.len(),
            trim_seq(v@) == trim_seq(v@.subrange(start as int, end as int)),
        decreases end - start,
    {
        proof {
            let cur = v@.subrange(start as int, end as int);
            assert(cur.drop_first() =~= v@.subrange(start + 1, end as int));
        }
        start = start + 1;
    }
    while start < end && (v[end - 1] == ' ' || v[end - 1] == '\t' || v[end - 1] == '\n' || v[end
        - 1] == '\r')
        invariant
            start <= end <= v@.len(),
            trim_seq(v@) == trim_seq(v@.subrange(start as int, end as int)),
            start < end ==> !is_space(v@[start as int]),
        decreases end,
    {
        proof {
            let cur = v@.subrange(start as int, end as int);
            assert(cur.drop_last() =~= v@.subrange(start as int, end - 1));
        }
        end = end - 1;
    }
    proof {
        let cur = v@.subrange(start as int, end as int);
        assert(trim_seq(cur) == cur);
    }
    chars_slice(v, start, end)
}

/// Splits `v` on every occurrence of `sep`; `r` concatenated with `sep`
/// between parts reproduces `v`, and no part contains `sep`.
pub fn chars_split(v: &Vec<char>, sep: char) -> (r: Vec<Vec<char>>)
    ensures
        r@.len() >= 1,
        split_parts_ok(v@, sep, r@.map_values(|p: Vec<char>| p@)),
        exists|parts: Seq<Seq<char>>|
            #[trigger] split_parts_ok(v@, sep, parts) && parts.len() == r@.len() && forall|i: int|
                0 <= i < r@.len() ==> parts[i] == (#[trigger] r@[i])@,
{
    let mut r: Vec<Vec<char>> = Vec::new();
    let mut cur: Vec<char> = Vec::new();
    let mut i: usize = 0;
    proof {
        let parts = r@.map_values(|p: Vec<char>| p@).push(cur@);
        assert(parts.len() == 1);
        assert(join_with(parts, sep) == parts[0]);
        assert(parts[0] =~= Seq::<char>::empty());
        assert(v@.subrange(0, 0) =~= Seq::<char>::empty());
    }
    while i < v.len()
        invariant
            i <= v@.len(),
            split_prefix_ok(v@.subrange(0, i as int), sep, r@.map_values(|p: Vec<char>| p@), cur@),
        decreases v@.len() - i,
    {
        let ghost prev = v@.subrange(0, i as int);
        let ghost done0 = r@.map_values(|p: Vec<char>| p@);
        let ghost cur0 = cur@;
        let c = v[i];
        if c == sep {
            r.push(cur);
            cur = Vec::new();
        } else {
            cur.push(c);
        }
        i = i + 1;
        proof {
            assert(v@.subrange(0, i as int) =~= prev.push(v@[i - 1]));
            lemma_split_prefix_step(prev, sep, v@[i - 1]);
            if c == sep {
                assert(r@.map_values(|p: Vec<char>| p@) =~= done0.push(cur0));
                assert(cur@ =~= Seq::<char>::empty());
            } else {
                assert(r@.map_values(|p: Vec<char>| p@) =~= done0);
                assert(cur@ =~= cur0.push(c));
            }
        }
    }
    let ghost donef = r@.map_values(|p: Vec<char>| p@);
    let ghost curf = cur@;
    r.push(cur);
    proof {
        assert(v@.subrange(0, v@.len() as int) =~= v@);
        assert(r@.map_values(|p: Vec<char>| p@) =~= donef.push(curf));
        let m = r@.map_values(|p: Vec<char>| p@);
        assert(m.len() == r@.len());
        assert(forall|i: int| 0 <= i < r@.len() ==> m[i] == (#[trigger] r@[i])@);
    }
    r
}

/// `parts` with `sep` interposed concatenates to `s`, and no part holds `sep`.
pub open spec fn split_parts_ok(s: Seq<char>, sep: char, parts: Seq<Seq<char>>) -> bool {
    parts.len() >= 1 && s == join_with(parts, sep) && forall|i: int|
        0 <= i < parts.len() ==> !(#[trigger] parts[i]).contains(sep)
}

pub open spec fn split_prefix_ok(
    s: Seq<char>,
    sep: char,
    done: Seq<Seq<char>>,
    cur: Seq<char>,
) -> bool {
    s == join_with(done.push(cur), sep) && !cur.contains(sep) && forall|i: int|
        0 <= i < done.len() ==> !(#[trigger] done[i]).contains(sep)
}

pub open spec fn join_with(parts: Seq<Seq<char>>, sep: char) -> Seq<char>
    decreases parts.len(),
{
    if parts.len() == 0 {
        Seq::empty()
    } else if parts.len() == 1 {
        parts[0]
    } else {
        join_with(parts.drop_last(), sep) + seq![sep] + parts.last()
    }
}

proof fn lemma_split_prefix_step(s: Seq<char>, sep: char, c: char)
    ensures
        forall|done: Seq<Seq<char>>, cur: Seq<char>|
            split_prefix_ok(s, sep, done, cur) && c == sep ==> split_prefix_ok(
                s.push(c),
                sep,
                done.push(cur),
                Seq::empty(),
            ),
        forall|done: Seq<Seq<char>>, cur: Seq<char>|
            split_prefix_ok(s, sep, done, cur) && c != sep ==> split_prefix_ok(
                s.push(c),
                sep,
                done,
                cur.push(c),
            ),
{
    assert forall|done: Seq<Seq<char>>, cur: Seq<char>|
        split_prefix_ok(s, sep, done, cur) && c == sep implies split_prefix_ok(
        s.push(c),
        sep,
        done.push(cur),
        Seq::empty(),
    ) by {
        let parts = done.push(cur).push(Seq::<char>::empty());
        assert(parts.drop_last() =~= done.push(cur));
        assert(join_with(parts, sep) =~= s.push(c));
    }
    assert forall|done: Seq<Seq<char>>, cur: Seq<char>|
        split_prefix_ok(s, sep, done, cur) && c != sep implies split_prefix_ok(
        s.push(c),
        sep,
        done,
        cur.push(c),
    ) by {
        let parts0 = done.push(cur);
        let parts1 = done.push(cur.push(c));
        if done.len() == 0 {
            assert(join_with(parts1, sep) == cur.push(c));
            assert(join_with(parts1, sep) =~= s.push(c));
        } else {
            assert(parts0.drop_last() =~= done);
            assert(parts1.drop_last() =~= done);
            assert(join_with(parts1, sep) == join_with(done, sep) + seq![sep] + cur.push(c));
            assert(join_with(parts1, sep) =~= s.push(c));
        }
        assert(!cur.push(c).contains(sep)) by {
            assert(forall|i: int|
                0 <= i < cur.push(c).len() ==> cur.push(c)[i] == if i < cur.len() {
                    cur[i]
                } else {
                    c
                });
        }
    }
}

/// Parses a run of decimal digits as a `u64`; `None` on empty input, a
/// non-digit, or overflow past `u64::MAX`.
pub fn parse_u64_digits(v: &Vec<char>) -> (r: Option<u64>)
    ensures
        r matches Some(n) ==> v@.len() > 0 && all_digits(v@) && n == dec_value(v@),
        r is None ==> v@.len() == 0 || !all_digits(v@) || dec_value(v@) > u64::MAX,
{
    if v.len() == 0 {
        return None;
    }
    let mut acc: u64 = 0;
    let mut i: usize = 0;
    while i < v.len()
        invariant
            i <= v@.len(),
            all_digits(v@.subrange(0, i as int)),
            acc == dec_value(v@.subrange(0, i as int)),
        decreases v@.len() - i,
    {
        let ghost prev = v@.subrange(0, i as int);
        let c = v[i];
        if !('0' <= c && c <= '9') {
            proof {
                lemma_not_all_digits(v@, i as int);
            }
            return None;
        }
        let d: u64 = (c as u32 as u64) - ('0' as u32 as u64);
        let wide: u128 = (acc as u128) * 10 + (d as u128);
        proof {
            assert(v@.subrange(0, i + 1) =~= prev.push(v@[i as int]));
            assert(v@.subrange(0, i + 1).drop_last() =~= prev);
            assert(all_digits(v@.subrange(0, i + 1)));
            assert(dec_value(v@.subrange(0, i + 1)) == acc * 10 + d);
        }
        if wide > u64::MAX as u128 {
            proof {
                if all_digits(v@) {
                    lemma_dec_prefix_mono(v@, i + 1);
                }
            }
            return None;
        }
        acc = wide as u64;
        i = i + 1;
    }
    proof {
        assert(v@.subrange(0, v@.len() as int) =~= v@);
    }
    Some(acc)
}

proof fn lemma_not_all_digits(s: Seq<char>, i: int)
    requires
        0 <= i < s.len(),
        !is_digit(s[i]),
    ensures
        !all_digits(s),
{
}

/// The value of a digit string is at least the value of any of its prefixes.
proof fn lemma_dec_prefix_mono(s: Seq<char>, i: int)
    requires
        0 <= i <= s.len(),
        all_digits(s),
    ensures
        dec_value(s) >= dec_value(s.subrange(0, i)),
    decreases s.len() - i,
{
    if i == s.len() {
        assert(s.subrange(0, s.len() as int) =~= s);
    } else {
        lemma_dec_prefix_mono(s, i + 1);
        assert(s.subrange(0, i + 1).drop_last() =~= s.subrange(0, i));
        assert(all_digits(s.subrange(0, i))) by {
            assert(forall|j: int| 0 <= j < i ==> #[trigger] s.subrange(0, i)[j] == s[j]);
        }
        lemma_dec_value_nonneg(s.subrange(0, i));
        assert(is_digit(s.subrange(0, i + 1).last()));
        assert(dec_value(s.subrange(0, i + 1)) == dec_value(s.subrange(0, i)) * 10 + digit_val(
            s.subrange(0, i + 1).last(),
        ));
    }
}

pub proof fn lemma_dec_value_nonneg(s: Seq<char>)
    requires
        all_digits(s),
    ensures
        dec_value(s) >= 0,
    decreases s.len(),
{
    if s.len() > 0 {
        assert(all_digits(s.drop_last())) by {
            assert(forall|j: int| 0 <= j < s.len() - 1 ==> s.drop_last()[j] == s[j]);
        }
        lemma_dec_value_nonneg(s.drop_last());
    }
}

/// Renders `n` in decimal, most significant digit first. The contract pins
/// the result: all digits, value `n`, and no leading zero.
pub fn u64_dec_chars(n: u64) -> (r: Vec<char>)
    ensures
        all_digits(r@),
        dec_value(r@) == n,
        r@.len() >= 1,
        r@.len() > 1 ==> r@[0] != '0',
{
    let mut digits: Vec<char> = Vec::new();
    if n == 0 {
        digits.push('0');
        proof {
            assert(digits@ =~= seq!['0']);
            assert(digits@.drop_last() =~= Seq::<char>::empty());
            assert(dec_value(digits@) == dec_value(Seq::<char>::empty()) * 10 + digit_val('0'));
        }
        return digits;
    }
    let mut rev: Vec<char> = Vec::new();
    let mut m: u64 = n;
    proof {
        assert(pow10(0) == 1);
        assert(rev_value(rev@) == 0);
    }
    while m > 0
        invariant
            n == m * pow10(rev@.len()) + rev_value(rev@),
            all_digits(rev@),
            m == 0 ==> rev@.len() > 0 && digit_val(rev@.last()) > 0,
        decreases m,
    {
        let d: u64 = m % 10;
        let c: char = ((d + 48) as u8) as char;
        let ghost prev = rev@;
        let ghost m0: int = m as int;
        rev.push(c);
        m = m / 10;
        proof {
            assert(digit_val(c) == d);
            lemma_rev_value_push(prev, c);
            assert(all_digits(rev@)) by {
                assert(forall|i: int| 0 <= i < prev.len() ==> rev@[i] == prev[i]);
            }
            let p = pow10(prev.len());
            assert(pow10(rev@.len()) == 10 * p);
            assert(m0 == 10 * (m0 / 10) + d);
            assert(m0 * p == (m0 / 10) * (10 * p) + d * p) by (nonlinear_arith)
                requires
                    m0 == 10 * (m0 / 10) + d,
            ;
            assert(rev_value(rev@) == rev_value(prev) + d * p);
            assert(n == m * pow10(rev@.len()) + rev_value(rev@));
            if m == 0 {
                assert(d == m0);
                assert(d > 0);
                assert(rev@.last() == c);
            }
        }
    }
    let mut i: usize = rev.len();
    while i > 0
        invariant
            i <= rev@.len(),
            digits@ == rev@.subrange(i as int, rev@.len() as int).reverse(),
        decreases i,
    {
        i = i - 1;
        digits.push(rev[i]);
        assert(digits@ =~= rev@.subrange(i as int, rev@.len() as int).reverse());
    }
    proof {
        assert(digits@ =~= rev@.reverse()) by {
            assert(rev@.subrange(0, rev@.len() as int) =~= rev@);
        }
        lemma_dec_value_of_reverse(rev@);
        assert(all_digits(digits@)) by {
            assert(forall|k: int|
                0 <= k < digits@.len() ==> digits@[k] == rev@[rev@.len() - 1 - k]);
        }
        assert(rev@.len() >= 1);
        assert(digits@[0] == rev@[rev@.len() - 1]);
        assert(digit_val(digits@[0]) > 0);
    }
    digits
}

pub open spec fn pow10(k: nat) -> nat
    decreases k,
{
    if k == 0 {
        1
    } else {
        10 * pow10((k - 1) as nat)
    }
}

/// Value of digits stored least significant first.
pub open spec fn rev_value(rev: Seq<char>) -> int
    decreases rev.len(),
{
    if rev.len() == 0 {
        0
    } else {
        digit_val(rev[0]) + 10 * rev_value(rev.drop_first())
    }
}

proof fn lemma_rev_value_push(rev: Seq<char>, c: char)
    ensures
        rev_value(rev.push(c)) == rev_value(rev) + digit_val(c) * pow10(rev.len()),
    decreases rev.len(),
{
    if rev.len() == 0 {
        assert(rev.push(c)[0] == c);
        assert(rev.push(c).drop_first() =~= Seq::<char>::empty());
        assert(rev_value(rev.push(c)) == digit_val(c) + 10 * rev_value(Seq::<char>::empty()));
        assert(pow10(0) == 1);
    } else {
        assert(rev.push(c).drop_first() =~= rev.drop_first().push(c));
        lemma_rev_value_push(rev.drop_first(), c);
        assert(rev.push(c)[0] == rev[0]);
        let p = pow10((rev.len() - 1) as nat);
        assert(pow10(rev.len()) == 10 * p);
        assert(digit_val(c) * (10 * p) == 10 * (digit_val(c) * p)) by (nonlinear_arith);
        assert(rev_value(rev.push(c)) == digit_val(rev[0]) + 10 * rev_value(
            rev.drop_first().push(c),
        ));
        assert(rev_value(rev) == digit_val(rev[0]) + 10 * rev_value(rev.drop_first()));
    }
}

/// Digits written least-significant-first, read back most-significant-first,
/// denote the same number.
proof fn lemma_dec_value_of_reverse(rev: Seq<char>)
    ensures
        dec_value(rev.reverse()) == rev_value(rev),
    decreases rev.len(),
{
    if rev.len() > 0 {
        let r = rev.reverse();
        assert(r.last() == rev[0]);
        assert(r.drop_last() =~= rev.drop_first().reverse());
        lemma_dec_value_of_reverse(rev.drop_first());
        assert(dec_value(r) == dec_value(r.drop_last()) * 10 + digit_val(r.last()));
    }
}

/// Renders `n` in decimal as a `String`.
pub fn u64_dec_string(n: u64) -> (r: String)
    ensures
        all_digits(r@),
        dec_value(r@) == n,
        r@.len() >= 1,
        r@.len() > 1 ==> r@[0] != '0',
{
    let v = u64_dec_chars(n);
    chars_string(&v)
}

} // verus!
