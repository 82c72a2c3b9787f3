//! Session commands over existing runs, rediscovered solely by label:
//! parsing the command word, reading run metadata back out of container
//! labels, and shaping the `list` table.

use vstd::prelude::*;

use crate::strings::{lower_seq, str_chars};

verus! {

/// An optional string and an optional view, equal in content.
pub open spec fn opt_view_eq(a: Option<String>, b: Option<Seq<char>>) -> bool {
    match (a, b) {
        (Some(x), Some(y)) => x@ == y,
        (None, None) => true,
        _ => false,
    }
}

/// One session command over an existing run.
pub enum SessionCommand {
    List,
    Logs { run_id: Option<String> },
    Traffic { run_id: Option<String> },
    Down { run_id: Option<String> },
}

/// The session command named by the first non-option argument, with the run
/// id that follows it.
pub open spec fn spec_session_word(args: Seq<String>, i: int) -> Option<(Seq<char>, Option<
    Seq<char>,
>)>
    decreases args.len() - i,
{
    if i < 0 || i >= args.len() {
        None
    } else if args[i]@ == "--"@ {
        if i + 1 < args.len() {
            Some(
                (
                    args[i + 1]@,
                    if i + 2 < args.len() {
                        Some(args[i + 2]@)
                    } else {
                        None
                    },
                ),
            )
        } else {
            None
        }
    } else if args[i]@.len() >= 1 && args[i]@[0] == '-' {
        if args[i]@.contains('=') {
            spec_session_word(args, i + 1)
        } else if crate::args::spec_option_takes_value(args[i]@) {
            if i + 2 <= args.len() {
                spec_session_word(args, i + 2)
            } else {
                None
            }
        } else {
            spec_session_word(args, i + 1)
        }
    } else {
        Some(
            (
                args[i]@,
                if i + 1 < args.len() {
                    Some(args[i + 1]@)
                } else {
                    None
                },
            ),
        )
    }
}

/// Recognises `list`, `logs <run>`, `traffic <run>` and `down <run>`; the
/// word after the command is its run id.
pub fn extract_session_command(args: &Vec<String>) -> (r: Option<SessionCommand>)
    ensures
        match spec_session_word(args@, 0) {
            Some((word, next)) => {
                &&& (r is Some <==> (word == "list"@ || word == "logs"@ || word == "traffic"@
                    || word == "down"@))
                &&& (word == "list"@ ==> r matches Some(SessionCommand::List))
                &&& (word == "logs"@ ==> (r matches Some(SessionCommand::Logs { run_id })
                    && opt_view_eq(run_id, next)))
                &&& (word == "traffic"@ ==> (r matches Some(SessionCommand::Traffic { run_id })
                    && opt_view_eq(run_id, next)))
                &&& (word == "down"@ ==> (r matches Some(SessionCommand::Down { run_id })
                    && opt_view_eq(run_id, next)))
            },
            None => r is None,
        },
{
    match session_word_from(args, 0) {
        Some((word, next)) => parse_session_command(word.as_str(), next),
        None => None,
    }
}

fn session_word_from(args: &Vec<String>, i: usize) -> (r: Option<(String, Option<String>)>)
    requires
        i <= args@.len(),
    ensures
        match (r, spec_session_word(args@, i as int)) {
            (Some((w, n)), Some((sw, sn))) => w@ == sw && (match (n, sn) {
                (Some(a), Some(b)) => a@ == b,
                (None, None) => true,
                _ => false,
            }),
            (None, None) => true,
            _ => false,
        },
    decreases args@.len() - i,
{
    if i >= args.len() {
        return None;
    }
    if crate::strings::str_eq(args[i].as_str(), "--") {
        if i + 1 < args.len() {
            let next = if args.len() - i >= 3 {
                Some(args[i + 2].clone())
            } else {
                None
            };
            return Some((args[i + 1].clone(), next));
        }
        return None;
    }
    let av = str_chars(args[i].as_str());
    if av.len() >= 1 && av[0] == '-' {
        let has_eq = match crate::strings::chars_find(&av, '=') {
            Some(_) => true,
            None => false,
        };
        proof {
            if av@.contains('=') {
                let k = choose|k: int| 0 <= k < av@.len() && av@[k] == '=';
                assert(av@[k] == '=');
            }
        }
        if has_eq {
            return session_word_from(args, i + 1);
        }
        if crate::args::option_takes_value(args[i].as_str()) {
            if args.len() - i >= 2 {
                return session_word_from(args, i + 2);
            }
            return None;
        }
        return session_word_from(args, i + 1);
    }
    let next = if i + 1 < args.len() {
        Some(args[i + 1].clone())
    } else {
        None
    };
    Some((args[i].clone(), next))
}

pub fn parse_session_command(word: &str, next: Option<String>) -> (r: Option<SessionCommand>)
    ensures
        r is Some <==> (word@ == "list"@ || word@ == "logs"@ || word@ == "traffic"@ || word@
            == "down"@),
        word@ == "list"@ ==> r matches Some(SessionCommand::List),
        word@ == "logs"@ ==> (r matches Some(SessionCommand::Logs { run_id }) && run_id == next),
        word@ == "traffic"@ ==> (r matches Some(SessionCommand::Traffic { run_id }) && run_id
            == next),
        word@ == "down"@ ==> (r matches Some(SessionCommand::Down { run_id }) && run_id == next),
{
    proof {
        reveal_strlit("list");
        reveal_strlit("logs");
        reveal_strlit("traffic");
        reveal_strlit("down");
        assert("list"@.len() == 4 && "logs"@.len() == 4 && "traffic"@.len() == 7 && "down"@.len()
            == 4);
        assert("list"@[1] == 'i' && "logs"@[1] == 'o' && "down"@[1] == 'o');
        assert("logs"@[0] == 'l' && "down"@[0] == 'd');
    }
    if crate::strings::str_eq(word, "list") {
        Some(SessionCommand::List)
    } else if crate::strings::str_eq(word, "logs") {
        Some(SessionCommand::Logs { run_id: next })
    } else if crate::strings::str_eq(word, "traffic") {
        Some(SessionCommand::Traffic { run_id: next })
    } else if crate::strings::str_eq(word, "down") {
        Some(SessionCommand::Down { run_id: next })
    } else {
        None
    }
}

/// Label values counted as switched on.
pub fn label_is_truthy(value: &str) -> (r: bool)
    ensures
        r == crate::args::spec_truthy(lower_seq(value@)),
{
    let lv = crate::strings::chars_into_string(
        crate::strings::chars_lower(&str_chars(value)),
    );
    crate::strings::str_eq(lv.as_str(), "1") || crate::strings::str_eq(lv.as_str(), "true")
        || crate::strings::str_eq(lv.as_str(), "yes")
}

/// What the session commands recover about a run from container labels.
pub struct RunMetadata {
    pub run_id: String,
    pub compose_file: Option<String>,
    pub derived_compose: Option<String>,
    pub project_name: Option<String>,
    pub started_at_raw: Option<String>,
    pub started_at_ts: Option<i64>,
}

impl RunMetadata {
    pub fn new(run_id: String) -> (r: RunMetadata)
        ensures
            r.run_id@ == run_id@,
            r.compose_file is None,
            r.derived_compose is None,
            r.project_name is None,
            r.started_at_raw is None,
            r.started_at_ts is None,
    {
        RunMetadata {
            run_id,
            compose_file: None,
            derived_compose: None,
            project_name: None,
            started_at_raw: None,
            started_at_ts: None,
        }
    }

    /// Folds one container's labels in; the first container to carry a
    /// label wins, and within one container the first binding of a key.
    pub fn apply_labels(&mut self, labels: &Vec<(String, String)>)
        ensures
            final(self).run_id == old(self).run_id,
            old(self).compose_file is Some ==> final(self).compose_file == old(self).compose_file,
            old(self).derived_compose is Some ==> final(self).derived_compose == old(
                self,
            ).derived_compose,
            old(self).project_name is Some ==> final(self).project_name == old(self).project_name,
            old(self).started_at_raw is Some ==> final(self).started_at_raw == old(
                self,
            ).started_at_raw && final(self).started_at_ts == old(self).started_at_ts,
            old(self).compose_file is None ==> (match first_label(
                labels@,
                "sanelens.compose.file"@,
            ) {
                Some(v) => final(self).compose_file matches Some(s) && s@ == v,
                None => final(self).compose_file is None,
            }),
            old(self).derived_compose is None ==> (match first_label(
                labels@,
                "sanelens.compose.derived"@,
            ) {
                Some(v) => final(self).derived_compose matches Some(s) && s@ == v,
                None => final(self).derived_compose is None,
            }),
            old(self).project_name is None ==> (match first_label(
                labels@,
                "sanelens.project.name"@,
            ) {
                Some(v) => final(self).project_name matches Some(s) && s@ == v,
                None => final(self).project_name is None,
            }),
            old(self).started_at_raw is None ==> (match first_label(
                labels@,
                "sanelens.started.at"@,
            ) {
                Some(v) => final(self).started_at_raw matches Some(s) && s@ == v && (match
                crate::multiline::rfc3339_ms(v) {
                    Some(ms) => ms >= 0 ==> final(self).started_at_ts == Some((ms / 1000) as i64),
                    None => final(self).started_at_ts is None,
                }),
                None => final(self).started_at_raw is None && final(self).started_at_ts == old(
                    self,
                ).started_at_ts,
            }),
    {
        if self.compose_file.is_none() {
            match label_lookup(labels, "sanelens.compose.file") {
                Some(v) => {
                    self.compose_file = Some(v);
                },
                None => {},
            }
        }
        if self.derived_compose.is_none() {
            match label_lookup(labels, "sanelens.compose.derived") {
                Some(v) => {
                    self.derived_compose = Some(v);
                },
                None => {},
            }
        }
        if self.project_name.is_none() {
            match label_lookup(labels, "sanelens.project.name") {
                Some(v) => {
                    self.project_name = Some(v);
                },
                None => {},
            }
        }
        if self.started_at_raw.is_none() {
            match label_lookup(labels, "sanelens.started.at") {
                Some(v) => {
                    self.started_at_ts = match crate::multiline::parse_rfc3339_to_epoch_millis(
                        v.as_str(),
                    ) {
                        Some(ms) => Some(ms / 1000),
                        None => None,
                    };
                    self.started_at_raw = Some(v);
                },
                None => {},
            }
        }
    }
}

/// The first value bound to `key` in a label list.
pub open spec fn first_label(labels: Seq<(String, String)>, key: Seq<char>) -> Option<Seq<char>>
    decreases labels.len(),
{
    if labels.len() == 0 {
        None
    } else if labels[0].0@ == key {
        Some(labels[0].1@)
    } else {
        first_label(labels.drop_first(), key)
    }
}

fn label_lookup(labels: &Vec<(String, String)>, key: &str) -> (r: Option<String>)
    ensures
        match r {
            Some(v) => first_label(labels@, key@) == Some(v@),
            None => first_label(labels@, key@) is None,
        },
{
    let mut i: usize = 0;
    proof {
        assert(labels@.subrange(0, labels@.len() as int) =~= labels@);
    }
    while i < labels.len()
        invariant
            i <= labels@.len(),
            first_label(labels@, key@) == first_label(
                labels@.subrange(i as int, labels@.len() as int),
                key@,
            ),
        decreases labels@.len() - i,
    {
        proof {
            let cur = labels@.subrange(i as int, labels@.len() as int);
            assert(cur.drop_first() =~= labels@.subrange(i + 1, labels@.len() as int));
        }
        if crate::strings::str_eq(labels[i].0.as_str(), key) {
            return Some(labels[i].1.clone());
        }
        i = i + 1;
    }
    None
}

/// A duration component: decimal digits without a leading zero, of value `n`.
pub open spec fn dec_text(s: Seq<char>, n: int) -> bool {
    &&& crate::strings::all_digits(s)
    &&& crate::strings::dec_value(s) == n
    &&& s.len() >= 1
    &&& (s.len() > 1 ==> s[0] != '0')
}

/// A one-component rendering `<a><ua>`.
pub open spec fn duration_one(s: Seq<char>, a: int, ua: char) -> bool {
    s.len() >= 2 && s.last() == ua && dec_text(s.subrange(0, s.len() - 1), a)
}

/// A two-component rendering `<a><ua><b><ub>`.
pub open spec fn duration_two(s: Seq<char>, a: int, ua: char, b: int, ub: char) -> bool {
    exists|i: int|
        0 <= i < s.len() - 1 && #[trigger] s[i] == ua && dec_text(s.subrange(0, i), a) && s.last()
            == ub && dec_text(s.subrange(i + 1, s.len() - 1), b)
}

/// A three-component rendering `<a><ua><b><ub><c><uc>`.
pub open spec fn duration_three(
    s: Seq<char>,
    a: int,
    ua: char,
    b: int,
    ub: char,
    c: int,
    uc: char,
) -> bool {
    exists|i: int, j: int|
        #![trigger s[i], s[j]]
        0 <= i < j < s.len() - 1 && s[i] == ua && s[j] == ub && dec_text(s.subrange(0, i), a)
            && dec_text(s.subrange(i + 1, j), b) && s.last() == uc && dec_text(
            s.subrange(j + 1, s.len() - 1),
            c,
        )
}

/// Renders a duration in seconds the way the `list` table shows it:
/// `DdHhMm`, `HhMm`, `MmSs` or `Ss`, by the largest unit present.
pub fn format_duration(secs: i64) -> (r: String)
    ensures
        secs <= 0 ==> r@ == "0s"@,
        ({
            let s: int = if secs <= 0 {
                0
            } else {
                secs as int
            };
            let days = s / 86400;
            let hours = (s % 86400) / 3600;
            let minutes = (s % 3600) / 60;
            let seconds = s % 60;
            if days > 0 {
                duration_three(r@, days, 'd', hours, 'h', minutes, 'm')
            } else if hours > 0 {
                duration_two(r@, hours, 'h', minutes, 'm')
            } else if minutes > 0 {
                duration_two(r@, minutes, 'm', seconds, 's')
            } else {
                duration_one(r@, seconds, 's')
            }
        }),
{
    let s: u64 = if secs <= 0 {
        0
    } else {
        secs as u64
    };
    let days = s / 86400;
    let hours = (s % 86400) / 3600;
    let minutes = (s % 3600) / 60;
    let seconds = s % 60;
    if days > 0 {
        let ds = crate::strings::u64_dec_string(days);
        let hs = crate::strings::u64_dec_string(hours);
        let ms = crate::strings::u64_dec_string(minutes);
        let ghost dg = ds@;
        let ghost hg = hs@;
        let ghost mg = ms@;
        let mut out = ds;
        out.append("d");
        out.append(hs.as_str());
        out.append("h");
        out.append(ms.as_str());
        out.append("m");
        proof {
            reveal_strlit("d");
            reveal_strlit("h");
            reveal_strlit("m");
            let i = dg.len() as int;
            let j: int = dg.len() as int + 1 + hg.len() as int;
            assert(out@ =~= dg + "d"@ + hg + "h"@ + mg + "m"@);
            assert(out@[i] == 'd');
            assert(out@[j] == 'h');
            assert(out@.subrange(0, i) =~= dg);
            assert(out@.subrange(i + 1, j) =~= hg);
            assert(out@.last() == 'm');
            assert(out@.subrange(j + 1, out@.len() - 1) =~= mg);
            assert(duration_three(out@, days as int, 'd', hours as int, 'h', minutes as int, 'm'));
        }
        out
    } else if hours > 0 {
        let hs = crate::strings::u64_dec_string(hours);
        let ms = crate::strings::u64_dec_string(minutes);
        let ghost hg = hs@;
        let ghost mg = ms@;
        let mut out = hs;
        out.append("h");
        out.append(ms.as_str());
        out.append("m");
        proof {
            reveal_strlit("h");
            reveal_strlit("m");
            let i = hg.len() as int;
            assert(out@ =~= hg + "h"@ + mg + "m"@);
            assert(out@[i] == 'h');
            assert(out@.subrange(0, i) =~= hg);
            assert(out@.last() == 'm');
            assert(out@.subrange(i + 1, out@.len() - 1) =~= mg);
            assert(duration_two(out@, hours as int, 'h', minutes as int, 'm'));
        }
        out
    } else if minutes > 0 {
        let ms = crate::strings::u64_dec_string(minutes);
        let ss = crate::strings::u64_dec_string(seconds);
        let ghost mg = ms@;
        let ghost sg = ss@;
        let mut out = ms;
        out.append("m");
        out.append(ss.as_str());
        out.append("s");
        proof {
            reveal_strlit("m");
            reveal_strlit("s");
            let i = mg.len() as int;
            assert(out@ =~= mg + "m"@ + sg + "s"@);
            assert(out@[i] == 'm');
            assert(out@.subrange(0, i) =~= mg);
            assert(out@.last() == 's');
            assert(out@.subrange(i + 1, out@.len() - 1) =~= sg);
            assert(duration_two(out@, minutes as int, 'm', seconds as int, 's'));
        }
        out
    } else if seconds == 0 {
        let out = "0s".to_owned();
        proof {
            reveal_strlit("0s");
            assert(out@.len() == 2);
            assert(out@[0] == '0');
            assert(out@.last() == 's');
            assert(out@.subrange(0, 1) =~= seq!['0']);
            let zero = out@.subrange(0, 1);
            assert(crate::strings::dec_value(zero) == 0) by {
                assert(zero.drop_last() =~= Seq::<char>::empty());
                assert(crate::strings::dec_value(zero.drop_last()) == 0);
                assert(crate::strings::digit_val(zero.last()) == 0);
            }
            assert(crate::strings::all_digits(zero));
            assert(duration_one(out@, 0, 's'));
        }
        out
    } else {
        let ss = crate::strings::u64_dec_string(seconds);
        let ghost sg = ss@;
        let mut out = ss;
        out.append("s");
        proof {
            reveal_strlit("s");
            assert(out@ =~= sg + "s"@);
            assert(out@.last() == 's');
            assert(out@.subrange(0, out@.len() - 1) =~= sg);
            assert(duration_one(out@, seconds as int, 's'));
        }
        out
    }
}

/// Sorts run rows by their started-at timestamp, newest first.
pub fn sort_runs_newest_first(runs: Vec<RunMetadata>) -> (r: Vec<RunMetadata>)
    ensures
        r@.len() == runs@.len(),
        forall|i: int, j: int|
            0 <= i < j < r@.len() ==> ts_of(#[trigger] r@[i]) >= ts_of(#[trigger] r@[j]),
        r@.to_multiset() == runs@.to_multiset(),
{
    let mut input = runs;
    let mut out: Vec<RunMetadata> = Vec::new();
    proof {
        broadcast use vstd::seq_lib::group_to_multiset_ensures;

    }
    while input.len() > 0
        invariant
            out@.len() + input@.len() == runs@.len(),
            forall|i: int, j: int|
                0 <= i < j < out@.len() ==> ts_of(#[trigger] out@[i]) >= ts_of(
                    #[trigger] out@[j],
                ),
            out@.to_multiset().add(input@.to_multiset()) == runs@.to_multiset(),
        decreases input@.len(),
    {
        let ghost in0 = input@;
        let item = input.remove(0);
        let mut j: usize = 0;
        while j < out.len() && ts_newer_or_equal(&out[j], &item)
            invariant
                j <= out@.len(),
                forall|t: int| 0 <= t < j ==> ts_of(#[trigger] out@[t]) >= ts_of(item),
            decreases out@.len() - j,
        {
            j = j + 1;
        }
        let ghost before = out@;
        let ghost itemg = item;
        out.insert(j, item);
        proof {
            broadcast use vstd::seq_lib::group_to_multiset_ensures;

            vstd::seq_lib::to_multiset_insert(before, j as int, itemg);
            vstd::seq_lib::to_multiset_remove(in0, 0);
            assert(in0[0] == itemg);
            assert(out@.to_multiset() =~= before.to_multiset().insert(itemg));
            assert(input@.to_multiset() =~= in0.to_multiset().remove(itemg));
            assert(in0.to_multiset().count(itemg) > 0) by {
                assert(in0.contains(itemg));
            }
            assert(out@.to_multiset().add(input@.to_multiset()) =~= runs@.to_multiset());
            assert forall|a: int, b: int|
                0 <= a < b < out@.len() implies ts_of(#[trigger] out@[a]) >= ts_of(
                #[trigger] out@[b],
            ) by {
                if b < j {
                } else if a < j && b == j {
                } else if a < j && b > j {
                    assert(out@[b] == before[b - 1]);
                } else if a == j {
                    assert(out@[b] == before[b - 1]);
                    if j < before.len() {
                        assert(ts_of(itemg) >= ts_of(before[j as int]));
                    }
                } else {
                    assert(out@[a] == before[a - 1]);
                    assert(out@[b] == before[b - 1]);
                }
            }
        }
    }
    proof {
        broadcast use vstd::seq_lib::group_to_multiset_ensures;

        assert(input@.to_multiset() =~= vstd::multiset::Multiset::<RunMetadata>::empty()) by {
            assert forall|x: RunMetadata| input@.to_multiset().count(x) == 0 by {
                assert(!input@.contains(x));
            }
        }
        assert(out@.to_multiset() =~= runs@.to_multiset());
    }
    out
}

/// Whether `a` started at or after `b`; rows without a timestamp sort last.
fn ts_newer_or_equal(a: &RunMetadata, b: &RunMetadata) -> (r: bool)
    ensures
        r == (ts_of(*a) >= ts_of(*b)),
{
    match (a.started_at_ts, b.started_at_ts) {
        (Some(x), Some(y)) => x >= y,
        (Some(_), None) => true,
        (None, None) => true,
        (None, Some(_)) => false,
    }
}

pub open spec fn ts_of(r: RunMetadata) -> int {
    match r.started_at_ts {
        Some(t) => t as int,
        None => i64::MIN as int - 1,
    }
}

} // verus!
