//! Argument shaping: recognising and extracting this tool's own flags
//! before the remaining arguments go to the wrapped compose tool.

use vstd::prelude::*;

use crate::domain::EngineKind;
use crate::strings::{chars_trim, has_prefix, lower_seq, str_chars, trim_seq};

verus! {

/// The project name used when nothing better is known.
pub open spec fn spec_default_project() -> Seq<char> {
    "compose"@
}

pub open spec fn spec_falsey(s: Seq<char>) -> bool {
    s == "0"@ || s == "false"@ || s == "no"@
}

pub fn is_falsey(value: &str) -> (r: bool)
    ensures
        r == spec_falsey(value@),
{
    crate::strings::str_eq(value, "0") || crate::strings::str_eq(value, "false")
        || crate::strings::str_eq(value, "no")
}

pub open spec fn spec_truthy(s: Seq<char>) -> bool {
    s == "1"@ || s == "true"@ || s == "yes"@
}

/// Whether an environment value, lowercased, switches a toggle off.
pub fn is_env_false(value: Option<&String>) -> (r: bool)
    ensures
        r == match value {
            Some(s) => spec_falsey(lower_seq(s@)),
            None => false,
        },
{
    match value {
        Some(s) => {
            let sv = str_chars(s.as_str());
            let lowered = crate::strings::chars_into_string(crate::strings::chars_lower(&sv));
            is_falsey(lowered.as_str())
        },
        None => false,
    }
}

/// Whether an environment value, lowercased, switches a toggle on.
pub fn is_env_truthy(value: Option<&String>) -> (r: bool)
    ensures
        r == match value {
            Some(s) => spec_truthy(lower_seq(s@)),
            None => false,
        },
{
    match value {
        Some(s) => {
            let sv = str_chars(s.as_str());
            let lowered = crate::strings::chars_into_string(crate::strings::chars_lower(&sv));
            crate::strings::str_eq(lowered.as_str(), "1") || crate::strings::str_eq(
                lowered.as_str(),
                "true",
            ) || crate::strings::str_eq(lowered.as_str(), "yes")
        },
        None => false,
    }
}

fn arg_is(a: &String, lit: &str) -> (r: bool)
    ensures
        r == (a@ == lit@),
{
    crate::strings::str_eq(a.as_str(), lit)
}

fn arg_prefix(a: &String, p: &str) -> (r: Option<String>)
    ensures
        match r {
            Some(rest) => has_prefix(a@, p@) && rest@ == a@.subrange(p@.len() as int, a@.len() as int),
            None => !has_prefix(a@, p@),
        },
{
    let av = str_chars(a.as_str());
    if crate::strings::chars_starts_with(&av, p) {
        let plen = p.unicode_len();
        let rest = crate::strings::chars_slice(&av, plen, av.len());
        Some(crate::strings::chars_into_string(rest))
    } else {
        None
    }
}

pub open spec fn spec_has_project_name(args: Seq<String>, i: int) -> bool
    decreases args.len() - i,
{
    if i < 0 || i >= args.len() {
        false
    } else if args[i]@ == "-p"@ || args[i]@ == "--project-name"@ || has_prefix(
        args[i]@,
        "--project-name="@,
    ) {
        true
    } else {
        spec_has_project_name(args, i + 1)
    }
}

/// Whether the user already picked a project name.
pub fn has_project_name(args: &Vec<String>) -> (r: bool)
    ensures
        r == spec_has_project_name(args@, 0),
{
    has_project_name_from(args, 0)
}

fn has_project_name_from(args: &Vec<String>, i: usize) -> (r: bool)
    requires
        i <= args@.len(),
    ensures
        r == spec_has_project_name(args@, i as int),
    decreases args@.len() - i,
{
    if i >= args.len() {
        false
    } else if arg_is(&args[i], "-p") || arg_is(&args[i], "--project-name") || arg_prefix(
        &args[i],
        "--project-name=",
    ).is_some() {
        true
    } else {
        has_project_name_from(args, i + 1)
    }
}

/// How one argument relates to one flag name: a bare match, an inline
/// `name=value` whose value is not falsey, a falsey inline value (which
/// blocks the remaining names for this argument), or no relation.
pub open spec fn flag_match(arg: String, name: &str) -> int {
    if arg@ == name@ {
        1
    } else if has_prefix(arg@, name@ + "="@) {
        if spec_falsey(lower_seq(arg@.subrange((name@ + "="@).len() as int, arg@.len() as int))) {
            2
        } else {
            1
        }
    } else {
        0
    }
}

pub open spec fn spec_arg_has_flag(arg: String, names: Seq<&str>, j: int) -> bool
    decreases names.len() - j,
{
    if j < 0 || j >= names.len() {
        false
    } else if flag_match(arg, names[j]) == 1 {
        true
    } else if flag_match(arg, names[j]) == 2 {
        false
    } else {
        spec_arg_has_flag(arg, names, j + 1)
    }
}

pub open spec fn spec_has_flag(args: Seq<String>, names: Seq<&str>, i: int) -> bool
    decreases args.len() - i,
{
    if i < 0 || i >= args.len() {
        false
    } else if spec_arg_has_flag(args[i], names, 0) {
        true
    } else {
        spec_has_flag(args, names, i + 1)
    }
}

/// Whether a flag (under any of its names) is present and not switched off
/// inline.
pub fn has_flag(args: &Vec<String>, names: &[&str]) -> (r: bool)
    ensures
        r == spec_has_flag(args@, names@, 0),
{
    has_flag_from(args, names, 0)
}

fn has_flag_from(args: &Vec<String>, names: &[&str], i: usize) -> (r: bool)
    requires
        i <= args@.len(),
    ensures
        r == spec_has_flag(args@, names@, i as int),
    decreases args@.len() - i,
{
    if i >= args.len() {
        return false;
    }
    if arg_has_flag_from(&args[i], names, 0) {
        return true;
    }
    has_flag_from(args, names, i + 1)
}

fn arg_has_flag_from(arg: &String, names: &[&str], j: usize) -> (r: bool)
    requires
        j <= names@.len(),
    ensures
        r == spec_arg_has_flag(*arg, names@, j as int),
    decreases names@.len() - j,
{
    if j >= names.len() {
        return false;
    }
    let name = names[j];
    if crate::strings::str_eq(arg.as_str(), name) {
        return true;
    }
    let mut p = name.to_owned();
    p.append("=");
    let av = str_chars(arg.as_str());
    if crate::strings::chars_starts_with(&av, p.as_str()) {
        let rest = crate::strings::chars_slice(&av, p.unicode_len(), av.len());
        let lowered = crate::strings::chars_into_string(crate::strings::chars_lower(&rest));
        if is_falsey(lowered.as_str()) {
            return false;
        }
        return true;
    }
    arg_has_flag_from(arg, names, j + 1)
}

/// The options of the wrapped tool that consume the following argument.
pub open spec fn spec_option_takes_value(s: Seq<char>) -> bool {
    s == "-f"@ || s == "--file"@ || s == "-p"@ || s == "--project-name"@ || s
        == "--project-directory"@ || s == "--env-file"@ || s == "--profile"@ || s == "--ansi"@ || s
        == "--progress"@ || s == "--log-level"@ || s == "-H"@ || s == "--host"@ || s == "--context"@
}

pub fn option_takes_value(arg: &str) -> (r: bool)
    ensures
        r == spec_option_takes_value(arg@),
{
    crate::strings::str_eq(arg, "-f") || crate::strings::str_eq(arg, "--file")
        || crate::strings::str_eq(arg, "-p") || crate::strings::str_eq(arg, "--project-name")
        || crate::strings::str_eq(arg, "--project-directory") || crate::strings::str_eq(
        arg,
        "--env-file",
    ) || crate::strings::str_eq(arg, "--profile") || crate::strings::str_eq(arg, "--ansi")
        || crate::strings::str_eq(arg, "--progress") || crate::strings::str_eq(arg, "--log-level")
        || crate::strings::str_eq(arg, "-H") || crate::strings::str_eq(arg, "--host")
        || crate::strings::str_eq(arg, "--context")
}

/// The first non-option argument: the compose subcommand.
pub open spec fn spec_subcommand(args: Seq<String>, i: int) -> Option<Seq<char>>
    decreases args.len() - i,
{
    if i < 0 || i >= args.len() {
        None
    } else if args[i]@ == "--"@ {
        if i + 1 < args.len() {
            Some(args[i + 1]@)
        } else {
            None
        }
    } else if args[i]@.len() >= 1 && args[i]@[0] == '-' {
        if args[i]@.contains('=') {
            spec_subcommand(args, i + 1)
        } else if spec_option_takes_value(args[i]@) {
            if i + 2 <= args.len() {
                spec_subcommand(args, i + 2)
            } else {
                None
            }
        } else {
            spec_subcommand(args, i + 1)
        }
    } else {
        Some(args[i]@)
    }
}

pub fn extract_subcommand(args: &Vec<String>) -> (r: Option<String>)
    ensures
        match r {
            Some(s) => spec_subcommand(args@, 0) == Some(s@),
            None => spec_subcommand(args@, 0) is None,
        },
{
    extract_subcommand_from(args, 0)
}

fn extract_subcommand_from(args: &Vec<String>, i: usize) -> (r: Option<String>)
    requires
        i <= args@.len(),
    ensures
        match r {
            Some(s) => spec_subcommand(args@, i as int) == Some(s@),
            None => spec_subcommand(args@, i as int) is None,
        },
    decreases args@.len() - i,
{
    if i >= args.len() {
        return None;
    }
    if arg_is(&args[i], "--") {
        if i + 1 < args.len() {
            return Some(args[i + 1].clone());
        }
        return None;
    }
    let av = str_chars(args[i].as_str());
    if av.len() >= 1 && av[0] == '-' {
        let has_eq = match crate::strings::chars_find(&av, '=') {
            Some(_) => true,
            None => false,
        };
        proof {
            if av@.contains('=') {
                let k = choose|k: int| 0 <= k < av@.len() && av@[k] == '=';
                assert(av@[k] == '=');
            }
        }
        if has_eq {
            return extract_subcommand_from(args, i + 1);
        }
        if option_takes_value(args[i].as_str()) {
            if args.len() - i >= 2 {
                return extract_subcommand_from(args, i + 2);
            }
            return None;
        }
        return extract_subcommand_from(args, i + 1);
    }
    Some(args[i].clone())
}

/// Removes every occurrence of a flag (bare or inline) and reports whether
/// it was switched on.
pub open spec fn spec_take_flag(args: Seq<String>, name: &str, i: int) -> (Seq<String>, bool)
    decreases args.len() - i,
{
    if i < 0 || i >= args.len() {
        (Seq::empty(), false)
    } else {
        let (rest, enabled) = spec_take_flag(args, name, i + 1);
        if args[i]@ == name@ {
            (rest, true)
        } else if has_prefix(args[i]@, name@ + "="@) {
            if spec_falsey(
                lower_seq(args[i]@.subrange((name@ + "="@).len() as int, args[i]@.len() as int)),
            ) {
                (rest, enabled)
            } else {
                (rest, true)
            }
        } else {
            (seq![args[i]] + rest, enabled)
        }
    }
}

pub fn take_flag(args: &Vec<String>, name: &str) -> (r: (Vec<String>, bool))
    ensures
        ({
            let (rest, enabled) = spec_take_flag(args@, name, 0);
            r.0@.len() == rest.len() && (forall|k: int|
                0 <= k < rest.len() ==> (#[trigger] r.0@[k])@ == rest[k]@) && r.1 == enabled
        }),
{
    take_flag_from(args, name, 0)
}

fn take_flag_from(args: &Vec<String>, name: &str, i: usize) -> (r: (Vec<String>, bool))
    requires
        i <= args@.len(),
    ensures
        ({
            let (rest, enabled) = spec_take_flag(args@, name, i as int);
            r.0@.len() == rest.len() && (forall|k: int|
                0 <= k < rest.len() ==> (#[trigger] r.0@[k])@ == rest[k]@) && r.1 == enabled
        }),
    decreases args@.len() - i,
{
    if i >= args.len() {
        let empty: Vec<String> = Vec::new();
        return (empty, false);
    }
    let (tail, enabled) = take_flag_from(args, name, i + 1);
    if arg_is(&args[i], name) {
        return (tail, true);
    }
    let mut p = name.to_owned();
    p.append("=");
    let av = str_chars(args[i].as_str());
    if crate::strings::chars_starts_with(&av, p.as_str()) {
        let rest = crate::strings::chars_slice(&av, p.unicode_len(), av.len());
        let lowered = crate::strings::chars_into_string(crate::strings::chars_lower(&rest));
        if is_falsey(lowered.as_str()) {
            return (tail, enabled);
        }
        return (tail, true);
    }
    let mut out: Vec<String> = Vec::new();
    out.push(args[i].clone());
    let ghost tailv = tail@;
    let mut t = tail;
    out.append(&mut t);
    proof {
        let srest = spec_take_flag(args@, name, i as int).0;
        let trest = spec_take_flag(args@, name, i + 1).0;
        assert(srest == seq![args@[i as int]] + trest);
        assert(out@ =~= seq![out@[0]] + tailv);
        assert(out@.len() == srest.len());
        assert forall|k: int| 0 <= k < srest.len() implies (#[trigger] out@[k])@ == srest[k]@ by {
            if k == 0 {
                assert(out@[0]@ == args@[i as int]@);
                assert(srest[0] == args@[i as int]);
            } else {
                assert(out@[k] == tailv[k - 1]);
                assert(srest[k] == trest[k - 1]);
            }
        }
    }
    (out, enabled)
}

/// The value of the last `-f`/`--file` argument, inline or separate.
pub open spec fn spec_compose_file_arg(args: Seq<String>, i: int) -> Option<Seq<char>>
    decreases args.len() - i,
{
    if i < 0 || i >= args.len() {
        None
    } else if args[i]@ == "-f"@ || args[i]@ == "--file"@ {
        if i + 1 < args.len() {
            let later = spec_compose_file_arg(args, i + 2);
            if later is Some {
                later
            } else {
                Some(args[i + 1]@)
            }
        } else {
            spec_compose_file_arg(args, i + 1)
        }
    } else if has_prefix(args[i]@, "--file="@) {
        let later = spec_compose_file_arg(args, i + 1);
        if later is Some {
            later
        } else {
            Some(args[i]@.subrange("--file="@.len() as int, args[i]@.len() as int))
        }
    } else if has_prefix(args[i]@, "-f="@) {
        let later = spec_compose_file_arg(args, i + 1);
        if later is Some {
            later
        } else {
            Some(args[i]@.subrange("-f="@.len() as int, args[i]@.len() as int))
        }
    } else {
        spec_compose_file_arg(args, i + 1)
    }
}

pub fn extract_compose_file_arg(args: &Vec<String>) -> (r: Option<String>)
    ensures
        match r {
            Some(s) => spec_compose_file_arg(args@, 0) == Some(s@),
            None => spec_compose_file_arg(args@, 0) is None,
        },
{
    extract_compose_file_arg_from(args, 0)
}

fn extract_compose_file_arg_from(args: &Vec<String>, i: usize) -> (r: Option<String>)
    requires
        i <= args@.len(),
    ensures
        match r {
            Some(s) => spec_compose_file_arg(args@, i as int) == Some(s@),
            None => spec_compose_file_arg(args@, i as int) is None,
        },
    decreases args@.len() - i,
{
    if i >= args.len() {
        return None;
    }
    if arg_is(&args[i], "-f") || arg_is(&args[i], "--file") {
        if i + 1 < args.len() {
            let later = extract_compose_file_arg_from(args, i + 2);
            if later.is_some() {
                return later;
            }
            return Some(args[i + 1].clone());
        }
        return extract_compose_file_arg_from(args, i + 1);
    }
    match arg_prefix(&args[i], "--file=") {
        Some(rest) => {
            let later = extract_compose_file_arg_from(args, i + 1);
            if later.is_some() {
                return later;
            }
            return Some(rest);
        },
        None => {},
    }
    match arg_prefix(&args[i], "-f=") {
        Some(rest) => {
            let later = extract_compose_file_arg_from(args, i + 1);
            if later.is_some() {
                return later;
            }
            return Some(rest);
        },
        None => {},
    }
    extract_compose_file_arg_from(args, i + 1)
}

/// The first non-empty entry of a separator-joined path list.
pub open spec fn spec_first_compose_file(parts: Seq<Seq<char>>, i: int) -> Option<Seq<char>>
    decreases parts.len() - i,
{
    if i < 0 || i >= parts.len() {
        None
    } else if trim_seq(parts[i]).len() > 0 {
        Some(trim_seq(parts[i]))
    } else {
        spec_first_compose_file(parts, i + 1)
    }
}

/// Picks the first non-empty, trimmed entry of a `:`-separated file list.
pub fn first_compose_file(value: &str) -> (r: Option<String>)
    ensures
        match r {
            Some(s) => exists|parts: Seq<Seq<char>>|
                crate::strings::split_parts_ok(value@, ':', parts) && #[trigger] spec_first_compose_file(
                    parts,
                    0,
                ) == Some(s@),
            None => exists|parts: Seq<Seq<char>>|
                crate::strings::split_parts_ok(value@, ':', parts) && #[trigger] spec_first_compose_file(
                    parts,
                    0,
                ) is None,
        },
{
    let vv = str_chars(value);
    let parts = crate::strings::chars_split(&vv, ':');
    let ghost pv = choose|p: Seq<Seq<char>>|
        #[trigger] crate::strings::split_parts_ok(vv@, ':', p) && p.len() == parts@.len() && forall|
            k: int,
        | 0 <= k < parts@.len() ==> p[k] == (#[trigger] parts@[k])@;
    let mut i: usize = 0;
    while i < parts.len()
        invariant
            i <= parts@.len(),
            crate::strings::split_parts_ok(vv@, ':', pv),
            vv@ == value@,
            pv.len() == parts@.len(),
            forall|k: int| 0 <= k < parts@.len() ==> pv[k] == (#[trigger] parts@[k])@,
            spec_first_compose_file(pv, 0) == spec_first_compose_file(pv, i as int),
        decreases parts@.len() - i,
    {
        let t = chars_trim(&parts[i]);
        proof {
            assert(pv[i as int] == parts@[i as int]@);
        }
        if t.len() > 0 {
            let out = crate::strings::chars_into_string(t);
            proof {
                assert(crate::strings::split_parts_ok(value@, ':', pv)
                    && spec_first_compose_file(pv, 0) == Some(out@));
            }
            return Some(out);
        }
        i = i + 1;
    }
    proof {
        assert(crate::strings::split_parts_ok(value@, ':', pv) && spec_first_compose_file(
            pv,
            0,
        ) is None);
    }
    None
}

/// Appends `new_arg` right after the first occurrence of `token`, or at the
/// end when `token` does not occur.
pub open spec fn spec_insert_after(
    args: Seq<String>,
    token: Seq<char>,
    new_arg: Seq<char>,
) -> Seq<Seq<char>> {
    let views = args.map_values(|s: String| s@);
    match first_eq(views, token, 0) {
        Some(i) => views.insert(i + 1, new_arg),
        None => views.push(new_arg),
    }
}

pub open spec fn first_eq(views: Seq<Seq<char>>, token: Seq<char>, i: int) -> Option<int>
    decreases views.len() - i,
{
    if i < 0 || i >= views.len() {
        None
    } else if views[i] == token {
        Some(i)
    } else {
        first_eq(views, token, i + 1)
    }
}

pub fn insert_after(args: &Vec<String>, token: &str, new_arg: &str) -> (r: Vec<String>)
    ensures
        r@.map_values(|s: String| s@) == spec_insert_after(args@, token@, new_arg@),
{
    let ghost views = args@.map_values(|s: String| s@);
    let mut out: Vec<String> = Vec::new();
    let mut inserted: bool = false;
    let mut i: usize = 0;
    while i < args.len()
        invariant
            i <= args@.len(),
            views == args@.map_values(|s: String| s@),
            !inserted ==> out@.map_values(|s: String| s@) =~= views.subrange(0, i as int)
                && first_eq(views, token@, 0) == first_eq(views, token@, i as int),
            inserted ==> exists|k: int|
                0 <= k < i && first_eq(views, token@, 0) == Some(k)
                    && out@.map_values(|s: String| s@) =~= views.subrange(0, i as int).insert(
                    k + 1,
                    new_arg@,
                ),
        decreases args@.len() - i,
    {
        let ghost outv0 = out@.map_values(|s: String| s@);
        out.push(args[i].clone());
        proof {
            assert(out@.map_values(|s: String| s@) =~= outv0.push(args@[i as int]@));
            assert(views[i as int] == args@[i as int]@);
        }
        if !inserted && arg_is(&args[i], token) {
            let ghost outv1 = out@.map_values(|s: String| s@);
            out.push(new_arg.to_owned());
            inserted = true;
            proof {
                assert(out@.map_values(|s: String| s@) =~= outv1.push(new_arg@));
                assert(first_eq(views, token@, i as int) == Some(i as int));
                assert(out@.map_values(|s: String| s@) =~= views.subrange(0, i + 1).insert(
                    i + 1,
                    new_arg@,
                ));
            }
        } else {
            proof {
                if !inserted {
                    assert(out@.map_values(|s: String| s@) =~= views.subrange(0, i + 1));
                } else {
                    let k = choose|k: int|
                        0 <= k < i && first_eq(views, token@, 0) == Some(k) && outv0
                            =~= views.subrange(0, i as int).insert(k + 1, new_arg@);
                    assert(out@.map_values(|s: String| s@) =~= views.subrange(0, i + 1).insert(
                        k + 1,
                        new_arg@,
                    ));
                }
            }
        }
        i = i + 1;
    }
    if !inserted {
        let ghost outv = out@.map_values(|s: String| s@);
        out.push(new_arg.to_owned());
        proof {
            assert(views.subrange(0, views.len() as int) =~= views);
            assert(out@.map_values(|s: String| s@) =~= views.push(new_arg@));
        }
    } else {
        proof {
            assert(views.subrange(0, views.len() as int) =~= views);
            let k = choose|k: int|
                0 <= k < args@.len() && first_eq(views, token@, 0) == Some(k) && out@.map_values(
                    |s: String| s@,
                ) =~= views.subrange(0, views.len() as int).insert(k + 1, new_arg@);
            assert(out@.map_values(|s: String| s@) =~= views.insert(k + 1, new_arg@));
        }
    }
    out
}

/// Sanitized project names hold only lower-case ASCII letters, digits, `_`
/// and `-`, with no such separator at either end.
pub open spec fn sanitize_char(c: char) -> char {
    if ('a' <= c && c <= 'z') || ('0' <= c && c <= '9') || c == '_' || c == '-' {
        c
    } else if 'A' <= c && c <= 'Z' {
        crate::strings::lower_char(c)
    } else {
        '_'
    }
}

pub open spec fn spec_sanitized(s: Seq<char>) -> Seq<char> {
    crate::ports::strip_matches(
        crate::ports::strip_matches(s.map_values(|c: char| sanitize_char(c)), '_'),
        '-',
    )
}

/// Lowercases and replaces foreign characters, then trims `_` and `-` from
/// the ends; an empty result falls back to the default project name.
pub fn sanitize_project_name(name: &str) -> (r: String)
    ensures
        r@ == if spec_sanitized(name@).len() == 0 {
            spec_default_project()
        } else {
            spec_sanitized(name@)
        },
{
    let nv = str_chars(name);
    let mut mapped: Vec<char> = Vec::new();
    let mut i: usize = 0;
    while i < nv.len()
        invariant
            i <= nv@.len(),
            mapped@.len() == i,
            forall|j: int| 0 <= j < i ==> mapped@[j] == sanitize_char(nv@[j]),
        decreases nv@.len() - i,
    {
        let c = nv[i];
        if ('a' <= c && c <= 'z') || ('0' <= c && c <= '9') || c == '_' || c == '-' {
            mapped.push(c);
        } else if 'A' <= c && c <= 'Z' {
            let b: u8 = (c as u8) + 32;
            mapped.push(b as char);
        } else {
            mapped.push('_');
        }
        i = i + 1;
    }
    proof {
        assert(mapped@ =~= nv@.map_values(|c: char| sanitize_char(c)));
    }
    let t1 = crate::ports::chars_strip_matches(&mapped, '_');
    let t2 = crate::ports::chars_strip_matches(&t1, '-');
    if t2.len() == 0 {
        "compose".to_owned()
    } else {
        crate::strings::chars_into_string(t2)
    }
}

/// Derives the project name from the compose file's parent directory name,
/// falling back to the working directory's name, then to the default.
pub fn derive_project_name(parent_name: Option<&String>, cwd_name: Option<&String>) -> (r: String)
    ensures
        ({
            let base = match parent_name {
                Some(p) => if p@.len() > 0 {
                    Some(p@)
                } else {
                    match cwd_name {
                        Some(c) => Some(c@),
                        None => None,
                    }
                },
                None => match cwd_name {
                    Some(c) => Some(c@),
                    None => None,
                },
            };
            match base {
                Some(b) => r@ == if spec_sanitized(b).len() == 0 {
                    spec_default_project()
                } else {
                    spec_sanitized(b)
                },
                None => r@ == if spec_sanitized(spec_default_project()).len() == 0 {
                    spec_default_project()
                } else {
                    spec_sanitized(spec_default_project())
                },
            }
        }),
{
    let base: &String = match parent_name {
        Some(p) => if p.unicode_len() > 0 {
            p
        } else {
            match cwd_name {
                Some(c) => c,
                None => {
                    let d = "compose".to_owned();
                    return sanitize_project_name(d.as_str());
                },
            }
        },
        None => match cwd_name {
            Some(c) => c,
            None => {
                let d = "compose".to_owned();
                return sanitize_project_name(d.as_str());
            },
        },
    };
    sanitize_project_name(base.as_str())
}

/// Strips the `--engine` flag (and its value) out of the arguments and
/// reports the chosen engine; a bad value is an error.
pub open spec fn spec_engine_arg(args: Seq<String>, i: int) -> Result<
    (Seq<Seq<char>>, Option<EngineKind>),
    (),
>
    decreases args.len() - i,
{
    if i < 0 || i >= args.len() {
        Ok((Seq::empty(), None))
    } else if args[i]@ == "--"@ {
        Ok((args.subrange(i, args.len() as int).map_values(|s: String| s@), None))
    } else if args[i]@ == "--engine"@ {
        if i + 1 < args.len() {
            let v = lower_seq(args[i + 1]@);
            if v == "podman"@ || v == "docker"@ {
                match spec_engine_arg(args, i + 2) {
                    Ok((rest, later)) => Ok(
                        (
                            rest,
                            if later is Some {
                                later
                            } else {
                                Some(
                                    if v == "podman"@ {
                                        EngineKind::Podman
                                    } else {
                                        EngineKind::Docker
                                    },
                                )
                            },
                        ),
                    ),
                    Err(e) => Err(e),
                }
            } else {
                Err(())
            }
        } else {
            Err(())
        }
    } else if has_prefix(args[i]@, "--engine="@) {
        let v = lower_seq(args[i]@.subrange("--engine="@.len() as int, args[i]@.len() as int));
        if v == "podman"@ || v == "docker"@ {
            match spec_engine_arg(args, i + 1) {
                Ok((rest, later)) => Ok(
                    (
                        rest,
                        if later is Some {
                            later
                        } else {
                            Some(
                                if v == "podman"@ {
                                    EngineKind::Podman
                                } else {
                                    EngineKind::Docker
                                },
                            )
                        },
                    ),
                ),
                Err(e) => Err(e),
            }
        } else {
            Err(())
        }
    } else {
        match spec_engine_arg(args, i + 1) {
            Ok((rest, sel)) => Ok((seq![args[i]@] + rest, sel)),
            Err(e) => Err(e),
        }
    }
}

pub fn extract_engine_arg(args: &Vec<String>) -> (r: Result<
    (Vec<String>, Option<EngineKind>),
    String,
>)
    ensures
        match r {
            Ok((rest, sel)) => spec_engine_arg(args@, 0) matches Ok(sp) && rest@.map_values(
                |s: String| s@,
            ) == sp.0 && sel == sp.1,
            Err(_) => spec_engine_arg(args@, 0) is Err,
        },
{
    extract_engine_arg_from(args, 0)
}

/// One selection made later in the list wins over an earlier one, as the
/// specification folds the later result through.
fn extract_engine_arg_from(args: &Vec<String>, i: usize) -> (r: Result<
    (Vec<String>, Option<EngineKind>),
    String,
>)
    requires
        i <= args@.len(),
    ensures
        match r {
            Ok((rest, sel)) => spec_engine_arg(args@, i as int) matches Ok(sp) && rest@.map_values(
                |s: String| s@,
            ) == sp.0 && sel == sp.1,
            Err(_) => spec_engine_arg(args@, i as int) is Err,
        },
    decreases args@.len() - i,
{
    if i >= args.len() {
        let empty: Vec<String> = Vec::new();
        proof {
            assert(empty@.map_values(|s: String| s@) =~= Seq::<Seq<char>>::empty());
        }
        return Ok((empty, None));
    }
    if arg_is(&args[i], "--") {
        let mut rest: Vec<String> = Vec::new();
        let mut j: usize = i;
        while j < args.len()
            invariant
                i <= j <= args@.len(),
                rest@.len() == j - i,
                forall|k: int| 0 <= k < rest@.len() ==> (#[trigger] rest@[k])@ == args@[i + k]@,
            decreases args@.len() - j,
        {
            rest.push(args[j].clone());
            j = j + 1;
        }
        proof {
            assert(rest@.map_values(|s: String| s@) =~= args@.subrange(
                i as int,
                args@.len() as int,
            ).map_values(|s: String| s@));
        }
        return Ok((rest, None));
    }
    if arg_is(&args[i], "--engine") {
        if i + 1 < args.len() {
            match parse_engine_kind(Some(&args[i + 1])) {
                Ok(kind) => {
                    match extract_engine_arg_from(args, i + 2) {
                        Ok((rest, later)) => {
                            let sel = match later {
                                Some(l) => Some(l),
                                None => Some(kind),
                            };
                            return Ok((rest, sel));
                        },
                        Err(e) => {
                            return Err(e);
                        },
                    }
                },
                Err(e) => {
                    return Err(e);
                },
            }
        }
        return Err("--engine requires a value of 'podman' or 'docker'.".to_owned());
    }
    match arg_prefix(&args[i], "--engine=") {
        Some(value) => {
            match parse_engine_kind(Some(&value)) {
                Ok(kind) => {
                    match extract_engine_arg_from(args, i + 1) {
                        Ok((rest, later)) => {
                            let sel = match later {
                                Some(l) => Some(l),
                                None => Some(kind),
                            };
                            return Ok((rest, sel));
                        },
                        Err(e) => {
                            return Err(e);
                        },
                    }
                },
                Err(e) => {
                    return Err(e);
                },
            }
        },
        None => {},
    }
    match extract_engine_arg_from(args, i + 1) {
        Ok((rest, sel)) => {
            let mut out: Vec<String> = Vec::new();
            out.push(args[i].clone());
            let ghost restv = rest@;
            let mut t = rest;
            out.append(&mut t);
            proof {
                let sp = spec_engine_arg(args@, i as int)->Ok_0;
                let tp = spec_engine_arg(args@, i + 1)->Ok_0;
                assert(sp.0 == seq![args@[i as int]@] + tp.0);
                assert(out@ =~= seq![out@[0]] + restv);
                assert forall|k: int| 0 <= k < out@.len() implies (#[trigger] out@[k])@
                    == sp.0[k] by {
                    if k > 0 {
                        assert(out@[k] == restv[k - 1]);
                        assert(restv.map_values(|s: String| s@)[k - 1] == tp.0[k - 1]);
                    }
                }
                assert(out@.map_values(|s: String| s@) =~= sp.0);
            }
            Ok((out, sel))
        },
        Err(e) => Err(e),
    }
}

/// Strips the traffic toggles out of the arguments: `--traffic`, its alias
/// `--comms`, `--no-traffic`, and inline `--traffic=<bool>`; the last
/// occurrence wins.
pub open spec fn spec_traffic_arg(args: Seq<String>, i: int) -> (Seq<Seq<char>>, Option<bool>)
    decreases args.len() - i,
{
    if i < 0 || i >= args.len() {
        (Seq::empty(), None)
    } else {
        let (rest, later) = spec_traffic_arg(args, i + 1);
        if args[i]@ == "--traffic"@ || args[i]@ == "--comms"@ {
            (
                rest,
                if later is Some {
                    later
                } else {
                    Some(true)
                },
            )
        } else if args[i]@ == "--no-traffic"@ {
            (
                rest,
                if later is Some {
                    later
                } else {
                    Some(false)
                },
            )
        } else if has_prefix(args[i]@, "--traffic="@) {
            let v = lower_seq(args[i]@.subrange("--traffic="@.len() as int, args[i]@.len() as int));
            (
                rest,
                if later is Some {
                    later
                } else {
                    Some(!spec_falsey(v))
                },
            )
        } else {
            (seq![args[i]@] + rest, later)
        }
    }
}

pub fn extract_traffic_arg(args: &Vec<String>) -> (r: (Vec<String>, Option<bool>))
    ensures
        ({
            let (rest, sel) = spec_traffic_arg(args@, 0);
            r.0@.map_values(|s: String| s@) == rest && r.1 == sel
        }),
{
    extract_traffic_arg_from(args, 0)
}

fn extract_traffic_arg_from(args: &Vec<String>, i: usize) -> (r: (Vec<String>, Option<bool>))
    requires
        i <= args@.len(),
    ensures
        ({
            let (rest, sel) = spec_traffic_arg(args@, i as int);
            r.0@.map_values(|s: String| s@) == rest && r.1 == sel
        }),
    decreases args@.len() - i,
{
    if i >= args.len() {
        let empty: Vec<String> = Vec::new();
        proof {
            assert(empty@.map_values(|s: String| s@) =~= Seq::<Seq<char>>::empty());
        }
        return (empty, None);
    }
    let (tail, later) = extract_traffic_arg_from(args, i + 1);
    if arg_is(&args[i], "--traffic") || arg_is(&args[i], "--comms") {
        return (
            tail,
            if later.is_some() {
                later
            } else {
                Some(true)
            },
        );
    }
    if arg_is(&args[i], "--no-traffic") {
        return (
            tail,
            if later.is_some() {
                later
            } else {
                Some(false)
            },
        );
    }
    match arg_prefix(&args[i], "--traffic=") {
        Some(value) => {
            let vv = str_chars(value.as_str());
            let lowered = crate::strings::chars_into_string(crate::strings::chars_lower(&vv));
            let on = !is_falsey(lowered.as_str());
            return (
                tail,
                if later.is_some() {
                    later
                } else {
                    Some(on)
                },
            );
        },
        None => {},
    }
    let mut out: Vec<String> = Vec::new();
    out.push(args[i].clone());
    let ghost tailv = tail@;
    let mut t = tail;
    out.append(&mut t);
    proof {
        let sp = spec_traffic_arg(args@, i as int).0;
        let tp = spec_traffic_arg(args@, i + 1).0;
        assert(sp == seq![args@[i as int]@] + tp);
        assert(out@ =~= seq![out@[0]] + tailv);
        assert forall|k: int| 0 <= k < out@.len() implies (#[trigger] out@[k])@ == sp[k] by {
            if k > 0 {
                assert(out@[k] == tailv[k - 1]);
                assert(tailv.map_values(|s: String| s@)[k - 1] == tp[k - 1]);
            }
        }
        assert(out@.map_values(|s: String| s@) =~= sp);
    }
    (out, later)
}

/// The compose-level options (files, profiles, project settings) that must
/// also reach the `config` invocation, with their values.
pub open spec fn spec_global_pair(s: Seq<char>) -> bool {
    s == "-f"@ || s == "--file"@ || s == "--env-file"@ || s == "--project-directory"@ || s
        == "--profile"@ || s == "-p"@ || s == "--project-name"@ || s == "--in-pod"@
}

pub open spec fn spec_global_inline(s: Seq<char>) -> bool {
    has_prefix(s, "--file="@) || has_prefix(s, "-f="@) || has_prefix(s, "--env-file="@)
        || has_prefix(s, "--project-directory="@) || has_prefix(s, "--profile="@) || has_prefix(
        s,
        "--project-name="@,
    ) || has_prefix(s, "--in-pod="@)
}

pub open spec fn spec_global_args(args: Seq<String>, i: int) -> Seq<Seq<char>>
    decreases args.len() - i,
{
    if i < 0 || i >= args.len() {
        Seq::empty()
    } else if args[i]@ == "--"@ {
        Seq::empty()
    } else if spec_global_pair(args[i]@) {
        if i + 1 < args.len() {
            seq![args[i]@, args[i + 1]@] + (if i + 2 <= args.len() {
                spec_global_args(args, i + 2)
            } else {
                Seq::empty()
            })
        } else {
            Seq::empty()
        }
    } else if spec_global_inline(args[i]@) {
        seq![args[i]@] + spec_global_args(args, i + 1)
    } else {
        spec_global_args(args, i + 1)
    }
}

pub fn extract_compose_global_args(args: &Vec<String>) -> (r: Vec<String>)
    ensures
        r@.map_values(|s: String| s@) == spec_global_args(args@, 0),
{
    let mut out: Vec<String> = Vec::new();
    extract_global_from(args, 0, &mut out);
    proof {
        assert(out@.map_values(|s: String| s@) =~= Seq::<Seq<char>>::empty() + spec_global_args(
            args@,
            0,
        ));
    }
    out
}

fn extract_global_from(args: &Vec<String>, i: usize, out: &mut Vec<String>)
    requires
        i <= args@.len(),
    ensures
        final(out)@.map_values(|s: String| s@) == old(out)@.map_values(|s: String| s@)
            + spec_global_args(args@, i as int),
    decreases args@.len() - i,
{
    if i >= args.len() {
        proof {
            assert(out@.map_values(|s: String| s@) =~= out@.map_values(|s: String| s@)
                + spec_global_args(args@, i as int));
        }
        return;
    }
    if arg_is(&args[i], "--") {
        proof {
            assert(out@.map_values(|s: String| s@) =~= out@.map_values(|s: String| s@)
                + spec_global_args(args@, i as int));
        }
        return;
    }
    let pair = option_global_pair(&args[i]);
    if pair {
        if i + 1 < args.len() {
            let ghost before = out@.map_values(|s: String| s@);
            out.push(args[i].clone());
            out.push(args[i + 1].clone());
            proof {
                assert(out@.map_values(|s: String| s@) =~= before + seq![
                    args@[i as int]@,
                    args@[i as int + 1]@,
                ]);
            }
            if args.len() - i >= 2 {
                extract_global_from(args, i + 2, out);
                proof {
                    assert(before + seq![args@[i as int]@, args@[i as int + 1]@]
                        + spec_global_args(args@, i + 2) =~= before + (seq![
                        args@[i as int]@,
                        args@[i as int + 1]@,
                    ] + spec_global_args(args@, i + 2)));
                }
            }
            return;
        }
        proof {
            assert(out@.map_values(|s: String| s@) =~= out@.map_values(|s: String| s@)
                + spec_global_args(args@, i as int));
        }
        return;
    }
    let inline = option_global_inline(&args[i]);
    if inline {
        let ghost before = out@.map_values(|s: String| s@);
        out.push(args[i].clone());
        proof {
            assert(out@.map_values(|s: String| s@) =~= before + seq![args@[i as int]@]);
        }
        extract_global_from(args, i + 1, out);
        proof {
            assert(before + seq![args@[i as int]@] + spec_global_args(args@, i + 1) =~= before + (
            seq![args@[i as int]@] + spec_global_args(args@, i + 1)));
        }
        return;
    }
    extract_global_from(args, i + 1, out);
}

fn option_global_pair(a: &String) -> (r: bool)
    ensures
        r == spec_global_pair(a@),
{
    arg_is(a, "-f") || arg_is(a, "--file") || arg_is(a, "--env-file") || arg_is(
        a,
        "--project-directory",
    ) || arg_is(a, "--profile") || arg_is(a, "-p") || arg_is(a, "--project-name") || arg_is(
        a,
        "--in-pod",
    )
}

fn option_global_inline(a: &String) -> (r: bool)
    ensures
        r == spec_global_inline(a@),
{
    arg_prefix(a, "--file=").is_some() || arg_prefix(a, "-f=").is_some() || arg_prefix(
        a,
        "--env-file=",
    ).is_some() || arg_prefix(a, "--project-directory=").is_some() || arg_prefix(
        a,
        "--profile=",
    ).is_some() || arg_prefix(a, "--project-name=").is_some() || arg_prefix(
        a,
        "--in-pod=",
    ).is_some()
}

/// Removes every `-f`/`--file` option (and its value) from the arguments.
pub open spec fn spec_strip_files(args: Seq<String>, i: int) -> Seq<Seq<char>>
    decreases args.len() - i,
{
    if i < 0 || i >= args.len() {
        Seq::empty()
    } else if args[i]@ == "-f"@ || args[i]@ == "--file"@ {
        if i + 2 <= args.len() {
            spec_strip_files(args, i + 2)
        } else {
            Seq::empty()
        }
    } else if has_prefix(args[i]@, "--file="@) || has_prefix(args[i]@, "-f="@) {
        spec_strip_files(args, i + 1)
    } else {
        seq![args[i]@] + spec_strip_files(args, i + 1)
    }
}

pub fn strip_compose_file_args(args: &Vec<String>) -> (r: Vec<String>)
    ensures
        r@.map_values(|s: String| s@) == spec_strip_files(args@, 0),
{
    let mut out: Vec<String> = Vec::new();
    strip_files_from(args, 0, &mut out);
    proof {
        assert(out@.map_values(|s: String| s@) =~= Seq::<Seq<char>>::empty() + spec_strip_files(
            args@,
            0,
        ));
    }
    out
}

fn strip_files_from(args: &Vec<String>, i: usize, out: &mut Vec<String>)
    requires
        i <= args@.len(),
    ensures
        final(out)@.map_values(|s: String| s@) == old(out)@.map_values(|s: String| s@)
            + spec_strip_files(args@, i as int),
    decreases args@.len() - i,
{
    if i >= args.len() {
        proof {
            assert(out@.map_values(|s: String| s@) =~= out@.map_values(|s: String| s@)
                + spec_strip_files(args@, i as int));
        }
        return;
    }
    if arg_is(&args[i], "-f") || arg_is(&args[i], "--file") {
        if args.len() - i >= 2 {
            strip_files_from(args, i + 2, out);
        } else {
            proof {
                assert(out@.map_values(|s: String| s@) =~= out@.map_values(|s: String| s@)
                    + spec_strip_files(args@, i as int));
            }
        }
        return;
    }
    if arg_prefix(&args[i], "--file=").is_some() || arg_prefix(&args[i], "-f=").is_some() {
        strip_files_from(args, i + 1, out);
        return;
    }
    let ghost before = out@.map_values(|s: String| s@);
    out.push(args[i].clone());
    proof {
        assert(out@.map_values(|s: String| s@) =~= before + seq![args@[i as int]@]);
    }
    strip_files_from(args, i + 1, out);
    proof {
        assert(before + seq![args@[i as int]@] + spec_strip_files(args@, i + 1) =~= before + (seq![
            args@[i as int]@,
        ] + spec_strip_files(args@, i + 1)));
    }
}

/// Parses the `--engine` value.
pub fn parse_engine_kind(value: Option<&String>) -> (r: Result<EngineKind, String>)
    ensures
        match r {
            Ok(k) => value matches Some(s) && (k == EngineKind::Podman <==> lower_seq(s@)
                == "podman"@) && (k == EngineKind::Docker <==> lower_seq(s@) == "docker"@),
            Err(_) => match value {
                Some(s) => lower_seq(s@) != "podman"@ && lower_seq(s@) != "docker"@,
                None => true,
            },
        },
{
    proof {
        assert("podman"@ != "docker"@) by {
            reveal_strlit("podman");
            reveal_strlit("docker");
            assert("podman"@[0] == 'p');
            assert("docker"@[0] == 'd');
        }
    }
    match value {
        Some(raw) => {
            let rv = str_chars(raw.as_str());
            let lowered = crate::strings::chars_into_string(crate::strings::chars_lower(&rv));
            if crate::strings::str_eq(lowered.as_str(), "podman") {
                Ok(EngineKind::Podman)
            } else if crate::strings::str_eq(lowered.as_str(), "docker") {
                Ok(EngineKind::Docker)
            } else {
                let mut msg = "Unsupported engine '".to_owned();
                msg.append(raw.as_str());
                msg.append("'. Use 'podman' or 'docker'.");
                Err(msg)
            }
        },
        None => Err("--engine requires a value of 'podman' or 'docker'.".to_owned()),
    }
}

} // verus!
