//! Path normalization: every relative path-bearing field of the derived
//! document is resolved against the original compose file's directory, so
//! the derived document is location-independent.

use vstd::prelude::*;

use crate::strings::{chars_slice, contains_seq, lower_seq, str_chars, trim_seq};

verus! {

/// A path is absolute when it starts with `/`.
pub open spec fn is_abs(s: Seq<char>) -> bool {
    s.len() >= 1 && s[0] == '/'
}

/// The resolution of `p` against `base`: `p` itself when absolute, else
/// `base` and `p` joined with exactly one separator.
pub open spec fn joined(base: Seq<char>, p: Seq<char>) -> Seq<char> {
    if is_abs(p) {
        p
    } else if base.len() >= 1 && base.last() == '/' {
        base + p
    } else {
        base + "/"@ + p
    }
}

/// Joins a path onto a base directory.
pub fn join_path(base: &str, p: &Vec<char>) -> (r: String)
    ensures
        r@ == joined(base@, p@),
        is_abs(base@) ==> is_abs(r@),
{
    let pv = chars_string_local(p);
    if p.len() > 0 && p[0] == '/' {
        proof {
            reveal_strlit("/");
        }
        return pv;
    }
    let bv = str_chars(base);
    let mut out = base.to_owned();
    if !(bv.len() > 0 && bv[bv.len() - 1] == '/') {
        out.append("/");
    }
    out.append(pv.as_str());
    proof {
        reveal_strlit("/");
        if is_abs(base@) {
            assert(out@[0] == base@[0]);
        }
    }
    out
}

fn chars_string_local(v: &Vec<char>) -> (s: String)
    ensures
        s@ == v@,
{
    crate::strings::chars_string(v)
}

/// Looks like a filesystem path rather than a named volume: `.`/`..`, or
/// holds a separator, or starts with `~`.
pub open spec fn spec_probably_path(s: Seq<char>) -> bool {
    s == "."@ || s == ".."@ || (s.len() >= 2 && s.subrange(0, 2) == "./"@) || (s.len() >= 3
        && s.subrange(0, 3) == "../"@) || (s.len() >= 1 && s[0] == '/') || (s.len() >= 1 && s[0]
        == '~') || s.contains('/') || s.contains('\\')
}

pub fn is_probably_path(v: &Vec<char>) -> (r: bool)
    ensures
        r == spec_probably_path(v@),
{
    proof {
        reveal_strlit(".");
        reveal_strlit("..");
        reveal_strlit("./");
        reveal_strlit("../");
    }
    if crate::strings::chars_eq_str(v, ".") || crate::strings::chars_eq_str(v, "..") {
        return true;
    }
    if v.len() >= 1 && (v[0] == '/' || v[0] == '~') {
        return true;
    }
    if crate::strings::chars_starts_with(v, "./") || crate::strings::chars_starts_with(v, "../") {
        return true;
    }
    let slash = match crate::strings::chars_find(v, '/') {
        Some(_) => true,
        None => false,
    };
    let back = match crate::strings::chars_find(v, '\\') {
        Some(_) => true,
        None => false,
    };
    proof {
        if v@.contains('/') {
            let i = choose|i: int| 0 <= i < v@.len() && v@[i] == '/';
            assert(v@[i] == '/');
        }
        if v@.contains('\\') {
            let i = choose|i: int| 0 <= i < v@.len() && v@[i] == '\\';
            assert(v@[i] == '\\');
        }
    }
    slash || back
}

/// Looks like a URI (`scheme://...`) or a git SSH remote, which path
/// rewriting must leave alone.
pub open spec fn spec_uri_like(s: Seq<char>) -> bool {
    contains_seq(lower_seq(s), "://"@) || (s.len() >= 4 && lower_seq(s).subrange(0, 4) == "git@"@)
}

pub fn is_uri_like(v: &Vec<char>) -> (r: bool)
    ensures
        r == spec_uri_like(v@),
{
    proof {
        reveal_strlit("git@");
    }
    let lower = crate::strings::chars_lower(v);
    if crate::strings::chars_contains(&lower, "://") {
        return true;
    }
    crate::strings::chars_starts_with(&lower, "git@")
}

/// What kind of field a path stands in; named volumes and unknown kinds are
/// rewritten only when they plainly look like paths.
#[derive(Clone, Copy, Debug, PartialEq, Eq, Structural)]
pub enum PathKind {
    Dir,
    File,
    Volume,
    Unknown,
}

/// `~/rest` expanded against a home directory, when one is known.
pub open spec fn spec_tilde(s: Seq<char>, home: Option<Seq<char>>) -> Seq<char> {
    if s.len() >= 2 && s.subrange(0, 2) == "~/"@ && home is Some {
        home->Some_0 + "/"@ + s.subrange(2, s.len() as int)
    } else {
        s
    }
}

pub fn expand_tilde(v: &Vec<char>, home: Option<&String>) -> (r: Vec<char>)
    ensures
        r@ == spec_tilde(v@, match home {
            Some(h) => Some(h@),
            None => None,
        }),
{
    proof {
        reveal_strlit("~/");
    }
    if crate::strings::chars_starts_with(v, "~/") {
        match home {
            Some(h) => {
                let mut out = str_chars(h.as_str());
                out.push('/');
                let mut rest = chars_slice(v, 2, v.len());
                out.append(&mut rest);
                proof {
                    reveal_strlit("/");
                    assert(out@ =~= h@ + "/"@ + v@.subrange(2, v@.len() as int));
                }
                out
            },
            None => chars_slice(v, 0, v.len()),
        }
    } else {
        chars_slice(v, 0, v.len())
    }
}

/// The rewrite of one path-bearing value: `None` when the value must stay
/// (absolute already, URI-like, has variables without a known default, or a
/// plain volume name), `Some(abs)` with the value resolved against `base`.
pub open spec fn rewritten_plain(
    s: Seq<char>,
    base: Seq<char>,
    kind: PathKind,
    home: Option<Seq<char>>,
) -> Option<Seq<char>> {
    if spec_uri_like(s) || is_abs(s) {
        None
    } else if (kind == PathKind::Volume || kind == PathKind::Unknown) && !spec_probably_path(s) {
        None
    } else {
        Some(joined(base, spec_tilde(s, home)))
    }
}

/// Rewrites a variable-free path value against `base`. Values that hold
/// `$` are handled by `rewrite_default_expr` instead.
pub fn rewrite_plain_path(
    v: &Vec<char>,
    base: &str,
    kind: PathKind,
    home: Option<&String>,
) -> (r: Option<String>)
    requires
        is_abs(base@),
    ensures
        match r {
            Some(s) => rewritten_plain(v@, base@, kind, match home {
                Some(h) => Some(h@),
                None => None,
            }) == Some(s@) && is_abs(s@),
            None => rewritten_plain(v@, base@, kind, match home {
                Some(h) => Some(h@),
                None => None,
            }) is None,
        },
{
    if is_uri_like(v) {
        return None;
    }
    if v.len() >= 1 && v[0] == '/' {
        proof {
            reveal_strlit("/");
        }
        return None;
    }
    if (matches!(kind, PathKind::Volume) || matches!(kind, PathKind::Unknown))
        && !is_probably_path(v) {
        return None;
    }
    let expanded = expand_tilde(v, home);
    let out = join_path(base, &expanded);
    Some(out)
}

} // verus!
