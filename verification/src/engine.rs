//! The engine adapter: a uniform face over the two container runtimes. The
//! library decides which commands to run and interprets their output; the
//! process spawning itself lives outside the verified core.

use vstd::prelude::*;

use crate::domain::{EngineKind, Scope};
use crate::strings::{chars_trim, has_prefix, str_chars, trim_seq};

verus! {

/// The compose invocation chosen at startup.
pub struct ComposeSelection {
    pub compose_cmd: Vec<String>,
    pub engine: EngineKind,
}

/// What the engine tears down for one project.
pub struct CleanupContext {
    pub compose_cmd: Vec<String>,
    pub compose_file: String,
    pub project_name: String,
    pub project_args: Vec<String>,
}

pub open spec fn views(args: Seq<String>) -> Seq<Seq<char>> {
    args.map_values(|s: String| s@)
}

/// Whether the first word of a compose command names the standalone legacy
/// binaries rather than an integrated `compose` subcommand.
pub open spec fn spec_legacy_cmd(cmd: Seq<String>) -> bool {
    cmd.len() > 0 && (crate::strings::contains_seq(cmd[0]@, "podman-compose"@)
        || crate::strings::contains_seq(cmd[0]@, "docker-compose"@))
}

pub fn is_legacy_compose_cmd(cmd: &Vec<String>) -> (r: bool)
    ensures
        r == spec_legacy_cmd(cmd@),
{
    if cmd.len() == 0 {
        return false;
    }
    let cv = str_chars(cmd[0].as_str());
    crate::strings::chars_contains(&cv, "podman-compose") || crate::strings::chars_contains(
        &cv,
        "docker-compose",
    )
}

pub open spec fn spec_inferred_kind(cmd: Seq<String>) -> EngineKind {
    if cmd.len() > 0 && crate::strings::contains_seq(cmd[0]@, "podman"@) {
        EngineKind::Podman
    } else {
        EngineKind::Docker
    }
}

pub fn infer_engine_kind(cmd: &Vec<String>) -> (r: EngineKind)
    ensures
        r == spec_inferred_kind(cmd@),
{
    if cmd.len() > 0 {
        let cv = str_chars(cmd[0].as_str());
        if crate::strings::chars_contains(&cv, "podman") {
            return EngineKind::Podman;
        }
    }
    EngineKind::Docker
}

pub fn display_engine(kind: EngineKind) -> (r: &'static str)
    ensures
        kind == EngineKind::Podman ==> r@ == "podman"@,
        kind == EngineKind::Docker ==> r@ == "docker"@,
{
    match kind {
        EngineKind::Podman => "podman",
        EngineKind::Docker => "docker",
    }
}

/// The provider a `compose version` probe names between the quotes after
/// the external-provider marker.
pub open spec fn spec_provider_of(stderr: Seq<char>, i: int, q: int) -> Seq<char> {
    stderr.subrange(i, q)
}

/// Extracts the external compose provider a probe announced on stderr: the
/// text between `Executing external compose provider "` and the next quote.
/// The provider marker stands at position `i` of the text.
pub open spec fn marker_at(s: Seq<char>, m: Seq<char>, i: int) -> bool {
    0 <= i && i + m.len() <= s.len() && s.subrange(i, i + m.len()) == m
}

pub fn extract_external_compose_provider(stderr: &str) -> (r: Option<String>)
    ensures
        r is Some <==> exists|i: int|
            marker_at(stderr@, "Executing external compose provider \""@, i),
        match r {
            Some(p) => exists|i: int, q: int|
                0 <= i && i <= q && q <= stderr@.len() && #[trigger] spec_provider_of(
                    stderr@,
                    i,
                    q,
                ) == p@ && (q == stderr@.len() || stderr@[q] == '"') && marker_at(
                    stderr@,
                    "Executing external compose provider \""@,
                    i - "Executing external compose provider \""@.len(),
                ) && (forall|k: int| i <= k < q ==> stderr@[k] != '"'),
            None => true,
        },
{
    let sv = str_chars(stderr);
    let marker = "Executing external compose provider \"";
    let mv = str_chars(marker);
    proof {
        reveal_strlit("Executing external compose provider \"");
        assert(mv@.len() > 0);
    }
    let mut i: usize = 0;
    let n = sv.len();
    let mlen = mv.len();
    while i < n
        invariant
            i <= n,
            n == sv@.len(),
            mlen == mv@.len(),
            mlen > 0,
            sv@ == stderr@,
            mv@ == "Executing external compose provider \""@,
            forall|t: int| 0 <= t < i ==> !marker_at(sv@, mv@, t),
        decreases n - i,
    {
        if n - i >= mlen {
            let mut j: usize = 0;
            let mut all: bool = true;
            while j < mlen
                invariant
                    j <= mlen,
                    i + mlen <= n,
                    n == sv@.len(),
                    mlen == mv@.len(),
                    all <==> (forall|t: int| 0 <= t < j ==> sv@[i + t] == mv@[t]),
                decreases mlen - j,
            {
                if sv[i + j] != mv[j] {
                    all = false;
                }
                j = j + 1;
            }
            if all {
                proof {
                    assert(sv@.subrange(i as int, i + mlen) =~= mv@);
                    assert(marker_at(sv@, mv@, i as int));
                }
                let start = i + mlen;
                let mut q: usize = start;
                while q < n && sv[q] != '"'
                    invariant
                        start <= q <= n,
                        n == sv@.len(),
                        sv@ == stderr@,
                        forall|k: int| start <= k < q ==> sv@[k] != '"',
                    decreases n - q,
                {
                    q = q + 1;
                }
                let body = crate::strings::chars_slice(&sv, start, q);
                let out = crate::strings::chars_into_string(body);
                proof {
                    assert(spec_provider_of(stderr@, start as int, q as int) == out@);
                    assert(marker_at(
                        stderr@,
                        "Executing external compose provider \""@,
                        start - "Executing external compose provider \""@.len(),
                    ));
                }
                return Some(out);
            } else {
                proof {
                    assert(!marker_at(sv@, mv@, i as int)) by {
                        let t = choose|t: int| 0 <= t < mlen && sv@[i + t] != mv@[t];
                        if marker_at(sv@, mv@, i as int) {
                            assert(sv@.subrange(i as int, i + mlen)[t] == mv@[t]);
                        }
                    }
                }
            }
        } else {
            proof {
                assert(!marker_at(sv@, mv@, i as int));
            }
        }
        i = i + 1;
    }
    proof {
        assert forall|t: int| !marker_at(stderr@, "Executing external compose provider \""@, t) by {
            if 0 <= t < n {
                assert(!marker_at(sv@, mv@, t));
            }
        }
    }
    None
}

/// The `--connection` value embedded in a podman compose command.
pub open spec fn spec_connection_of(cmd: Seq<String>, i: int) -> Option<Seq<char>>
    decreases cmd.len() - i,
{
    if i < 0 || i >= cmd.len() {
        None
    } else if cmd[i]@ == "--connection"@ && i + 1 < cmd.len() {
        Some(cmd[i + 1]@)
    } else if has_prefix(cmd[i]@, "--connection="@) {
        Some(cmd[i]@.subrange("--connection="@.len() as int, cmd[i]@.len() as int))
    } else {
        spec_connection_of(cmd, i + 1)
    }
}

pub fn extract_connection(cmd: &Vec<String>) -> (r: Option<String>)
    ensures
        cmd@.len() > 0 && cmd@[0]@ == "podman"@ ==> match r {
            Some(c) => spec_connection_of(cmd@, 0) == Some(c@),
            None => spec_connection_of(cmd@, 0) is None,
        },
        !(cmd@.len() > 0 && cmd@[0]@ == "podman"@) ==> r is None,
{
    if cmd.len() == 0 || !crate::strings::str_eq(cmd[0].as_str(), "podman") {
        return None;
    }
    extract_connection_from(cmd, 0)
}

fn extract_connection_from(cmd: &Vec<String>, i: usize) -> (r: Option<String>)
    requires
        i <= cmd@.len(),
    ensures
        match r {
            Some(c) => spec_connection_of(cmd@, i as int) == Some(c@),
            None => spec_connection_of(cmd@, i as int) is None,
        },
    decreases cmd@.len() - i,
{
    if i >= cmd.len() {
        return None;
    }
    if crate::strings::str_eq(cmd[i].as_str(), "--connection") && i + 1 < cmd.len() {
        return Some(cmd[i + 1].clone());
    }
    let av = str_chars(cmd[i].as_str());
    if crate::strings::chars_starts_with(&av, "--connection=") {
        let plen = "--connection=".unicode_len();
        let rest = crate::strings::chars_slice(&av, plen, av.len());
        return Some(crate::strings::chars_into_string(rest));
    }
    extract_connection_from(cmd, i + 1)
}

/// Strips the project prefix (`<project>_` or `<project>-`) and a trailing
/// first-replica index (`_1` or `-1`) off a container name.
pub open spec fn spec_stripped_suffix(name: Seq<char>, project: Seq<char>) -> Seq<char> {
    let after_underscore = if has_prefix(name, project + "_"@) {
        name.subrange((project + "_"@).len() as int, name.len() as int)
    } else {
        name
    };
    let after_dash = if has_prefix(after_underscore, project + "-"@) {
        after_underscore.subrange((project + "-"@).len() as int, after_underscore.len() as int)
    } else {
        after_underscore
    };
    let after_u1 = if after_dash.len() >= 2 && after_dash.subrange(
        after_dash.len() - 2,
        after_dash.len() as int,
    ) == "_1"@ {
        after_dash.subrange(0, after_dash.len() - 2)
    } else {
        after_dash
    };
    if after_u1.len() >= 2 && after_u1.subrange(after_u1.len() - 2, after_u1.len() as int)
        == "-1"@ {
        after_u1.subrange(0, after_u1.len() - 2)
    } else {
        after_u1
    }
}

pub fn strip_service_suffix(name: &str, project_name: &str) -> (r: String)
    ensures
        r@ == spec_stripped_suffix(name@, project_name@),
{
    proof {
        reveal_strlit("_1");
        reveal_strlit("-1");
    }
    let nv = str_chars(name);
    let mut pu = project_name.to_owned();
    pu.append("_");
    let s1 = if crate::strings::chars_starts_with(&nv, pu.as_str()) {
        crate::strings::chars_slice(&nv, pu.unicode_len(), nv.len())
    } else {
        crate::strings::chars_slice(&nv, 0, nv.len())
    };
    proof {
        if !has_prefix(name@, project_name@ + "_"@) {
            assert(s1@ =~= name@);
        }
    }
    let mut pd = project_name.to_owned();
    pd.append("-");
    let s2 = if crate::strings::chars_starts_with(&s1, pd.as_str()) {
        crate::strings::chars_slice(&s1, pd.unicode_len(), s1.len())
    } else {
        crate::strings::chars_slice(&s1, 0, s1.len())
    };
    proof {
        if !has_prefix(s1@, project_name@ + "-"@) {
            assert(s2@ =~= s1@);
        }
    }
    let s3 = if crate::strings::chars_ends_with(&s2, "_1") {
        crate::strings::chars_slice(&s2, 0, s2.len() - 2)
    } else {
        crate::strings::chars_slice(&s2, 0, s2.len())
    };
    proof {
        reveal_strlit("_1");
        if !(s2@.len() >= 2 && s2@.subrange(s2@.len() - 2, s2@.len() as int) == "_1"@) {
            assert(s3@ =~= s2@);
        }
    }
    let s4 = if crate::strings::chars_ends_with(&s3, "-1") {
        crate::strings::chars_slice(&s3, 0, s3.len() - 2)
    } else {
        crate::strings::chars_slice(&s3, 0, s3.len())
    };
    proof {
        reveal_strlit("-1");
        if !(s3@.len() >= 2 && s3@.subrange(s3@.len() - 2, s3@.len() as int) == "-1"@) {
            assert(s4@ =~= s3@);
        }
    }
    crate::strings::chars_into_string(s4)
}

/// Splits subprocess output into trimmed, non-empty lines: the form every
/// id-listing engine command is read in.
pub open spec fn spec_id_lines(lines: Seq<Seq<char>>, i: int) -> Seq<Seq<char>>
    decreases lines.len() - i,
{
    if i < 0 || i >= lines.len() {
        Seq::empty()
    } else if trim_seq(lines[i]).len() > 0 {
        seq![trim_seq(lines[i])] + spec_id_lines(lines, i + 1)
    } else {
        spec_id_lines(lines, i + 1)
    }
}

/// Parses the stdout of an id query: one container id per line, trimmed,
/// empties dropped.
pub fn parse_id_lines(output: &str) -> (r: Vec<String>)
    ensures
        exists|lines: Seq<Seq<char>>|
            #[trigger] crate::strings::split_parts_ok(output@, '\n', lines)
                && r@.map_values(|s: String| s@) == spec_id_lines(lines, 0),
{
    let ov = str_chars(output);
    let parts = crate::strings::chars_split(&ov, '\n');
    let ghost pv = choose|p: Seq<Seq<char>>|
        #[trigger] crate::strings::split_parts_ok(ov@, '\n', p) && p.len() == parts@.len() && forall|
            k: int,
        | 0 <= k < parts@.len() ==> p[k] == (#[trigger] parts@[k])@;
    let mut out: Vec<String> = Vec::new();
    let mut i: usize = 0;
    while i < parts.len()
        invariant
            i <= parts@.len(),
            pv.len() == parts@.len(),
            forall|k: int| 0 <= k < parts@.len() ==> pv[k] == (#[trigger] parts@[k])@,
            crate::strings::split_parts_ok(ov@, '\n', pv),
            ov@ == output@,
            out@.map_values(|s: String| s@) + spec_id_lines(pv, i as int) == spec_id_lines(pv, 0),
        decreases parts@.len() - i,
    {
        proof {
            lemma_id_lines_step(pv, i as int);
        }
        let t = chars_trim(&parts[i]);
        proof {
            assert(pv[i as int] == parts@[i as int]@);
        }
        let ghost outv = out@.map_values(|s: String| s@);
        if t.len() > 0 {
            out.push(crate::strings::chars_into_string(t));
            proof {
                assert(out@.map_values(|s: String| s@) =~= outv.push(trim_seq(pv[i as int])));
                assert(out@.map_values(|s: String| s@) + spec_id_lines(pv, i + 1) =~= outv + (seq![
                    trim_seq(pv[i as int]),
                ] + spec_id_lines(pv, i + 1)));
            }
        }
        i = i + 1;
    }
    proof {
        assert(spec_id_lines(pv, parts@.len() as int) =~= Seq::<Seq<char>>::empty());
        assert(out@.map_values(|s: String| s@) =~= out@.map_values(|s: String| s@)
            + spec_id_lines(pv, parts@.len() as int));
    }
    out
}

proof fn lemma_id_lines_step(lines: Seq<Seq<char>>, i: int)
    requires
        0 <= i < lines.len(),
    ensures
        spec_id_lines(lines, i) == if trim_seq(lines[i]).len() > 0 {
            seq![trim_seq(lines[i])] + spec_id_lines(lines, i + 1)
        } else {
            spec_id_lines(lines, i + 1)
        },
{
}

/// The engine the run drives: its kind, an optional remote connection, and
/// the base commands to address it with.
pub struct Engine {
    pub kind: EngineKind,
    pub connection: Option<String>,
    pub podman_cmd: Vec<String>,
    pub docker_cmd: Vec<String>,
}

impl Engine {
    /// Builds the adapter from the detected kind and compose command; the
    /// connection override value comes from the caller's environment.
    pub fn new(kind: EngineKind, compose_cmd: &Vec<String>, env_connection: Option<String>) -> (r:
        Engine)
        ensures
            r.kind == kind,
            r.docker_cmd@.len() == 1 && r.docker_cmd@[0]@ == "docker"@,
            r.podman_cmd@.len() >= 1 && r.podman_cmd@[0]@ == "podman"@,
            kind != EngineKind::Podman ==> r.connection is None,
    {
        let connection: Option<String> = if matches!(kind, EngineKind::Podman) {
            match env_connection {
                Some(c) => Some(c),
                None => extract_connection(compose_cmd),
            }
        } else {
            None
        };
        let mut podman_cmd: Vec<String> = Vec::new();
        podman_cmd.push("podman".to_owned());
        match &connection {
            Some(conn) => {
                podman_cmd.push("--connection".to_owned());
                podman_cmd.push(conn.clone());
            },
            None => {},
        }
        let mut docker_cmd: Vec<String> = Vec::new();
        docker_cmd.push("docker".to_owned());
        Engine { kind, connection, podman_cmd, docker_cmd }
    }

    pub fn with_connection(self, connection: Option<String>) -> (r: Engine)
        ensures
            r.kind == self.kind,
            match connection {
                Some(c) => r.connection matches Some(rc) && rc@ == c@ && r.podman_cmd@.len() == 3
                    && r.podman_cmd@[0]@ == "podman"@ && r.podman_cmd@[1]@ == "--connection"@
                    && r.podman_cmd@[2]@ == c@,
                None => r == self,
            },
    {
        match connection {
            Some(conn) => {
                let mut podman_cmd: Vec<String> = Vec::new();
                podman_cmd.push("podman".to_owned());
                podman_cmd.push("--connection".to_owned());
                podman_cmd.push(conn.clone());
                Engine {
                    kind: self.kind,
                    connection: Some(conn),
                    podman_cmd,
                    docker_cmd: self.docker_cmd,
                }
            },
            None => self,
        }
    }

    pub fn connection(&self) -> (r: Option<String>)
        ensures
            match (r, self.connection) {
                (Some(a), Some(b)) => a@ == b@,
                (None, None) => true,
                _ => false,
            },
    {
        match &self.connection {
            Some(c) => Some(c.clone()),
            None => None,
        }
    }

    /// Only the podman path spawns the watchdog: docker cleans up through
    /// attached compose runs.
    pub fn supports_watchdog(&self) -> (r: bool)
        ensures
            r == (self.kind == EngineKind::Podman),
    {
        matches!(self.kind, EngineKind::Podman)
    }

    /// Podman `up` runs detached and the supervisor follows logs itself.
    pub fn manual_log_follow(&self, subcommand: &str, detach_requested: bool) -> (r: bool)
        ensures
            r == (self.kind == EngineKind::Podman && subcommand@ == "up"@ && !detach_requested),
    {
        matches!(self.kind, EngineKind::Podman) && crate::strings::str_eq(subcommand, "up")
            && !detach_requested
    }

    /// Docker `up` stays attached, so following happens in a thread.
    pub fn follow_logs_in_thread(&self, subcommand: &str, detach_requested: bool) -> (r: bool)
        ensures
            r == (self.kind == EngineKind::Docker && subcommand@ == "up"@ && !detach_requested),
    {
        matches!(self.kind, EngineKind::Docker) && crate::strings::str_eq(subcommand, "up")
            && !detach_requested
    }

    pub fn emit_stdout_for_logs(&self, detach_requested: bool) -> (r: bool)
        ensures
            r == (self.kind == EngineKind::Podman && !detach_requested),
    {
        matches!(self.kind, EngineKind::Podman) && !detach_requested
    }

    pub fn is_podman(&self) -> (r: bool)
        ensures
            r == (self.kind == EngineKind::Podman),
    {
        matches!(self.kind, EngineKind::Podman)
    }

    /// The base command addressing the engine this adapter drives.
    pub fn base_cmd(&self) -> (r: Vec<String>)
        ensures
            self.kind == EngineKind::Podman ==> views(r@) == views(self.podman_cmd@),
            self.kind == EngineKind::Docker ==> views(r@) == views(self.docker_cmd@),
    {
        let src: &Vec<String> = match self.kind {
            EngineKind::Podman => &self.podman_cmd,
            EngineKind::Docker => &self.docker_cmd,
        };
        let mut out: Vec<String> = Vec::new();
        let mut i: usize = 0;
        while i < src.len()
            invariant
                i <= src@.len(),
                out@.len() == i,
                forall|j: int| 0 <= j < i ==> (#[trigger] out@[j])@ == src@[j]@,
            decreases src@.len() - i,
        {
            out.push(src[i].clone());
            i = i + 1;
        }
        proof {
            assert(views(out@) =~= views(src@));
        }
        out
    }

    /// The follow-mode logs command for one container.
    pub fn logs_cmd(&self, cid: &str, timestamps_enabled: bool) -> (r: Vec<String>)
        ensures
            ({
                let base = if self.kind == EngineKind::Podman {
                    views(self.podman_cmd@)
                } else {
                    views(self.docker_cmd@)
                };
                views(r@) == base + (if timestamps_enabled {
                    seq!["logs"@, "--follow"@, "--timestamps"@, cid@]
                } else {
                    seq!["logs"@, "--follow"@, cid@]
                })
            }),
    {
        let mut cmd = self.base_cmd();
        let ghost basev = views(cmd@);
        cmd.push("logs".to_owned());
        cmd.push("--follow".to_owned());
        if timestamps_enabled {
            cmd.push("--timestamps".to_owned());
        }
        cmd.push(cid.to_owned());
        proof {
            if timestamps_enabled {
                assert(views(cmd@) =~= basev + seq!["logs"@, "--follow"@, "--timestamps"@, cid@]);
            } else {
                assert(views(cmd@) =~= basev + seq!["logs"@, "--follow"@, cid@]);
            }
        }
        cmd
    }

    /// The `ps` command listing container ids for one label filter.
    pub fn ps_by_label_cmd(&self, label_key: &str, label_value: &str, scope: Scope) -> (r: Vec<
        String,
    >)
        ensures
            ({
                let base = if self.kind == EngineKind::Podman {
                    views(self.podman_cmd@)
                } else {
                    views(self.docker_cmd@)
                };
                let scoped = if scope == Scope::All {
                    base + seq!["ps"@, "-a"@]
                } else {
                    base + seq!["ps"@]
                };
                views(r@) == scoped + seq![
                    "--filter"@,
                    "label="@ + label_key@ + "="@ + label_value@,
                    "-q"@,
                ]
            }),
    {
        let mut cmd = self.base_cmd();
        let ghost basev = views(cmd@);
        cmd.push("ps".to_owned());
        if matches!(scope, Scope::All) {
            cmd.push("-a".to_owned());
        }
        let ghost scopedv = views(cmd@);
        proof {
            if scope == Scope::All {
                assert(scopedv =~= basev + seq!["ps"@, "-a"@]);
            } else {
                assert(scopedv =~= basev + seq!["ps"@]);
            }
        }
        cmd.push("--filter".to_owned());
        let mut filter = "label=".to_owned();
        filter.append(label_key);
        filter.append("=");
        filter.append(label_value);
        cmd.push(filter);
        cmd.push("-q".to_owned());
        proof {
            assert(views(cmd@) =~= scopedv + seq![
                "--filter"@,
                "label="@ + label_key@ + "="@ + label_value@,
                "-q"@,
            ]);
        }
        cmd
    }

    /// Reads the ids a `ps` invocation printed.
    /// The ids of the listing, as a sorted set: every id line is present
    /// and none stands twice.
    pub fn collect_container_ids(&self, ps_output: &str) -> (r: Vec<String>)
        ensures
            crate::derive::sorted_names(r@),
            forall|i: int, j: int|
                0 <= i < j < r@.len() ==> (#[trigger] r@[i])@ != (#[trigger] r@[j])@,
            crate::compose::covers_output(r@, ps_output@),
    {
        let mut outputs: Vec<String> = Vec::new();
        outputs.push(ps_output.to_owned());
        proof {
            assert(outputs@[0]@ == ps_output@);
        }
        crate::compose::collect_podman_container_ids(&outputs)
    }

    /// Resolves a container's original service name from the outputs of the
    /// label queries, falling back to the container name stripped of the
    /// project prefix and replica index, then to the id itself.
    pub fn resolve_service_name(
        &self,
        project_name: &str,
        cid: &str,
        label_outputs: &Vec<String>,
        name_output: Option<&String>,
    ) -> (r: String)
        ensures
            ({
                let labels = first_usable_label(label_outputs@, 0);
                match labels {
                    Some(v) => r@ == v,
                    None => match name_output {
                        Some(n) => {
                            let cleaned = spec_stripped_suffix(
                                strip_leading_slash(trim_seq(n@)),
                                project_name@,
                            );
                            if cleaned.len() > 0 {
                                r@ == cleaned
                            } else {
                                r@ == cid@
                            }
                        },
                        None => r@ == cid@,
                    },
                }
            }),
    {
        let mut i: usize = 0;
        while i < label_outputs.len()
            invariant
                i <= label_outputs@.len(),
                first_usable_label(label_outputs@, 0) == first_usable_label(
                    label_outputs@,
                    i as int,
                ),
            decreases label_outputs@.len() - i,
        {
            let t = chars_trim(&str_chars(label_outputs[i].as_str()));
            let cand = crate::strings::chars_into_string(t);
            if cand.unicode_len() > 0 && !crate::strings::str_eq(cand.as_str(), "<no value>") {
                return cand;
            }
            i = i + 1;
        }
        match name_output {
            Some(n) => {
                let nv = str_chars(n.as_str());
                let t = chars_trim(&nv);
                let noslash = if t.len() > 0 && t[0] == '/' {
                    crate::strings::chars_slice(&t, 1, t.len())
                } else {
                    crate::strings::chars_slice(&t, 0, t.len())
                };
                proof {
                    if !(trim_seq(n@).len() > 0 && trim_seq(n@)[0] == '/') {
                        assert(noslash@ =~= trim_seq(n@));
                    }
                }
                let ns = crate::strings::chars_into_string(noslash);
                let cleaned = strip_service_suffix(ns.as_str(), project_name);
                if cleaned.unicode_len() > 0 {
                    cleaned
                } else {
                    cid.to_owned()
                }
            },
            None => cid.to_owned(),
        }
    }
}

pub open spec fn strip_leading_slash(s: Seq<char>) -> Seq<char> {
    if s.len() > 0 && s[0] == '/' {
        s.subrange(1, s.len() as int)
    } else {
        s
    }
}

/// The first label-query output that is non-empty after trimming and is not
/// the engine's `<no value>` marker.
pub open spec fn first_usable_label(outputs: Seq<String>, i: int) -> Option<Seq<char>>
    decreases outputs.len() - i,
{
    if i < 0 || i >= outputs.len() {
        None
    } else if trim_seq(outputs[i]@).len() > 0 && trim_seq(outputs[i]@) != "<no value>"@ {
        Some(trim_seq(outputs[i]@))
    } else {
        first_usable_label(outputs, i + 1)
    }
}

} // verus!
