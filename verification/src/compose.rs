//! Choosing the compose invocation, and interpreting the engine's container
//! and pod listings. The probes themselves (running `compose version`,
//! walking PATH) happen outside the verified core and hand their findings
//! in as plain values.

use vstd::prelude::*;

use crate::domain::EngineKind;
use crate::engine::{views, ComposeSelection};
use crate::strings::{chars_slice, chars_trim, str_chars};
use crate::yaml::{map_get, map_get_ref, Yaml};

verus! {

/// The token list a shell-style command string splits into, `None` when the
/// quoting is malformed; a function of the text alone.
pub uninterp spec fn shell_tokens(s: Seq<char>) -> Option<Seq<Seq<char>>>;

/// Relies on `shell_words::split`: POSIX-shell word splitting of a command
/// string, a pure function of the text.
#[verifier::external_body]
fn shell_split(s: &str) -> (r: Option<Vec<String>>)
    ensures
        match r {
            Some(words) => shell_tokens(s@) matches Some(t) && words@.len() == t.len() && forall|
                i: int,
            | 0 <= i < t.len() ==> (#[trigger] words@[i])@ == t[i],
            None => shell_tokens(s@) is None,
        },
{
    shell_words::split(s).ok()
}

/// What the environment probes found: the podman compose command when one
/// answered, and whether docker's compose answered.
pub struct EngineProbe {
    pub podman_compose_cmd: Option<Vec<String>>,
    pub docker_compose_ok: bool,
}

/// Chooses the compose invocation: an override variable wins when set and
/// well-formed (it must name an integrated `compose` subcommand and agree
/// with an explicit engine flag); otherwise the probes decide, podman
/// first. Detection never falls through silently.
pub fn detect_compose_cmd(
    env_cmd: Option<&String>,
    preferred: Option<EngineKind>,
    probe: EngineProbe,
) -> (r: Result<ComposeSelection, String>)
    ensures
        r matches Ok(sel) ==> sel.compose_cmd@.len() > 0,
        match env_cmd {
            Some(raw) => (match shell_tokens(raw@) {
                Some(toks) => ({
                    let legacy = toks.len() > 0 && (crate::strings::contains_seq(
                        toks[0],
                        "podman-compose"@,
                    ) || crate::strings::contains_seq(toks[0], "docker-compose"@));
                    let inferred = if toks.len() > 0 && crate::strings::contains_seq(
                        toks[0],
                        "podman"@,
                    ) {
                        EngineKind::Podman
                    } else {
                        EngineKind::Docker
                    };
                    if toks.len() == 0 || legacy {
                        r is Err
                    } else {
                        match preferred {
                            Some(wanted) => if wanted == inferred {
                                (r matches Ok(sel) && sel.engine == wanted
                                    && sel.compose_cmd@.len() == toks.len() && (forall|k: int|
                                    0 <= k < toks.len() ==> (#[trigger] sel.compose_cmd@[k])@
                                        == toks[k]))
                            } else {
                                r is Err
                            },
                            None => (r matches Ok(sel) && sel.engine == inferred
                                && sel.compose_cmd@.len() == toks.len() && (forall|k: int|
                                0 <= k < toks.len() ==> (#[trigger] sel.compose_cmd@[k])@
                                    == toks[k])),
                        }
                    }
                }),
                None => r is Err,
            }),
            None => ({
                let pod = match probe.podman_compose_cmd {
                    Some(c) => c@.len() > 0,
                    None => false,
                };
                match preferred {
                    Some(EngineKind::Podman) => if pod {
                        (r matches Ok(sel) && sel.engine == EngineKind::Podman && (match
                        probe.podman_compose_cmd {
                            Some(c) => views(sel.compose_cmd@) == views(c@),
                            None => false,
                        }))
                    } else {
                        r is Err
                    },
                    Some(EngineKind::Docker) => if probe.docker_compose_ok {
                        (r matches Ok(sel) && sel.engine == EngineKind::Docker
                            && sel.compose_cmd@.len() == 2 && sel.compose_cmd@[0]@ == "docker"@
                            && sel.compose_cmd@[1]@ == "compose"@)
                    } else {
                        r is Err
                    },
                    None => if pod {
                        (r matches Ok(sel) && sel.engine == EngineKind::Podman && (match
                        probe.podman_compose_cmd {
                            Some(c) => views(sel.compose_cmd@) == views(c@),
                            None => false,
                        }))
                    } else if probe.docker_compose_ok {
                        (r matches Ok(sel) && sel.engine == EngineKind::Docker
                            && sel.compose_cmd@.len() == 2 && sel.compose_cmd@[0]@ == "docker"@
                            && sel.compose_cmd@[1]@ == "compose"@)
                    } else {
                        r is Err
                    },
                }
            }),
        },
{
    match env_cmd {
        Some(raw) => {
            let cmd = match shell_split(raw.as_str()) {
                Some(words) => words,
                None => {
                    return Err("COMPOSE_CMD is set but empty or invalid.".to_owned());
                },
            };
            if cmd.len() == 0 {
                return Err("COMPOSE_CMD is set but empty or invalid.".to_owned());
            }
            if crate::engine::is_legacy_compose_cmd(&cmd) {
                return Err(
                    "COMPOSE_CMD must use `podman compose` or `docker compose`.".to_owned(),
                );
            }
            let inferred = crate::engine::infer_engine_kind(&cmd);
            match preferred {
                Some(wanted) => {
                    if !engine_kind_eq(inferred, wanted) {
                        let mut msg = "COMPOSE_CMD does not match --engine ".to_owned();
                        msg.append(crate::engine::display_engine(wanted));
                        msg.append(".");
                        return Err(msg);
                    }
                    Ok(ComposeSelection { compose_cmd: cmd, engine: wanted })
                },
                None => Ok(ComposeSelection { compose_cmd: cmd, engine: inferred }),
            }
        },
        None => {
            match preferred {
                Some(EngineKind::Podman) => match probe.podman_compose_cmd {
                    Some(cmd) => {
                        if cmd.len() == 0 {
                            return Err("Podman compose tool not found in PATH.".to_owned());
                        }
                        Ok(ComposeSelection { compose_cmd: cmd, engine: EngineKind::Podman })
                    },
                    None => Err("Podman compose tool not found in PATH.".to_owned()),
                },
                Some(EngineKind::Docker) => {
                    if probe.docker_compose_ok {
                        let mut cmd: Vec<String> = Vec::new();
                        cmd.push("docker".to_owned());
                        cmd.push("compose".to_owned());
                        Ok(ComposeSelection { compose_cmd: cmd, engine: EngineKind::Docker })
                    } else {
                        Err("Docker compose tool not found in PATH.".to_owned())
                    }
                },
                None => {
                    match probe.podman_compose_cmd {
                        Some(cmd) => {
                            if cmd.len() == 0 {
                                if probe.docker_compose_ok {
                                    let mut dc: Vec<String> = Vec::new();
                                    dc.push("docker".to_owned());
                                    dc.push("compose".to_owned());
                                    return Ok(
                                        ComposeSelection {
                                            compose_cmd: dc,
                                            engine: EngineKind::Docker,
                                        },
                                    );
                                }
                                return Err("No compose tool found in PATH.".to_owned());
                            }
                            Ok(ComposeSelection { compose_cmd: cmd, engine: EngineKind::Podman })
                        },
                        None => {
                            if probe.docker_compose_ok {
                                let mut cmd: Vec<String> = Vec::new();
                                cmd.push("docker".to_owned());
                                cmd.push("compose".to_owned());
                                Ok(ComposeSelection { compose_cmd: cmd, engine: EngineKind::Docker })
                            } else {
                                Err("No compose tool found in PATH.".to_owned())
                            }
                        },
                    }
                },
            }
        },
    }
}

fn engine_kind_eq(a: EngineKind, b: EngineKind) -> (r: bool)
    ensures
        r == (a == b),
{
    match (a, b) {
        (EngineKind::Podman, EngineKind::Podman) => true,
        (EngineKind::Docker, EngineKind::Docker) => true,
        _ => false,
    }
}

/// Whether some entry of a string list reads as `s`.
pub open spec fn contains_view(v: Seq<String>, s: Seq<char>) -> bool {
    exists|t: int| 0 <= t < v.len() && (#[trigger] v[t])@ == s
}

/// Every id line of the split of `out` appears in `r`.
pub open spec fn covers_output(r: Seq<String>, out: Seq<char>) -> bool {
    exists|lines: Seq<Seq<char>>|
        #[trigger] crate::strings::split_parts_ok(out, '\n', lines) && (forall|k: int|
            0 <= k < crate::engine::spec_id_lines(lines, 0).len() ==> contains_view(
                r,
                crate::engine::spec_id_lines(lines, 0)[k],
            ))
}

/// Merges the id listings of several queries into one sorted list without
/// duplicates; every id line of every output is present.
pub fn collect_podman_container_ids(outputs: &Vec<String>) -> (r: Vec<String>)
    ensures
        crate::derive::sorted_names(r@),
        forall|i: int, j: int|
            0 <= i < j < r@.len() ==> (#[trigger] r@[i])@ != (#[trigger] r@[j])@,
        forall|o: int| 0 <= o < outputs@.len() ==> covers_output(r@, (#[trigger] outputs@[o])@),
{
    let mut ids: Vec<String> = Vec::new();
    let mut o: usize = 0;
    let ghost mut wits: Seq<Seq<Seq<char>>> = Seq::empty();
    while o < outputs.len()
        invariant
            o <= outputs@.len(),
            crate::derive::sorted_names(ids@),
            forall|i: int, j: int|
                0 <= i < j < ids@.len() ==> (#[trigger] ids@[i])@ != (#[trigger] ids@[j])@,
            wits.len() == o,
            forall|o2: int|
                0 <= o2 < o ==> crate::strings::split_parts_ok(
                    (#[trigger] outputs@[o2])@,
                    '\n',
                    wits[o2],
                ),
            forall|o2: int, k: int|
                #![trigger crate::engine::spec_id_lines(wits[o2], 0)[k]]
                0 <= o2 < o && 0 <= k < crate::engine::spec_id_lines(wits[o2], 0).len()
                    ==> contains_view(ids@, crate::engine::spec_id_lines(wits[o2], 0)[k]),
        decreases outputs@.len() - o,
    {
        let ghost ids_at_start = ids@;
        let ghost wits_at_start = wits;
        let lines = crate::engine::parse_id_lines(outputs[o].as_str());
        let ghost lw = choose|lw: Seq<Seq<char>>|
            #[trigger] crate::strings::split_parts_ok(outputs@[o as int]@, '\n', lw)
                && lines@.map_values(|s: String| s@) == crate::engine::spec_id_lines(lw, 0);
        let mut li: usize = 0;
        while li < lines.len()
            invariant
                li <= lines@.len(),
                crate::derive::sorted_names(ids@),
                forall|i: int, j: int|
                    0 <= i < j < ids@.len() ==> (#[trigger] ids@[i])@ != (#[trigger] ids@[j])@,
                forall|s: Seq<char>|
                    #[trigger] contains_view(ids_at_start, s) ==> contains_view(ids@, s),
                forall|k: int|
                    0 <= k < li ==> contains_view(ids@, (#[trigger] lines@[k])@),
            decreases lines@.len() - li,
        {
            let ghost before = ids@;
            sorted_insert_unique(&mut ids, &lines[li]);
            li = li + 1;
            proof {
                assert forall|s: Seq<char>|
                    #[trigger] contains_view(ids_at_start, s) implies contains_view(ids@, s) by {
                    assert(contains_view(before, s));
                }
            }
        }
        o = o + 1;
        proof {
            wits = wits.push(lw);
            assert forall|o2: int, k: int|
                #![trigger crate::engine::spec_id_lines(wits[o2], 0)[k]]
                0 <= o2 < o && 0 <= k < crate::engine::spec_id_lines(wits[o2], 0).len()
                    implies contains_view(ids@, crate::engine::spec_id_lines(wits[o2], 0)[k]) by {
                if o2 < o - 1 {
                    assert(wits[o2] == wits_at_start[o2]);
                    assert(contains_view(ids_at_start, crate::engine::spec_id_lines(
                        wits[o2],
                        0,
                    )[k]));
                } else {
                    assert(wits[o2] == lw);
                    assert(crate::engine::spec_id_lines(lw, 0)[k] == lines@[k]@);
                    assert(contains_view(ids@, lines@[k]@));
                }
            }
            assert(forall|o2: int|
                0 <= o2 < o ==> crate::strings::split_parts_ok(
                    (#[trigger] outputs@[o2])@,
                    '\n',
                    wits[o2],
                )) by {
                assert(forall|o2: int| 0 <= o2 < o - 1 ==> wits[o2] == wits_at_start[o2]);
                assert(wits[o - 1] == lw);
            }
        }
    }
    proof {
        assert forall|o2: int| 0 <= o2 < outputs@.len() implies covers_output(
            ids@,
            (#[trigger] outputs@[o2])@,
        ) by {
            assert(crate::strings::split_parts_ok(outputs@[o2]@, '\n', wits[o2]));
            assert(forall|k: int|
                0 <= k < crate::engine::spec_id_lines(wits[o2], 0).len() ==> contains_view(
                    ids@,
                    crate::engine::spec_id_lines(wits[o2], 0)[k],
                ));
        }
    }
    ids
}

/// Inserts an id into a sorted, duplicate-free list, unless it is already
/// present.
fn sorted_insert_unique(v: &mut Vec<String>, x: &String)
    requires
        crate::derive::sorted_names(old(v)@),
        forall|i: int, j: int|
            0 <= i < j < old(v)@.len() ==> (#[trigger] old(v)@[i])@ != (#[trigger] old(v)@[j])@,
    ensures
        crate::derive::sorted_names(final(v)@),
        forall|i: int, j: int|
            0 <= i < j < final(v)@.len() ==> (#[trigger] final(v)@[i])@
                != (#[trigger] final(v)@[j])@,
        forall|s: Seq<char>| #[trigger] contains_view(old(v)@, s) ==> contains_view(final(v)@, s),
        contains_view(final(v)@, x@),
{
    let mut i: usize = 0;
    while i < v.len() && crate::derive::str_le(v[i].as_str(), x.as_str()) && !crate::strings::str_eq(
        v[i].as_str(),
        x.as_str(),
    )
        invariant
            i <= v@.len(),
            v@ == old(v)@,
            crate::derive::sorted_names(v@),
            forall|a: int, b: int|
                0 <= a < b < v@.len() ==> (#[trigger] v@[a])@ != (#[trigger] v@[b])@,
            forall|t: int|
                0 <= t < i ==> crate::derive::lex_le((#[trigger] v@[t])@, x@) && (v@[t])@ != x@,
        decreases v@.len() - i,
    {
        i = i + 1;
    }
    if i < v.len() && crate::strings::str_eq(v[i].as_str(), x.as_str()) {
        proof {
            assert(contains_view(v@, x@)) by {
                assert(v@[i as int]@ == x@);
            }
        }
        return;
    }
    let ghost before = v@;
    proof {
        if i < before.len() {
            crate::derive::lemma_lex_le_total(before[i as int]@, x@);
        }
    }
    v.insert(i, x.clone());
    proof {
        assert forall|a: int, b: int|
            0 <= a < b < v@.len() implies crate::derive::lex_le(
            (#[trigger] v@[a])@,
            (#[trigger] v@[b])@,
        ) && (v@[a])@ != (v@[b])@ by {
            if b < i {
            } else if a < i && b == i {
            } else if a < i && b > i {
                assert(v@[b] == before[b - 1]);
            } else if a == i {
                assert(v@[b] == before[b - 1]);
                if b - 1 > i {
                    crate::derive::lemma_lex_le_trans(x@, before[i as int]@, before[b - 1]@);
                    if x@ == before[b - 1]@ {
                        crate::derive::lemma_lex_le_antisym(x@, before[i as int]@);
                    }
                } else {
                    if x@ == before[i as int]@ {
                        crate::derive::lemma_lex_le_antisym(x@, before[i as int]@);
                    }
                }
            } else {
                assert(v@[a] == before[a - 1]);
                assert(v@[b] == before[b - 1]);
            }
        }
        assert forall|s: Seq<char>| #[trigger] contains_view(before, s) implies contains_view(
            v@,
            s,
        ) by {
            let t = choose|t: int| 0 <= t < before.len() && (#[trigger] before[t])@ == s;
            if t < i {
                assert(v@[t] == before[t]);
            } else {
                assert(v@[t + 1] == before[t]);
            }
        }
        assert(contains_view(v@, x@)) by {
            assert(v@[i as int]@ == x@);
        }
    }
}

/// The pod id of one listing line, when the line names a pod of the
/// project: the trimmed text before the first space, provided the text
/// after it is `pod_<project>` or starts with `<project>-`.
pub open spec fn line_pod_id(line: Seq<char>, project: Seq<char>) -> Option<Seq<char>> {
    match crate::ports::first_idx_of(line, ' ') {
        Some(sp) => ({
            let id = crate::strings::trim_seq(line.subrange(0, sp));
            let name = line.subrange(sp + 1, line.len() as int);
            if (name == "pod_"@ + project || crate::strings::has_prefix(name, project + "-"@))
                && id.len() > 0 {
                Some(id)
            } else {
                None
            }
        }),
        None => None,
    }
}

/// The project's pod ids over a line list, in order.
pub open spec fn pod_ids_list(lines: Seq<Seq<char>>, project: Seq<char>) -> Seq<Seq<char>>
    decreases lines.len(),
{
    if lines.len() == 0 {
        Seq::empty()
    } else {
        match line_pod_id(lines[0], project) {
            Some(id) => seq![id] + pod_ids_list(lines.drop_first(), project),
            None => pod_ids_list(lines.drop_first(), project),
        }
    }
}

/// The pods a project left behind: the pod listing's `id name` lines whose
/// name is `pod_<project>` or starts with `<project>-`. When any exist, the
/// force-removal command to run — the engine command, `pod rm -f`, then
/// exactly those ids in listing order; `None` when there is nothing to do.
pub fn remove_project_pods(
    podman_cmd: &Vec<String>,
    pod_ps_output: &str,
    project_name: &str,
) -> (r: Option<Vec<String>>)
    ensures
        exists|lines: Seq<Seq<char>>|
            #[trigger] crate::strings::split_parts_ok(pod_ps_output@, '\n', lines) && ({
                let ids = pod_ids_list(crate::engine::spec_id_lines(lines, 0), project_name@);
                match r {
                    Some(cmd) => {
                        &&& ids.len() > 0
                        &&& cmd@.len() == podman_cmd@.len() + 3 + ids.len()
                        &&& (forall|b: int|
                            0 <= b < podman_cmd@.len() ==> (#[trigger] cmd@[b])@ == podman_cmd@[
                            b]@)
                        &&& cmd@[podman_cmd@.len() as int]@ == "pod"@
                        &&& cmd@[podman_cmd@.len() as int + 1]@ == "rm"@
                        &&& cmd@[podman_cmd@.len() as int + 2]@ == "-f"@
                        &&& (forall|p: int|
                            0 <= p < ids.len() ==> (#[trigger] cmd@[podman_cmd@.len() + 3 + p])@
                                == ids[p])
                    },
                    None => ids.len() == 0,
                }
            }),
{
    let lines = crate::engine::parse_id_lines(pod_ps_output);
    let ghost linesw = choose|lw: Seq<Seq<char>>|
        #[trigger] crate::strings::split_parts_ok(pod_ps_output@, '\n', lw)
            && lines@.map_values(|s: String| s@) == crate::engine::spec_id_lines(lw, 0);
    let ghost idlines = lines@.map_values(|s: String| s@);
    let mut pod_ids: Vec<String> = Vec::new();
    let mut exact = "pod_".to_owned();
    exact.append(project_name);
    let mut prefix = project_name.to_owned();
    prefix.append("-");
    let mut i: usize = 0;
    proof {
        assert(idlines.subrange(0, 0) =~= Seq::<Seq<char>>::empty());
        assert(pod_ids@.map_values(|s: String| s@) =~= pod_ids_list(
            idlines.subrange(0, 0),
            project_name@,
        ));
    }
    while i < lines.len()
        invariant
            i <= lines@.len(),
            idlines == lines@.map_values(|s: String| s@),
            exact@ == "pod_"@ + project_name@,
            prefix@ == project_name@ + "-"@,
            pod_ids@.map_values(|s: String| s@) == pod_ids_list(
                idlines.subrange(0, i as int),
                project_name@,
            ),
        decreases lines@.len() - i,
    {
        let ghost pg = pod_ids@;
        let lv = str_chars(lines[i].as_str());
        proof {
            crate::ports::lemma_first_idx_of(lv@, ' ');
        }
        match crate::strings::chars_find(&lv, ' ') {
            Some(split) => {
                proof {
                    crate::ports::lemma_first_idx_at(lv@, ' ', split as int);
                }
                proof {
                    assert(split < lv@.len());
                }
                let n = lv.len();
                let id = chars_trim(&chars_slice(&lv, 0, split));
                let name = chars_slice(&lv, split + 1, n);
                let matches_pod = crate::strings::chars_eq_str(&name, exact.as_str())
                    || crate::strings::chars_starts_with(&name, prefix.as_str());
                if matches_pod && id.len() > 0 {
                    pod_ids.push(crate::strings::chars_into_string(id));
                    proof {
                        assert(line_pod_id(idlines[i as int], project_name@) == Some(
                            pod_ids@.last()@,
                        ));
                    }
                }
            },
            None => {},
        }
        i = i + 1;
        proof {
            let pre = idlines.subrange(0, i - 1);
            let cur = idlines.subrange(0, i as int);
            lemma_pod_ids_snoc(pre, idlines[i - 1], project_name@);
            assert(cur =~= pre.push(idlines[i - 1]));
            assert(pod_ids@.map_values(|s: String| s@) =~= pod_ids_list(cur, project_name@));
        }
    }
    proof {
        assert(idlines.subrange(0, idlines.len() as int) =~= idlines);
    }
    if pod_ids.len() == 0 {
        return None;
    }
    let mut cmd: Vec<String> = Vec::new();
    let mut b: usize = 0;
    while b < podman_cmd.len()
        invariant
            b <= podman_cmd@.len(),
            cmd@.len() == b,
            forall|k: int| 0 <= k < b ==> (#[trigger] cmd@[k])@ == podman_cmd@[k]@,
        decreases podman_cmd@.len() - b,
    {
        cmd.push(podman_cmd[b].clone());
        b = b + 1;
    }
    cmd.push("pod".to_owned());
    cmd.push("rm".to_owned());
    cmd.push("-f".to_owned());
    let mut p: usize = 0;
    let ghost baseline = cmd@.len();
    while p < pod_ids.len()
        invariant
            p <= pod_ids@.len(),
            cmd@.len() == baseline + p,
            baseline == podman_cmd@.len() + 3,
            forall|k: int| 0 <= k < podman_cmd@.len() ==> (#[trigger] cmd@[k])@ == podman_cmd@[k]@,
            cmd@[podman_cmd@.len() as int]@ == "pod"@,
            cmd@[podman_cmd@.len() as int + 1]@ == "rm"@,
            cmd@[podman_cmd@.len() as int + 2]@ == "-f"@,
            forall|k: int|
                0 <= k < p ==> (#[trigger] cmd@[baseline + k])@ == pod_ids@[k]@,
        decreases pod_ids@.len() - p,
    {
        cmd.push(pod_ids[p].clone());
        p = p + 1;
    }
    Some(cmd)
}

/// Appending one line extends the pod id list by that line's id, if any.
proof fn lemma_pod_ids_snoc(lines: Seq<Seq<char>>, x: Seq<char>, project: Seq<char>)
    ensures
        pod_ids_list(lines.push(x), project) == (match line_pod_id(x, project) {
            Some(id) => pod_ids_list(lines, project).push(id),
            None => pod_ids_list(lines, project),
        }),
    decreases lines.len(),
{
    if lines.len() == 0 {
        assert(lines.push(x)[0] == x);
        assert(lines.push(x).drop_first() =~= Seq::<Seq<char>>::empty());
        assert(pod_ids_list(Seq::<Seq<char>>::empty(), project) =~= Seq::<Seq<char>>::empty());
        assert(lines =~= Seq::<Seq<char>>::empty());
        match line_pod_id(x, project) {
            Some(id) => {
                assert(pod_ids_list(lines.push(x), project) =~= pod_ids_list(
                    lines,
                    project,
                ).push(id));
            },
            None => {},
        }
    } else {
        assert(lines.push(x)[0] == lines[0]);
        assert(lines.push(x).drop_first() =~= lines.drop_first().push(x));
        lemma_pod_ids_snoc(lines.drop_first(), x, project);
        match line_pod_id(x, project) {
            Some(id) => {
                assert(pod_ids_list(lines.push(x), project) =~= pod_ids_list(
                    lines,
                    project,
                ).push(id));
            },
            None => {},
        }
    }
}


/// The candidate host-port text of one short `ports` entry: quotes
/// stripped, the protocol suffix cut, and the host part of
/// `host:container` or `ip:host:container` picked; a bare container port
/// publishes nothing.
pub open spec fn spec_host_port_text(s: Seq<char>) -> Option<Seq<char>> {
    let e = crate::ports::strip_matches(
        crate::ports::strip_matches(crate::strings::trim_seq(s), '"'),
        '\'',
    );
    if e.len() == 0 {
        None
    } else {
        let head = match crate::ports::first_idx_of(e, '/') {
            Some(i) => e.subrange(0, i),
            None => e,
        };
        let parts = crate::observe::split_on(head, ':');
        if parts.len() == 1 {
            None
        } else if parts.len() >= 3 {
            let first = crate::strings::trim_seq(parts[0]);
            if crate::ports::first_idx_of(first, '.') is Some || first == "localhost"@ || first
                == "0.0.0.0"@ {
                Some(crate::strings::trim_seq(parts[1]))
            } else {
                Some(first)
            }
        } else {
            Some(crate::strings::trim_seq(parts[0]))
        }
    }
}

/// The port a host-port text denotes once a `${VAR:-default}` form falls
/// back to its default; blank, zero or non-numeric texts publish nothing.
pub open spec fn spec_host_port_value(t: Seq<char>) -> Option<u16> {
    let v = crate::strings::trim_seq(
        match crate::ports::spec_env_default(t) {
            Some(d) => d,
            None => t,
        },
    );
    if v.len() > 0 && crate::strings::all_digits(v) && crate::strings::dec_value(v) != 0
        && crate::strings::dec_value(v) <= 65535 {
        Some(crate::strings::dec_value(v) as u16)
    } else {
        None
    }
}

/// The published host port one `ports` entry names, short or long form.
pub open spec fn spec_published_port(entry: Yaml) -> Option<u16> {
    match entry {
        Yaml::Str(s) => (match spec_host_port_text(s@) {
            Some(t) => spec_host_port_value(t),
            None => None,
        }),
        Yaml::Mapping(m) => (match map_get(m@, "published"@) {
            Some(Yaml::Int(i)) => if 0 < i <= 65535 {
                Some(i as u16)
            } else {
                None
            },
            Some(Yaml::Str(s)) => spec_host_port_value(s@),
            _ => None,
        }),
        _ => None,
    }
}

/// The named service publishes the port in its `ports` list.
pub open spec fn service_publishes(doc: Seq<(Yaml, Yaml)>, name: Seq<char>, port: u16) -> bool {
    match map_get(doc, "services"@) {
        Some(Yaml::Mapping(svcs)) => (match map_get(svcs@, name) {
            Some(Yaml::Mapping(sm)) => (match map_get(sm@, "ports"@) {
                Some(Yaml::Sequence(l)) => exists|e: int|
                    0 <= e < l@.len() && spec_published_port(#[trigger] l@[e]) == Some(port),
                _ => false,
            }),
            _ => false,
        }),
        _ => false,
    }
}

fn host_port_value(t: &Vec<char>) -> (r: Option<u16>)
    ensures
        r == spec_host_port_value(t@),
{
    let resolved = match crate::ports::env_default(t) {
        Some(d) => d,
        None => chars_slice(t, 0, t.len()),
    };
    proof {
        assert(resolved@ == (match crate::ports::spec_env_default(t@) {
            Some(d) => d,
            None => t@,
        })) by {
            assert(t@.subrange(0, t@.len() as int) =~= t@);
        }
    }
    let v = chars_trim(&resolved);
    match crate::strings::parse_u64_digits(&v) {
        Some(n) => if n != 0 && n <= 65535 {
            Some(n as u16)
        } else {
            None
        },
        None => None,
    }
}

fn host_port_of_entry(entry: &Yaml) -> (r: Option<u16>)
    ensures
        r == spec_published_port(*entry),
{
    match entry {
        Yaml::Str(s) => {
            let e = crate::ports::chars_strip_matches(
                &crate::ports::chars_strip_matches(&chars_trim(&str_chars(s.as_str())), '"'),
                '\'',
            );
            if e.len() == 0 {
                return None;
            }
            proof {
                crate::ports::lemma_first_idx_of(e@, '/');
            }
            let head = match crate::strings::chars_find(&e, '/') {
                Some(i) => {
                    proof {
                        crate::ports::lemma_first_idx_at(e@, '/', i as int);
                    }
                    chars_slice(&e, 0, i)
                },
                None => {
                    let whole = chars_slice(&e, 0, e.len());
                    proof {
                        assert(whole@ =~= e@);
                    }
                    whole
                },
            };
            let parts = crate::observe::split_chars(&head, ':');
            if parts.len() == 1 {
                return None;
            }
            if parts.len() >= 3 {
                let first = chars_trim(&parts[0]);
                proof {
                    crate::ports::lemma_first_idx_of(first@, '.');
                }
                let dotted = match crate::strings::chars_find(&first, '.') {
                    Some(i) => {
                        proof {
                            crate::ports::lemma_first_idx_at(first@, '.', i as int);
                        }
                        true
                    },
                    None => false,
                };
                proof {
                    reveal_strlit("localhost");
                    reveal_strlit("0.0.0.0");
                }
                if dotted || crate::strings::chars_eq_str(&first, "localhost")
                    || crate::strings::chars_eq_str(&first, "0.0.0.0") {
                    host_port_value(&chars_trim(&parts[1]))
                } else {
                    host_port_value(&first)
                }
            } else {
                host_port_value(&chars_trim(&parts[0]))
            }
        },
        Yaml::Mapping(m) => {
            match map_get_ref(m, "published") {
                Some(Yaml::Int(i)) => {
                    if 0 < *i && *i <= 65535 {
                        Some(*i as u16)
                    } else {
                        None
                    }
                },
                Some(Yaml::Str(s)) => host_port_value(&str_chars(s.as_str())),
                _ => None,
            }
        },
        _ => None,
    }
}

/// The services of a canonical document with their published host ports:
/// one row per collected service name, each listed port published by that
/// service (a `${VAR:-default}` publication counts as its default).
pub fn service_endpoints(doc: &Vec<(Yaml, Yaml)>) -> (r: Vec<(String, Vec<u16>)>)
    ensures
        forall|i: int|
            0 <= i < r@.len() ==> crate::derive::is_service_name(doc@, (#[trigger] r@[i]).0@),
        forall|i: int, p: int|
            0 <= i < r@.len() && 0 <= p < (#[trigger] r@[i]).1@.len() ==> service_publishes(
                doc@,
                r@[i].0@,
                #[trigger] r@[i].1@[p],
            ),
{
    let names = match crate::derive::collect_service_names(doc) {
        Ok(n) => n,
        Err(_) => {
            return Vec::new();
        },
    };
    let svcs = match map_get_ref(doc, "services") {
        Some(Yaml::Mapping(m)) => m,
        _ => {
            return Vec::new();
        },
    };
    let mut out: Vec<(String, Vec<u16>)> = Vec::new();
    let mut i: usize = 0;
    while i < names.len()
        invariant
            i <= names@.len(),
            map_get(doc@, "services"@) == Some(Yaml::Mapping(*svcs)),
            forall|j: int|
                0 <= j < names@.len() ==> crate::derive::is_service_name(
                    doc@,
                    (#[trigger] names@[j])@,
                ),
            forall|a: int|
                0 <= a < out@.len() ==> crate::derive::is_service_name(
                    doc@,
                    (#[trigger] out@[a]).0@,
                ),
            forall|a: int, p: int|
                0 <= a < out@.len() && 0 <= p < (#[trigger] out@[a]).1@.len()
                    ==> service_publishes(doc@, out@[a].0@, #[trigger] out@[a].1@[p]),
        decreases names@.len() - i,
    {
        let name = names[i].clone();
        let mut ports: Vec<u16> = Vec::new();
        match map_get_ref(svcs, name.as_str()) {
            Some(Yaml::Mapping(sm)) => {
                match map_get_ref(sm, "ports") {
                    Some(Yaml::Sequence(l)) => {
                        let mut e: usize = 0;
                        while e < l.len()
                            invariant
                                e <= l@.len(),
                                map_get(doc@, "services"@) == Some(Yaml::Mapping(*svcs)),
                                map_get(svcs@, name@) == Some(Yaml::Mapping(*sm)),
                                map_get(sm@, "ports"@) == Some(Yaml::Sequence(*l)),
                                forall|p: int|
                                    0 <= p < ports@.len() ==> service_publishes(
                                        doc@,
                                        name@,
                                        #[trigger] ports@[p],
                                    ),
                            decreases l@.len() - e,
                        {
                            match host_port_of_entry(&l[e]) {
                                Some(p) => {
                                    ports.push(p);
                                    proof {
                                        assert(spec_published_port(l@[e as int]) == Some(p));
                                        assert(service_publishes(doc@, name@, p));
                                    }
                                },
                                None => {},
                            }
                            e = e + 1;
                        }
                    },
                    _ => {},
                }
            },
            _ => {},
        }
        let ghost out_pre = out@;
        out.push((name, ports));
        proof {
            assert(forall|a: int| 0 <= a < out_pre.len() ==> #[trigger] out@[a] == out_pre[a]);
            assert((out@.last()).0@ == names@[i as int]@);
        }
        i = i + 1;
    }
    out
}

} // verus!
