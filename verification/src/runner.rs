//! The run supervisor's decisions: subcommand planning, the follow plan,
//! the one-shot signal handling, and the idempotent cleanup step. The
//! process and thread handling around these lives outside the verified
//! core; it consults these functions for every decision.

use vstd::prelude::*;

use crate::domain::EngineKind;

verus! {

/// The shaped subcommand: its name and the flags stripped off for special
/// handling.
pub struct SubcommandPlan {
    pub name: String,
    pub no_cache_requested: bool,
    pub force_recreate_requested: bool,
}

/// What the supervisor follows after the engine subcommand finishes.
pub struct FollowPlan {
    pub log_follow_enabled: bool,
    pub traffic_follow: bool,
    pub emit_stdout: bool,
    pub follow_in_thread: bool,
    pub cleanup_enabled: bool,
    pub retain_run_dir: bool,
}

/// Decides the follow plan from the subcommand and the toggles:
/// logs are followed on a non-detached `up` when the log UI is wanted or
/// traffic is on; traffic is followed when enabled on a non-detached `up`;
/// `--no-start` skips both; cleanup-on-exit holds for a non-detached `up`
/// or when anything is followed; and a detached `up` retains the run
/// directory for a later session teardown.
pub fn decide_follow_plan(
    engine: &crate::engine::Engine,
    subcommand: &str,
    detach_requested: bool,
    no_start_requested: bool,
    ui_enabled: bool,
    traffic_enabled: bool,
) -> (r: FollowPlan)
    ensures
        ({
            let is_up = subcommand@ == "up"@;
            let manual = engine.kind == EngineKind::Podman && is_up && !detach_requested;
            let wants_logs = ui_enabled || manual;
            let wants_traffic = traffic_enabled && is_up && !detach_requested;
            &&& r.log_follow_enabled == (wants_logs && !(is_up && no_start_requested))
            &&& r.traffic_follow == (wants_traffic && !(is_up && no_start_requested))
            &&& r.emit_stdout == (engine.kind == EngineKind::Podman && !detach_requested)
            &&& r.cleanup_enabled == ((is_up && !detach_requested) || r.log_follow_enabled
                || r.traffic_follow)
            &&& r.retain_run_dir == (is_up && detach_requested)
            &&& r.follow_in_thread == (r.log_follow_enabled && is_up && engine.kind
                == EngineKind::Docker && !detach_requested)
        }),
{
    let is_up = crate::strings::str_eq(subcommand, "up");
    let manual = engine.manual_log_follow(subcommand, detach_requested);
    let mut log_follow_enabled = ui_enabled || manual;
    // traffic is followed only on a non-detached `up`
    let mut traffic_follow = traffic_enabled && is_up && !detach_requested;
    if is_up && no_start_requested {
        log_follow_enabled = false;
        traffic_follow = false;
    }
    proof {
        if !(subcommand@ == "up"@ && no_start_requested) {
            assert(log_follow_enabled == (ui_enabled || (engine.kind == EngineKind::Podman
                && subcommand@ == "up"@ && !detach_requested)));
        }
    }
    let emit_stdout = engine.emit_stdout_for_logs(detach_requested);
    let cleanup_enabled = (is_up && !detach_requested) || log_follow_enabled || traffic_follow;
    let retain_run_dir = is_up && detach_requested;
    let follow_in_thread = log_follow_enabled && is_up && engine.follow_logs_in_thread(
        subcommand,
        detach_requested,
    );
    FollowPlan {
        log_follow_enabled,
        traffic_follow,
        emit_stdout,
        follow_in_thread,
        cleanup_enabled,
        retain_run_dir,
    }
}

/// What one cleanup pass must do; an empty value is a no-op.
pub struct CleanupActions {
    pub stop_children: bool,
    pub engine_teardown: bool,
    pub remove_run_dir: bool,
}

/// The cleanup-relevant state of one run.
pub struct CleanupState {
    pub cleanup_enabled: bool,
    pub cleanup_done: bool,
    pub retain_run_dir: bool,
    pub has_run_dir: bool,
}

impl CleanupState {
    /// One cleanup pass: the first call stops children, tears the project
    /// down when enabled, and removes the run directory unless retained;
    /// any later call is a no-op that returns immediately.
    pub fn cleanup_once(&mut self) -> (r: CleanupActions)
        ensures
            final(self).cleanup_done,
            final(self).cleanup_enabled == old(self).cleanup_enabled,
            final(self).retain_run_dir == old(self).retain_run_dir,
            old(self).cleanup_done ==> !r.stop_children && !r.engine_teardown
                && !r.remove_run_dir && *final(self) == *old(self),
            !old(self).cleanup_done ==> r.stop_children && r.engine_teardown == old(
                self,
            ).cleanup_enabled && r.remove_run_dir == (old(self).has_run_dir && !old(
                self,
            ).retain_run_dir) && final(self).has_run_dir == (old(self).has_run_dir
                && !r.remove_run_dir),
    {
        if self.cleanup_done {
            return CleanupActions {
                stop_children: false,
                engine_teardown: false,
                remove_run_dir: false,
            };
        }
        self.cleanup_done = true;
        let remove_run_dir = self.has_run_dir && !self.retain_run_dir;
        if remove_run_dir {
            self.has_run_dir = false;
        }
        CleanupActions {
            stop_children: true,
            engine_teardown: self.cleanup_enabled,
            remove_run_dir,
        }
    }
}

/// The signal-handling state: the first signal stops the run and fixes the
/// exit code at 130; every later signal is ignored.
pub struct SignalState {
    pub signal_handled: bool,
    pub stop_requested: bool,
    pub exit_code: i32,
}

impl SignalState {
    pub fn new() -> (r: SignalState)
        ensures
            !r.signal_handled,
            !r.stop_requested,
            r.exit_code == 0,
    {
        SignalState { signal_handled: false, stop_requested: false, exit_code: 0 }
    }

    pub fn handle_signal(&mut self)
        ensures
            final(self).signal_handled,
            final(self).stop_requested == (old(self).stop_requested || !old(self).signal_handled),
            old(self).signal_handled ==> *final(self) == *old(self),
            !old(self).signal_handled ==> final(self).exit_code == 130
                && final(self).stop_requested,
    {
        if self.signal_handled {
            return;
        }
        self.signal_handled = true;
        self.exit_code = 130;
        self.stop_requested = true;
    }
}

/// The supervisor's final exit code: a signal-set code wins over the
/// engine's; an engine failure is passed through.
pub fn exit_disposition(engine_exit: i32, signal_exit: i32) -> (r: i32)
    ensures
        signal_exit != 0 ==> r == signal_exit,
        signal_exit == 0 ==> r == engine_exit,
{
    if signal_exit != 0 {
        signal_exit
    } else {
        engine_exit
    }
}

/// A word stands in the argument list exactly as given.
pub open spec fn word_present(views: Seq<Seq<char>>, w: Seq<char>) -> bool {
    exists|i: int| 0 <= i < views.len() && #[trigger] views[i] == w
}

/// The `up` argument list after the defaults: `--build` appended when the
/// environment asks for default builds, no cache pass was requested and the
/// caller made no build choice; `--force-recreate` inserted after `up` when
/// the stripped flag asked for it or traffic is on and `--no-recreate` does
/// not stand; `--remove-orphans` appended unless present or switched off.
pub open spec fn spec_planned_up(
    stripped: Seq<Seq<char>>,
    no_cache: bool,
    force_recreate: bool,
    traffic_enabled: bool,
    default_build: bool,
    default_remove_orphans: bool,
) -> Seq<Seq<char>> {
    let add_build = default_build && !no_cache && !word_present(stripped, "--build"@)
        && !word_present(stripped, "--no-build"@);
    let a1 = if add_build {
        stripped.push("--build"@)
    } else {
        stripped
    };
    let add_fr = force_recreate || (traffic_enabled && !word_present(stripped, "--no-recreate"@));
    let a2 = if add_fr {
        match crate::args::first_eq(a1, "up"@, 0) {
            Some(i) => a1.insert(i + 1, "--force-recreate"@),
            None => a1.push("--force-recreate"@),
        }
    } else {
        a1
    };
    let add_ro = default_remove_orphans && !word_present(stripped, "--remove-orphans"@);
    if add_ro {
        a2.push("--remove-orphans"@)
    } else {
        a2
    }
}

/// Flag stripping reads the argument texts alone.
proof fn lemma_take_flag_congruent(a: Seq<String>, b: Seq<String>, name: &str, i: int)
    requires
        a.len() == b.len(),
        forall|k: int| 0 <= k < a.len() ==> (#[trigger] a[k])@ == b[k]@,
    ensures
        crate::args::spec_take_flag(a, name, i).1 == crate::args::spec_take_flag(b, name, i).1,
        crate::args::spec_take_flag(a, name, i).0.len() == crate::args::spec_take_flag(
            b,
            name,
            i,
        ).0.len(),
        forall|k: int|
            0 <= k < crate::args::spec_take_flag(a, name, i).0.len()
                ==> (#[trigger] crate::args::spec_take_flag(a, name, i).0[k])@
                == crate::args::spec_take_flag(b, name, i).0[k]@,
    decreases a.len() - i,
{
    if 0 <= i && i < a.len() {
        lemma_take_flag_congruent(a, b, name, i + 1);
        let ra = crate::args::spec_take_flag(a, name, i);
        let rb = crate::args::spec_take_flag(b, name, i);
        let ta = crate::args::spec_take_flag(a, name, i + 1);
        let tb = crate::args::spec_take_flag(b, name, i + 1);
        if !(a[i]@ == name@) && !crate::strings::has_prefix(a[i]@, name@ + "="@) {
            assert forall|k: int| 0 <= k < ra.0.len() implies (#[trigger] ra.0[k])@ == rb.0[k]@ by {
                if k == 0 {
                    assert(ra.0[0] == a[i]);
                    assert(rb.0[0] == b[i]);
                } else {
                    assert(ra.0[k] == ta.0[k - 1]);
                    assert(rb.0[k] == tb.0[k - 1]);
                }
            }
        }
    }
}

fn word_listed(args: &Vec<String>, w: &str) -> (r: bool)
    ensures
        r == word_present(args@.map_values(|s: String| s@), w@),
{
    let ghost views = args@.map_values(|s: String| s@);
    let mut i: usize = 0;
    while i < args.len()
        invariant
            i <= args@.len(),
            views == args@.map_values(|s: String| s@),
            forall|k: int| 0 <= k < i ==> views[k] != w@,
        decreases args@.len() - i,
    {
        if crate::strings::str_eq(args[i].as_str(), w) {
            proof {
                assert(views[i as int] == w@);
            }
            return true;
        }
        i = i + 1;
    }
    false
}

/// Shapes one engine subcommand: for `up`, the supervisor's own
/// `--no-cache` and `--force-recreate` flags are stripped and remembered,
/// and the documented defaults are added; `down` gains `--remove-orphans`
/// under its switch; everything else passes through unchanged.
pub fn plan_subcommand(
    args: &Vec<String>,
    subcommand: &str,
    traffic_enabled: bool,
    default_build: bool,
    default_remove_orphans: bool,
) -> (r: (Vec<String>, SubcommandPlan))
    ensures
        r.1.name@ == subcommand@,
        subcommand@ == "up"@ ==> ({
            let s0 = crate::args::spec_take_flag(args@, "--no-cache", 0);
            let s1 = crate::args::spec_take_flag(s0.0, "--force-recreate", 0);
            let sv = s1.0.map_values(|s: String| s@);
            &&& r.1.no_cache_requested == s0.1
            &&& r.1.force_recreate_requested == s1.1
            &&& r.0@.map_values(|s: String| s@) == spec_planned_up(
                sv,
                s0.1,
                s1.1,
                traffic_enabled,
                default_build,
                default_remove_orphans,
            )
        }),
        subcommand@ == "down"@ ==> !r.1.no_cache_requested && !r.1.force_recreate_requested && ({
            let views = args@.map_values(|s: String| s@);
            r.0@.map_values(|s: String| s@) == (if default_remove_orphans && !word_present(
                views,
                "--remove-orphans"@,
            ) {
                views.push("--remove-orphans"@)
            } else {
                views
            })
        }),
        (subcommand@ != "up"@ && subcommand@ != "down"@) ==> r.0@ == args@
            && !r.1.no_cache_requested && !r.1.force_recreate_requested,
{
    proof {
        reveal_strlit("up");
        reveal_strlit("down");
        assert("up"@.len() == 2 && "down"@.len() == 4);
    }
    let is_up = crate::strings::str_eq(subcommand, "up");
    let is_down = crate::strings::str_eq(subcommand, "down");
    if is_up {
        let (stripped0, no_cache) = crate::args::take_flag(args, "--no-cache");
        let (stripped, force_recreate) = crate::args::take_flag(&stripped0, "--force-recreate");
        proof {
            lemma_take_flag_congruent(
                stripped0@,
                crate::args::spec_take_flag(args@, "--no-cache", 0).0,
                "--force-recreate",
                0,
            );
        }
        let ghost sv = stripped@.map_values(|s: String| s@);
        proof {
            let s1 = crate::args::spec_take_flag(
                crate::args::spec_take_flag(args@, "--no-cache", 0).0,
                "--force-recreate",
                0,
            );
            assert forall|k: int| 0 <= k < sv.len() implies #[trigger] sv[k] == s1.0.map_values(
                |s: String| s@,
            )[k] by {
                assert(sv[k] == stripped@[k]@);
                assert(stripped@[k]@ == crate::args::spec_take_flag(
                    stripped0@,
                    "--force-recreate",
                    0,
                ).0[k]@);
            }
            assert(sv =~= s1.0.map_values(|s: String| s@));
        }
        let add_build = default_build && !no_cache && !word_listed(&stripped, "--build")
            && !word_listed(&stripped, "--no-build");
        let add_fr = force_recreate || (traffic_enabled && !word_listed(
            &stripped,
            "--no-recreate",
        ));
        let add_ro = default_remove_orphans && !word_listed(&stripped, "--remove-orphans");
        let mut out = stripped;
        if add_build {
            out.push("--build".to_owned());
            proof {
                assert(out@.map_values(|s: String| s@) =~= sv.push("--build"@));
            }
        }
        let ghost a1 = out@.map_values(|s: String| s@);
        if add_fr {
            out = crate::args::insert_after(&out, "up", "--force-recreate");
        }
        let ghost a2 = out@.map_values(|s: String| s@);
        if add_ro {
            out.push("--remove-orphans".to_owned());
            proof {
                assert(out@.map_values(|s: String| s@) =~= a2.push("--remove-orphans"@));
            }
        }
        proof {
            assert(out@.map_values(|s: String| s@) =~= spec_planned_up(
                sv,
                no_cache,
                force_recreate,
                traffic_enabled,
                default_build,
                default_remove_orphans,
            ));
        }
        (
            out,
            SubcommandPlan {
                name: subcommand.to_owned(),
                no_cache_requested: no_cache,
                force_recreate_requested: force_recreate,
            },
        )
    } else if is_down {
        let ghost views = args@.map_values(|s: String| s@);
        let mut out: Vec<String> = Vec::new();
        let mut i: usize = 0;
        while i < args.len()
            invariant
                i <= args@.len(),
                out@ =~= args@.subrange(0, i as int),
            decreases args@.len() - i,
        {
            out.push(args[i].clone());
            proof {
                assert(out@ =~= args@.subrange(0, i + 1));
            }
            i = i + 1;
        }
        proof {
            assert(args@.subrange(0, args@.len() as int) =~= args@);
            assert(out@ == args@);
        }
        if default_remove_orphans && !word_listed(&out, "--remove-orphans") {
            let ghost before = out@;
            out.push("--remove-orphans".to_owned());
            proof {
                assert(before == args@);
                assert forall|k: int| #![trigger out@[k]] 0 <= k < out@.len() implies out@.map_values(
                    |s: String| s@,
                )[k] == views.push("--remove-orphans"@)[k] by {
                    if k < args@.len() {
                        assert(out@[k] == args@[k]);
                    } else {
                        assert(out@[k]@ == "--remove-orphans"@);
                    }
                }
                assert(out@.map_values(|s: String| s@) =~= views.push("--remove-orphans"@));
            }
        }
        (
            out,
            SubcommandPlan {
                name: subcommand.to_owned(),
                no_cache_requested: false,
                force_recreate_requested: false,
            },
        )
    } else {
        let mut out: Vec<String> = Vec::new();
        let mut i: usize = 0;
        while i < args.len()
            invariant
                i <= args@.len(),
                out@ =~= args@.subrange(0, i as int),
            decreases args@.len() - i,
        {
            out.push(args[i].clone());
            i = i + 1;
        }
        proof {
            assert(args@.subrange(0, args@.len() as int) =~= args@);
        }
        (
            out,
            SubcommandPlan {
                name: subcommand.to_owned(),
                no_cache_requested: false,
                force_recreate_requested: false,
            },
        )
    }
}

/// The ANSI colour code a log worker paints one service with: the fixed
/// twelve-colour palette, cycled by position.
pub fn service_color(i: usize) -> (r: u8)
    ensures
        r == seq![31u8, 32u8, 33u8, 34u8, 35u8, 36u8, 91u8, 92u8, 93u8, 94u8, 95u8, 96u8][(
        i as int) % 12],
{
    let palette: [u8; 12] = [31, 32, 33, 34, 35, 36, 91, 92, 93, 94, 95, 96];
    let idx = i % 12;
    palette[idx]
}

/// Plans the log workers of a run: every container that is not a proxy
/// sidecar gets one, and the width of the name column is exactly the
/// longest kept name (zero when none is kept).
pub fn plan_log_workers(services: &Vec<String>, is_proxy: &Vec<bool>) -> (r: (Vec<usize>, usize))
    requires
        is_proxy@.len() == services@.len(),
    ensures
        forall|k: int|
            0 <= k < r.0@.len() ==> (#[trigger] r.0@[k]) < services@.len() && !is_proxy@[r.0@[
            k] as int] && services@[r.0@[k] as int]@.len() <= r.1,
        forall|i: int|
            0 <= i < services@.len() && !(#[trigger] is_proxy@[i]) ==> exists|k: int|
                0 <= k < r.0@.len() && #[trigger] r.0@[k] == i,
        r.0@.len() == 0 ==> r.1 == 0,
        r.0@.len() > 0 ==> exists|k: int|
            0 <= k < r.0@.len() && services@[(#[trigger] r.0@[k]) as int]@.len() == r.1,
{
    let mut kept: Vec<usize> = Vec::new();
    let mut widest: usize = 0;
    let mut i: usize = 0;
    while i < services.len()
        invariant
            i <= services@.len(),
            is_proxy@.len() == services@.len(),
            forall|k: int|
                0 <= k < kept@.len() ==> (#[trigger] kept@[k]) < i && !is_proxy@[kept@[
                k] as int] && services@[kept@[k] as int]@.len() <= widest,
            forall|t: int|
                0 <= t < i && !(#[trigger] is_proxy@[t]) ==> exists|k: int|
                    0 <= k < kept@.len() && #[trigger] kept@[k] == t,
            kept@.len() == 0 ==> widest == 0,
            kept@.len() > 0 ==> exists|k: int|
                0 <= k < kept@.len() && services@[(#[trigger] kept@[k]) as int]@.len() == widest,
        decreases services@.len() - i,
    {
        let ghost kept_pre = kept@;
        let ghost widest_pre = widest;
        if !is_proxy[i] {
            let n = services[i].unicode_len();
            if n > widest {
                widest = n;
            }
            kept.push(i);
            proof {
                if n > widest_pre || kept_pre.len() == 0 {
                    assert(services@[kept@[kept@.len() - 1] as int]@.len() == widest);
                } else {
                    let k = choose|k: int|
                        0 <= k < kept_pre.len() && services@[(#[trigger] kept_pre[k]) as int]@.len()
                            == widest_pre;
                    assert(kept@[k] == kept_pre[k]);
                }
            }
        }
        i = i + 1;
        proof {
            assert forall|t: int|
                0 <= t < i && !(#[trigger] is_proxy@[t]) implies exists|k: int|
                0 <= k < kept@.len() && #[trigger] kept@[k] == t by {
                if t < i - 1 {
                    let k = choose|k: int| 0 <= k < kept_pre.len() && #[trigger] kept_pre[k] == t;
                    assert(kept@[k] == t);
                } else {
                    assert(kept@[kept@.len() - 1] == t);
                }
            }
        }
    }
    (kept, widest)
}

} // verus!
