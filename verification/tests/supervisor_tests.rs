use sanelens::args::{
    extract_compose_file_arg, extract_engine_arg, extract_subcommand, extract_traffic_arg,
    first_compose_file, has_flag, has_project_name, insert_after, is_falsey,
    sanitize_project_name, take_flag,
};
use sanelens::domain::EngineKind;
use sanelens::engine::{strip_service_suffix, Engine};
use sanelens::run::{new_run_id, project_name_from_run_id};
use sanelens::runner::{decide_follow_plan, exit_disposition, CleanupState, SignalState};
use sanelens::session::{
    extract_session_command, format_duration, sort_runs_newest_first, RunMetadata, SessionCommand,
};
use sanelens::yaml::Yaml;

fn args(list: &[&str]) -> Vec<String> {
    list.iter().map(|s| s.to_string()).collect()
}

#[test]
fn engine_and_traffic_flags_are_stripped() {
    let (rest, engine) =
        extract_engine_arg(&args(&["--engine", "podman", "up", "-d"])).expect("engine flag");
    assert_eq!(engine, Some(EngineKind::Podman));
    assert_eq!(rest, args(&["up", "-d"]));
    assert!(extract_engine_arg(&args(&["--engine", "lxc", "up"])).is_err());

    let (rest, traffic) = extract_traffic_arg(&args(&["--no-traffic", "up"]));
    assert_eq!(traffic, Some(false));
    assert_eq!(rest, args(&["up"]));
    let (_, traffic) = extract_traffic_arg(&args(&["--traffic=0", "up"]));
    assert_eq!(traffic, Some(false));
    let (_, traffic) = extract_traffic_arg(&args(&["--comms", "up"]));
    assert_eq!(traffic, Some(true));
}

#[test]
fn subcommand_skips_options_with_values() {
    assert_eq!(
        extract_subcommand(&args(&["-f", "c.yaml", "--ansi", "never", "up", "-d"])),
        Some("up".to_string())
    );
    assert_eq!(extract_subcommand(&args(&["--verbose", "down"])), Some("down".to_string()));
    assert_eq!(extract_subcommand(&args(&["-f", "c.yaml"])), None);
}

#[test]
fn flags_and_files_are_recognised() {
    assert!(has_project_name(&args(&["-p", "x", "up"])));
    assert!(!has_project_name(&args(&["up"])));
    assert!(has_flag(&args(&["--build"]), &["--build"]));
    assert!(!has_flag(&args(&["--build=no"]), &["--build"]));
    assert!(has_flag(&args(&["--detach=true"]), &["-d", "--detach"]));
    assert_eq!(
        extract_compose_file_arg(&args(&["-f", "a.yaml", "--file", "b.yaml"])),
        Some("b.yaml".to_string())
    );
    assert_eq!(
        first_compose_file(" : ./compose.yaml:other.yaml"),
        Some("./compose.yaml".to_string())
    );
    let (rest, enabled) = take_flag(&args(&["up", "--no-cache", "x"]), "--no-cache");
    assert!(enabled);
    assert_eq!(rest, args(&["up", "x"]));
    assert_eq!(
        insert_after(&args(&["up", "-d"]), "up", "--no-start"),
        args(&["up", "--no-start", "-d"])
    );
    assert!(is_falsey("no"));
    assert!(!is_falsey("yes"));
}

#[test]
fn project_names_are_sanitized() {
    assert_eq!(sanitize_project_name("My App!"), "my_app");
    assert_eq!(sanitize_project_name("__x__"), "x");
    assert_eq!(sanitize_project_name("###"), "compose");
}

#[test]
fn run_ids_have_the_fixed_shape() {
    let id = new_run_id(4242);
    assert_eq!(id.len(), 10);
    assert!(id.starts_with("run_"));
    assert!(id[4..]
        .chars()
        .all(|c| c.is_ascii_digit() || ('a'..='f').contains(&c)));
    assert_eq!(
        project_name_from_run_id("run_0a1b2c"),
        "sanelens_run_0a1b2c"
    );
}

#[test]
fn container_names_lose_project_prefix_and_replica_index() {
    assert_eq!(strip_service_suffix("proj_api_1", "proj"), "api");
    assert_eq!(strip_service_suffix("proj-api-1", "proj"), "api");
    assert_eq!(strip_service_suffix("api", "proj"), "api");
}

#[test]
fn follow_plan_matches_the_invocation() {
    let cmd = vec!["podman".to_string(), "compose".to_string()];
    let podman = Engine::new(EngineKind::Podman, &cmd, None);
    let plan = decide_follow_plan(&podman, "up", false, false, true, true);
    assert!(plan.log_follow_enabled);
    assert!(plan.traffic_follow);
    assert!(plan.cleanup_enabled);
    assert!(!plan.retain_run_dir);

    let detached = decide_follow_plan(&podman, "up", true, false, false, true);
    assert!(!detached.log_follow_enabled);
    assert!(!detached.traffic_follow);
    assert!(!detached.cleanup_enabled);
    assert!(detached.retain_run_dir);

    let no_start = decide_follow_plan(&podman, "up", false, true, true, true);
    assert!(!no_start.log_follow_enabled);
    assert!(!no_start.traffic_follow);
    assert!(no_start.cleanup_enabled);
}

#[test]
fn cleanup_runs_exactly_once() {
    let mut state = CleanupState {
        cleanup_enabled: true,
        cleanup_done: false,
        retain_run_dir: false,
        has_run_dir: true,
    };
    let first = state.cleanup_once();
    assert!(first.stop_children);
    assert!(first.engine_teardown);
    assert!(first.remove_run_dir);
    let second = state.cleanup_once();
    assert!(!second.stop_children);
    assert!(!second.engine_teardown);
    assert!(!second.remove_run_dir);
}

#[test]
fn detached_run_keeps_its_directory() {
    let mut state = CleanupState {
        cleanup_enabled: true,
        cleanup_done: false,
        retain_run_dir: true,
        has_run_dir: true,
    };
    let actions = state.cleanup_once();
    assert!(!actions.remove_run_dir);
    assert!(state.has_run_dir);
}

#[test]
fn first_signal_sets_exit_code_130_and_later_ones_are_ignored() {
    let mut s = SignalState::new();
    s.handle_signal();
    assert!(s.stop_requested);
    assert_eq!(s.exit_code, 130);
    s.exit_code = 130;
    s.handle_signal();
    assert_eq!(s.exit_code, 130);
    assert_eq!(exit_disposition(0, 130), 130);
    assert_eq!(exit_disposition(17, 0), 17);
}

#[test]
fn list_rows_sort_newest_first() {
    let mut older = RunMetadata::new("run_aaaaaa".to_string());
    older.started_at_ts = Some(1000);
    let mut newer = RunMetadata::new("run_bbbbbb".to_string());
    newer.started_at_ts = Some(2000);
    let unknown = RunMetadata::new("run_cccccc".to_string());
    let sorted = sort_runs_newest_first(vec![older, unknown, newer]);
    assert_eq!(sorted.len(), 3);
    assert_eq!(sorted[0].run_id, "run_bbbbbb");
    assert_eq!(sorted[1].run_id, "run_aaaaaa");
    assert_eq!(sorted[2].run_id, "run_cccccc");
    assert_eq!(format_duration(59), "59s");
    assert_eq!(format_duration(61), "1m1s");
    assert_eq!(format_duration(3700), "1h1m");
    assert_eq!(format_duration(90000), "1d1h0m");
    assert_eq!(format_duration(-5), "0s");
}

#[test]
fn session_commands_parse_after_options() {
    let args: Vec<String> = ["--ansi", "never", "logs", "run_0a1b2c"]
        .iter()
        .map(|s| s.to_string())
        .collect();
    match extract_session_command(&args) {
        Some(SessionCommand::Logs { run_id }) => {
            assert_eq!(run_id.as_deref(), Some("run_0a1b2c"));
        }
        _ => panic!("logs command not recognised"),
    }
    let up: Vec<String> = ["up", "-d"].iter().map(|s| s.to_string()).collect();
    assert!(extract_session_command(&up).is_none());
}

#[test]
fn the_last_engine_flag_wins() {
    let (rest, engine) =
        extract_engine_arg(&args(&["--engine", "podman", "--engine=docker", "up"]))
            .expect("engine flags");
    assert_eq!(engine, Some(EngineKind::Docker));
    assert_eq!(rest, args(&["up"]));
}

#[test]
fn project_pods_are_swept_by_listing() {
    let podman = args(&["podman"]);
    let out = "abc123 pod_sanelens_run_0a1b2c\ndef456 other-pod\nfeed99 sanelens_run_0a1b2c-extra\n";
    let cmd = sanelens::compose::remove_project_pods(&podman, out, "sanelens_run_0a1b2c")
        .expect("two pods match");
    assert_eq!(
        cmd,
        args(&["podman", "pod", "rm", "-f", "abc123", "feed99"])
    );
    assert_eq!(
        sanelens::compose::remove_project_pods(&podman, "x y\n", "sanelens_run_0a1b2c"),
        None
    );
}

#[test]
fn log_workers_skip_proxies_and_size_the_column() {
    let services = args(&["api", "api-app", "db"]);
    let flags = vec![true, false, true];
    let (kept, widest) = sanelens::runner::plan_log_workers(&services, &flags);
    assert_eq!(kept, vec![1]);
    assert_eq!(widest, 7);
    assert_eq!(sanelens::runner::service_color(0), 31);
    assert_eq!(sanelens::runner::service_color(6), 91);
    assert_eq!(sanelens::runner::service_color(12), 31);
}

#[test]
fn traffic_is_not_followed_after_other_subcommands() {
    let cmd = vec!["podman".to_string(), "compose".to_string()];
    let podman = Engine::new(EngineKind::Podman, &cmd, None);
    let plan = decide_follow_plan(&podman, "build", false, false, false, true);
    assert!(!plan.traffic_follow);
    assert!(!plan.cleanup_enabled);
    let down = decide_follow_plan(&podman, "down", false, false, false, true);
    assert!(!down.traffic_follow);
}

#[test]
fn subcommand_planning_strips_and_adds_the_defaults() {
    let (rest, plan) = sanelens::runner::plan_subcommand(
        &args(&["up", "--no-cache", "-d"]),
        "up",
        true,
        false,
        true,
    );
    assert_eq!(plan.name, "up");
    assert!(plan.no_cache_requested);
    assert!(!plan.force_recreate_requested);
    assert_eq!(
        rest,
        args(&["up", "--force-recreate", "-d", "--remove-orphans"])
    );

    let (rest, plan) = sanelens::runner::plan_subcommand(&args(&["down"]), "down", true, false, true);
    assert!(!plan.no_cache_requested);
    assert_eq!(rest, args(&["down", "--remove-orphans"]));

    let (rest, _) = sanelens::runner::plan_subcommand(&args(&["logs"]), "logs", true, true, true);
    assert_eq!(rest, args(&["logs"]));
}

#[test]
fn service_endpoints_read_published_host_ports() {
    let api = Yaml::Mapping(vec![(
        Yaml::Str("ports".to_string()),
        Yaml::Sequence(vec![
            Yaml::Str("8080:3000".to_string()),
            Yaml::Str("127.0.0.1:9090:90".to_string()),
            Yaml::Str("3000".to_string()),
            Yaml::Mapping(vec![(Yaml::Str("published".to_string()), Yaml::Int(8443))]),
            Yaml::Mapping(vec![(
                Yaml::Str("published".to_string()),
                Yaml::Str("${PORT:-7070}".to_string()),
            )]),
        ]),
    )]);
    let doc = vec![(
        Yaml::Str("services".to_string()),
        Yaml::Mapping(vec![(Yaml::Str("api".to_string()), api)]),
    )];
    let rows = sanelens::compose::service_endpoints(&doc);
    assert_eq!(rows.len(), 1);
    assert_eq!(rows[0].0, "api");
    assert_eq!(rows[0].1, vec![8080, 9090, 8443, 7070]);
}
