use dst_admin_rust::cluster_ini::ClusterIni;
use dst_admin_rust::command::CommandOutput;
use dst_admin_rust::game_commands::{
    kill_level_spec, exited_zero, first_running_level, kill_decision, lifecycle_level_names, stop_outcome, update_stops_levels, KillDecision,
    StopFailure,
};
use dst_admin_rust::game_status::{choose_hostname, level_statuses_from_snapshots, mem_info_from, MemFigures, World};
use dst_admin_rust::player_query::parse_player_lines;
use dst_admin_rust::process::ProcessSnapshot;
use dst_admin_rust::server_ini::ServerIni;

#[test]
fn level_status_uses_literal_process_snapshot_matching() {
    let worlds = vec![World {
        level_name: "森林".to_owned(),
        is_master: true,
        uuid: "Master".to_owned(),
        leveldataoverride: "return {}".to_owned(),
        modoverrides: "return {}".to_owned(),
        server_ini: ServerIni::master_default(),
    }];
    let snapshots = vec![ProcessSnapshot {
        pid: Some(1234),
        cpu_usage: "1.0".to_owned(),
        mem_usage: "2.0".to_owned(),
        virtual_size: "123".to_owned(),
        resident_set_size: "45".to_owned(),
        command: "./dontstarve_dedicated_server_nullrenderer -cluster ClusterProc -shard Master".to_owned(),
    }];

    let statuses = level_statuses_from_snapshots("ClusterProc", &worlds, &snapshots).unwrap();

    assert_eq!(statuses.len(), 1);
    assert!(statuses[0].status);
    assert_eq!(statuses[0].ps.cpu_usage, "1.0");
    assert_eq!(statuses[0].ps.mem_usage, "2.0");
}

#[test]
fn parser_dedupes_ku_ids_and_ignores_unrelated_lines() {
    let lines = vec![
        "[00:00:02]: player: {[m] [2] [13] [KU_1] [Alice2] [willow]}".to_owned(),
        "[00:00:01]: player: {[m] [1] [12] [KU_1] [Alice] [wilson]}".to_owned(),
        "[00:00:00]: player: {[x] [1] [12] [KU_2] [Bob] [wendy]}".to_owned(),
        "[00:00:00]: player: {[m] [1] [12] [Host] [Host] [wilson]}".to_owned(),
    ];

    let players = parse_player_lines(&lines, "m");

    assert_eq!(players.len(), 1);
    assert_eq!(players[0].ku_id, "KU_1");
    assert_eq!(players[0].name, "Alice2");
}

#[test]
fn cluster_ini_defaults_empty_game_mode_to_survival() {
    assert_eq!(ClusterIni::default_for_new_cluster().game_mode, "survival");
    assert_eq!(ClusterIni::from_contents("").game_mode, "survival");
    assert_eq!(
        ClusterIni::from_contents("[GAMEPLAY]\ngame_mode = \n").game_mode,
        "survival"
    );
}

fn shard_process(pid: Option<u32>, cluster: &str, shard: &str) -> ProcessSnapshot {
    ProcessSnapshot {
        pid,
        cpu_usage: "0.0".to_owned(),
        mem_usage: "0.0".to_owned(),
        virtual_size: "1".to_owned(),
        resident_set_size: "1".to_owned(),
        command: format!("./dontstarve_dedicated_server_nullrenderer -cluster {cluster} -shard {shard}"),
    }
}

#[test]
fn kill_fallback_targets_the_first_remaining_process() {
    let snapshots = vec![shard_process(Some(7), "C1", "Caves"), shard_process(Some(9), "C1", "Master")];
    assert!(kill_decision(&snapshots, "C1", "Master") == KillDecision::Kill(9));
    assert!(kill_decision(&snapshots, "C2", "Master") == KillDecision::NotRunning);
    let no_pid = vec![shard_process(None, "C1", "Master")];
    assert!(kill_decision(&no_pid, "C1", "Master") == KillDecision::MissingPid);
}

#[test]
fn strict_stops_report_what_lenient_stops_ignore() {
    assert!(stop_outcome(false, Err(StopFailure::Kill), Some(true)).is_ok());
    assert!(stop_outcome(true, Err(StopFailure::Kill), Some(false)) == Err(StopFailure::Kill));
    assert!(stop_outcome(true, Ok(()), None) == Err(StopFailure::Snapshots));
    assert!(stop_outcome(true, Ok(()), Some(true)) == Err(StopFailure::StillRunning));
    assert!(stop_outcome(true, Ok(()), Some(false)).is_ok());
}

#[test]
fn update_with_the_2664_binary_refuses_running_shards() {
    assert!(!update_stops_levels(2664));
    assert!(update_stops_levels(64));
    let snapshots = vec![shard_process(Some(1), "C1", "Caves")];
    let levels = vec!["Master".to_owned(), "Caves".to_owned()];
    assert_eq!(first_running_level(&snapshots, "C1", &levels), Some(1));
    assert_eq!(first_running_level(&snapshots, "C2", &levels), None);
}

#[test]
fn lifecycle_level_names_follow_the_worlds() {
    let world = |uuid: &str| World {
        level_name: "x".to_owned(),
        is_master: false,
        uuid: uuid.to_owned(),
        leveldataoverride: String::new(),
        modoverrides: String::new(),
        server_ini: ServerIni::caves_default(),
    };
    let names = lifecycle_level_names(&vec![world("Master"), world("Caves")]).unwrap();
    assert_eq!(names, vec!["Master", "Caves"]);
    let err = lifecycle_level_names(&vec![world("Master"), world("-rf")]).unwrap_err();
    assert_eq!(err.field, "level name");
}

#[test]
fn meminfo_gives_total_available_and_used_bytes() {
    let text = "MemTotal:       16000 kB\nMemFree:         1000 kB\nMemAvailable:    4000 kB\n";
    assert_eq!(
        mem_info_from(text),
        Some(MemFigures { total: 16000 * 1024, available: 4000 * 1024, used: 12000 * 1024 })
    );
    assert_eq!(mem_info_from("MemFree: 1 kB\n"), None);
    assert_eq!(mem_info_from("MemTotal: 10 kB\n\n"), None);
    assert_eq!(mem_info_from("MemTotal: ten kB\n"), None);
    assert_eq!(
        mem_info_from("MemTotal: 2 kB\nMemAvailable: 5 kB\n"),
        Some(MemFigures { total: 2048, available: 5120, used: 0 })
    );
    assert_eq!(mem_info_from("MemTotal: 18446744073709551615 kB\n").map(|m| m.total), Some(u64::MAX));
}

#[test]
fn hostname_prefers_the_environment() {
    assert_eq!(choose_hostname(Some("box".to_owned()), Some("file\n".to_owned())), "box");
    assert_eq!(choose_hostname(Some("  ".to_owned()), Some(" file\n".to_owned())), "file");
    assert_eq!(choose_hostname(None, None), "");
}

#[test]
fn strict_runs_need_exit_code_zero() {
    let out = |status_code: Option<i32>, timed_out: bool| CommandOutput {
        status_code,
        stdout: Vec::new(),
        stderr: Vec::new(),
        timed_out,
        stdout_truncated: false,
        stderr_truncated: false,
    };
    assert!(exited_zero(&out(Some(0), false)));
    assert!(!exited_zero(&out(Some(1), false)));
    assert!(!exited_zero(&out(None, true)));
}

#[test]
fn kill_commands_time_out_after_ten_seconds() {
    let spec = kill_level_spec(42);
    assert_eq!(spec.program(), "kill");
    assert_eq!(spec.args(), &["-9".to_owned(), "42".to_owned()]);
    assert_eq!(spec.timeout(), Some(std::time::Duration::from_secs(10)));
}
