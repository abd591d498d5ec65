use dst_admin_rust::process::{
    first_level_process, parse_csv_records, parse_powershell_process_csv, parse_ps_output, ProcessSnapshot,
    MAX_POWERSHELL_CSV_FIELD_BYTES, MAX_POWERSHELL_CSV_RECORDS,
};

#[test]
fn parses_ps_output_without_shell_specific_assumptions() {
    let snapshots = parse_ps_output(
        " 1234  0.1  1.2 123456 7890 /srv/dst/bin/dontstarve_dedicated_server_nullrenderer -cluster ClusterA -shard Master\n",
    );

    assert_eq!(snapshots.len(), 1);
    assert_eq!(snapshots[0].pid, Some(1234));
    assert_eq!(snapshots[0].cpu_usage, "0.1");
    assert_eq!(snapshots[0].mem_usage, "1.2");
    assert_eq!(snapshots[0].virtual_size, "123456");
    assert_eq!(snapshots[0].resident_set_size, "7890");
    assert!(snapshots[0].matches_level("ClusterA", "Master"));
}

#[test]
fn parses_powershell_csv_with_crlf_and_quoted_values() {
    let snapshots = parse_powershell_process_csv(
        "\"ProcessId\",\"CommandLine\",\"WorkingSetSize\"\r\n\"4321\",\"C:\\dst\\dontstarve_dedicated_server_nullrenderer_x64.exe -cluster ClusterWin -shard Master\",\"104857600\"\r\n",
    );

    assert_eq!(snapshots.len(), 1);
    assert_eq!(snapshots[0].pid, Some(4321));
    assert_eq!(snapshots[0].resident_set_size, "102400");
    assert_eq!(snapshots[0].cpu_usage, "");
    assert_eq!(snapshots[0].mem_usage, "");
    assert_eq!(snapshots[0].virtual_size, "");
    assert!(snapshots[0].matches_level("ClusterWin", "Master"));
}

#[test]
fn parses_powershell_csv_with_quoted_windows_executable_path() {
    let snapshots = parse_powershell_process_csv(
        "\"ProcessId\",\"CommandLine\",\"WorkingSetSize\"\r\n\"4321\",\"\"\"C:\\Program Files\\dst\\dontstarve_dedicated_server_nullrenderer_x64.exe\"\" -cluster ClusterWin -shard Master\",\"104857600\"\r\n",
    );

    assert_eq!(snapshots.len(), 1);
    assert!(snapshots[0].matches_level("ClusterWin", "Master"));
}

#[test]
fn parses_powershell_csv_with_escaped_quotes_and_commas_in_command() {
    let snapshots = parse_powershell_process_csv(
        "\"CommandLine\",\"WorkingSetSize\",\"ProcessId\"\r\n\"C:\\dst\\dontstarve_dedicated_server_nullrenderer_x64.exe -cluster ClusterWin -shard Caves -note \"\"alpha,beta\"\"\",\"2048\",\"99\"\r\n",
    );

    assert_eq!(snapshots.len(), 1);
    assert_eq!(snapshots[0].pid, Some(99));
    assert_eq!(snapshots[0].resident_set_size, "2");
    assert_eq!(
        snapshots[0].command,
        "C:\\dst\\dontstarve_dedicated_server_nullrenderer_x64.exe -cluster ClusterWin -shard Caves -note \"alpha,beta\""
    );
    assert!(snapshots[0].matches_level("ClusterWin", "Caves"));
}

#[test]
fn parse_powershell_csv_skips_empty_or_malformed_command_rows() {
    let snapshots = parse_powershell_process_csv(
        "\"ProcessId\",\"CommandLine\",\"WorkingSetSize\"\r\n\"1\",\"\",\"1024\"\r\n\"2\",\"   \",\"2048\"\r\n\"3\"\r\n",
    );

    assert!(snapshots.is_empty());
}

#[test]
fn parse_powershell_csv_handles_trailing_empty_fields() {
    let records = parse_csv_records("\"a\",\"b\",\r\n\"1\",\"2\",\r\n");

    assert_eq!(records, vec![vec!["a", "b", ""], vec!["1", "2", ""]]);
}

#[test]
fn parse_powershell_csv_does_not_panic_on_unbalanced_quotes() {
    let snapshots = parse_powershell_process_csv(
        "\"ProcessId\",\"CommandLine\",\"WorkingSetSize\"\r\n\"1\",\"C:\\dst\\dontstarve_dedicated_server_nullrenderer_x64.exe -cluster ClusterWin -shard Master,\"1024\"\r\n",
    );

    assert_eq!(snapshots.len(), 1);
    assert!(snapshots[0].command.contains("ClusterWin"));
}

#[test]
fn parse_powershell_csv_rejects_oversized_fields() {
    let oversized_command = "x".repeat(MAX_POWERSHELL_CSV_FIELD_BYTES + 1);
    let csv = format!(
        "\"ProcessId\",\"CommandLine\",\"WorkingSetSize\"\r\n\"1\",\"{oversized_command}\",\"1024\"\r\n"
    );

    assert!(parse_powershell_process_csv(&csv).is_empty());
}

#[test]
fn parse_powershell_csv_caps_record_count() {
    let mut csv = "\"ProcessId\",\"CommandLine\",\"WorkingSetSize\"\r\n".to_owned();
    for index in 0..(MAX_POWERSHELL_CSV_RECORDS + 5) {
        csv.push_str(&format!(
            "\"{index}\",\"C:\\dst\\dontstarve_dedicated_server_nullrenderer_x64.exe -cluster ClusterWin -shard Master\",\"1024\"\r\n"
        ));
    }

    assert_eq!(
        parse_powershell_process_csv(&csv).len(),
        MAX_POWERSHELL_CSV_RECORDS
    );
}

fn snapshot(pid: u32, cpu: &str, mem: &str, vsz: &str, rss: &str, command: &str) -> ProcessSnapshot {
    ProcessSnapshot {
        pid: Some(pid),
        cpu_usage: cpu.to_owned(),
        mem_usage: mem.to_owned(),
        virtual_size: vsz.to_owned(),
        resident_set_size: rss.to_owned(),
        command: command.to_owned(),
    }
}

#[test]
fn process_matching_requires_dst_cluster_and_shard_arguments() {
    let snapshots = vec![snapshot(
        1234,
        "0.1",
        "0.2",
        "10",
        "20",
        "/srv/dst/bin/dontstarve_dedicated_server_nullrenderer -console -cluster ClusterSafe -shard Master",
    )];

    assert!(first_level_process(&snapshots, "ClusterSafe", "Master").is_some());
    assert!(first_level_process(&snapshots, "Cluster", "Master").is_none());
    assert!(first_level_process(&snapshots, "ClusterSafe", "Mast").is_none());
}

#[test]
fn process_matching_ignores_screen_and_tail_helpers() {
    let snapshots = vec![
        snapshot(1111, "9.9", "8.8", "777", "666", "SCREEN -S dst-ClusterSafe-Master"),
        snapshot(2222, "7.7", "6.6", "555", "444", "tail -f /var/log/ClusterSafe/Master/server_log.txt"),
        snapshot(
            3333,
            "0.1",
            "0.2",
            "10",
            "20",
            "./dontstarve_dedicated_server_nullrenderer -console -cluster ClusterSafe -shard Master",
        ),
    ];

    let process = first_level_process(&snapshots, "ClusterSafe", "Master").unwrap();

    assert_eq!(process.cpu_usage, "0.1");
}

#[test]
fn process_matching_rejects_wrappers_that_only_quote_dst_arguments() {
    let snapshots = vec![snapshot(
        1234,
        "0.1",
        "0.2",
        "10",
        "20",
        "monitor -- /srv/dst/bin/dontstarve_dedicated_server_nullrenderer -cluster ClusterSafe -shard Master",
    )];

    assert!(first_level_process(&snapshots, "ClusterSafe", "Master").is_none());
}

#[test]
fn process_matching_rejects_dst_named_helper_binaries() {
    let snapshots = vec![snapshot(
        4321,
        "0.1",
        "0.2",
        "10",
        "20",
        "/tools/dontstarve_dedicated_server_watchdog -cluster ClusterSafe -shard Master",
    )];

    assert!(first_level_process(&snapshots, "ClusterSafe", "Master").is_none());
}

#[test]
fn process_matching_keeps_dst_binary_name_case_sensitive() {
    let snapshots = vec![snapshot(
        1234,
        "0.1",
        "0.2",
        "10",
        "20",
        "C:\\dst\\DONTSTARVE_DEDICATED_SERVER_NULLRENDERER_X64.EXE -cluster ClusterSafe -shard Master",
    )];

    assert!(first_level_process(&snapshots, "ClusterSafe", "Master").is_none());
}
