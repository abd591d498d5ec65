use dst_admin_rust::command::{CommandError, CommandOutput, CommandSpec, FakeCommandRunner};
use dst_admin_rust::config::{bind_addr, AppConfig, AutoUpdateModinfoConfig, PortProblem, RawAppConfig,
    RawAutoUpdateModinfoConfig};
use dst_admin_rust::cron::{announcement_rounds, pause_after_round, duration_number_prefix_len, parse_cron_expression, CronZoneKind};
use dst_admin_rust::fs_path::{absolute_normal_components, safe_relative_components, validate_component};
use dst_admin_rust::http::{accept_body_chunk, declared_length_too_large, FakeHttpClient, HttpError, HttpRequest,
    HttpResponse};
use dst_admin_rust::level::{delete_start, delete_step, DeleteAction, DeleteEvent, DeleteFailure, DeleteState};
use dst_admin_rust::logs::lossy_string;
use dst_admin_rust::lua_files::contents_or_default;
use dst_admin_rust::mod_setup::{merge_setup_contents, merged_setup_file, mods_dir_for_config, render_dedicated_server_mods_setup,
    workshop_ids};
use dst_admin_rust::models::{first_save_step, step_after_update, SaveAutoCheck, SaveStep};
use dst_admin_rust::png::{adler32, crc32};
use dst_admin_rust::restore::{preflight_eocd, restore_plan, safe_zip_components, validate_backup_file_name,
    RestoreError, ZipEntryInfo};
use dst_admin_rust::session::{generate_session_id, hex_encode};
use dst_admin_rust::statistics::{count_for_stamp, day_axis, normalize_page_size, plan_player_log_page, total_pages,
    CountByDate, PlayerLogFilter};
use dst_admin_rust::text::push_str;

fn raw_config() -> RawAppConfig {
    RawAppConfig {
        bind_address: String::new(),
        port: "8082".to_owned(),
        path: String::new(),
        data_dir: String::new(),
        database: "dst-db".to_owned(),
        steamcmd: String::new(),
        steam_api_key: None,
        flag: String::new(),
        wan_ip: String::new(),
        white_admin_ip: None,
        token: None,
        dst_version_url: String::new(),
        auto_update_modinfo: RawAutoUpdateModinfoConfig { enable: true, check_interval: 0, update_check_interval: 7 },
        dst_cli_port: String::new(),
    }
}

#[test]
fn config_defaults_fill_empty_and_zero_values() {
    let c = raw_config().into_app_config();
    assert_eq!(c.data_dir, "./");
    assert_eq!(c.dst_version_url, "https://api.dstserverlist.top/api/v2/Server/Version");
    assert_eq!(c.auto_update_modinfo.check_interval, 5);
    assert_eq!(c.auto_update_modinfo.update_check_interval, 7);
    assert!(c.auto_update_modinfo.enable);
}

#[test]
fn database_path_joins_relative_names_under_the_data_dir() {
    let mut c: AppConfig = raw_config().into_app_config();
    assert_eq!(c.database_path(), "dst-db");
    c.data_dir = " data ".to_owned();
    assert_eq!(c.database_path(), "data/dst-db");
    c.data_dir = "data/".to_owned();
    assert_eq!(c.database_path(), "data/dst-db");
    c.database = "/var/db/dst".to_owned();
    assert_eq!(c.database_path(), "/var/db/dst");
    c.database = "sqlite:dst.db".to_owned();
    assert_eq!(c.database_path(), "sqlite:dst.db");
}

#[test]
fn bind_addr_reports_bad_ports() {
    let mut c = raw_config().into_app_config();
    c.port = " 70000 ".to_owned();
    let e = bind_addr(&c).unwrap_err();
    assert_eq!(e.problem, PortProblem::TooLarge);
    assert_eq!(e.message(), "invalid HTTP port `70000` in config.yml: number too large to fit in target type");
    c.port = "80a".to_owned();
    assert_eq!(bind_addr(&c).unwrap_err().problem, PortProblem::InvalidDigit);
    c.port = "+8080".to_owned();
    c.bind_address = " ::1 ".to_owned();
    let a = bind_addr(&c).unwrap();
    assert_eq!(a.port, 8080);
    assert_eq!(a.host, "::1");
    let _ = AutoUpdateModinfoConfig { enable: false, check_interval: 1, update_check_interval: 1 };
}

#[test]
fn relative_paths_accept_plain_names_only() {
    assert_eq!(safe_relative_components("Master/server.ini").ok().unwrap(), vec!["Master", "server.ini"]);
    assert_eq!(safe_relative_components("").err().unwrap().reason(), "path cannot be empty");
    assert_eq!(
        safe_relative_components("a\\b").err().unwrap().reason(),
        "backslash path separators are not allowed"
    );
    assert_eq!(
        safe_relative_components("a/./b").err().unwrap().reason(),
        "current-directory components are not allowed"
    );
    assert_eq!(safe_relative_components("a//b").err().unwrap().reason(), "path components cannot be empty");
    assert_eq!(
        safe_relative_components("a/../b").err().unwrap().reason(),
        "parent-directory traversal is not allowed"
    );
    assert_eq!(safe_relative_components("/etc").err().unwrap().reason(), "path components cannot be empty");
    assert_eq!(safe_relative_components("a/ /b").err().unwrap().reason(), "path components cannot be empty");
    assert_eq!(
        safe_relative_components("a/b\u{7}").err().unwrap().reason(),
        "path contains unsafe characters"
    );
    assert_eq!(validate_component("..").err().unwrap().message(), "invalid path: reserved path component");
}

#[test]
fn absolute_paths_must_start_at_the_root() {
    assert_eq!(absolute_normal_components("/srv/dst").ok().unwrap(), vec!["srv", "dst"]);
    assert_eq!(absolute_normal_components("srv").err().unwrap().reason(), "directory path must be absolute");
    assert_eq!(absolute_normal_components("/").err().unwrap().reason(), "path components cannot be empty");
    assert_eq!(
        absolute_normal_components("/srv/../etc").err().unwrap().reason(),
        "parent-directory traversal is not allowed"
    );
}

fn eocd(entries: u16, comment: &[u8]) -> Vec<u8> {
    let mut v = vec![0x50, 0x4b, 0x05, 0x06, 0, 0, 0, 0];
    v.extend_from_slice(&entries.to_le_bytes());
    v.extend_from_slice(&entries.to_le_bytes());
    v.extend_from_slice(&[0; 8]);
    v.extend_from_slice(&(comment.len() as u16).to_le_bytes());
    v.extend_from_slice(comment);
    v
}

#[test]
fn zip_end_record_is_checked_before_opening() {
    assert_eq!(preflight_eocd(&eocd(3, b"hi")), Ok(()));
    let mut prefixed = vec![1, 2, 3];
    prefixed.extend(eocd(10001, b""));
    assert_eq!(preflight_eocd(&prefixed), Err(RestoreError::TooManyEntries));
    assert_eq!(preflight_eocd(b"not a zip at all, really"), Err(RestoreError::InvalidZip));
    assert_eq!(preflight_eocd(b""), Err(RestoreError::InvalidZip));
}

fn entry(name: &str, is_dir: bool, size: u64) -> ZipEntryInfo {
    ZipEntryInfo { name: name.to_owned(), enclosed: true, is_symlink: false, is_dir, size }
}

#[test]
fn restore_plan_strips_the_cluster_prefix() {
    let plan = restore_plan(&vec![
        entry("Cluster_1/", true, 0),
        entry("Cluster_1/cluster.ini", false, 10),
        entry("Cluster_1/Master/server.ini", false, 5),
    ])
    .ok()
    .unwrap();
    assert_eq!(plan.len(), 2);
    assert_eq!(plan[0].index, 1);
    assert_eq!(plan[0].relative, vec!["cluster.ini"]);
    assert_eq!(plan[1].relative, vec!["Master", "server.ini"]);
}

#[test]
fn restore_plan_refuses_unsafe_archives() {
    assert_eq!(restore_plan(&vec![entry("a/b.txt", false, 1)]).err(), Some(RestoreError::MissingClusterIni));
    assert_eq!(
        restore_plan(&vec![entry("c/cluster.ini", false, 1), entry("d/x", false, 1)]).err(),
        Some(RestoreError::EscapesClusterRoot)
    );
    assert_eq!(
        restore_plan(&vec![entry("cluster.ini", false, 1), entry("cluster.ini", false, 1)]).err(),
        Some(RestoreError::DuplicatePath)
    );
    assert_eq!(
        restore_plan(&vec![entry("cluster.ini", false, 134217728), entry("a", false, 1)]).err(),
        Some(RestoreError::TooLarge)
    );
    let mut link = entry("cluster.ini", false, 1);
    link.is_symlink = true;
    assert_eq!(restore_plan(&vec![link]).err(), Some(RestoreError::Symlink));
    assert_eq!(safe_zip_components("../x").err(), Some(RestoreError::UnsafePath));
    assert_eq!(safe_zip_components("./x").err(), Some(RestoreError::UnsafePath));
    assert_eq!(safe_zip_components("a/./b").ok().unwrap(), vec!["a", "b"]);
    assert_eq!(safe_zip_components("").err(), Some(RestoreError::EmptyPath));
    assert_eq!(RestoreError::TooLarge.message(), "backup zip uncompressed data is too large");
}

#[test]
fn backup_names_must_be_archives() {
    assert_eq!(validate_backup_file_name("save.zip").ok().unwrap(), "save.zip");
    assert_eq!(validate_backup_file_name("save.txt").err().unwrap().message(), "backup archive must be .zip or .tar");
    assert_eq!(validate_backup_file_name("").err().unwrap().message(), "invalid backup archive name: cannot be empty");
}

#[test]
fn http_request_and_response_builders() {
    let req = HttpRequest::new("POST", "https://example.invalid/x").header("Accept", "json").body(b"{}");
    assert_eq!(req.method, "POST");
    assert_eq!(req.headers, vec![("Accept".to_owned(), "json".to_owned())]);
    assert_eq!(req.body, b"{}".to_vec());
    let resp = HttpResponse::new(200).header("X-A", "1").header("content-TYPE", "text/plain").body(b"ok");
    assert_eq!(resp.content_type(), Some("text/plain"));
    assert_eq!(HttpResponse::new(204).content_type(), None);
}

#[test]
fn fake_http_client_records_and_answers_in_order() {
    let mut client = FakeHttpClient::new(vec![HttpResponse::new(201)]);
    let first = client.send(HttpRequest::new("GET", "a"));
    assert_eq!(first.ok().unwrap().status, 201);
    let second = client.send(HttpRequest::new("GET", "b"));
    assert!(matches!(second, Err(HttpError::FakeExhausted)));
    let sent = client.requests();
    assert_eq!(sent.len(), 2);
    assert_eq!(sent[1].url, "b");
}

#[test]
fn http_body_limit() {
    assert!(declared_length_too_large(Some(10485761)));
    assert!(!declared_length_too_large(Some(10485760)));
    assert!(!declared_length_too_large(None));
    let mut body = vec![1u8; 10485759];
    assert!(accept_body_chunk(&mut body, &[2]).is_ok());
    assert_eq!(body.len(), 10485760);
    assert!(matches!(accept_body_chunk(&mut body, &[3]), Err(HttpError::ResponseTooLarge)));
    assert_eq!(body.len(), 10485760);
}

#[test]
fn fake_command_runner_records_and_answers_in_order() {
    let mut runner = FakeCommandRunner::new(vec![CommandOutput::success(b"out".to_vec(), Vec::new())]);
    let out = runner.run(CommandSpec::new("steamcmd").arg("+quit")).ok().unwrap();
    assert_eq!(out.stdout, b"out".to_vec());
    assert!(matches!(runner.run(CommandSpec::new("x")), Err(CommandError::FakeExhausted)));
    let calls = runner.calls();
    assert_eq!(calls.len(), 2);
    assert_eq!(calls[0].program(), "steamcmd");
    assert_eq!(calls[0].args(), ["+quit"]);
    assert_eq!(CommandError::Timeout.message(), "command timed out");
}

#[test]
fn cron_zone_prefixes() {
    let p = parse_cron_expression("CRON_TZ=Asia/Shanghai 0 4 * * *").unwrap();
    assert_eq!(p.expression, "0 4 * * *");
    assert!(p.zone == CronZoneKind::Named);
    assert_eq!(p.zone_name, "Asia/Shanghai");
    let u = parse_cron_expression("TZ=UTC  @daily ").unwrap();
    assert!(u.zone == CronZoneKind::Utc);
    assert_eq!(u.expression, "@daily");
    assert!(parse_cron_expression("TZ=Nowhere/Zone 0 4 * * *").is_none());
    assert!(parse_cron_expression("TZ=UTC   ").is_none());
    let l = parse_cron_expression("*/5 * * * *").unwrap();
    assert!(l.zone == CronZoneKind::Local);
    let v: Vec<char> = "1.5h30m".chars().collect();
    assert_eq!(duration_number_prefix_len(&v, 0), 3);
    assert_eq!(duration_number_prefix_len(&v, 4), 2);
    let dots: Vec<char> = ".h".chars().collect();
    assert_eq!(duration_number_prefix_len(&dots, 0), 0);
}

#[test]
fn mod_setup_lines_from_modoverrides() {
    let data = "return { [\"workshop-123\"]={ enabled=true }, [\"workshop-456-x\"]={}, [\"workshop-\"]={} }";
    assert_eq!(workshop_ids(data), vec!["123", "456"]);
    assert_eq!(
        render_dedicated_server_mods_setup(data).ok().unwrap(),
        "ServerModSetup(\"123\")\nServerModSetup(\"456\")\n"
    );
    assert!(render_dedicated_server_mods_setup("[\"workshop-abc\"]").is_err());
    let merged = merge_setup_contents(
        &vec!["ServerModSetup(\"1\")".to_owned(), "ServerModSetup(\"2\")".to_owned()],
        "  ServerModSetup(\"2\")  \n\nServerModSetup(\"9\")\n",
    );
    assert_eq!(merged, "ServerModSetup(\"1\")\nServerModSetup(\"2\")\nServerModSetup(\"9\")\n");
    assert_eq!(mods_dir_for_config("/srv/dst", 1), "/srv/dst-beta/mods");
    assert_eq!(mods_dir_for_config("/srv/dst/", 0), "/srv/dst/mods");
}

#[test]
fn level_delete_steps() {
    assert!(delete_start(true) == (DeleteState::SavingIndex { staged: true }, DeleteAction::SaveIndex));
    let (s, a) = delete_step(DeleteState::SavingIndex { staged: true }, DeleteEvent::Succeeded);
    assert!(s == DeleteState::RemovingStaged && a == DeleteAction::RemoveStaged);
    let (s, a) = delete_step(s, DeleteEvent::Failed);
    assert!(s == DeleteState::RestoringAfterRemoveFailure && a == DeleteAction::RestoreStaged);
    let (s, a) = delete_step(s, DeleteEvent::Succeeded);
    assert!(s == DeleteState::SavingOriginalIndex && a == DeleteAction::SaveOriginalIndex);
    let (_, a) = delete_step(s, DeleteEvent::Failed);
    assert!(a == DeleteAction::Restage);
    let (_, a) = delete_step(DeleteState::SavingIndex { staged: false }, DeleteEvent::Failed);
    assert!(a == DeleteAction::Fail(DeleteFailure::SaveIndex));
}

#[test]
fn save_steps_and_auto_check_uuid() {
    assert!(first_save_step(0) == SaveStep::InsertNew);
    assert!(first_save_step(7) == SaveStep::Update);
    assert!(step_after_update(0) == SaveStep::InsertWithId);
    assert!(step_after_update(1) == SaveStep::Done);
    let check = SaveAutoCheck {
        id: 0,
        name: String::new(),
        cluster_name: "C1".to_owned(),
        level_name: String::new(),
        uuid: String::new(),
        enable: 1,
        announcement: String::new(),
        times: 1,
        sleep: 5,
        interval: 5,
        check_type: "LEVEL_MOD".to_owned(),
    };
    assert_eq!(check.with_default_uuid().uuid, "UPDATE_GAME_C1");
}

#[test]
fn statistics_paging_and_axis() {
    assert_eq!(normalize_page_size(-1), 10);
    assert_eq!(normalize_page_size(0), 0);
    assert_eq!(total_pages(0, 10), 0);
    assert_eq!(total_pages(0, 0), 0);
    assert_eq!(total_pages(21, 10), 3);
    let filter = PlayerLogFilter { name: None, ku_id: None, steam_id: None, role: None, action: None, ip: None };
    let plan = plan_player_log_page(&filter, 0, -5).ok().unwrap();
    assert_eq!((plan.page, plan.size, plan.offset, plan.always_empty), (1, 10, 0, false));
    assert!(plan_player_log_page(&filter, 3, 0).is_err());
    let rows = vec![CountByDate { count: 4, stamp: Some(100) }, CountByDate { count: 9, stamp: None }];
    assert_eq!(count_for_stamp(100, &rows), 4);
    assert_eq!(count_for_stamp(200, &rows), 0);
    let axis = day_axis(&vec![100, 200], &rows, &Vec::new());
    assert_eq!(axis.x, Some(vec![100, 200]));
    assert_eq!(axis.y1, Some(vec![4, 0]));
    assert_eq!(axis.y2, Some(vec![0, 0]));
}

#[test]
fn checksums_match_known_values() {
    assert_eq!(crc32(b"IEND"), 0xAE426082);
    assert_eq!(crc32(b""), 0);
    assert_eq!(adler32(b"Wikipedia"), 0x11E60398);
    assert_eq!(adler32(b""), 1);
}

#[test]
fn random_session_ids_are_hex_of_32_bytes() {
    let id = generate_session_id().ok().unwrap();
    assert_eq!(id.len(), 64);
    assert!(id.chars().all(|c| c.is_ascii_hexdigit() && !c.is_ascii_uppercase()));
    let other = generate_session_id().ok().unwrap();
    assert_ne!(id, other);
    assert_eq!(hex_encode(&[0x00, 0xab, 0x10]), "00ab10");
}

#[test]
fn lossy_decoding_keeps_ascii_and_replaces_bad_bytes() {
    assert_eq!(lossy_string(b"abc"), "abc");
    assert_eq!(lossy_string(&[0x61, 0xff, 0x62]), "a\u{FFFD}b");
}

#[test]
fn lua_file_defaults() {
    assert_eq!(contents_or_default(None), "return {}");
    assert_eq!(contents_or_default(Some(String::new())), "return {}");
    assert_eq!(contents_or_default(Some("x".to_owned())), "x");
    let mut s = "a".to_owned();
    push_str(&mut s, "b");
    assert_eq!(s, "ab");
}

#[test]
fn announcements_repeat_with_pauses_between_rounds() {
    assert_eq!(announcement_rounds("hello", 3), 3);
    assert_eq!(announcement_rounds("", 3), 0);
    assert_eq!(announcement_rounds("hello", 0), 0);
    assert_eq!(announcement_rounds("hello", -2), 0);
    assert_eq!(pause_after_round(0, 3, 5), Some(5));
    assert_eq!(pause_after_round(1, 3, 5), Some(5));
    assert_eq!(pause_after_round(2, 3, 5), None);
    assert_eq!(pause_after_round(0, 3, 0), None);
}

#[test]
fn error_messages_name_the_problem() {
    assert_eq!(dst_admin_rust::map::MapError::InvalidBase64.message(), "base64解码失败");
    assert_eq!(dst_admin_rust::map::MapError::EmptyDimensions.message(), "地图尺寸不能为空");
    assert_eq!(dst_admin_rust::console::ConsoleError::TextTooLong.message(), "console text is too long");
    assert_eq!(
        dst_admin_rust::console::ConsoleError::UnsafeText.message(),
        "console text contains unsafe characters"
    );
}

#[test]
fn empty_mod_data_leaves_the_setup_file_alone() {
    assert_eq!(merged_setup_file("", Some("  ServerModSetup(\"9\")  \n")).unwrap(), None);
    let data = "return { [\"workshop-1\"] = { enabled = true } }";
    assert_eq!(
        merged_setup_file(data, Some("ServerModSetup(\"9\")\n")).unwrap().as_deref(),
        Some("ServerModSetup(\"1\")\nServerModSetup(\"9\")\n")
    );
    assert_eq!(merged_setup_file(data, None).unwrap().as_deref(), Some("ServerModSetup(\"1\")\n"));
    assert!(merged_setup_file("\"workshop-x\"", None).is_err());
}
