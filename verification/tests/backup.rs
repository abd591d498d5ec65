use dst_admin_rust::archive_meta::{
    archive_description, archive_entry_name, archive_meta_fields, backup_display_name, game_backup_name,
    lua_field, localized_season, parse_meta_table, ArchiveNameError, ArchivePathPart, LuaValue,
};
use dst_admin_rust::restore::{
    restore_start, restore_step, temporary_backup_name, temporary_restore_name, temporary_tombstone_name,
    temporary_upload_name, RestoreAction, RestoreEvent, RestoreFailure, RestoreState,
};
use dst_admin_rust::map::{
    has_meta_extension, latest_session_file, player_session_dir, LatestFileFilter, MapKuId, MapLevel, SessionFile,
};

const META: &str = r#"return {
  -- a world save
  clock={ cycles=10, phase="day", segs={ day=8, dusk=6, night=2 }, totaltimeinphase=240,
          remainingtimeinphase=100.5, mooomphasecycle=3 },
  seasons={ season="autumn", elapseddaysinseason=3, remainingdaysinseason=17,
            israndom={ summer=false, autumn=true, spring=false, winter=false },
            lengths={ summer=15, autumn=20, spring=20, winter=15 },
            segs={ autumn={ day=8, dusk=6, night=2 } }, mode="cycle", premode=false,
            totaldaysinseason=20 },
}"#;

fn text(v: &Option<String>) -> Option<&str> {
    v.as_deref()
}

#[test]
fn meta_fields_are_read_from_a_world_meta() {
    let m = archive_meta_fields(META).expect("meta parses");
    assert_eq!(text(&m.cycles), Some("10"));
    assert_eq!(m.phase, "day");
    assert_eq!(text(&m.segs_day), Some("8"));
    assert_eq!(text(&m.segs_dusk), Some("6"));
    assert_eq!(text(&m.segs_night), Some("2"));
    assert_eq!(text(&m.total_time_in_phase), Some("240"));
    assert_eq!(text(&m.remaining_time_in_phase), Some("100.5"));
    assert_eq!(text(&m.mooom_phase_cycle), Some("3"));
    assert_eq!(m.season, "autumn");
    assert_eq!(text(&m.elapsed_days_in_season), Some("3"));
    assert_eq!(text(&m.remaining_days_in_season), Some("17"));
    assert!(m.random_autumn);
    assert!(!m.random_summer);
    assert_eq!(text(&m.length_autumn), Some("20"));
    assert_eq!(m.mode, "cycle");
    assert!(!m.premode);
    assert_eq!(text(&m.total_days_in_season), Some("20"));
    match m.season_segs {
        Some(LuaValue::Table(fields)) => {
            assert_eq!(fields.len(), 1);
            assert_eq!(fields[0].0, "autumn");
        }
        _ => panic!("seasons.segs should be a table"),
    }
}

#[test]
fn missing_meta_fields_take_zero_values() {
    let m = archive_meta_fields("return { clock = { phase = 'night' } }").expect("meta parses");
    assert_eq!(m.phase, "night");
    assert_eq!(m.cycles, None);
    assert_eq!(m.season, "");
    assert!(!m.premode);
    assert!(m.season_segs.is_none());
}

#[test]
fn meta_that_is_not_a_table_literal_is_refused() {
    assert!(archive_meta_fields("").is_none());
    assert!(archive_meta_fields("return { clock = }").is_none());
    assert!(archive_meta_fields("return { phase = \"day }").is_none());
    assert!(archive_meta_fields("return { x = 1").is_none());
}

#[test]
fn tables_nest_at_most_sixteen_deep() {
    let ok = format!("return {}{}", "{".repeat(16), "}".repeat(16));
    assert!(parse_meta_table(&ok).is_some());
    let deep = format!("return {}{}", "{".repeat(17), "}".repeat(17));
    assert!(parse_meta_table(&deep).is_none());
}

#[test]
fn meta_keys_strings_and_positional_values() {
    let v = parse_meta_table("{ ['a'] = 'x\\ty', [b] = true, 5, \"drop\"; c = -.5, a = \"last\" }").expect("parses");
    match lua_field(Some(&v), "a") {
        Some(LuaValue::Str(s)) => assert_eq!(s, "last"),
        _ => panic!("a should be a string"),
    }
    match lua_field(Some(&v), "b") {
        Some(LuaValue::Bool(b)) => assert!(*b),
        _ => panic!("b should be true"),
    }
    match lua_field(Some(&v), "c") {
        Some(LuaValue::Number(n)) => assert_eq!(n, "-.5"),
        _ => panic!("c should be a number"),
    }
    match &v {
        LuaValue::Table(fields) => assert_eq!(fields.len(), 4),
        _ => panic!("root should be a table"),
    }
    let escaped = parse_meta_table("return 'it\\'s'").expect("parses");
    match escaped {
        LuaValue::Str(s) => assert_eq!(s, "it's"),
        _ => panic!("a string"),
    }
}

#[test]
fn archive_description_names_the_day_phase_and_season() {
    assert_eq!(archive_description(10, "day", "autumn", 3, 17), "10day_day_秋天(3_20)");
    assert_eq!(archive_description(0, "", "", 0, 0), "0day__(0_0)");
    assert_eq!(localized_season("spring"), "春天");
    assert_eq!(localized_season("summer"), "夏天");
    assert_eq!(localized_season("winter"), "冬天");
    assert_eq!(localized_season("Winter"), "");
}

#[test]
fn backup_display_name_prefers_cluster_ini() {
    let ini = "[NETWORK]\ncluster_name = My World\n";
    assert_eq!(backup_display_name(Some(ini), "Cluster1"), "My World");
    assert_eq!(backup_display_name(Some("[NETWORK]\ncluster_name =\n"), "Cluster1"), "Cluster1");
    assert_eq!(backup_display_name(None, "Cluster1"), "Cluster1");
}

#[test]
fn game_backup_name_is_checked() {
    let name = game_backup_name("2024年01月02日03点04分05秒", "My World", "10day_day_秋天(3_20)").unwrap();
    assert_eq!(name, "2024年01月02日03点04分05秒_My World_10day_day_秋天(3_20).zip");
    let err = game_backup_name("t", "a/b", "d").unwrap_err();
    assert_eq!(err.field, "backup archive name");
}

#[test]
fn archive_entry_names_join_safe_components() {
    let parts = vec![
        ArchivePathPart::Name("Cluster1".to_owned()),
        ArchivePathPart::Name("Master".to_owned()),
        ArchivePathPart::Name("server.ini".to_owned()),
    ];
    assert_eq!(archive_entry_name(&parts).ok().as_deref(), Some("Cluster1/Master/server.ini"));
    assert!(matches!(archive_entry_name(&Vec::new()), Err(ArchiveNameError::Empty)));
    let special = vec![ArchivePathPart::Name("a".to_owned()), ArchivePathPart::Special];
    assert_eq!(
        archive_entry_name(&special).err().map(|e| e.message()).as_deref(),
        Some("cluster backup path contains unsafe components")
    );
    let bad = vec![ArchivePathPart::Name(" a".to_owned()), ArchivePathPart::NotUtf8];
    assert!(matches!(archive_entry_name(&bad), Err(ArchiveNameError::Invalid(_))));
    let non_utf8 = vec![ArchivePathPart::NotUtf8, ArchivePathPart::Special];
    assert!(matches!(archive_entry_name(&non_utf8), Err(ArchiveNameError::NonUtf8Component)));
}

fn file(dir: &str, name: &str, modified: i128) -> SessionFile {
    SessionFile { dir: dir.to_owned(), name: name.to_owned(), modified }
}

#[test]
fn meta_extension_follows_the_last_dot() {
    assert!(has_meta_extension("0000000002.meta"));
    assert!(has_meta_extension("a.b.meta"));
    assert!(!has_meta_extension(".meta"));
    assert!(!has_meta_extension("0000000002"));
    assert!(!has_meta_extension("x.META"));
}

#[test]
fn latest_session_file_is_the_newest_first_in_scan_order() {
    let files = vec![
        file("a", "0001", 5),
        file("a", "0001.meta", 9),
        file("b", "0002", 7),
        file("c", "0003", 7),
    ];
    assert_eq!(latest_session_file(&files, LatestFileFilter::ExcludeMetaExtension), Some(2));
    assert_eq!(latest_session_file(&files, LatestFileFilter::Any), Some(1));
    assert_eq!(latest_session_file(&files, LatestFileFilter::OnlyMetaExtension), Some(1));
    let metas = vec![file("a", "x.meta", 1)];
    assert_eq!(latest_session_file(&metas, LatestFileFilter::ExcludeMetaExtension), None);
    assert_eq!(latest_session_file(&Vec::new(), LatestFileFilter::Any), None);
    let old = vec![file("a", "0001", -10), file("a", "0002", -20)];
    assert_eq!(latest_session_file(&old, LatestFileFilter::Any), Some(0));
}

#[test]
fn player_session_dir_joins_session_and_player() {
    let level = MapLevel::parse("Master").unwrap();
    let ku = MapKuId::parse("KU_abc123").unwrap();
    assert_eq!(player_session_dir(&level, "A1B2", &ku), "Master/save/session/A1B2/KU_abc123_");
}

fn run_restore(events: &[RestoreEvent]) -> Vec<RestoreAction> {
    let mut state = restore_start();
    assert!(state == RestoreState::Extracting);
    let mut actions = Vec::new();
    for event in events {
        let (next, action) = restore_step(state, *event);
        actions.push(action);
        state = next;
    }
    actions
}

#[test]
fn restore_over_an_existing_cluster_removes_the_old_folder_last() {
    let actions = run_restore(&[
        RestoreEvent::Succeeded,
        RestoreEvent::Present,
        RestoreEvent::Succeeded,
        RestoreEvent::Succeeded,
        RestoreEvent::Succeeded,
        RestoreEvent::Failed,
    ]);
    assert!(actions == vec![
        RestoreAction::CheckExisting,
        RestoreAction::MoveExistingAside,
        RestoreAction::PrepareStaged,
        RestoreAction::RenameStagingToCluster,
        RestoreAction::RemoveTombstone,
        RestoreAction::Done,
    ]);
}

#[test]
fn restore_failures_put_the_old_folder_back_and_clean_staging() {
    let prepare = run_restore(&[
        RestoreEvent::Succeeded,
        RestoreEvent::Present,
        RestoreEvent::Succeeded,
        RestoreEvent::Failed,
        RestoreEvent::Failed,
        RestoreEvent::Succeeded,
    ]);
    assert!(prepare == vec![
        RestoreAction::CheckExisting,
        RestoreAction::MoveExistingAside,
        RestoreAction::PrepareStaged,
        RestoreAction::PutExistingBack,
        RestoreAction::RemoveStaging,
        RestoreAction::Fail(RestoreFailure::Prepare),
    ]);
    let commit = run_restore(&[
        RestoreEvent::Succeeded,
        RestoreEvent::Absent,
        RestoreEvent::Succeeded,
        RestoreEvent::Failed,
        RestoreEvent::Succeeded,
    ]);
    assert!(commit == vec![
        RestoreAction::CheckExisting,
        RestoreAction::PrepareStaged,
        RestoreAction::RenameStagingToCluster,
        RestoreAction::RemoveStaging,
        RestoreAction::Fail(RestoreFailure::Commit),
    ]);
    let extract = run_restore(&[RestoreEvent::Failed, RestoreEvent::Failed]);
    assert!(extract == vec![RestoreAction::RemoveStaging, RestoreAction::Fail(RestoreFailure::Extract)]);
}

#[test]
fn temporary_names_carry_process_and_time() {
    assert_eq!(temporary_upload_name(42, 1700000000123), ".dst-admin-rust-upload-42-1700000000123.tmp");
    assert_eq!(temporary_backup_name(7, -5), ".dst-admin-rust-backup-7--5.zip.tmp");
    assert_eq!(temporary_restore_name("Cluster1", 9, 10), ".dst-admin-rust-restore-Cluster1-9-10");
    assert_eq!(temporary_tombstone_name("Cluster1", 9, 10), ".dst-admin-rust-old-Cluster1-9-10");
}
