use dst_admin_rust::auth::PasswordFile;
use dst_admin_rust::cluster_ini::ClusterIni;
use dst_admin_rust::console::lua_double_quote_escape;
use dst_admin_rust::cron::RuntimeState;
use dst_admin_rust::dst_config::DstConfig;
use dst_admin_rust::archive_meta::{listed_backup_names, sort_names};
use dst_admin_rust::level::{remove_level, upsert_level, LevelIndex, LevelIndexItem};
use dst_admin_rust::player_lists::{append_unique, parse_lines, remove_values, render_lines};
use dst_admin_rust::server_ini::ServerIni;
use dst_admin_rust::session::SessionStore;
use dst_admin_rust::auth::SESSION_TTL_NANOS;

#[test]
fn server_ini_written_then_read_gives_same_settings() {
    let mut ini = ServerIni::caves_default();
    ini.name = "Caves Two".to_owned();
    ini.server_port = 11001;
    ini.id = 42;
    let text = ini.to_ini();
    let back = ServerIni::from_contents(&text, true);
    assert_eq!(back.server_port, 11001);
    assert_eq!(back.name, "Caves Two");
    assert_eq!(back.id, 42);
    assert_eq!(back.is_master, ini.is_master);
    assert_eq!(back.encode_user_path, ini.encode_user_path);
    assert_eq!(back.authentication_port, ini.authentication_port);
    assert_eq!(back.master_server_port, ini.master_server_port);
}

#[test]
fn cluster_ini_written_then_read_gives_same_settings() {
    let mut ini = ClusterIni::default_for_new_cluster();
    ini.cluster_name = "My Cluster".to_owned();
    ini.max_players = 12;
    ini.pvp = true;
    let back = ClusterIni::from_contents(&ini.to_ini());
    assert_eq!(back.cluster_name, "My Cluster");
    assert_eq!(back.max_players, 12);
    assert!(back.pvp);
    assert_eq!(back.game_mode, ini.game_mode);
}

#[test]
fn player_list_written_then_read_gives_same_entries() {
    let entries = vec!["KU_abc".to_owned(), "KU_def".to_owned()];
    let text = render_lines(&entries);
    assert_eq!(text, "KU_abc\nKU_def\n");
    assert_eq!(parse_lines(&text), entries);
}

#[test]
fn appending_twice_is_appending_once() {
    let values = vec!["KU_b".to_owned(), "KU_c".to_owned(), "KU_b".to_owned()];
    let once = append_unique(vec!["KU_a".to_owned()], &values).unwrap();
    assert_eq!(once, vec!["KU_a", "KU_b", "KU_c"]);
    let twice = append_unique(once.clone(), &values).unwrap();
    assert_eq!(twice, once);
}

#[test]
fn removed_values_are_gone_and_others_stay() {
    let current = vec!["KU_a".to_owned(), "KU_b".to_owned(), "KU_c".to_owned()];
    let left = remove_values(&current, &vec!["KU_b".to_owned()]).unwrap();
    assert_eq!(left, vec!["KU_a", "KU_c"]);
}

#[test]
fn password_file_written_then_read_gives_same_fields() {
    let file = PasswordFile {
        username: "admin".to_owned(),
        password: "s3cret".to_owned(),
        display_name: "Admin".to_owned(),
        photo_url: "https://example.invalid/a.png".to_owned(),
    };
    let text = file.render();
    assert_eq!(
        text,
        "username = admin\npassword = s3cret\ndisplayName=Admin\nphotoURL=https://example.invalid/a.png\n"
    );
    let back = PasswordFile::parse(&text).ok().unwrap();
    assert_eq!(back.username, "admin");
    assert_eq!(back.password, "s3cret");
    assert_eq!(back.display_name, "Admin");
    assert_eq!(back.photo_url, "https://example.invalid/a.png");
}

#[test]
fn stored_session_validates_until_it_expires() {
    let mut store = SessionStore::new();
    store.insert_session("abc".to_owned(), "admin".to_owned(), 1000);
    assert_eq!(store.validate("abc", 1000), Some("admin".to_owned()));
    assert_eq!(store.validate("abc", 1000 + SESSION_TTL_NANOS - 1), Some("admin".to_owned()));
    assert_eq!(store.validate("abc", 1000 + SESSION_TTL_NANOS), None);
    assert_eq!(store.validate("abc", 1000), None);
}

#[test]
fn removed_session_is_gone_and_others_stay() {
    let mut store = SessionStore::new();
    store.insert_session("one".to_owned(), "a".to_owned(), 0);
    store.insert_session("two".to_owned(), "b".to_owned(), 0);
    assert!(store.remove("one"));
    assert!(!store.remove("one"));
    assert_eq!(store.validate("one", 1), None);
    assert_eq!(store.validate("two", 1), Some("b".to_owned()));
    assert!(!store.remove(""));
}

#[test]
fn clearing_expired_sessions_keeps_live_ones() {
    let mut store = SessionStore::new();
    store.insert_session("old".to_owned(), "a".to_owned(), 0);
    store.insert_session("new".to_owned(), "b".to_owned(), 10);
    assert_eq!(store.clear_expired(SESSION_TTL_NANOS + 5), 1);
    assert_eq!(store.validate("old", 1), None);
    assert_eq!(store.validate("new", SESSION_TTL_NANOS + 5), Some("b".to_owned()));
}

#[test]
fn escaped_message_cannot_close_the_lua_string() {
    assert_eq!(lua_double_quote_escape("a\\b\"c\nd\re"), "a\\\\b\\\"c\\nd\\re");
    assert_eq!(lua_double_quote_escape(""), "");
}

#[test]
fn a_task_runs_once_per_bucket() {
    let mut state = RuntimeState::new();
    assert!(state.claim(1, "Local:2024-01-01T00:00"));
    assert!(!state.claim(1, "Local:2024-01-01T00:00"));
    assert!(state.claim(2, "Local:2024-01-01T00:00"));
    assert!(state.claim(1, "Local:2024-01-01T00:01"));
}

fn item(name: &str, file: &str) -> LevelIndexItem {
    LevelIndexItem { name: name.to_owned(), file: file.to_owned() }
}

#[test]
fn removing_a_level_drops_only_its_entries() {
    let index = LevelIndex { level_list: vec![item("森林", "Master"), item("洞穴", "Caves"), item("x", "Master")] };
    let left = remove_level(&index, "Master");
    assert_eq!(left.level_list.len(), 1);
    assert_eq!(left.level_list[0].file, "Caves");
}

#[test]
fn upserting_a_level_renames_or_adds() {
    let mut index = LevelIndex { level_list: vec![item("森林", "Master")] };
    upsert_level(&mut index, "Forest", "Master");
    assert_eq!(index.level_list.len(), 1);
    assert_eq!(index.level_list[0].name, "Forest");
    upsert_level(&mut index, "Caves", "Caves");
    assert_eq!(index.level_list.len(), 2);
    assert_eq!(index.level_list[1].file, "Caves");
}

#[test]
fn dst_config_saved_file_reads_back() {
    let mut c = DstConfig::from_contents("");
    c.steamcmd = "/opt/steamcmd".to_owned();
    c.force_install_dir = "/srv/dst".to_owned();
    c.cluster = "My Cluster=1".to_owned();
    c.backup = "/srv/backup".to_owned();
    c.conf_dir = "DoNotStarveTogether".to_owned();
    c.bin = -64;
    c.beta = 1;
    let text = c.to_file_contents();
    let back = DstConfig::from_contents(&text);
    assert_eq!(back, c);
}

#[test]
fn backup_names_are_filtered_and_sorted() {
    let names = vec![
        "b.zip".to_owned(),
        "notes.txt".to_owned(),
        "a.tar".to_owned(),
        "B.zip".to_owned(),
        "a.zip".to_owned(),
    ];
    assert_eq!(listed_backup_names(names), vec!["B.zip", "a.tar", "a.zip", "b.zip"]);
    assert_eq!(sort_names(vec!["ab".to_owned(), "a".to_owned(), "".to_owned()]), vec!["", "a", "ab"]);
}
