use dst_admin_rust::cluster_ini::ClusterIni;
use dst_admin_rust::lobby::{
    apply_lobby_row, lobby_rows, lobby_rows_value, matching_row, parse_boolish, process_runtime,
    unique_search_names, JsonValue,
};

fn s(t: &str) -> JsonValue {
    JsonValue::Str(t.to_owned())
}

fn row(name: &str, max: JsonValue, mode: &str, password: JsonValue) -> JsonValue {
    let mut cells = vec![s("row-1"), JsonValue::Null, JsonValue::Null, JsonValue::Null, JsonValue::Null];
    cells.push(JsonValue::Int(3));
    cells.push(max);
    cells.push(JsonValue::Null);
    cells.push(s(mode));
    cells.push(s("12"));
    cells.push(s(name));
    cells.push(password);
    cells.push(JsonValue::Null);
    cells.push(JsonValue::Null);
    cells.push(s("autumn"));
    for _ in 15..20 {
        cells.push(JsonValue::Null);
    }
    cells.push(s("ap-east"));
    JsonValue::Array(cells)
}

fn object(fields: Vec<(&str, JsonValue)>) -> JsonValue {
    JsonValue::Object(fields.into_iter().map(|(k, v)| (k.to_owned(), v)).collect())
}

#[test]
fn lobby_rows_are_found_in_any_known_place() {
    let rows = JsonValue::Array(vec![row("My World", JsonValue::Int(6), "survival", s("true"))]);
    assert_eq!(lobby_rows(&rows).len(), 1);
    let nested = object(vec![("successinfo", object(vec![("data", JsonValue::Array(vec![row("a", JsonValue::Int(1), "x", JsonValue::Bool(false))]))]))]);
    assert_eq!(lobby_rows(&nested).len(), 1);
    let data = object(vec![("data", object(vec![("data", JsonValue::Array(vec![JsonValue::Int(1), row("b", JsonValue::Int(1), "x", JsonValue::Int(0))]))]))]);
    let found = lobby_rows(&data);
    assert_eq!(found.len(), 1);
    assert_eq!(found[0].name, "b");
    assert!(!found[0].password);
    assert!(lobby_rows_value(&object(vec![("data", s("none"))])).is_none());
    assert_eq!(lobby_rows(&JsonValue::Null).len(), 0);
}

#[test]
fn lobby_row_fields_and_matching() {
    let rows = lobby_rows(&JsonValue::Array(vec![
        row("Other", JsonValue::Int(6), "survival", s("yes")),
        row("My World", s("6"), "survival", s(" TRUE ")),
    ]));
    let r = &rows[1];
    assert_eq!(r.row_id, "row-1");
    assert_eq!(r.connected, 3);
    assert_eq!(r.max_connections, 6);
    assert_eq!(r.mods, 12);
    assert_eq!(r.season, "autumn");
    assert_eq!(r.region, "ap-east");
    assert!(r.password);
    let mut ini = ClusterIni::from_contents("[NETWORK]\ncluster_name = My World\ncluster_password = secret\n[GAMEPLAY]\nmax_players = 6\ngame_mode = survival\n");
    assert_eq!(matching_row(&rows, &ini), Some(1));
    ini.cluster_password = String::new();
    assert_eq!(matching_row(&rows, &ini), None);
    let mut runtime = process_runtime("Cluster1", &[]);
    assert!(!runtime.master && !runtime.caves);
    apply_lobby_row(&mut runtime, r);
    assert_eq!(runtime.mode, "survival");
    assert_eq!(runtime.connected, 3);
}

#[test]
fn boolish_words() {
    assert_eq!(parse_boolish(" Yes "), Some(true));
    assert_eq!(parse_boolish("0"), Some(false));
    assert_eq!(parse_boolish("nope"), None);
}

#[test]
fn search_names_are_deduplicated_in_order() {
    let names = vec!["a".to_owned(), "b".to_owned(), "a".to_owned(), "c".to_owned(), "b".to_owned()];
    assert_eq!(unique_search_names(&names), vec!["a", "b", "c"]);
}
