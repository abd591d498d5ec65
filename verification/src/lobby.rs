//! The community lobby lookup of the cluster list: where the rows sit in the
//! lobby server's JSON reply, what a row says, which row is the cluster's,
//! and the runtime fields the list shows.
use vstd::prelude::*;
use crate::cluster_ini::ClusterIni;
use crate::numbers::{parse_i64_range, parse_i64_spec};
use crate::process::{first_level_process, first_match, ProcessSnapshot};
use crate::text::{chars_eq, chars_of, trim, trim_range};

verus! {

broadcast use vstd::string::group_string_axioms;

/// A JSON value as the reply is read: numbers that fit an `i64` are kept,
/// other numbers only as such.
pub enum JsonValue {
    Null,
    Bool(bool),
    Int(i64),
    /// A number that is not an `i64` (a fraction or a large unsigned one).
    Number,
    Str(String),
    Array(Vec<JsonValue>),
    Object(Vec<(String, JsonValue)>),
}

/// The value of the first field named `key`.
pub open spec fn object_get(fields: Seq<(String, JsonValue)>, key: Seq<char>) -> Option<JsonValue>
    decreases fields.len(),
{
    if fields.len() == 0 {
        None
    } else if fields[0].0@ == key {
        Some(fields[0].1)
    } else {
        object_get(fields.drop_first(), key)
    }
}

/// Field `key` of an object; nothing of anything else.
pub open spec fn json_get(v: JsonValue, key: Seq<char>) -> Option<JsonValue> {
    match v {
        JsonValue::Object(fields) => object_get(fields@, key),
        _ => None,
    }
}

pub open spec fn is_array(v: Option<JsonValue>) -> bool {
    v matches Some(JsonValue::Array(_))
}

/// Where the rows are: the reply itself when it is an array, else
/// `successinfo.data`, else `data`, else `data.data`, whichever is an array
/// first.
pub open spec fn rows_value(v: JsonValue) -> Option<JsonValue> {
    let nested = match json_get(v, "successinfo"@) {
        Some(s) => json_get(s, "data"@),
        None => None,
    };
    let data = json_get(v, "data"@);
    if v is Array {
        Some(v)
    } else if is_array(nested) {
        nested
    } else if data is None {
        None
    } else if is_array(data) {
        data
    } else {
        let inner = json_get(data->0, "data"@);
        if is_array(inner) {
            inner
        } else {
            None
        }
    }
}

fn same_text(a: &str, b: &str) -> (r: bool)
    ensures
        r == (a@ == b@),
{
    chars_eq(&chars_of(a), &chars_of(b))
}

/// Field `key` of `v` when `v` is an object.
#[verifier::loop_isolation(false)]
pub fn json_field<'a>(v: &'a JsonValue, key: &str) -> (r: Option<&'a JsonValue>)
    ensures
        match r {
            Some(x) => json_get(*v, key@) == Some(*x),
            None => json_get(*v, key@) is None,
        },
{
    let fields = match v {
        JsonValue::Object(fields) => fields,
        _ => return None,
    };
    assert(fields@.skip(0) =~= fields@);
    let mut k: usize = 0;
    while k < fields.len()
        invariant
            k <= fields.len(),
            object_get(fields@, key@) == object_get(fields@.skip(k as int), key@),
        decreases fields.len() - k,
    {
        assert(fields@.skip(k as int).drop_first() =~= fields@.skip(k + 1));
        assert(fields@.skip(k as int)[0] == fields@[k as int]);
        if same_text(fields[k].0.as_str(), key) {
            return Some(&fields[k].1);
        }
        k = k + 1;
    }
    None
}

fn is_array_exec(v: Option<&JsonValue>) -> (b: bool)
    ensures
        b == (v matches Some(x) && *x is Array),
{
    match v {
        Some(JsonValue::Array(_)) => true,
        _ => false,
    }
}

/// The rows of a lobby reply, as `rows_value` finds them.
pub fn lobby_rows_value(v: &JsonValue) -> (r: Option<&JsonValue>)
    ensures
        match r {
            Some(x) => rows_value(*v) == Some(*x),
            None => rows_value(*v) is None,
        },
{
    if is_array_exec(Some(v)) {
        return Some(v);
    }
    let nested = match json_field(v, "successinfo") {
        Some(s) => json_field(s, "data"),
        None => None,
    };
    if is_array_exec(nested) {
        return nested;
    }
    let data = match json_field(v, "data") {
        Some(d) => d,
        None => return None,
    };
    if is_array_exec(Some(data)) {
        return Some(data);
    }
    let inner = json_field(data, "data");
    if is_array_exec(inner) {
        inner
    } else {
        None
    }
}

/// A row of the lobby reply.
pub struct LobbyRow {
    pub row_id: String,
    pub connected: i64,
    pub max_connections: i64,
    pub mode: String,
    pub mods: i64,
    pub name: String,
    pub password: bool,
    pub season: String,
    pub region: String,
}

pub open spec fn cell(row: Seq<JsonValue>, i: int) -> Option<JsonValue> {
    if 0 <= i < row.len() {
        Some(row[i])
    } else {
        None
    }
}

/// A text cell; empty when missing or not text.
pub open spec fn string_at(row: Seq<JsonValue>, i: int) -> Seq<char> {
    match cell(row, i) {
        Some(JsonValue::Str(s)) => s@,
        _ => Seq::empty(),
    }
}

/// A number cell, or a text cell holding an `i64`; zero otherwise.
pub open spec fn i64_at(row: Seq<JsonValue>, i: int) -> i64 {
    match cell(row, i) {
        Some(JsonValue::Int(n)) => n,
        Some(JsonValue::Str(s)) => match parse_i64_spec(s@) {
            Some(n) => n,
            None => 0,
        },
        _ => 0,
    }
}

/// `true`, `1` or `yes`, and `false`, `0` or `no`, in any case and with
/// surrounding whitespace.
pub open spec fn boolish(s: Seq<char>) -> Option<bool> {
    let t = trim(s).map_values(|c: char| lower_ascii(c));
    if t == "true"@ || t == "1"@ || t == "yes"@ {
        Some(true)
    } else if t == "false"@ || t == "0"@ || t == "no"@ {
        Some(false)
    } else {
        None
    }
}

pub open spec fn lower_ascii(c: char) -> char {
    if 'A' <= c && c <= 'Z' {
        ((c as u8) + 32) as char
    } else {
        c
    }
}

/// A boolean cell, a number cell (not zero), or a text cell as `boolish`
/// reads it; `false` otherwise.
pub open spec fn bool_at(row: Seq<JsonValue>, i: int) -> bool {
    match cell(row, i) {
        Some(JsonValue::Bool(b)) => b,
        Some(JsonValue::Int(n)) => n != 0,
        Some(JsonValue::Str(s)) => match boolish(s@) {
            Some(b) => b,
            None => false,
        },
        _ => false,
    }
}

/// `r` holds the fields of the row `cells`.
pub open spec fn row_of(r: LobbyRow, cells: Seq<JsonValue>) -> bool {
    &&& r.row_id@ == string_at(cells, 0)
    &&& r.connected == i64_at(cells, 5)
    &&& r.max_connections == i64_at(cells, 6)
    &&& r.mode@ == string_at(cells, 8)
    &&& r.mods == i64_at(cells, 9)
    &&& r.name@ == string_at(cells, 10)
    &&& r.password == bool_at(cells, 11)
    &&& r.season@ == string_at(cells, 14)
    &&& r.region@ == string_at(cells, 20)
}

fn string_cell(row: &Vec<JsonValue>, i: usize) -> (s: String)
    ensures
        s@ == string_at(row@, i as int),
{
    if i < row.len() {
        match &row[i] {
            JsonValue::Str(s) => s.clone(),
            _ => String::new(),
        }
    } else {
        String::new()
    }
}

fn i64_cell(row: &Vec<JsonValue>, i: usize) -> (n: i64)
    ensures
        n == i64_at(row@, i as int),
{
    if i < row.len() {
        match &row[i] {
            JsonValue::Int(n) => *n,
            JsonValue::Str(s) => {
                let v = chars_of(s.as_str());
                proof {
                    assert(v@.subrange(0, v.len() as int) =~= v@);
                }
                match parse_i64_range(&v, 0, v.len()) {
                    Some(n) => n,
                    None => 0,
                }
            },
            _ => 0,
        }
    } else {
        0
    }
}

fn lower_ascii_exec(c: char) -> (l: char)
    ensures
        l == lower_ascii(c),
{
    if 'A' <= c && c <= 'Z' {
        let b = (c as u8) + 32;
        b as char
    } else {
        c
    }
}

/// Reads `true`/`false` words as `boolish` describes.
pub fn parse_boolish(s: &str) -> (r: Option<bool>)
    ensures
        r == boolish(s@),
{
    proof {
        reveal_strlit("true");
        reveal_strlit("1");
        reveal_strlit("yes");
        reveal_strlit("false");
        reveal_strlit("0");
        reveal_strlit("no");
    }
    let v = chars_of(s);
    let (lo, hi) = trim_range(&v, 0, v.len());
    proof {
        assert(v@.subrange(0, v.len() as int) =~= v@);
    }
    let mut t: Vec<char> = Vec::new();
    let mut k = lo;
    while k < hi
        invariant
            lo <= k <= hi <= v.len(),
            t@ == v@.subrange(lo as int, k as int).map_values(|c: char| lower_ascii(c)),
        decreases hi - k,
    {
        t.push(lower_ascii_exec(v[k]));
        assert(v@.subrange(lo as int, k + 1).map_values(|c: char| lower_ascii(c)) =~= v@.subrange(
            lo as int,
            k as int,
        ).map_values(|c: char| lower_ascii(c)).push(lower_ascii(v@[k as int])));
        k = k + 1;
    }
    if chars_eq(&t, &chars_of("true")) || chars_eq(&t, &chars_of("1")) || chars_eq(&t, &chars_of("yes")) {
        Some(true)
    } else if chars_eq(&t, &chars_of("false")) || chars_eq(&t, &chars_of("0")) || chars_eq(
        &t,
        &chars_of("no"),
    ) {
        Some(false)
    } else {
        None
    }
}

fn bool_cell(row: &Vec<JsonValue>, i: usize) -> (b: bool)
    ensures
        b == bool_at(row@, i as int),
{
    if i < row.len() {
        match &row[i] {
            JsonValue::Bool(b) => *b,
            JsonValue::Int(n) => *n != 0,
            JsonValue::Str(s) => match parse_boolish(s.as_str()) {
                Some(b) => b,
                None => false,
            },
            _ => false,
        }
    } else {
        false
    }
}

/// The row that the cells of an array describe.
pub fn lobby_row(cells: &Vec<JsonValue>) -> (r: LobbyRow)
    ensures
        row_of(r, cells@),
{
    LobbyRow {
        row_id: string_cell(cells, 0),
        connected: i64_cell(cells, 5),
        max_connections: i64_cell(cells, 6),
        mode: string_cell(cells, 8),
        mods: i64_cell(cells, 9),
        name: string_cell(cells, 10),
        password: bool_cell(cells, 11),
        season: string_cell(cells, 14),
        region: string_cell(cells, 20),
    }
}

/// The array items among `items`, in order.
pub open spec fn array_items(items: Seq<JsonValue>) -> Seq<Seq<JsonValue>>
    decreases items.len(),
{
    if items.len() == 0 {
        Seq::empty()
    } else {
        let rest = array_items(items.drop_last());
        match items.last() {
            JsonValue::Array(cells) => rest.push(cells@),
            _ => rest,
        }
    }
}

/// The rows of a lobby reply: each array item of the rows found by
/// `rows_value` gives a row; other items are skipped.
pub fn lobby_rows(v: &JsonValue) -> (rows: Vec<LobbyRow>)
    ensures
        match rows_value(*v) {
            Some(JsonValue::Array(items)) => rows.len() == array_items(items@).len() && forall|i: int|
                0 <= i < rows.len() ==> row_of(#[trigger] rows@[i], array_items(items@)[i]),
            _ => rows.len() == 0,
        },
{
    let items = match lobby_rows_value(v) {
        Some(JsonValue::Array(items)) => items,
        _ => return Vec::new(),
    };
    let mut rows: Vec<LobbyRow> = Vec::new();
    let mut k: usize = 0;
    while k < items.len()
        invariant
            k <= items.len(),
            rows.len() == array_items(items@.take(k as int)).len(),
            forall|i: int| 0 <= i < rows.len() ==> row_of(#[trigger] rows@[i], array_items(items@.take(k as int))[i]),
        decreases items.len() - k,
    {
        assert(items@.take(k + 1).drop_last() =~= items@.take(k as int));
        assert(items@.take(k + 1).last() == items@[k as int]);
        match &items[k] {
            JsonValue::Array(cells) => {
                let r = lobby_row(cells);
                rows.push(r);
            },
            _ => {},
        }
        k = k + 1;
    }
    assert(items@.take(items.len() as int) =~= items@);
    rows
}

/// A row is the cluster's when its name, slots, mode and password flag
/// agree with the cluster's settings.
pub open spec fn row_matches(r: LobbyRow, ini: ClusterIni) -> bool {
    &&& r.name@ == ini.cluster_name@
    &&& r.max_connections >= 0 && r.max_connections == ini.max_players
    &&& r.mode@ == ini.game_mode@
    &&& r.password != (ini.cluster_password@.len() == 0)
}

pub fn lobby_row_matches(r: &LobbyRow, ini: &ClusterIni) -> (b: bool)
    ensures
        b == row_matches(*r, *ini),
{
    same_text(r.name.as_str(), ini.cluster_name.as_str()) && r.max_connections >= 0 && (r.max_connections
        as u64) == ini.max_players && same_text(r.mode.as_str(), ini.game_mode.as_str()) && r.password
        != ini.cluster_password.as_str().is_empty()
}

/// The first row that is the cluster's.
pub fn matching_row(rows: &Vec<LobbyRow>, ini: &ClusterIni) -> (r: Option<usize>)
    ensures
        match r {
            Some(i) => i < rows.len() && row_matches(rows@[i as int], *ini) && forall|j: int|
                0 <= j < i ==> !row_matches(#[trigger] rows@[j], *ini),
            None => forall|j: int| 0 <= j < rows.len() ==> !row_matches(#[trigger] rows@[j], *ini),
        },
{
    let mut k: usize = 0;
    while k < rows.len()
        invariant
            k <= rows.len(),
            forall|j: int| 0 <= j < k ==> !row_matches(#[trigger] rows@[j], *ini),
        decreases rows.len() - k,
    {
        if lobby_row_matches(&rows[k], ini) {
            return Some(k);
        }
        k = k + 1;
    }
    None
}

/// The runtime fields of a cluster in the list.
pub struct ClusterRuntimeInfo {
    pub master: bool,
    pub caves: bool,
    pub row_id: String,
    pub connected: i64,
    pub max_connections: i64,
    pub mode: String,
    pub mods: i64,
    pub season: String,
    pub region: String,
}

/// Whether the cluster's `Master` and `Caves` shards run, the lobby fields
/// empty.
pub fn process_runtime(cluster_name: &str, snapshots: &[ProcessSnapshot]) -> (r: ClusterRuntimeInfo)
    ensures
        r.master == first_match(snapshots@, cluster_name@, "Master"@) is Some,
        r.caves == first_match(snapshots@, cluster_name@, "Caves"@) is Some,
        r.row_id@.len() == 0,
        r.connected == 0,
        r.max_connections == 0,
        r.mode@.len() == 0,
        r.mods == 0,
        r.season@.len() == 0,
        r.region@.len() == 0,
{
    ClusterRuntimeInfo {
        master: first_level_process(snapshots, cluster_name, "Master").is_some(),
        caves: first_level_process(snapshots, cluster_name, "Caves").is_some(),
        row_id: String::new(),
        connected: 0,
        max_connections: 0,
        mode: String::new(),
        mods: 0,
        season: String::new(),
        region: String::new(),
    }
}

/// Copies the lobby fields of `row` into the runtime fields.
pub fn apply_lobby_row(runtime: &mut ClusterRuntimeInfo, row: &LobbyRow)
    ensures
        final(runtime).master == old(runtime).master,
        final(runtime).caves == old(runtime).caves,
        final(runtime).row_id@ == row.row_id@,
        final(runtime).connected == row.connected,
        final(runtime).max_connections == row.max_connections,
        final(runtime).mode@ == row.mode@,
        final(runtime).mods == row.mods,
        final(runtime).season@ == row.season@,
        final(runtime).region@ == row.region@,
{
    runtime.row_id = row.row_id.clone();
    runtime.connected = row.connected;
    runtime.max_connections = row.max_connections;
    runtime.mode = row.mode.clone();
    runtime.mods = row.mods;
    runtime.season = row.season.clone();
    runtime.region = row.region.clone();
}

/// Some item of `v` has the text `t`.
pub open spec fn has_text(v: Seq<String>, t: Seq<char>) -> bool {
    exists|i: int| 0 <= i < v.len() && (#[trigger] v[i])@ == t
}

/// The distinct lobby search names, each at its first place.
pub fn unique_search_names(names: &Vec<String>) -> (out: Vec<String>)
    ensures
        forall|i: int| 0 <= i < out.len() ==> has_text(names@, (#[trigger] out@[i])@),
        forall|j: int| 0 <= j < names.len() ==> has_text(out@, (#[trigger] names@[j])@),
        forall|i: int, k: int| 0 <= i < k < out.len() ==> (#[trigger] out@[i])@ != (#[trigger] out@[k])@,
{
    let mut out: Vec<String> = Vec::new();
    let mut j: usize = 0;
    while j < names.len()
        invariant
            j <= names.len(),
            forall|i: int| 0 <= i < out.len() ==> has_text(names@.take(j as int), (#[trigger] out@[i])@),
            forall|m: int| 0 <= m < j ==> has_text(out@, (#[trigger] names@[m])@),
            forall|i: int, k: int| 0 <= i < k < out.len() ==> (#[trigger] out@[i])@ != (#[trigger] out@[k])@,
        decreases names.len() - j,
    {
        let mut seen = false;
        let mut i: usize = 0;
        while i < out.len()
            invariant
                i <= out.len(),
                j < names.len(),
                seen ==> has_text(out@, names@[j as int]@),
                !seen ==> forall|p: int| 0 <= p < i ==> (#[trigger] out@[p])@ != names@[j as int]@,
            decreases out.len() - i,
        {
            if !seen && same_text(out[i].as_str(), names[j].as_str()) {
                seen = true;
            }
            i = i + 1;
        }
        let ghost before = out@;
        proof {
            assert forall|i: int| 0 <= i < before.len() implies has_text(names@.take(j + 1), (#[trigger] before[i])@) by {
                let w = choose|w: int| 0 <= w < names@.take(j as int).len() && (#[trigger] names@.take(j as int)[w])@
                    == before[i]@;
                assert(names@.take(j + 1)[w] == names@.take(j as int)[w]);
            }
        }
        if !seen {
            out.push(names[j].clone());
            proof {
                assert(names@.take(j + 1)[j as int] == names@[j as int]);
                assert(has_text(names@.take(j + 1), out@[out.len() - 1]@));
                assert forall|i: int| 0 <= i < out.len() implies has_text(names@.take(j + 1), (#[trigger] out@[i])@) by {
                    if i < out.len() - 1 {
                        assert(out@[i] == before[i]);
                    }
                }
                assert forall|m: int| 0 <= m < j + 1 implies has_text(out@, (#[trigger] names@[m])@) by {
                    if m < j {
                        let w = choose|w: int| 0 <= w < before.len() && (#[trigger] before[w])@ == names@[m]@;
                        assert(out@[w] == before[w]);
                    } else {
                        assert(out@[out.len() - 1]@ == names@[m]@);
                    }
                }
            }
        }
        j = j + 1;
    }
    proof {
        assert(names@.take(names.len() as int) =~= names@);
    }
    out
}

} // verus!
