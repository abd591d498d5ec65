//! The cluster's `level.json` index of shards, what a shard's files make of
//! it, and the steps of deleting a shard.
use vstd::prelude::*;
use crate::game_status::World;
use crate::lua_files::contents_or_default;
use crate::server_ini::{caves_default_view, master_default_view, server_ini_from, server_ini_text, ServerIni};
use crate::cluster_ini::{cluster_ini_default_view, cluster_ini_text, ClusterIni};
use crate::text::{chars_eq, chars_of, eq_ignore_ascii_case, eq_ignore_case_exec, push_char, push_chars, push_str,
    trim, trim_range};
use crate::validation::{path_atom_problem, validate_cluster_name, validate_filename, validate_level_name, ValidationError};

verus! {

broadcast use vstd::string::group_string_axioms;

/// One shard of the index: its display name and its folder.
pub struct LevelIndexItem {
    pub name: String,
    pub file: String,
}

/// The shards of a cluster, in order.
pub struct LevelIndex {
    pub level_list: Vec<LevelIndexItem>,
}

pub open spec fn items_view(v: Seq<LevelIndexItem>) -> Seq<(Seq<char>, Seq<char>)> {
    v.map_values(|i: LevelIndexItem| (i.name@, i.file@))
}

/// The index without the shards stored in folder `level`, order kept.
pub open spec fn without_level(items: Seq<(Seq<char>, Seq<char>)>, level: Seq<char>) -> Seq<(Seq<char>, Seq<char>)>
    decreases items.len(),
{
    if items.len() == 0 {
        Seq::empty()
    } else if items.last().1 == level {
        without_level(items.drop_last(), level)
    } else {
        without_level(items.drop_last(), level).push(items.last())
    }
}

fn copy_item(i: &LevelIndexItem) -> (c: LevelIndexItem)
    ensures
        c.name@ == i.name@,
        c.file@ == i.file@,
{
    LevelIndexItem { name: i.name.clone(), file: i.file.clone() }
}

/// The index without the shards stored in folder `level`.
pub fn remove_level(index: &LevelIndex, level: &str) -> (r: LevelIndex)
    ensures
        items_view(r.level_list@) == without_level(items_view(index.level_list@), level@),
{
    let ghost all = items_view(index.level_list@);
    let target = chars_of(level);
    let mut kept: Vec<LevelIndexItem> = Vec::new();
    let mut i: usize = 0;
    assert(all.take(0) =~= Seq::<(Seq<char>, Seq<char>)>::empty());
    while i < index.level_list.len()
        invariant
            i <= index.level_list.len(),
            all == items_view(index.level_list@),
            target@ == level@,
            items_view(kept@) == without_level(all.take(i as int), level@),
        decreases index.level_list.len() - i,
    {
        let item = &index.level_list[i];
        let f = chars_of(item.file.as_str());
        assert(all.take(i + 1).drop_last() =~= all.take(i as int));
        assert(all.take(i + 1).last() == all[i as int]);
        if !chars_eq(&f, &target) {
            let ghost before = kept@;
            let c = copy_item(item);
            kept.push(c);
            assert(items_view(kept@) =~= items_view(before).push((c.name@, c.file@)));
        }
        i = i + 1;
    }
    assert(all.take(index.level_list.len() as int) =~= all);
    LevelIndex { level_list: kept }
}

/// Removing a shard leaves no entry for its folder and keeps every other
/// entry.
pub proof fn lemma_without_level(items: Seq<(Seq<char>, Seq<char>)>, level: Seq<char>, x: (Seq<char>, Seq<char>))
    ensures
        without_level(items, level).contains(x) <==> (items.contains(x) && x.1 != level),
    decreases items.len(),
{
    if items.len() > 0 {
        let d = items.drop_last();
        lemma_without_level(d, level, x);
        let w = without_level(d, level);
        assert(items.contains(x) <==> (d.contains(x) || items.last() == x)) by {
            if items.contains(x) {
                let j = choose|j: int| 0 <= j < items.len() && items[j] == x;
                if j < d.len() { assert(d[j] == x); }
            }
            if d.contains(x) {
                let j = choose|j: int| 0 <= j < d.len() && d[j] == x;
                assert(items[j] == x);
            }
            if items.last() == x { assert(items[items.len() - 1] == x); }
        }
        if items.last().1 != level {
            let r = w.push(items.last());
            assert(r.contains(x) <==> (w.contains(x) || items.last() == x)) by {
                if r.contains(x) {
                    let j = choose|j: int| 0 <= j < r.len() && r[j] == x;
                    if j < w.len() { assert(w[j] == x); }
                }
                if w.contains(x) {
                    let j = choose|j: int| 0 <= j < w.len() && w[j] == x;
                    assert(r[j] == x);
                }
                if items.last() == x { assert(r[w.len() as int] == x); }
            }
        }
    }
}

/// The index after creating or renaming the shard in folder `file`: the
/// first entry for that folder takes the new name, else an entry is added.
pub open spec fn upserted(items: Seq<(Seq<char>, Seq<char>)>, name: Seq<char>, file: Seq<char>) -> Seq<(Seq<char>, Seq<char>)> {
    if exists|i: int| 0 <= i < items.len() && (#[trigger] items[i]).1 == file {
        let i = choose|i: int| 0 <= i < items.len() && (#[trigger] items[i]).1 == file
            && forall|j: int| 0 <= j < i ==> items[j].1 != file;
        items.update(i, (name, file))
    } else {
        items.push((name, file))
    }
}

/// The first entry for folder `file`, if any.
fn find_level(items: &Vec<LevelIndexItem>, file: &str) -> (r: Option<usize>)
    ensures
        match r {
            Some(i) => i < items.len() && items_view(items@)[i as int].1 == file@
                && forall|j: int| 0 <= j < i ==> items_view(items@)[j].1 != file@,
            None => forall|j: int| 0 <= j < items.len() ==> items_view(items@)[j].1 != file@,
        },
{
    let ghost all = items_view(items@);
    let target = chars_of(file);
    let mut i: usize = 0;
    while i < items.len()
        invariant
            i <= items.len(),
            all == items_view(items@),
            target@ == file@,
            forall|j: int| 0 <= j < i ==> all[j].1 != file@,
        decreases items.len() - i,
    {
        let f = chars_of(items[i].file.as_str());
        if chars_eq(&f, &target) {
            return Some(i);
        }
        i = i + 1;
    }
    None
}

/// Records the shard `name` in folder `file`.
pub fn upsert_level(index: &mut LevelIndex, name: &str, file: &str)
    ensures
        items_view(final(index).level_list@) == upserted(items_view(old(index).level_list@), name@, file@),
{
    let ghost all = items_view(index.level_list@);
    match find_level(&index.level_list, file) {
        Some(i) => {
            proof {
                let c = choose|c: int| 0 <= c < all.len() && (#[trigger] all[c]).1 == file@
                    && forall|j: int| 0 <= j < c ==> all[j].1 != file@;
                assert(all[i as int].1 == file@);
                if c < i as int { assert(all[c].1 != file@); }
                if c > i as int { assert(all[i as int].1 != file@); }
            }
            let item = LevelIndexItem { name: name.to_string(), file: file.to_string() };
            index.level_list.set(i, item);
            assert(items_view(index.level_list@) =~= all.update(i as int, (name@, file@)));
        },
        None => {
            index.level_list.push(LevelIndexItem { name: name.to_string(), file: file.to_string() });
            assert(items_view(index.level_list@) =~= all.push((name@, file@)));
        },
    }
}

/// The index entries for folders that exist when no index does: `Master`
/// as the forest, then `Caves` as the caves.
pub open spec fn default_items(master_exists: bool, caves_exists: bool) -> Seq<(Seq<char>, Seq<char>)> {
    let m = if master_exists { seq![("森林"@, "Master"@)] } else { Seq::empty() };
    if caves_exists { m.push(("洞穴"@, "Caves"@)) } else { m }
}

pub fn default_level_items(master_exists: bool, caves_exists: bool) -> (r: Vec<LevelIndexItem>)
    ensures
        items_view(r@) == default_items(master_exists, caves_exists),
{
    let mut r: Vec<LevelIndexItem> = Vec::new();
    if master_exists {
        r.push(LevelIndexItem { name: "森林".to_string(), file: "Master".to_string() });
    }
    let ghost m = items_view(r@);
    if caves_exists {
        r.push(LevelIndexItem { name: "洞穴".to_string(), file: "Caves".to_string() });
        assert(items_view(r@) =~= m.push(("洞穴"@, "Caves"@)));
    }
    assert(items_view(r@) =~= default_items(master_exists, caves_exists));
    r
}

/// Why a shard was refused.
pub enum WorldError {
    /// The folder name is not a safe level name.
    InvalidLevel(ValidationError),
    /// The display name is blank.
    MissingLevelName,
}

impl WorldError {
    /// The error's display text.
    pub fn message(&self) -> (m: String)
        ensures
            match self {
                WorldError::InvalidLevel(e) => m@ == "invalid "@ + e.field@ + ": "@ + e.reason.text_spec(),
                WorldError::MissingLevelName => m@ == "levelName is required"@,
            },
    {
        match self {
            WorldError::InvalidLevel(e) => e.message(),
            WorldError::MissingLevelName => "levelName is required".to_string(),
        }
    }
}

/// Checks a shard before it is written: a safe folder name and a display name.
pub fn validate_world(world: &World) -> (r: Result<(), WorldError>)
    ensures
        match path_atom_problem(world.uuid@) {
            Some(reason) => r matches Err(WorldError::InvalidLevel(e)) && e.field == "level name" && e.reason == reason,
            None => if trim(world.level_name@).len() == 0 {
                r matches Err(WorldError::MissingLevelName)
            } else {
                r is Ok
            },
        },
{
    match validate_level_name(world.uuid.as_str()) {
        Err(e) => return Err(WorldError::InvalidLevel(e)),
        Ok(_) => {},
    }
    let v = chars_of(world.level_name.as_str());
    assert(v@.subrange(0, v.len() as int) =~= v@);
    let (a, b) = trim_range(&v, 0, v.len());
    if a == b {
        return Err(WorldError::MissingLevelName);
    }
    Ok(())
}

pub open spec fn lua_or_default(c: Option<String>) -> Seq<char> {
    match c {
        Some(s) => if s@.len() == 0 { "return {}"@ } else { s@ },
        None => "return {}"@,
    }
}

/// The shard that an index entry and its files describe: the master shard
/// is the folder named `Master` in any case; missing Lua files read as
/// `return {}`; a missing `server.ini` gives the shard's defaults.
pub fn world_from_files(item: LevelIndexItem, server_ini: Option<String>, leveldataoverride: Option<String>,
    modoverrides: Option<String>) -> (r: Result<World, ValidationError>)
    ensures
        match path_atom_problem(item.file@) {
            Some(reason) => r matches Err(e) && e.field == "level name" && e.reason == reason,
            None => r matches Ok(w) && {
                let is_master = eq_ignore_ascii_case(item.file@, "Master"@);
                &&& w.level_name@ == item.name@
                &&& w.uuid@ == item.file@
                &&& w.is_master == is_master
                &&& w.leveldataoverride@ == lua_or_default(leveldataoverride)
                &&& w.modoverrides@ == lua_or_default(modoverrides)
                &&& w.server_ini@ == match server_ini {
                    Some(c) => server_ini_from(c@, is_master),
                    None => if is_master { master_default_view() } else { caves_default_view() },
                }
            },
        },
{
    match validate_level_name(item.file.as_str()) {
        Err(e) => return Err(e),
        Ok(_) => {},
    }
    let is_master = eq_ignore_case_exec(item.file.as_str(), "Master");
    let ini = match server_ini {
        Some(c) => ServerIni::from_contents(c.as_str(), is_master),
        None => if is_master { ServerIni::master_default() } else { ServerIni::caves_default() },
    };
    Ok(World {
        level_name: item.name,
        is_master,
        uuid: item.file,
        leveldataoverride: contents_or_default(leveldataoverride),
        modoverrides: contents_or_default(modoverrides),
        server_ini: ini,
    })
}

/// The shard that a shared cluster exports for a folder: named after the
/// folder, without uuid, never the master, with caves defaults.
pub fn share_world_from_files(level_name: &str, server_ini: Option<String>, leveldataoverride: Option<String>,
    modoverrides: Option<String>) -> (r: Result<World, ValidationError>)
    ensures
        match path_atom_problem(level_name@) {
            Some(reason) => r matches Err(e) && e.field == "level name" && e.reason == reason,
            None => r matches Ok(w) && {
                &&& w.level_name@ == level_name@
                &&& w.uuid@.len() == 0
                &&& !w.is_master
                &&& w.leveldataoverride@ == lua_or_default(leveldataoverride)
                &&& w.modoverrides@ == lua_or_default(modoverrides)
                &&& w.server_ini@ == match server_ini {
                    Some(c) => server_ini_from(c@, false),
                    None => caves_default_view(),
                }
            },
        },
{
    match validate_level_name(level_name) {
        Err(e) => return Err(e),
        Ok(_) => {},
    }
    let ini = match server_ini {
        Some(c) => ServerIni::from_contents(c.as_str(), false),
        None => ServerIni::caves_default(),
    };
    Ok(World {
        level_name: level_name.to_string(),
        is_master: false,
        uuid: String::new(),
        leveldataoverride: contents_or_default(leveldataoverride),
        modoverrides: contents_or_default(modoverrides),
        server_ini: ini,
    })
}

/// The index of saved shards, and their `modoverrides` joined for the mod
/// setup file: each followed by a newline.
pub fn index_of_worlds(worlds: &Vec<World>) -> (r: (LevelIndex, String))
    ensures
        items_view(r.0.level_list@) == worlds@.map_values(|w: World| (w.level_name@, w.uuid@)),
        r.1@ == joined_modoverrides(worlds@),
{
    let mut items: Vec<LevelIndexItem> = Vec::new();
    let mut mods = String::new();
    let mut i: usize = 0;
    while i < worlds.len()
        invariant
            i <= worlds.len(),
            items_view(items@) == worlds@.take(i as int).map_values(|w: World| (w.level_name@, w.uuid@)),
            mods@ == joined_modoverrides(worlds@.take(i as int)),
        decreases worlds.len() - i,
    {
        let w = &worlds[i];
        let ghost before = items@;
        let ghost mbefore = mods@;
        items.push(LevelIndexItem { name: w.level_name.clone(), file: w.uuid.clone() });
        push_str(&mut mods, w.modoverrides.as_str());
        push_char(&mut mods, '\n');
        proof {
            reveal_strlit("\n");
            let t = worlds@.take(i + 1);
            assert(t.drop_last() =~= worlds@.take(i as int));
            assert(t.last() == worlds@[i as int]);
            assert(items_view(items@) =~= items_view(before).push((w.level_name@, w.uuid@)));
            assert(t.map_values(|w: World| (w.level_name@, w.uuid@))
                =~= worlds@.take(i as int).map_values(|w: World| (w.level_name@, w.uuid@)).push((w.level_name@, w.uuid@)));
            assert(mods@ =~= mbefore + w.modoverrides@ + "\n"@);
        }
        i = i + 1;
    }
    assert(worlds@.take(worlds.len() as int) =~= worlds@);
    (LevelIndex { level_list: items }, mods)
}

pub open spec fn joined_modoverrides(ws: Seq<World>) -> Seq<char>
    decreases ws.len(),
{
    if ws.len() == 0 {
        Seq::empty()
    } else {
        joined_modoverrides(ws.drop_last()) + ws.last().modoverrides@ + "\n"@
    }
}

pub open spec fn files_view(v: Seq<(String, String)>) -> Seq<(Seq<char>, Seq<char>)> {
    v.map_values(|f: (String, String)| (f.0@, f.1@))
}

/// The three files of a shard folder, by path below the cluster directory.
pub open spec fn world_files_spec(level: Seq<char>, leveldataoverride: Seq<char>, modoverrides: Seq<char>,
    server_ini: Seq<char>) -> Seq<(Seq<char>, Seq<char>)> {
    seq![
        (level + "/leveldataoverride.lua"@, leveldataoverride),
        (level + "/modoverrides.lua"@, modoverrides),
        (level + "/server.ini"@, server_ini),
    ]
}

fn level_file(level: &str, leaf: &str, contents: String) -> (f: (String, String))
    ensures
        f.0@ == level@ + leaf@,
        f.1@ == contents@,
{
    let mut p = level.to_string();
    push_str(&mut p, leaf);
    (p, contents)
}

/// The files that make up shard folder `level_name`, or why its name is
/// refused.
pub fn world_files(level_name: &str, leveldataoverride: &str, modoverrides: &str, server_ini: &ServerIni)
    -> (r: Result<Vec<(String, String)>, ValidationError>)
    ensures
        match path_atom_problem(level_name@) {
            Some(reason) => r matches Err(e) && e.field == "level name" && e.reason == reason,
            None => r matches Ok(fs) && files_view(fs@) == world_files_spec(level_name@, leveldataoverride@,
                modoverrides@, server_ini_text(server_ini@)),
        },
{
    match validate_level_name(level_name) {
        Err(e) => return Err(e),
        Ok(_) => {},
    }
    let mut fs: Vec<(String, String)> = Vec::new();
    fs.push(level_file(level_name, "/leveldataoverride.lua", leveldataoverride.to_string()));
    fs.push(level_file(level_name, "/modoverrides.lua", modoverrides.to_string()));
    fs.push(level_file(level_name, "/server.ini", server_ini.to_ini()));
    assert(files_view(fs@) =~= world_files_spec(level_name@, leveldataoverride@, modoverrides@,
        server_ini_text(server_ini@)));
    Ok(fs)
}

/// The files of a new cluster, each written only where missing: the
/// default `cluster.ini`, the token, and the forest and cave shards with
/// empty Lua settings and their default `server.ini`.
pub open spec fn cluster_skeleton_spec(token: Seq<char>) -> Seq<(Seq<char>, Seq<char>)> {
    seq![("cluster.ini"@, cluster_ini_text(cluster_ini_default_view())), ("cluster_token.txt"@, token)]
        + world_files_spec("Master"@, "return {}"@, "return {}"@, server_ini_text(master_default_view()))
        + world_files_spec("Caves"@, "return {}"@, "return {}"@, server_ini_text(caves_default_view()))
}

pub fn cluster_skeleton_files(token: &str) -> (fs: Vec<(String, String)>)
    ensures
        files_view(fs@) == cluster_skeleton_spec(token@),
{
    let mut fs: Vec<(String, String)> = Vec::new();
    fs.push(("cluster.ini".to_string(), ClusterIni::default_for_new_cluster().to_ini()));
    fs.push(("cluster_token.txt".to_string(), token.to_string()));
    let m = ServerIni::master_default();
    let c = ServerIni::caves_default();
    fs.push(level_file("Master", "/leveldataoverride.lua", "return {}".to_string()));
    fs.push(level_file("Master", "/modoverrides.lua", "return {}".to_string()));
    fs.push(level_file("Master", "/server.ini", m.to_ini()));
    fs.push(level_file("Caves", "/leveldataoverride.lua", "return {}".to_string()));
    fs.push(level_file("Caves", "/modoverrides.lua", "return {}".to_string()));
    fs.push(level_file("Caves", "/server.ini", c.to_ini()));
    assert(files_view(fs@) =~= cluster_skeleton_spec(token@));
    fs
}

/// The folder a cluster is moved to while a template replaces it.
pub const PREINSTALL_STAGING_DIR: &'static str = ".dst-admin-rust-preinstall-staging";

/// The files carried over from the replaced cluster into the template.
pub open spec fn identity_files() -> Seq<Seq<char>> {
    seq!["adminlist.txt"@, "blocklist.txt"@, "cluster_token.txt"@, "whitelist.txt"@]
}

pub fn identity_file_names() -> (v: Vec<&'static str>)
    ensures
        v@.map_values(|s: &'static str| s@) == identity_files(),
{
    let v = vec!["adminlist.txt", "blocklist.txt", "cluster_token.txt", "whitelist.txt"];
    assert(v@.map_values(|s: &'static str| s@) =~= identity_files());
    v
}

/// Why a preinstall template cannot be applied.
pub enum PreinstallError {
    Invalid(ValidationError),
    /// The cluster is named like the staging folder.
    ReservedClusterName,
}

impl PreinstallError {
    /// The error's display text.
    pub fn message(&self) -> (m: String)
        ensures
            match self {
                PreinstallError::Invalid(e) => m@ == "invalid "@ + e.field@ + ": "@ + e.reason.text_spec(),
                PreinstallError::ReservedClusterName => m@ == "cluster name conflicts with reserved preinstall staging path"@,
            },
    {
        match self {
            PreinstallError::Invalid(e) => e.message(),
            PreinstallError::ReservedClusterName => "cluster name conflicts with reserved preinstall staging path".to_string(),
        }
    }
}

/// Checks the template name and the cluster it replaces: both safe names,
/// and the cluster not named like the staging folder.
pub fn check_preinstall_names(template: &str, cluster: &str) -> (r: Result<(), PreinstallError>)
    ensures
        match path_atom_problem(template@) {
            Some(reason) => r matches Err(PreinstallError::Invalid(e)) && e.field == "filename" && e.reason == reason,
            None => match path_atom_problem(cluster@) {
                Some(reason) => r matches Err(PreinstallError::Invalid(e)) && e.field == "cluster name" && e.reason == reason,
                None => if cluster@ == PREINSTALL_STAGING_DIR@ {
                    r matches Err(PreinstallError::ReservedClusterName)
                } else {
                    r is Ok
                },
            },
        },
{
    match validate_filename(template) {
        Err(e) => return Err(PreinstallError::Invalid(e)),
        Ok(_) => {},
    }
    match validate_cluster_name(cluster) {
        Err(e) => return Err(PreinstallError::Invalid(e)),
        Ok(_) => {},
    }
    if chars_eq(&chars_of(cluster), &chars_of(PREINSTALL_STAGING_DIR)) {
        return Err(PreinstallError::ReservedClusterName);
    }
    Ok(())
}

/// What to do with one entry of a template folder.
#[derive(PartialEq, Eq, Structural, Clone, Copy)]
pub enum TemplateEntry {
    /// Create the folder and copy what is in it.
    Directory,
    /// Copy the file's bytes.
    File,
}

/// Why a template entry cannot be copied.
#[derive(PartialEq, Eq, Structural, Clone, Copy)]
pub enum TemplateEntryError {
    Symlink,
    Unsupported,
}

/// A template entry: symlinks are refused, folders and regular files are
/// copied, anything else is refused.
pub fn template_entry_action(is_symlink: bool, is_dir: bool, is_file: bool) -> (r: Result<TemplateEntry, TemplateEntryError>)
    ensures
        r == (if is_symlink { Err(TemplateEntryError::Symlink) } else if is_dir { Ok(TemplateEntry::Directory) }
            else if is_file { Ok(TemplateEntry::File) } else { Err(TemplateEntryError::Unsupported) }),
{
    if is_symlink {
        Err(TemplateEntryError::Symlink)
    } else if is_dir {
        Ok(TemplateEntry::Directory)
    } else if is_file {
        Ok(TemplateEntry::File)
    } else {
        Err(TemplateEntryError::Unsupported)
    }
}

/// Where the deletion of a shard stands.
#[derive(PartialEq, Eq, Structural, Clone, Copy)]
pub enum DeleteState {
    /// The new index is being saved; `staged` tells whether the shard's
    /// folder was moved aside first.
    SavingIndex { staged: bool },
    /// The index save failed and the staged folder is being moved back.
    RestoringAfterSaveFailure,
    /// The index was saved and the staged folder is being removed.
    RemovingStaged,
    /// Removing failed and the staged folder is being moved back.
    RestoringAfterRemoveFailure,
    /// The folder is back and the original index is being saved again.
    SavingOriginalIndex,
    /// The original index could not be saved; the folder is staged again.
    Restaging,
    Finished,
}

/// What the outside work reported.
#[derive(PartialEq, Eq, Structural, Clone, Copy)]
pub enum DeleteEvent {
    Succeeded,
    Failed,
}

/// What to do next.
#[derive(PartialEq, Eq, Structural, Clone, Copy)]
pub enum DeleteAction {
    SaveIndex,
    RestoreStaged,
    RemoveStaged,
    SaveOriginalIndex,
    Restage,
    /// The deletion is complete.
    Done,
    /// The deletion fails with the error of this step.
    Fail(DeleteFailure),
}

/// Which failure the deletion reports.
#[derive(PartialEq, Eq, Structural, Clone, Copy)]
pub enum DeleteFailure {
    /// The new index could not be saved.
    SaveIndex,
    /// The staged folder could not be moved back after that.
    RestoreStaged,
    /// The staged folder could not be removed.
    RemoveStaged,
    /// The original index could not be saved after the folder came back.
    SaveOriginalIndex,
}

/// The next state and action of a shard deletion, after the work of
/// `state` reported `event`. A failed index save puts a staged folder back;
/// a failed removal puts the folder back and the original index with it,
/// and restages the folder when that index cannot be saved.
pub open spec fn delete_next(state: DeleteState, event: DeleteEvent) -> (DeleteState, DeleteAction) {
    match state {
        DeleteState::SavingIndex { staged } => match event {
            DeleteEvent::Succeeded => if staged { (DeleteState::RemovingStaged, DeleteAction::RemoveStaged) }
                else { (DeleteState::Finished, DeleteAction::Done) },
            DeleteEvent::Failed => if staged { (DeleteState::RestoringAfterSaveFailure, DeleteAction::RestoreStaged) }
                else { (DeleteState::Finished, DeleteAction::Fail(DeleteFailure::SaveIndex)) },
        },
        DeleteState::RestoringAfterSaveFailure => match event {
            DeleteEvent::Succeeded => (DeleteState::Finished, DeleteAction::Fail(DeleteFailure::SaveIndex)),
            DeleteEvent::Failed => (DeleteState::Finished, DeleteAction::Fail(DeleteFailure::RestoreStaged)),
        },
        DeleteState::RemovingStaged => match event {
            DeleteEvent::Succeeded => (DeleteState::Finished, DeleteAction::Done),
            DeleteEvent::Failed => (DeleteState::RestoringAfterRemoveFailure, DeleteAction::RestoreStaged),
        },
        DeleteState::RestoringAfterRemoveFailure => match event {
            DeleteEvent::Succeeded => (DeleteState::SavingOriginalIndex, DeleteAction::SaveOriginalIndex),
            DeleteEvent::Failed => (DeleteState::Finished, DeleteAction::Fail(DeleteFailure::RemoveStaged)),
        },
        DeleteState::SavingOriginalIndex => match event {
            DeleteEvent::Succeeded => (DeleteState::Finished, DeleteAction::Fail(DeleteFailure::RemoveStaged)),
            DeleteEvent::Failed => (DeleteState::Restaging, DeleteAction::Restage),
        },
        DeleteState::Restaging => (DeleteState::Finished, DeleteAction::Fail(DeleteFailure::SaveOriginalIndex)),
        DeleteState::Finished => (DeleteState::Finished, DeleteAction::Done),
    }
}

/// The first step of a deletion, once the folder is staged or found missing.
pub fn delete_start(staged: bool) -> (r: (DeleteState, DeleteAction))
    ensures
        r == (DeleteState::SavingIndex { staged }, DeleteAction::SaveIndex),
{
    (DeleteState::SavingIndex { staged }, DeleteAction::SaveIndex)
}

/// One step of a deletion.
pub fn delete_step(state: DeleteState, event: DeleteEvent) -> (r: (DeleteState, DeleteAction))
    ensures
        r == delete_next(state, event),
{
    match state {
        DeleteState::SavingIndex { staged } => match event {
            DeleteEvent::Succeeded => if staged { (DeleteState::RemovingStaged, DeleteAction::RemoveStaged) }
                else { (DeleteState::Finished, DeleteAction::Done) },
            DeleteEvent::Failed => if staged { (DeleteState::RestoringAfterSaveFailure, DeleteAction::RestoreStaged) }
                else { (DeleteState::Finished, DeleteAction::Fail(DeleteFailure::SaveIndex)) },
        },
        DeleteState::RestoringAfterSaveFailure => match event {
            DeleteEvent::Succeeded => (DeleteState::Finished, DeleteAction::Fail(DeleteFailure::SaveIndex)),
            DeleteEvent::Failed => (DeleteState::Finished, DeleteAction::Fail(DeleteFailure::RestoreStaged)),
        },
        DeleteState::RemovingStaged => match event {
            DeleteEvent::Succeeded => (DeleteState::Finished, DeleteAction::Done),
            DeleteEvent::Failed => (DeleteState::RestoringAfterRemoveFailure, DeleteAction::RestoreStaged),
        },
        DeleteState::RestoringAfterRemoveFailure => match event {
            DeleteEvent::Succeeded => (DeleteState::SavingOriginalIndex, DeleteAction::SaveOriginalIndex),
            DeleteEvent::Failed => (DeleteState::Finished, DeleteAction::Fail(DeleteFailure::RemoveStaged)),
        },
        DeleteState::SavingOriginalIndex => match event {
            DeleteEvent::Succeeded => (DeleteState::Finished, DeleteAction::Fail(DeleteFailure::RemoveStaged)),
            DeleteEvent::Failed => (DeleteState::Restaging, DeleteAction::Restage),
        },
        DeleteState::Restaging => (DeleteState::Finished, DeleteAction::Fail(DeleteFailure::SaveOriginalIndex)),
        DeleteState::Finished => (DeleteState::Finished, DeleteAction::Done),
    }
}

/// Where the application of a preinstall template stands, once the names
/// were checked.
#[derive(PartialEq, Eq, Structural, Clone, Copy)]
pub enum PreinstallState {
    /// Whether the template folder exists is being checked.
    CheckingTemplate,
    /// Whether the staging folder already exists is being checked.
    CheckingStaging,
    /// Whether the cluster folder exists is being checked.
    CheckingExisting,
    /// The cluster folder is being moved to the staging folder.
    MovingAside,
    /// The template is being copied into the cluster folder; `had_existing`
    /// tells whether the old cluster was moved to staging.
    CopyingTemplate { had_existing: bool },
    /// The identity files are being copied from staging into the cluster.
    CopyingIdentity { had_existing: bool },
    /// After a failed copy, the partial cluster folder is being removed.
    RemovingPartial { had_existing: bool },
    /// After a failed copy, the staged old cluster is being moved back.
    PuttingBack,
    /// The template is in place and the staged old cluster is being removed.
    RemovingStaging,
    Finished,
}

/// What the outside work reported.
#[derive(PartialEq, Eq, Structural, Clone, Copy)]
pub enum PreinstallEvent {
    Succeeded,
    Failed,
    /// An existence check found the folder.
    Present,
    /// An existence check found no folder.
    Absent,
}

/// What to do next.
#[derive(PartialEq, Eq, Structural, Clone, Copy)]
pub enum PreinstallAction {
    CheckTemplate,
    CheckStaging,
    CheckExisting,
    MoveExistingToStaging,
    CopyTemplate,
    CopyIdentityFiles,
    /// Remove the cluster folder if it is there; its outcome is not reported.
    RemovePartialCluster,
    /// Move the staging folder back to the cluster if it is there; its
    /// outcome is not reported.
    PutStagingBack,
    RemoveStaging,
    /// The template is applied.
    Done,
    /// The application fails with the error of this step.
    Fail(PreinstallFailure),
}

/// Which error a failed application reports.
#[derive(PartialEq, Eq, Structural, Clone, Copy)]
pub enum PreinstallFailure {
    /// The template folder does not exist.
    TemplateMissing,
    TemplateCheck,
    /// The staging folder is left from an earlier application.
    StagingExists,
    StagingCheck,
    ExistingCheck,
    MoveAside,
    /// Copying the template or the identity files failed; the rollback ran.
    Copy,
    RemoveStaging,
}

/// The step after `state` reported `event`. A staging folder left from an
/// earlier run refuses the application; an existing cluster is moved to
/// staging; a failed copy removes the partial cluster and moves a staged
/// cluster back before failing; after success the staging folder is removed.
pub open spec fn preinstall_next(state: PreinstallState, event: PreinstallEvent) -> (PreinstallState, PreinstallAction) {
    match state {
        PreinstallState::CheckingTemplate => if event == PreinstallEvent::Present {
            (PreinstallState::CheckingStaging, PreinstallAction::CheckStaging)
        } else if event == PreinstallEvent::Absent {
            (PreinstallState::Finished, PreinstallAction::Fail(PreinstallFailure::TemplateMissing))
        } else {
            (PreinstallState::Finished, PreinstallAction::Fail(PreinstallFailure::TemplateCheck))
        },
        PreinstallState::CheckingStaging => if event == PreinstallEvent::Absent {
            (PreinstallState::CheckingExisting, PreinstallAction::CheckExisting)
        } else if event == PreinstallEvent::Present {
            (PreinstallState::Finished, PreinstallAction::Fail(PreinstallFailure::StagingExists))
        } else {
            (PreinstallState::Finished, PreinstallAction::Fail(PreinstallFailure::StagingCheck))
        },
        PreinstallState::CheckingExisting => if event == PreinstallEvent::Present {
            (PreinstallState::MovingAside, PreinstallAction::MoveExistingToStaging)
        } else if event == PreinstallEvent::Absent {
            (PreinstallState::CopyingTemplate { had_existing: false }, PreinstallAction::CopyTemplate)
        } else {
            (PreinstallState::Finished, PreinstallAction::Fail(PreinstallFailure::ExistingCheck))
        },
        PreinstallState::MovingAside => if event == PreinstallEvent::Succeeded {
            (PreinstallState::CopyingTemplate { had_existing: true }, PreinstallAction::CopyTemplate)
        } else {
            (PreinstallState::Finished, PreinstallAction::Fail(PreinstallFailure::MoveAside))
        },
        PreinstallState::CopyingTemplate { had_existing } => if event == PreinstallEvent::Succeeded {
            (PreinstallState::CopyingIdentity { had_existing }, PreinstallAction::CopyIdentityFiles)
        } else {
            (PreinstallState::RemovingPartial { had_existing }, PreinstallAction::RemovePartialCluster)
        },
        PreinstallState::CopyingIdentity { had_existing } => if event == PreinstallEvent::Succeeded {
            if had_existing {
                (PreinstallState::RemovingStaging, PreinstallAction::RemoveStaging)
            } else {
                (PreinstallState::Finished, PreinstallAction::Done)
            }
        } else {
            (PreinstallState::RemovingPartial { had_existing }, PreinstallAction::RemovePartialCluster)
        },
        PreinstallState::RemovingPartial { had_existing } => if had_existing {
            (PreinstallState::PuttingBack, PreinstallAction::PutStagingBack)
        } else {
            (PreinstallState::Finished, PreinstallAction::Fail(PreinstallFailure::Copy))
        },
        PreinstallState::PuttingBack => (PreinstallState::Finished, PreinstallAction::Fail(PreinstallFailure::Copy)),
        PreinstallState::RemovingStaging => if event == PreinstallEvent::Succeeded {
            (PreinstallState::Finished, PreinstallAction::Done)
        } else {
            (PreinstallState::Finished, PreinstallAction::Fail(PreinstallFailure::RemoveStaging))
        },
        PreinstallState::Finished => (PreinstallState::Finished, PreinstallAction::Done),
    }
}

/// The first step of applying a template: checking that it exists.
pub fn preinstall_start() -> (r: (PreinstallState, PreinstallAction))
    ensures
        r == (PreinstallState::CheckingTemplate, PreinstallAction::CheckTemplate),
{
    (PreinstallState::CheckingTemplate, PreinstallAction::CheckTemplate)
}

/// One step of applying a template.
pub fn preinstall_step(state: PreinstallState, event: PreinstallEvent) -> (r: (PreinstallState, PreinstallAction))
    ensures
        r == preinstall_next(state, event),
{
    let ev_ok = match event {
        PreinstallEvent::Succeeded => true,
        _ => false,
    };
    let ev_present = match event {
        PreinstallEvent::Present => true,
        _ => false,
    };
    let ev_absent = match event {
        PreinstallEvent::Absent => true,
        _ => false,
    };
    match state {
        PreinstallState::CheckingTemplate => if ev_present {
            (PreinstallState::CheckingStaging, PreinstallAction::CheckStaging)
        } else if ev_absent {
            (PreinstallState::Finished, PreinstallAction::Fail(PreinstallFailure::TemplateMissing))
        } else {
            (PreinstallState::Finished, PreinstallAction::Fail(PreinstallFailure::TemplateCheck))
        },
        PreinstallState::CheckingStaging => if ev_absent {
            (PreinstallState::CheckingExisting, PreinstallAction::CheckExisting)
        } else if ev_present {
            (PreinstallState::Finished, PreinstallAction::Fail(PreinstallFailure::StagingExists))
        } else {
            (PreinstallState::Finished, PreinstallAction::Fail(PreinstallFailure::StagingCheck))
        },
        PreinstallState::CheckingExisting => if ev_present {
            (PreinstallState::MovingAside, PreinstallAction::MoveExistingToStaging)
        } else if ev_absent {
            (PreinstallState::CopyingTemplate { had_existing: false }, PreinstallAction::CopyTemplate)
        } else {
            (PreinstallState::Finished, PreinstallAction::Fail(PreinstallFailure::ExistingCheck))
        },
        PreinstallState::MovingAside => if ev_ok {
            (PreinstallState::CopyingTemplate { had_existing: true }, PreinstallAction::CopyTemplate)
        } else {
            (PreinstallState::Finished, PreinstallAction::Fail(PreinstallFailure::MoveAside))
        },
        PreinstallState::CopyingTemplate { had_existing } => if ev_ok {
            (PreinstallState::CopyingIdentity { had_existing }, PreinstallAction::CopyIdentityFiles)
        } else {
            (PreinstallState::RemovingPartial { had_existing }, PreinstallAction::RemovePartialCluster)
        },
        PreinstallState::CopyingIdentity { had_existing } => if ev_ok {
            if had_existing {
                (PreinstallState::RemovingStaging, PreinstallAction::RemoveStaging)
            } else {
                (PreinstallState::Finished, PreinstallAction::Done)
            }
        } else {
            (PreinstallState::RemovingPartial { had_existing }, PreinstallAction::RemovePartialCluster)
        },
        PreinstallState::RemovingPartial { had_existing } => if had_existing {
            (PreinstallState::PuttingBack, PreinstallAction::PutStagingBack)
        } else {
            (PreinstallState::Finished, PreinstallAction::Fail(PreinstallFailure::Copy))
        },
        PreinstallState::PuttingBack => (PreinstallState::Finished, PreinstallAction::Fail(PreinstallFailure::Copy)),
        PreinstallState::RemovingStaging => if ev_ok {
            (PreinstallState::Finished, PreinstallAction::Done)
        } else {
            (PreinstallState::Finished, PreinstallAction::Fail(PreinstallFailure::RemoveStaging))
        },
        PreinstallState::Finished => (PreinstallState::Finished, PreinstallAction::Done),
    }
}

/// The folder a shard is moved to while its deletion is saved: the prefix
/// `__dst_admin_delete_` and a uuid without its dashes.
pub open spec fn delete_tombstone_spec(uuid: Seq<char>) -> Seq<char> {
    "__dst_admin_delete_"@ + uuid.filter(|c: char| c != '-')
}

pub fn delete_tombstone_name(uuid: &str) -> (s: String)
    ensures
        s@ == delete_tombstone_spec(uuid@),
{
    let v = chars_of(uuid);
    let ghost p = |c: char| c != '-';
    let mut kept: Vec<char> = Vec::new();
    let mut k: usize = 0;
    assert(v@.take(0) =~= Seq::<char>::empty());
    proof {
        reveal(Seq::filter);
    }
    while k < v.len()
        invariant
            k <= v.len(),
            p == (|c: char| c != '-'),
            kept@ == v@.take(k as int).filter(p),
        decreases v.len() - k,
    {
        proof {
            reveal(Seq::filter);
            assert(v@.take(k + 1).drop_last() =~= v@.take(k as int));
            assert(v@.take(k + 1).last() == v@[k as int]);
        }
        if v[k] != '-' {
            kept.push(v[k]);
        }
        k = k + 1;
    }
    assert(v@.take(v.len() as int) =~= v@);
    let mut s = "__dst_admin_delete_".to_string();
    push_chars(&mut s, &kept);
    s
}

} // verus!
