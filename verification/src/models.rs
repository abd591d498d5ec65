//! Request bodies accepted by the panel's write routes, and the
//! insert-or-update decision that their repositories make.
use vstd::prelude::*;
use crate::text::push_str;

verus! {

broadcast use vstd::string::group_string_axioms;

/// New web link: title, target URL and the preferred frame size.
pub struct NewWebLink {
    pub title: String,
    pub url: String,
    pub width: String,
    pub height: String,
}

/// Backup snapshot settings.
pub struct SaveBackupSnapshot {
    pub name: String,
    pub interval: i64,
    pub max_snapshots: i64,
    pub enable: i64,
    pub is_c_save: i64,
}

/// New cluster settings.
pub struct NewCluster {
    pub cluster_name: String,
    pub description: String,
    pub steam_cmd: String,
    pub force_install_dir: String,
    pub backup: String,
    pub mod_download_path: String,
    pub uuid: String,
    pub beta: i64,
    pub bin: i64,
    pub ugc_directory: String,
    pub persistent_storage_root: String,
    pub conf_dir: String,
}

/// Periodic announcement settings.
pub struct SaveAnnounce {
    /// Row id; zero asks for a new row.
    pub id: i64,
    pub enable: bool,
    pub frequency: i64,
    pub interval: i64,
    pub interval_unit: String,
    pub method: String,
    pub content: String,
}

/// A scheduled job.
pub struct SaveJobTask {
    pub id: i64,
    pub cluster_name: String,
    pub level_name: String,
    pub uuid: String,
    /// Five-field cron expression.
    pub cron: String,
    /// `backup`, `update`, `start`, `stop`, `restart` or another word.
    pub category: String,
    pub comment: String,
    pub announcement: String,
    pub sleep: i64,
    pub times: i64,
    pub script: i64,
}

/// An automatic check.
pub struct SaveAutoCheck {
    /// Row id; zero asks for a new row.
    pub id: i64,
    pub name: String,
    pub cluster_name: String,
    pub level_name: String,
    pub uuid: String,
    pub enable: i64,
    pub announcement: String,
    pub times: i64,
    pub sleep: i64,
    pub interval: i64,
    pub check_type: String,
}

/// The uuid an auto check without one is stored under: `UPDATE_GAME_` and
/// the cluster name.
pub open spec fn auto_check_uuid(uuid: Seq<char>, cluster_name: Seq<char>) -> Seq<char> {
    if uuid.len() == 0 { "UPDATE_GAME_"@ + cluster_name } else { uuid }
}

impl SaveAutoCheck {
    /// Fills an empty uuid with `UPDATE_GAME_` and the cluster name.
    pub fn with_default_uuid(self) -> (r: Self)
        ensures
            r.uuid@ == auto_check_uuid(self.uuid@, self.cluster_name@),
            r.id == self.id,
            r.name@ == self.name@,
            r.cluster_name@ == self.cluster_name@,
            r.level_name@ == self.level_name@,
            r.enable == self.enable,
            r.announcement@ == self.announcement@,
            r.times == self.times,
            r.sleep == self.sleep,
            r.interval == self.interval,
            r.check_type@ == self.check_type@,
    {
        let mut r = self;
        if r.uuid.as_str().is_empty() {
            let mut uuid = "UPDATE_GAME_".to_string();
            push_str(&mut uuid, r.cluster_name.as_str());
            r.uuid = uuid;
        }
        r
    }
}

/// What a repository does first when saving a row with the given id.
#[derive(PartialEq, Eq, Structural)]
pub enum SaveStep {
    /// Insert a new row and let the database pick the id.
    InsertNew,
    /// Update the row with this id.
    Update,
    /// No row had that id: insert one under it.
    InsertWithId,
    /// The update reached the row; nothing is left to do.
    Done,
}

/// The first step of saving: a zero id inserts a new row, any other updates.
pub fn first_save_step(id: i64) -> (s: SaveStep)
    ensures
        id == 0 ==> s == SaveStep::InsertNew,
        id != 0 ==> s == SaveStep::Update,
{
    if id == 0 { SaveStep::InsertNew } else { SaveStep::Update }
}

/// The step after an update: when it changed no row, the row is inserted
/// under its id.
pub fn step_after_update(rows_affected: u64) -> (s: SaveStep)
    ensures
        rows_affected == 0 ==> s == SaveStep::InsertWithId,
        rows_affected != 0 ==> s == SaveStep::Done,
{
    if rows_affected == 0 { SaveStep::InsertWithId } else { SaveStep::Done }
}

} // verus!
