//! Player statistics: the day axis of active users, and paging of the player
//! log.
use vstd::prelude::*;
use crate::text::push_str;

verus! {

broadcast use vstd::string::group_string_axioms;

/// Axis data of the active-user chart: day stamps, distinct players per day
/// and joins per day. `None` throughout for units that have no axis.
pub struct ActiveUserAxis {
    pub x: Option<Vec<i64>>,
    pub y1: Option<Vec<i64>>,
    pub y2: Option<Vec<i64>>,
}

/// One row of a top-players list.
pub struct TopStatistics {
    pub id: i64,
    pub count: i64,
    pub name: String,
    pub ku_id: String,
    pub steam_id: String,
    pub role: String,
    pub action_desc: String,
    pub created_at: String,
}

/// How often a character was picked.
pub struct RoleRateStatistics {
    pub role: String,
    pub count: i64,
}

/// Filters of the player-log listing; each present one keeps the rows whose
/// column contains it.
pub struct PlayerLogFilter {
    pub name: Option<String>,
    pub ku_id: Option<String>,
    pub steam_id: Option<String>,
    pub role: Option<String>,
    pub action: Option<String>,
    pub ip: Option<String>,
}

/// The axis of a unit that has none.
pub fn empty_active_axis() -> (a: ActiveUserAxis)
    ensures
        a.x is None && a.y1 is None && a.y2 is None,
{
    ActiveUserAxis { x: None, y1: None, y2: None }
}

/// A daily count, with the day stamp its date parsed to, if any.
pub struct CountByDate {
    pub count: i64,
    pub stamp: Option<i64>,
}

/// The count of the first row whose date is the given day, else zero.
pub open spec fn count_for_stamp_spec(stamp: i64, rows: Seq<CountByDate>) -> i64
    decreases rows.len(),
{
    if rows.len() == 0 {
        0
    } else if rows[0].stamp == Some(stamp) {
        rows[0].count
    } else {
        count_for_stamp_spec(stamp, rows.drop_first())
    }
}

pub fn count_for_stamp(stamp: i64, rows: &Vec<CountByDate>) -> (c: i64)
    ensures
        c == count_for_stamp_spec(stamp, rows@),
{
    let mut i: usize = 0;
    assert(rows@.skip(0) =~= rows@);
    while i < rows.len()
        invariant
            i <= rows.len(),
            count_for_stamp_spec(stamp, rows@) == count_for_stamp_spec(stamp, rows@.skip(i as int)),
        decreases rows.len() - i,
    {
        assert(rows@.skip(i as int).drop_first() =~= rows@.skip(i + 1));
        let matches = match rows[i].stamp {
            Some(s) => s == stamp,
            None => false,
        };
        if matches {
            return rows[i].count;
        }
        i = i + 1;
    }
    0
}

/// The active-user axis over the given days: each day, the distinct
/// players and the joins counted on it.
pub fn day_axis(stamps: &Vec<i64>, distinct_users: &Vec<CountByDate>, joins: &Vec<CountByDate>) -> (a: ActiveUserAxis)
    ensures
        a.x matches Some(x) && x@ == stamps@,
        a.y1 matches Some(y1) && y1@ == stamps@.map_values(|s: i64| count_for_stamp_spec(s, distinct_users@)),
        a.y2 matches Some(y2) && y2@ == stamps@.map_values(|s: i64| count_for_stamp_spec(s, joins@)),
{
    let mut x: Vec<i64> = Vec::new();
    let mut y1: Vec<i64> = Vec::new();
    let mut y2: Vec<i64> = Vec::new();
    let mut i: usize = 0;
    while i < stamps.len()
        invariant
            i <= stamps.len(),
            x@ == stamps@.take(i as int),
            y1@ == stamps@.take(i as int).map_values(|s: i64| count_for_stamp_spec(s, distinct_users@)),
            y2@ == stamps@.take(i as int).map_values(|s: i64| count_for_stamp_spec(s, joins@)),
        decreases stamps.len() - i,
    {
        let s = stamps[i];
        x.push(s);
        y1.push(count_for_stamp(s, distinct_users));
        y2.push(count_for_stamp(s, joins));
        proof {
            let t = stamps@.take(i + 1);
            assert(t =~= stamps@.take(i as int).push(s));
            assert(t.map_values(|s: i64| count_for_stamp_spec(s, distinct_users@))
                =~= stamps@.take(i as int).map_values(|s: i64| count_for_stamp_spec(s, distinct_users@)).push(count_for_stamp_spec(s, distinct_users@)));
            assert(t.map_values(|s: i64| count_for_stamp_spec(s, joins@))
                =~= stamps@.take(i as int).map_values(|s: i64| count_for_stamp_spec(s, joins@)).push(count_for_stamp_spec(s, joins@)));
        }
        i = i + 1;
    }
    assert(stamps@.take(stamps.len() as int) =~= stamps@);
    ActiveUserAxis { x: Some(x), y1: Some(y1), y2: Some(y2) }
}

/// A negative page size means the default of ten; other sizes are kept.
pub fn normalize_page_size(size: i64) -> (s: i64)
    ensures
        s == if size < 0 { 10 } else { size },
{
    if size < 0 { 10 } else { size }
}

/// Number of pages of `size` rows that `total` rows fill.
pub fn total_pages(total: i64, size: i64) -> (p: i64)
    requires
        total >= 0,
        total == 0 || size > 0,
    ensures
        total == 0 ==> p == 0,
        total > 0 ==> p == (total - 1) / (size as int) + 1,
{
    if total == 0 { 0 } else { (total - 1) / size + 1 }
}

/// How a player-log page is fetched.
pub struct PagePlan {
    /// Page number, at least one.
    pub page: i64,
    pub size: i64,
    /// Rows skipped before the page, saturating.
    pub offset: i64,
    /// The page is empty without asking the database: the steam id filter
    /// names a column the log table does not have.
    pub always_empty: bool,
}

/// Why a player-log page cannot be listed.
#[derive(PartialEq, Eq, Structural)]
pub enum PageError {
    /// The page size is zero.
    ZeroSize,
}

pub open spec fn saturating_i64(v: int) -> i64 {
    if v > i64::MAX { i64::MAX } else if v < i64::MIN { i64::MIN } else { v as i64 }
}

/// Plans a player-log page: the page is at least one, the size is
/// normalised and must not be zero, and a steam id filter yields nothing.
pub fn plan_player_log_page(filter: &PlayerLogFilter, page: i64, size: i64) -> (r: Result<PagePlan, PageError>)
    ensures
        ({
            let p: i64 = if page < 1 { 1 } else { page };
            let s: i64 = if size < 0 { 10 } else { size };
            match r {
                Ok(plan) => s != 0 && plan.page == p && plan.size == s
                    && plan.offset == saturating_i64((p - 1) * s)
                    && plan.always_empty == filter.steam_id is Some,
                Err(e) => s == 0 && e == PageError::ZeroSize,
            }
        }),
{
    let page: i64 = if page < 1 { 1 } else { page };
    let size = normalize_page_size(size);
    if size == 0 {
        return Err(PageError::ZeroSize);
    }
    let offset = match (page - 1).checked_mul(size) {
        Some(v) => v,
        None => i64::MAX,
    };
    Ok(PagePlan { page, size, offset, always_empty: filter.steam_id.is_some() })
}

/// The `LIKE` pattern that finds `value` anywhere in a column.
pub fn like_pattern(value: &str) -> (p: String)
    ensures
        p@ == "%"@ + value@ + "%"@,
{
    let mut p = "%".to_string();
    push_str(&mut p, value);
    push_str(&mut p, "%");
    p
}

} // verus!
