//! Online-player queries: a shard is asked to print a marker-tagged table of
//! its players into its log, and the tagged lines are read back.
use vstd::prelude::*;
use crate::process::{first_level_process, first_match, ProcessSnapshot};
use crate::text::{lemma_find_seq, chars_eq, chars_of, contains_seq, find_from, find_seq, occurs_at,
    starts_with, starts_with_exec, string_from_range, push_str};
use crate::validation::{path_atom_problem, validate_level_name, ValidationError};

verus! {

broadcast use vstd::string::group_string_axioms;

/// The level name that asks every shard at once.
pub const ALL_LEVEL_MARKER: &'static str = "#ALL_LEVEL";

/// One online player.
#[derive(Debug, Clone, PartialEq, Eq)]
pub struct PlayerVo {
    pub key: String,
    pub day: String,
    pub name: String,
    pub ku_id: String,
    pub role: String,
}

pub struct PlayerView {
    pub key: Seq<char>,
    pub day: Seq<char>,
    pub name: Seq<char>,
    pub ku_id: Seq<char>,
    pub role: Seq<char>,
}

impl View for PlayerVo {
    type V = PlayerView;

    open spec fn view(&self) -> PlayerView {
        PlayerView {
            key: self.key@,
            day: self.day@,
            name: self.name@,
            ku_id: self.ku_id@,
            role: self.role@,
        }
    }
}

pub open spec fn player_views(v: Seq<PlayerVo>) -> Seq<PlayerView> {
    Seq::new(v.len(), |i: int| v[i]@)
}

/// The first index at or after `pos` where `v` holds `c`.
pub open spec fn next_index(v: Seq<char>, pos: int, c: char) -> Option<int>
    decreases v.len() - pos,
{
    if pos < 0 || pos >= v.len() {
        None
    } else if v[pos] == c {
        Some(pos)
    } else {
        next_index(v, pos + 1, c)
    }
}

pub proof fn lemma_next_index(v: Seq<char>, pos: int, c: char)
    ensures
        next_index(v, pos, c) matches Some(i) ==> pos <= i < v.len() && v[i] == c,
    decreases v.len() - pos,
{
    if 0 <= pos < v.len() && v[pos] != c {
        lemma_next_index(v, pos + 1, c);
    }
}

/// The values between `[` and the next `]` in `v` from `pos` on, in order,
/// up to the first `[` without a closing `]`.
pub open spec fn bracket_values_at(v: Seq<char>, pos: int) -> Seq<Seq<char>>
    decreases v.len() - pos,
{
    match next_index(v, pos, '[') {
        None => Seq::empty(),
        Some(s) => match next_index(v, s + 1, ']') {
            None => Seq::empty(),
            Some(e) => {
                proof {
                    lemma_next_index(v, pos, '[');
                    lemma_next_index(v, s + 1, ']');
                }
                seq![v.subrange(s + 1, e)] + bracket_values_at(v, e + 1)
            },
        },
    }
}

/// The bracketed values of a log line, read after `player: {` when the line
/// holds it.
pub open spec fn bracket_values_spec(line: Seq<char>) -> Seq<Seq<char>> {
    match find_seq(line, "player: {"@) {
        Some(i) => bracket_values_at(line, i + 9),
        None => bracket_values_at(line, 0),
    }
}

/// The player that a log line reports for `marker`, if it is such a line.
pub open spec fn line_player(line: Seq<char>, marker: Seq<char>) -> Option<PlayerView> {
    let values = bracket_values_spec(line);
    if !contains_seq(line, marker) || !contains_seq(line, "KU"@) || contains_seq(line, "Host"@) {
        None
    } else if values.len() < 6 || values[0] != marker {
        None
    } else if !starts_with(values[3], "KU"@) {
        None
    } else {
        Some(PlayerView { key: values[1], day: values[2], name: values[4], ku_id: values[3], role: values[5] })
    }
}

/// Whether some player of `ps` has the id `ku_id`.
pub open spec fn has_ku_id(ps: Seq<PlayerView>, ku_id: Seq<char>) -> bool {
    exists|i: int| 0 <= i < ps.len() && (#[trigger] ps[i]).ku_id == ku_id
}

/// The players reported by `lines` for `marker`, keeping the first line of
/// each id.
pub open spec fn parse_players(lines: Seq<Seq<char>>, marker: Seq<char>) -> Seq<PlayerView>
    decreases lines.len(),
{
    if lines.len() == 0 {
        Seq::empty()
    } else {
        let prev = parse_players(lines.drop_last(), marker);
        match line_player(lines.last(), marker) {
            Some(p) => if has_ku_id(prev, p.ku_id) {
                prev
            } else {
                prev.push(p)
            },
            None => prev,
        }
    }
}

/// The first index at or after `pos` where `v` holds `c`.
fn next_index_exec(v: &Vec<char>, pos: usize, c: char) -> (r: Option<usize>)
    requires
        pos <= v.len(),
    ensures
        match next_index(v@, pos as int, c) {
            Some(i) => r == Some(i as usize),
            None => r is None,
        },
{
    let mut i = pos;
    while i < v.len()
        invariant
            pos <= i <= v.len(),
            next_index(v@, pos as int, c) == next_index(v@, i as int, c),
        decreases v.len() - i,
    {
        if v[i] == c {
            return Some(i);
        }
        i = i + 1;
    }
    None
}

/// The values between `[` and `]` in `v` from `from` on.
fn bracket_values_after(v: &Vec<char>, from: usize) -> (out: Vec<String>)
    requires
        from <= v.len(),
    ensures
        crate::process::string_views(out@) == bracket_values_at(v@, from as int),
{
    let mut out: Vec<String> = Vec::new();
    let mut pos = from;
    loop
        invariant
            from <= pos <= v.len(),
            crate::process::string_views(out@) + bracket_values_at(v@, pos as int) == bracket_values_at(
                v@,
                from as int,
            ),
        decreases v.len() - pos,
    {
        proof {
            lemma_next_index(v@, pos as int, '[');
        }
        let start = match next_index_exec(v, pos, '[') {
            None => {
                assert(crate::process::string_views(out@) + Seq::<Seq<char>>::empty() =~= crate::process::string_views(out@));
                return out;
            },
            Some(s) => s,
        };
        proof {
            lemma_next_index(v@, start + 1, ']');
        }
        let end = match next_index_exec(v, start + 1, ']') {
            None => {
                assert(crate::process::string_views(out@) + Seq::<Seq<char>>::empty() =~= crate::process::string_views(out@));
                return out;
            },
            Some(e) => e,
        };
        let ghost before = out@;
        let value = string_from_range(v, start + 1, end);
        out.push(value);
        proof {
            assert(crate::process::string_views(out@) =~= crate::process::string_views(before).push(v@.subrange(start + 1, end as int)));
            assert(crate::process::string_views(out@) + bracket_values_at(v@, end + 1) =~= crate::process::string_views(before) + (seq![v@.subrange(start + 1, end as int)] + bracket_values_at(v@, end + 1)));
        }
        pos = end + 1;
    }
}

/// The bracketed values of a log line.
pub fn bracket_values(line: &str) -> (values: Vec<String>)
    ensures
        crate::process::string_views(values@) == bracket_values_spec(line@),
{
    let v = chars_of(line);
    let pat = chars_of("player: {");
    proof {
        reveal_strlit("player: {");
        assert(v@.skip(0) =~= v@);
    }
    match find_from(&v, 0, &pat) {
        Some(i) => {
            proof {
                assert(find_seq(line@, "player: {"@) == Some(i as int));
                lemma_find_seq(line@, "player: {"@);
                assert(crate::text::occurs_at(line@, "player: {"@, i as int));
                assert("player: {"@.len() == 9);
            }
            bracket_values_after(&v, i + 9)
        },
        None => bracket_values_after(&v, 0),
    }
}

/// Whether `needle` occurs in `hay`.
fn contains_exec(hay: &Vec<char>, needle: &Vec<char>) -> (b: bool)
    ensures
        b == contains_seq(hay@, needle@),
{
    let r = find_from(hay, 0, needle);
    proof {
        assert(hay@.skip(0) =~= hay@);
        if r is None {
            assert(!contains_seq(hay@, needle@));
        }
    }
    r.is_some()
}

fn has_ku_id_exec(ps: &Vec<PlayerVo>, ku_id: &String) -> (b: bool)
    ensures
        b == has_ku_id(player_views(ps@), ku_id@),
{
    let mut i: usize = 0;
    while i < ps.len()
        invariant
            i <= ps.len(),
            forall|j: int| 0 <= j < i ==> ps@[j].ku_id@ != ku_id@,
        decreases ps.len() - i,
    {
        if ps[i].ku_id == *ku_id {
            assert(player_views(ps@)[i as int].ku_id == ku_id@);
            return true;
        }
        i = i + 1;
    }
    proof {
        if has_ku_id(player_views(ps@), ku_id@) {
            let j = choose|j: int| 0 <= j < player_views(ps@).len() && (#[trigger] player_views(ps@)[j]).ku_id == ku_id@;
            assert(ps@[j].ku_id@ == ku_id@);
        }
    }
    false
}

/// The player a log line reports for `marker`.
fn line_player_exec(line: &str, marker: &Vec<char>) -> (r: Option<PlayerVo>)
    ensures
        match line_player(line@, marker@) {
            Some(p) => r matches Some(q) && q@ == p,
            None => r is None,
        },
{
    let v = chars_of(line);
    let ku = chars_of("KU");
    let host = chars_of("Host");
    if !contains_exec(&v, marker) || !contains_exec(&v, &ku) || contains_exec(&v, &host) {
        return None;
    }
    let values = bracket_values(line);
    if values.len() < 6 {
        return None;
    }
    if !chars_eq(&chars_of(values[0].as_str()), marker) {
        return None;
    }
    if !starts_with_exec(&chars_of(values[3].as_str()), &ku) {
        return None;
    }
    Some(PlayerVo {
        key: values[1].clone(),
        day: values[2].clone(),
        name: values[4].clone(),
        ku_id: values[3].clone(),
        role: values[5].clone(),
    })
}

/// The players that log `lines` report for `marker`, in line order, keeping
/// the first line of each Klei user id.
pub fn parse_player_lines(lines: &Vec<String>, marker: &str) -> (players: Vec<PlayerVo>)
    ensures
        player_views(players@) == parse_players(crate::process::string_views(lines@), marker@),
{
    let ghost ls = crate::process::string_views(lines@);
    let m = chars_of(marker);
    let mut out: Vec<PlayerVo> = Vec::new();
    let mut k: usize = 0;
    proof {
        assert(player_views(out@) =~= Seq::<PlayerView>::empty());
    }
    while k < lines.len()
        invariant
            ls == crate::process::string_views(lines@),
            m@ == marker@,
            k <= lines.len(),
            player_views(out@) == parse_players(ls.take(k as int), marker@),
        decreases lines.len() - k,
    {
        proof {
            assert(ls.take(k + 1).drop_last() =~= ls.take(k as int));
            assert(ls.take(k + 1).last() == lines@[k as int]@);
        }
        match line_player_exec(lines[k].as_str(), &m) {
            Some(p) => {
                if !has_ku_id_exec(&out, &p.ku_id) {
                    let ghost before = out@;
                    out.push(p);
                    assert(player_views(out@) =~= player_views(before).push(p@));
                }
            },
            None => {},
        }
        k = k + 1;
    }
    assert(ls.take(lines.len() as int) =~= ls);
    out
}

/// The Lua text that prints every player of one shard (`all_levels` false,
/// with the world's day) or of the whole cluster (`all_levels` true, day 0)
/// as a line tagged with `marker`.
pub open spec fn player_lua_text(marker: Seq<char>, all_levels: bool) -> Seq<char> {
    if all_levels {
        "for key, player in pairs(TheNet:GetClientTable() or {}) do if player and player.userid and player.userid ~= 'Host' then print('player: {["@
            + marker
            + "] ['..tostring(key)..'] [0] ['..tostring(player.userid)..'] ['..tostring(player.name or '')..'] ['..tostring(player.prefab or '')..']}') end end"@
    } else {
        "for key, player in pairs(AllPlayers or {}) do if player and player.userid and player.userid ~= 'Host' then print('player: {["@
            + marker
            + "] ['..tostring(key)..'] ['..tostring(TheWorld and TheWorld.state and TheWorld.state.cycles or 0)..'] ['..tostring(player.userid)..'] ['..tostring(player.name or '')..'] ['..tostring(player.prefab or '')..']}') end end"@
    }
}

/// The scope of a player query: the cluster-wide query walks the server's
/// client table and reports day 0 for every player, while the one-shard query
/// walks the shard's own players and reports the world's day count.
pub proof fn lemma_player_query_scope(marker: Seq<char>)
    ensures
        starts_with(player_lua_text(marker, true), "for key, player in pairs(TheNet:GetClientTable() or {}) do"@),
        contains_seq(player_lua_text(marker, true), "..'] [0] ['.."@),
        starts_with(player_lua_text(marker, false), "for key, player in pairs(AllPlayers or {}) do"@),
        contains_seq(player_lua_text(marker, false), "tostring(TheWorld and TheWorld.state and TheWorld.state.cycles or 0)"@),
{
    let a1 = "for key, player in pairs(TheNet:GetClientTable() or {}) do if player and player.userid and player.userid ~= 'Host' then print('player: {["@;
    let b1 = "] ['..tostring(key)..'] [0] ['..tostring(player.userid)..'] ['..tostring(player.name or '')..'] ['..tostring(player.prefab or '')..']}') end end"@;
    let a2 = "for key, player in pairs(AllPlayers or {}) do if player and player.userid and player.userid ~= 'Host' then print('player: {["@;
    let b2 = "] ['..tostring(key)..'] ['..tostring(TheWorld and TheWorld.state and TheWorld.state.cycles or 0)..'] ['..tostring(player.userid)..'] ['..tostring(player.name or '')..'] ['..tostring(player.prefab or '')..']}') end end"@;
    let p1 = "for key, player in pairs(TheNet:GetClientTable() or {}) do"@;
    let p2 = "for key, player in pairs(AllPlayers or {}) do"@;
    let q1 = "..'] [0] ['.."@;
    let q2 = "tostring(TheWorld and TheWorld.state and TheWorld.state.cycles or 0)"@;
    reveal_strlit("for key, player in pairs(TheNet:GetClientTable() or {}) do if player and player.userid and player.userid ~= 'Host' then print('player: {[");
    reveal_strlit("] ['..tostring(key)..'] [0] ['..tostring(player.userid)..'] ['..tostring(player.name or '')..'] ['..tostring(player.prefab or '')..']}') end end");
    reveal_strlit("for key, player in pairs(AllPlayers or {}) do if player and player.userid and player.userid ~= 'Host' then print('player: {[");
    reveal_strlit("] ['..tostring(key)..'] ['..tostring(TheWorld and TheWorld.state and TheWorld.state.cycles or 0)..'] ['..tostring(player.userid)..'] ['..tostring(player.name or '')..'] ['..tostring(player.prefab or '')..']}') end end");
    reveal_strlit("for key, player in pairs(TheNet:GetClientTable() or {}) do");
    reveal_strlit("for key, player in pairs(AllPlayers or {}) do");
    reveal_strlit("..'] [0] ['..");
    reveal_strlit("tostring(TheWorld and TheWorld.state and TheWorld.state.cycles or 0)");
    let t1 = player_lua_text(marker, true);
    let t2 = player_lua_text(marker, false);
    assert(t1 == a1 + marker + b1);
    assert(t2 == a2 + marker + b2);
    assert(t1.take(p1.len() as int) =~= p1);
    assert(t2.take(p2.len() as int) =~= p2);
    let i1: int = (a1.len() + marker.len() + 19) as int;
    assert(t1.subrange(i1, i1 + q1.len()) =~= q1);
    assert(occurs_at(t1, q1, i1));
    let i2: int = (a2.len() + marker.len() + 28) as int;
    assert(t2.subrange(i2, i2 + q2.len()) =~= q2);
    assert(occurs_at(t2, q2, i2));
}

/// The Lua command of a player query.
pub fn player_lua_command(marker: &str, all_levels: bool) -> (c: String)
    ensures
        c@ == player_lua_text(marker@, all_levels),
{
    if all_levels {
        let mut c = "for key, player in pairs(TheNet:GetClientTable() or {}) do if player and player.userid and player.userid ~= 'Host' then print('player: {[".to_string();
        push_str(&mut c, marker);
        push_str(&mut c, "] ['..tostring(key)..'] [0] ['..tostring(player.userid)..'] ['..tostring(player.name or '')..'] ['..tostring(player.prefab or '')..']}') end end");
        c
    } else {
        let mut c = "for key, player in pairs(AllPlayers or {}) do if player and player.userid and player.userid ~= 'Host' then print('player: {[".to_string();
        push_str(&mut c, marker);
        push_str(&mut c, "] ['..tostring(key)..'] ['..tostring(TheWorld and TheWorld.state and TheWorld.state.cycles or 0)..'] ['..tostring(player.userid)..'] ['..tostring(player.name or '')..'] ['..tostring(player.prefab or '')..']}') end end");
        c
    }
}

/// What a player query sends: to which shard, and which command.
pub struct OnlineQuery {
    pub level: String,
    pub command: String,
}

/// Decides a player query. `#ALL_LEVEL` asks the whole cluster through the
/// Master shard; any other level name must be a safe path component. When the
/// shard is not running according to `snapshots`, nothing is sent (`None`).
pub fn plan_online_query(
    level_name: &str,
    marker: &str,
    cluster_name: &str,
    snapshots: &Vec<ProcessSnapshot>,
) -> (r: Result<Option<OnlineQuery>, ValidationError>)
    ensures
        ({
            let all = level_name@ == ALL_LEVEL_MARKER@;
            let level = if all { "Master"@ } else { level_name@ };
            if !all && path_atom_problem(level_name@) is Some {
                r matches Err(e) && e.field == "level name" && Some(e.reason) == path_atom_problem(
                    level_name@,
                )
            } else if first_match(snapshots@, cluster_name@, level) is None {
                r matches Ok(None)
            } else {
                r matches Ok(Some(q)) && q.level@ == level && q.command@ == player_lua_text(
                    marker@,
                    all,
                )
            }
        }),
{
    let all = chars_eq(&chars_of(level_name), &chars_of(ALL_LEVEL_MARKER));
    let level = if all {
        "Master".to_string()
    } else {
        match validate_level_name(level_name) {
            Ok(l) => l.into_string(),
            Err(e) => return Err(e),
        }
    };
    if first_level_process(snapshots.as_slice(), cluster_name, level.as_str()).is_none() {
        return Ok(None);
    }
    Ok(Some(OnlineQuery { level, command: player_lua_command(marker, all) }))
}

} // verus!
