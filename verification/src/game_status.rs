//! Status of a cluster's shards and host facts for the dashboard.
use vstd::prelude::*;
use crate::process::{first_level_process, first_match, ProcessSnapshot, word_ranges, words};
use crate::server_ini::ServerIni;
use crate::text::{chars_eq, chars_of, find_char, first_index_of, line_ranges, lines, ranges_view,
    ranges_within, split_once, string_from_range, trim, trim_range, is_ascii_digit, is_digit};
use crate::numbers::{all_digits, parse_unsigned, parse_unsigned_range, parse_u64_range, parse_u64_spec};
use crate::validation::{command_arg_problem, validate_safe_command_arg, ValidationError};

verus! {

broadcast use vstd::string::group_string_axioms;

/// Process figures of a running shard, as text.
#[derive(Debug, Clone, PartialEq, Eq)]
pub struct DstPsVo {
    pub cpu_usage: String,
    pub mem_usage: String,
    pub virtual_size: String,
    pub resident_set_size: String,
}

impl DstPsVo {
    /// The figures of a stopped shard: all empty.
    pub fn empty() -> (p: Self)
        ensures
            p.cpu_usage@.len() == 0,
            p.mem_usage@.len() == 0,
            p.virtual_size@.len() == 0,
            p.resident_set_size@.len() == 0,
    {
        DstPsVo {
            cpu_usage: String::new(),
            mem_usage: String::new(),
            virtual_size: String::new(),
            resident_set_size: String::new(),
        }
    }

    /// The figures of a process snapshot.
    pub fn from_snapshot(snapshot: &ProcessSnapshot) -> (p: Self)
        ensures
            p.cpu_usage@ == snapshot.cpu_usage@,
            p.mem_usage@ == snapshot.mem_usage@,
            p.virtual_size@ == snapshot.virtual_size@,
            p.resident_set_size@ == snapshot.resident_set_size@,
    {
        DstPsVo {
            cpu_usage: snapshot.cpu_usage.clone(),
            mem_usage: snapshot.mem_usage.clone(),
            virtual_size: snapshot.virtual_size.clone(),
            resident_set_size: snapshot.resident_set_size.clone(),
        }
    }
}

/// One shard of a cluster as its files describe it.
#[derive(Debug, Clone, PartialEq, Eq)]
pub struct World {
    pub level_name: String,
    pub is_master: bool,
    pub uuid: String,
    pub leveldataoverride: String,
    pub modoverrides: String,
    pub server_ini: ServerIni,
}

/// One shard with its process state.
#[derive(Debug, Clone, PartialEq, Eq)]
pub struct LevelStatusInfo {
    pub ps: DstPsVo,
    pub status: bool,
    pub level_name: String,
    pub is_master: bool,
    pub uuid: String,
    pub leveldataoverride: String,
    pub modoverrides: String,
    pub server_ini: ServerIni,
}

/// Host facts shown on the dashboard.
#[derive(Debug, Clone, PartialEq, Eq)]
pub struct HostInfo {
    pub os: String,
    pub hostname: String,
    pub platform: String,
    pub kernel_arch: String,
}

/// The index of the first world whose folder name is not a safe argv value.
pub open spec fn first_unsafe_world(worlds: Seq<World>) -> Option<int>
    decreases worlds.len(),
{
    if worlds.len() == 0 {
        None
    } else {
        match first_unsafe_world(worlds.drop_last()) {
            Some(i) => Some(i),
            None => if command_arg_problem(worlds.last().uuid@) is Some {
                Some(worlds.len() - 1)
            } else {
                None
            },
        }
    }
}

/// `info` describes `world` with the process state found in `snapshots`.
pub open spec fn status_of(info: LevelStatusInfo, world: World, cluster: Seq<char>, snapshots: Seq<ProcessSnapshot>) -> bool {
    let m = first_match(snapshots, cluster, world.uuid@);
    &&& info.status == m is Some
    &&& match m {
        Some(i) => {
            &&& info.ps.cpu_usage@ == snapshots[i].cpu_usage@
            &&& info.ps.mem_usage@ == snapshots[i].mem_usage@
            &&& info.ps.virtual_size@ == snapshots[i].virtual_size@
            &&& info.ps.resident_set_size@ == snapshots[i].resident_set_size@
        },
        None => {
            &&& info.ps.cpu_usage@.len() == 0
            &&& info.ps.mem_usage@.len() == 0
            &&& info.ps.virtual_size@.len() == 0
            &&& info.ps.resident_set_size@.len() == 0
        },
    }
    &&& info.level_name@ == world.level_name@
    &&& info.is_master == world.is_master
    &&& info.uuid@ == world.uuid@
    &&& info.leveldataoverride@ == world.leveldataoverride@
    &&& info.modoverrides@ == world.modoverrides@
    &&& info.server_ini@ == world.server_ini@
}

fn copy_server_ini(s: &ServerIni) -> (c: ServerIni)
    ensures
        c@ == s@,
{
    ServerIni {
        server_port: s.server_port,
        is_master: s.is_master,
        name: s.name.clone(),
        id: s.id,
        encode_user_path: s.encode_user_path,
        authentication_port: s.authentication_port,
        master_server_port: s.master_server_port,
    }
}

/// Each world with whether its shard runs in `cluster_name` and the figures
/// of the first matching process. A world whose folder name is not a safe
/// argv value fails the whole call.
pub fn level_statuses_from_snapshots(
    cluster_name: &str,
    worlds: &Vec<World>,
    snapshots: &[ProcessSnapshot],
) -> (r: Result<Vec<LevelStatusInfo>, ValidationError>)
    ensures
        match first_unsafe_world(worlds@) {
            Some(i) => r matches Err(e) && e.field == "level name" && Some(e.reason)
                == command_arg_problem(worlds@[i].uuid@),
            None => r matches Ok(v) && v.len() == worlds.len() && forall|i: int|
                0 <= i < v.len() ==> status_of(#[trigger] v@[i], worlds@[i], cluster_name@, snapshots@),
        },
{
    let mut out: Vec<LevelStatusInfo> = Vec::new();
    let mut k: usize = 0;
    while k < worlds.len()
        invariant
            k <= worlds.len(),
            first_unsafe_world(worlds@.take(k as int)) is None,
            out.len() == k,
            forall|i: int| 0 <= i < k ==> status_of(#[trigger] out@[i], worlds@[i], cluster_name@, snapshots@),
        decreases worlds.len() - k,
    {
        proof {
            assert(worlds@.take(k + 1).drop_last() =~= worlds@.take(k as int));
            assert(worlds@.take(k + 1).last() == worlds@[k as int]);
        }
        let world = &worlds[k];
        let level = match validate_safe_command_arg("level name", world.uuid.as_str()) {
            Ok(l) => l,
            Err(e) => {
                proof {
                    assert(first_unsafe_world(worlds@.take(k + 1)) == Some(k as int));
                    lemma_first_unsafe_prefix(worlds@, k + 1);
                }
                return Err(e);
            },
        };
        let process = first_level_process(snapshots, cluster_name, level.as_str());
        let ps = match process {
            Some(p) => DstPsVo::from_snapshot(p),
            None => DstPsVo::empty(),
        };
        let info = LevelStatusInfo {
            ps,
            status: process.is_some(),
            level_name: world.level_name.clone(),
            is_master: world.is_master,
            uuid: world.uuid.clone(),
            leveldataoverride: world.leveldataoverride.clone(),
            modoverrides: world.modoverrides.clone(),
            server_ini: copy_server_ini(&world.server_ini),
        };
        out.push(info);
        k = k + 1;
    }
    proof {
        assert(worlds@.take(worlds.len() as int) =~= worlds@);
    }
    Ok(out)
}

pub proof fn lemma_first_unsafe_prefix(ws: Seq<World>, k: int)
    requires
        0 <= k <= ws.len(),
        first_unsafe_world(ws.take(k)) is Some,
    ensures
        first_unsafe_world(ws) == first_unsafe_world(ws.take(k)),
    decreases ws.len() - k,
{
    if k < ws.len() {
        assert(ws.take(k + 1).drop_last() =~= ws.take(k));
        lemma_first_unsafe_prefix(ws, k + 1);
    } else {
        assert(ws.take(k) =~= ws);
    }
}

/// `value` without one pair of surrounding double or single quotes.
pub open spec fn unquote(value: Seq<char>) -> Seq<char> {
    if value.len() >= 2 && value[0] == '"' && value.last() == '"' {
        value.subrange(1, value.len() - 1)
    } else if value.len() >= 2 && value[0] == '\'' && value.last() == '\'' {
        value.subrange(1, value.len() - 1)
    } else {
        value
    }
}

/// The `ID` of the first `ID=` line of `ls`.
pub open spec fn os_release_id(ls: Seq<Seq<char>>) -> Option<Seq<char>>
    decreases ls.len(),
{
    if ls.len() == 0 {
        None
    } else {
        match split_once(ls[0], '=') {
            Some((k, v)) => if k == "ID"@ {
                Some(unquote(trim(v)))
            } else {
                os_release_id(ls.drop_first())
            },
            None => os_release_id(ls.drop_first()),
        }
    }
}

/// The platform id that `/etc/os-release` names, or empty.
pub open spec fn platform_spec(contents: Seq<char>) -> Seq<char> {
    match os_release_id(lines(contents)) {
        Some(id) => id,
        None => Seq::empty(),
    }
}

/// The id that one `/etc/os-release` line gives, when it is an `ID=` line.
pub open spec fn os_release_line_id(l: Seq<char>) -> Option<Seq<char>> {
    match split_once(l, '=') {
        Some((k, v)) => if k == "ID"@ {
            Some(unquote(trim(v)))
        } else {
            None
        },
        None => None,
    }
}

#[verifier::rlimit(80)]
fn os_release_line(v: &Vec<char>, lo: usize, hi: usize, id: &Vec<char>) -> (r: Option<String>)
    requires
        lo <= hi <= v.len(),
        id@ == "ID"@,
    ensures
        match os_release_line_id(v@.subrange(lo as int, hi as int)) {
            Some(x) => r matches Some(s) && s@ == x,
            None => r is None,
        },
{
    let ghost l = v@.subrange(lo as int, hi as int);
    match find_char(v, lo, hi, '=') {
        Some(e) => {
            proof {
                assert(l.take(e - lo) =~= v@.subrange(lo as int, e as int));
                assert(l.skip(e - lo + 1) =~= v@.subrange(e + 1, hi as int));
                assert(split_once(l, '=') == Some((l.take(e - lo), l.skip(e - lo + 1))));
            }
            if crate::text::range_eq(v, lo, e, id) {
                let (tlo, thi) = trim_range(v, e + 1, hi);
                let ghost t = v@.subrange(tlo as int, thi as int);
                if thi - tlo >= 2 && ((v[tlo] == '"' && v[thi - 1] == '"') || (v[tlo] == '\''
                    && v[thi - 1] == '\'')) {
                    assert(t.subrange(1, t.len() - 1) =~= v@.subrange(tlo + 1, thi - 1));
                    return Some(string_from_range(v, tlo + 1, thi - 1));
                }
                return Some(string_from_range(v, tlo, thi));
            }
            None
        },
        None => {
            assert(split_once(l, '=') is None);
            None
        },
    }
}

pub proof fn lemma_os_release_id_step(ls: Seq<Seq<char>>)
    requires
        ls.len() > 0,
    ensures
        os_release_id(ls) == match os_release_line_id(ls[0]) {
            Some(x) => Some(x),
            None => os_release_id(ls.drop_first()),
        },
{
}

/// The platform id from `/etc/os-release` contents (the unquoted value of the
/// first `ID=` line), or an empty string.
#[verifier::rlimit(40)]
pub fn platform_from_os_release(contents: &str) -> (p: String)
    ensures
        p@ == platform_spec(contents@),
{
    let v = chars_of(contents);
    let rs = line_ranges(&v);
    let ghost ls = lines(v@);
    let id = chars_of("ID");
    proof {
        reveal_strlit("ID");
        assert(ls.skip(0) =~= ls);
    }
    let mut k: usize = 0;
    while k < rs.len()
        invariant
            v@ == contents@,
            ls == lines(v@),
            id@ == "ID"@,
            ranges_within(rs@, 0, v.len() as int),
            ranges_view(v@, rs@) == ls,
            k <= rs.len(),
            os_release_id(ls) == os_release_id(ls.skip(k as int)),
        decreases rs.len() - k,
    {
        let (lo, hi) = rs[k];
        assert(0 <= rs@[k as int].0 <= rs@[k as int].1 <= v.len());
        proof {
            assert(ls.skip(k as int)[0] == v@.subrange(lo as int, hi as int));
            assert(ls.skip(k as int).drop_first() =~= ls.skip(k + 1));
            lemma_os_release_id_step(ls.skip(k as int));
        }
        match os_release_line(&v, lo, hi, &id) {
            Some(s) => return s,
            None => {},
        }
        k = k + 1;
    }
    proof {
        assert(ls.skip(rs.len() as int) =~= Seq::<Seq<char>>::empty());
    }
    String::new()
}

/// Busy and idle time of a CPU row of `/proc/stat`.
#[derive(Debug, Clone, Copy, PartialEq, Eq)]
pub struct CpuTimes {
    pub total: u64,
    pub idle: u64,
}

/// Most cores read from `/proc/stat`; rows for higher indices are skipped.
pub const MAX_PROC_STAT_CPU_COUNT: usize = 4096;

/// What one `/proc/stat` row contributes.
pub enum CpuRow {
    Aggregate(CpuTimes),
    Core(usize, CpuTimes),
}

/// The values of a row, each parsed as `u64`, or `None` when one does not parse.
pub open spec fn parse_u64_all(ws: Seq<Seq<char>>) -> Option<Seq<u64>>
    decreases ws.len(),
{
    if ws.len() == 0 {
        Some(Seq::empty())
    } else {
        match (parse_u64_all(ws.drop_last()), parse_u64_spec(ws.last())) {
            (Some(p), Some(n)) => Some(p.push(n)),
            _ => None,
        }
    }
}

/// The sum of `vs`, or `None` when it does not fit in `u64`.
pub open spec fn checked_sum(vs: Seq<u64>) -> Option<u64>
    decreases vs.len(),
{
    if vs.len() == 0 {
        Some(0)
    } else {
        match checked_sum(vs.drop_last()) {
            Some(t) => if t + vs.last() <= u64::MAX {
                Some((t + vs.last()) as u64)
            } else {
                None
            },
            None => None,
        }
    }
}

/// What a `/proc/stat` line contributes: the `cpu` row or a `cpuN` row with
/// at least four numeric fields, a total that fits, and idle plus iowait.
pub open spec fn cpu_row(line: Seq<char>) -> Option<CpuRow> {
    let ws = words(line);
    if ws.len() == 0 {
        None
    } else {
        let name = ws[0];
        let is_aggregate = name == "cpu"@;
        let suffix = name.skip(3);
        let is_core = name.len() > 3 && name.take(3) == "cpu"@ && all_digits(suffix);
        if !is_aggregate && !is_core {
            None
        } else {
            match parse_u64_all(ws.skip(1)) {
                None => None,
                Some(vs) => if vs.len() < 4 {
                    None
                } else {
                    match checked_sum(vs) {
                        None => None,
                        Some(total) => {
                            let iowait = if vs.len() > 4 { vs[4] as int } else { 0 };
                            if vs[3] + iowait > u64::MAX {
                                None
                            } else {
                                let times = CpuTimes { total, idle: (vs[3] + iowait) as u64 };
                                if is_aggregate {
                                    Some(CpuRow::Aggregate(times))
                                } else {
                                    match parse_unsigned(suffix, usize::MAX as nat) {
                                        Some(index) => if index < MAX_PROC_STAT_CPU_COUNT {
                                            Some(CpuRow::Core(index as usize, times))
                                        } else {
                                            None
                                        },
                                        None => None,
                                    }
                                }
                            }
                        },
                    }
                },
            }
        }
    }
}

/// The CPU rows of `/proc/stat`: the last `cpu` row, and for each core index
/// the times of its last row.
pub struct ProcStatCpuRows {
    pub aggregate: Option<CpuTimes>,
    /// Indexed by core; `None` for indices without a row. Its length is one
    /// more than the highest core index seen.
    pub per_core: Vec<Option<CpuTimes>>,
}

/// The rows after the lines `ls`, as an aggregate and a map from core index.
pub open spec fn cpu_rows_of(ls: Seq<Seq<char>>) -> (Option<CpuTimes>, Map<int, CpuTimes>)
    decreases ls.len(),
{
    if ls.len() == 0 {
        (None, Map::empty())
    } else {
        let (agg, cores) = cpu_rows_of(ls.drop_last());
        match cpu_row(ls.last()) {
            Some(CpuRow::Aggregate(t)) => (Some(t), cores),
            Some(CpuRow::Core(i, t)) => (agg, cores.insert(i as int, t)),
            None => (agg, cores),
        }
    }
}

/// The rows hold `agg` and exactly the cores of `cores`.
pub open spec fn rows_model(r: ProcStatCpuRows, agg: Option<CpuTimes>, cores: Map<int, CpuTimes>) -> bool {
    &&& r.aggregate == agg
    &&& forall|i: int| 0 <= i < r.per_core.len() ==> (#[trigger] r.per_core@[i] matches Some(t) <==> cores.contains_key(i)) && (r.per_core@[i] matches Some(t) ==> cores[i] == t)
    &&& forall|i: int| #[trigger] cores.contains_key(i) ==> 0 <= i < r.per_core.len()
    &&& r.per_core.len() > 0 ==> r.per_core@[r.per_core.len() - 1] is Some
}


/// The `u64` values of the words `ws` of `v`, or `None` when one is not a number.
fn parse_row_values(v: &Vec<char>, ws: &Vec<(usize, usize)>, from: usize) -> (r: Option<Vec<u64>>)
    requires
        1 <= from <= ws.len(),
        ranges_within(ws@, 0, v.len() as int),
    ensures
        match r {
            Some(vs) => parse_u64_all(ranges_view(v@, ws@).skip(from as int)) == Some(vs@),
            None => parse_u64_all(ranges_view(v@, ws@).skip(from as int)) is None,
        },
{
    let ghost s = ranges_view(v@, ws@).skip(from as int);
    let mut vs: Vec<u64> = Vec::new();
    let mut k: usize = from;
    assert(s.take(0) =~= Seq::<Seq<char>>::empty());
    while k < ws.len()
        invariant
            from <= k <= ws.len(),
            ranges_within(ws@, 0, v.len() as int),
            s == ranges_view(v@, ws@).skip(from as int),
            parse_u64_all(s.take(k - from)) == Some(vs@),
        decreases ws.len() - k,
    {
        let (a, b) = ws[k];
        assert(0 <= ws@[k as int].0 <= ws@[k as int].1 <= v.len());
        assert(s[k - from] == v@.subrange(a as int, b as int));
        assert(s.take(k - from + 1).drop_last() =~= s.take(k - from));
        assert(s.take(k - from + 1).last() == s[k - from]);
        match parse_u64_range(v, a, b) {
            Some(n) => {
                vs.push(n);
            },
            None => {
                proof {
                    lemma_parse_u64_all_prefix(s, k - from + 1);
                }
                return None;
            },
        }
        k = k + 1;
    }
    assert(s.take(ws.len() - from) =~= s);
    Some(vs)
}

/// A prefix that does not parse keeps the whole from parsing.
proof fn lemma_parse_u64_all_prefix(s: Seq<Seq<char>>, k: int)
    requires
        0 <= k <= s.len(),
        parse_u64_all(s.take(k)) is None,
    ensures
        parse_u64_all(s) is None,
    decreases s.len() - k,
{
    if k < s.len() {
        assert(s.take(k + 1).drop_last() =~= s.take(k));
        lemma_parse_u64_all_prefix(s, k + 1);
    } else {
        assert(s.take(k) =~= s);
    }
}

/// The sum of `vs`, or `None` when it does not fit in `u64`.
fn checked_sum_exec(vs: &Vec<u64>) -> (r: Option<u64>)
    ensures
        r == checked_sum(vs@),
{
    let mut total: u64 = 0;
    let mut k: usize = 0;
    assert(vs@.take(0) =~= Seq::<u64>::empty());
    while k < vs.len()
        invariant
            k <= vs.len(),
            checked_sum(vs@.take(k as int)) == Some(total),
        decreases vs.len() - k,
    {
        assert(vs@.take(k + 1).drop_last() =~= vs@.take(k as int));
        match total.checked_add(vs[k]) {
            Some(t) => total = t,
            None => {
                proof {
                    lemma_checked_sum_prefix(vs@, k + 1);
                }
                return None;
            },
        }
        k = k + 1;
    }
    assert(vs@.take(vs.len() as int) =~= vs@);
    Some(total)
}

proof fn lemma_checked_sum_prefix(s: Seq<u64>, k: int)
    requires
        0 <= k <= s.len(),
        checked_sum(s.take(k)) is None,
    ensures
        checked_sum(s) is None,
    decreases s.len() - k,
{
    if k < s.len() {
        assert(s.take(k + 1).drop_last() =~= s.take(k));
        lemma_checked_sum_prefix(s, k + 1);
    } else {
        assert(s.take(k) =~= s);
    }
}

/// What the line `v[lo..hi]` of `/proc/stat` contributes.
#[verifier::rlimit(40)]
pub fn cpu_row_exec(v: &Vec<char>, lo: usize, hi: usize) -> (r: Option<CpuRow>)
    requires
        lo <= hi <= v.len(),
    ensures
        r == cpu_row(v@.subrange(lo as int, hi as int)),
{
    proof {
        reveal_strlit("cpu");
    }
    let ghost line = v@.subrange(lo as int, hi as int);
    let ws = word_ranges(v, lo, hi);
    if ws.len() == 0 {
        return None;
    }
    let ghost wv = ranges_view(v@, ws@);
    assert(wv == words(line));
    let (na, nb) = ws[0];
    assert(lo <= ws@[0].0 <= ws@[0].1 <= hi);
    let ghost name = wv[0];
    assert(name == v@.subrange(na as int, nb as int));
    let starts_cpu = nb - na >= 3 && v[na] == 'c' && v[na + 1] == 'p' && v[na + 2] == 'u';
    proof {
        if nb - na >= 3 && v@[na as int] == 'c' && v@[na + 1] == 'p' && v@[na + 2] == 'u' {
            assert(name.take(3) =~= "cpu"@);
        }
        if name.len() >= 3 && name.take(3) == "cpu"@ {
            assert(name.take(3)[0] == 'c' && name.take(3)[1] == 'p' && name.take(3)[2] == 'u');
        }
        if name == "cpu"@ {
            assert(name.take(3) =~= name);
        }
    }
    let is_aggregate = starts_cpu && nb - na == 3;
    proof {
        if is_aggregate {
            assert(name =~= "cpu"@);
        }
    }
    let mut digits = nb - na > 3;
    let mut i: usize = if digits { na + 3 } else { nb };
    while digits && i < nb
        invariant
            na + 3 <= i <= nb || !digits,
            nb <= v.len(),
            na + 3 <= nb || !digits,
            digits ==> forall|j: int| na + 3 <= j < i ==> '0' <= #[trigger] v@[j] <= '9',
            !digits ==> !(nb - na > 3 && all_digits(v@.subrange(na + 3, nb as int))),
        decreases nb - i,
    {
        if !('0' <= v[i] && v[i] <= '9') {
            digits = false;
            assert(v@.subrange(na + 3, nb as int)[i - na - 3] == v@[i as int]);
        }
        i = i + 1;
    }
    proof {
        if digits {
            assert(name.skip(3) =~= v@.subrange(na + 3, nb as int));
            assert(all_digits(name.skip(3)));
        } else if nb - na > 3 {
            assert(name.skip(3) =~= v@.subrange(na + 3, nb as int));
        }
    }
    let is_core = starts_cpu && digits;
    if !is_aggregate && !is_core {
        return None;
    }
    let vals = match parse_row_values(v, &ws, 1) {
        Some(vs) => vs,
        None => return None,
    };
    if vals.len() < 4 {
        return None;
    }
    let total = match checked_sum_exec(&vals) {
        Some(t) => t,
        None => return None,
    };
    let iowait: u64 = if vals.len() > 4 { vals[4] } else { 0 };
    let idle = match vals[3].checked_add(iowait) {
        Some(x) => x,
        None => return None,
    };
    let times = CpuTimes { total, idle };
    if is_aggregate {
        return Some(CpuRow::Aggregate(times));
    }
    assert(name.skip(3) =~= v@.subrange(na + 3, nb as int));
    match parse_unsigned_range(v, na + 3, nb, usize::MAX as u64) {
        Some(index) => {
            if index < 4096 {
                Some(CpuRow::Core(index as usize, times))
            } else {
                None
            }
        },
        None => None,
    }
}

/// The CPU rows of a `/proc/stat` text: the last `cpu` row, and per core
/// index the last row of that core. Lines that are no CPU row, or whose
/// values do not parse or overflow, are skipped.
pub fn parse_proc_stat_cpu_rows(contents: &str) -> (r: ProcStatCpuRows)
    ensures
        rows_model(r, cpu_rows_of(lines(contents@)).0, cpu_rows_of(lines(contents@)).1),
{
    let v = chars_of(contents);
    let rs = line_ranges(&v);
    let ghost ls = lines(contents@);
    let mut rows = ProcStatCpuRows { aggregate: None, per_core: Vec::new() };
    let mut k: usize = 0;
    assert(ls.take(0) =~= Seq::<Seq<char>>::empty());
    while k < rs.len()
        invariant
            k <= rs.len(),
            v@ == contents@,
            ls == lines(contents@),
            ranges_within(rs@, 0, v.len() as int),
            ranges_view(v@, rs@) == ls,
            rows.per_core.len() <= 4096,
            rows_model(rows, cpu_rows_of(ls.take(k as int)).0, cpu_rows_of(ls.take(k as int)).1),
        decreases rs.len() - k,
    {
        let (a, b) = rs[k];
        assert(0 <= rs@[k as int].0 <= rs@[k as int].1 <= v.len());
        assert(ls[k as int] == v@.subrange(a as int, b as int));
        assert(ls.take(k + 1).drop_last() =~= ls.take(k as int));
        assert(ls.take(k + 1).last() == ls[k as int]);
        let ghost before = cpu_rows_of(ls.take(k as int));
        let row = cpu_row_exec(&v, a, b);
        assert(cpu_rows_of(ls.take(k + 1)) == match cpu_row(ls[k as int]) {
            Some(CpuRow::Aggregate(t)) => (Some(t), before.1),
            Some(CpuRow::Core(i, t)) => (before.0, before.1.insert(i as int, t)),
            None => before,
        });
        match row {
            Some(CpuRow::Aggregate(t)) => {
                rows.aggregate = Some(t);
                assert(rows_model(rows, Some(t), before.1));
            },
            Some(CpuRow::Core(index, t)) => {
                let ghost old_core = rows.per_core@;
                if rows.per_core.len() <= index {
                while rows.per_core.len() <= index
                    invariant
                        index < 4096,
                        rows.aggregate == before.0,
                        rows.per_core.len() <= index + 1,
                        rows.per_core@.len() >= old_core.len(),
                        forall|j: int| 0 <= j < old_core.len() ==> rows.per_core@[j] == old_core[j],
                        forall|j: int| old_core.len() <= j < rows.per_core@.len() ==> rows.per_core@[j] is None,
                    decreases index + 1 - rows.per_core.len(),
                {
                    rows.per_core.push(None);
                }
                }
                rows.per_core.set(index, Some(t));
                proof {
                    let cores = before.1.insert(index as int, t);
                    assert forall|i: int| 0 <= i < rows.per_core.len() implies
                        (#[trigger] rows.per_core@[i] matches Some(x) <==> cores.contains_key(i))
                        && (rows.per_core@[i] matches Some(x) ==> cores[i] == x) by {
                        if i != index as int && i < old_core.len() {
                            assert(rows.per_core@[i] == old_core[i]);
                        }
                    }
                    assert forall|i: int| #[trigger] cores.contains_key(i) implies 0 <= i < rows.per_core.len() by {
                        if i != index as int {
                            assert(before.1.contains_key(i));
                        }
                    }
                    if old_core.len() > index + 1 {
                        assert(rows.per_core@[rows.per_core.len() - 1] == old_core[old_core.len() - 1]);
                    }
                    assert(rows_model(rows, before.0, cores));
                }
            },
            None => {},
        }
        k = k + 1;
    }
    assert(ls.take(rs.len() as int) =~= ls);
    rows
}
pub open spec fn sat_sub(a: u64, b: u64) -> u64 {
    if a >= b { (a - b) as u64 } else { 0 }
}

/// The CPU time that passed between two samples of a row, and the part of
/// it that was busy, both saturating at zero. The share is their quotient,
/// or zero when no time passed.
pub fn cpu_deltas(previous: CpuTimes, current: CpuTimes) -> (r: (u64, u64))
    ensures
        r.0 == sat_sub(current.total, previous.total),
        r.1 == sat_sub(sat_sub(current.total, previous.total), sat_sub(current.idle, previous.idle)),
{
    let total = if current.total >= previous.total { current.total - previous.total } else { 0 };
    let idle = if current.idle >= previous.idle { current.idle - previous.idle } else { 0 };
    let busy = if total >= idle { total - idle } else { 0 };
    (total, busy)
}

/// Total, available and used memory in bytes.
#[derive(Debug, Clone, Copy, PartialEq, Eq)]
pub struct MemFigures {
    pub total: u64,
    pub available: u64,
    pub used: u64,
}

/// Kibibytes as bytes, at most `u64::MAX`.
pub open spec fn kib_bytes(v: u64) -> u64 {
    if v * 1024 > u64::MAX {
        u64::MAX
    } else {
        (v * 1024) as u64
    }
}

/// The name and number of a `/proc/meminfo` line: its first two words, the
/// second a `u64`.
pub open spec fn mem_line(l: Seq<char>) -> Option<(Seq<char>, u64)> {
    let w = words(l);
    if w.len() < 2 {
        None
    } else {
        match parse_u64_spec(w[1]) {
            Some(v) => Some((w[0], v)),
            None => None,
        }
    }
}

/// The `MemTotal:` and `MemAvailable:` bytes of the lines, each the last
/// one given; `None` as soon as a line is not a name and a number.
pub open spec fn mem_scan(ls: Seq<Seq<char>>) -> Option<(Option<u64>, Option<u64>)>
    decreases ls.len(),
{
    if ls.len() == 0 {
        Some((None, None))
    } else {
        match mem_scan(ls.drop_last()) {
            None => None,
            Some((t, a)) => match mem_line(ls.last()) {
                None => None,
                Some((k, v)) => if k == "MemTotal:"@ {
                    Some((Some(kib_bytes(v)), a))
                } else if k == "MemAvailable:"@ {
                    Some((t, Some(kib_bytes(v))))
                } else {
                    Some((t, a))
                },
            },
        }
    }
}

/// The memory figures of a `/proc/meminfo` text: none without a total; a
/// missing available count reads as zero.
pub open spec fn mem_info_spec(contents: Seq<char>) -> Option<MemFigures> {
    match mem_scan(lines(contents)) {
        Some((Some(t), a)) => {
            let av = match a {
                Some(x) => x,
                None => 0,
            };
            Some(MemFigures { total: t, available: av, used: sat_sub(t, av) })
        },
        _ => None,
    }
}

fn range_is(v: &Vec<char>, a: usize, b: usize, text: &str) -> (r: bool)
    requires
        a <= b <= v.len(),
    ensures
        r == (v@.subrange(a as int, b as int) == text@),
{
    crate::text::range_eq(v, a, b, &chars_of(text))
}

/// Parses the memory figures of a `/proc/meminfo` text.
pub fn mem_info_from(contents: &str) -> (r: Option<MemFigures>)
    ensures
        r == mem_info_spec(contents@),
{
    let v = chars_of(contents);
    let rs = line_ranges(&v);
    let ghost ls = lines(contents@);
    let mut total: Option<u64> = None;
    let mut available: Option<u64> = None;
    let mut k: usize = 0;
    assert(ls.take(0) =~= Seq::<Seq<char>>::empty());
    while k < rs.len()
        invariant
            k <= rs.len(),
            v@ == contents@,
            ls == lines(contents@),
            ranges_within(rs@, 0, v.len() as int),
            ranges_view(v@, rs@) == ls,
            mem_scan(ls.take(k as int)) == Some((total, available)),
        decreases rs.len() - k,
    {
        let (a, b) = rs[k];
        assert(0 <= rs@[k as int].0 <= rs@[k as int].1 <= v.len());
        assert(ls[k as int] == v@.subrange(a as int, b as int));
        assert(ls.take(k + 1).drop_last() =~= ls.take(k as int));
        assert(ls.take(k + 1).last() == ls[k as int]);
        let ws = word_ranges(&v, a, b);
        let ghost wv = ranges_view(v@, ws@);
        assert(wv == words(ls[k as int]));
        if ws.len() < 2 {
            proof {
                assert(mem_line(ls[k as int]) is None);
                lemma_mem_scan_none(ls, k as int + 1);
            }
            return None;
        }
        let (ka, kb) = ws[0];
        let (na, nb) = ws[1];
        assert(wv[0] == v@.subrange(ka as int, kb as int));
        assert(wv[1] == v@.subrange(na as int, nb as int));
        let value = match parse_u64_range(&v, na, nb) {
            Some(x) => x,
            None => {
                proof {
                    lemma_mem_scan_none(ls, k as int + 1);
                }
                return None;
            },
        };
        let bytes = value.checked_mul(1024).unwrap_or(u64::MAX);
        if range_is(&v, ka, kb, "MemTotal:") {
            total = Some(bytes);
        } else if range_is(&v, ka, kb, "MemAvailable:") {
            available = Some(bytes);
        }
        k = k + 1;
    }
    assert(ls.take(rs.len() as int) =~= ls);
    match total {
        Some(t) => {
            let av = match available {
                Some(x) => x,
                None => 0,
            };
            Some(MemFigures { total: t, available: av, used: if t >= av { t - av } else { 0 } })
        },
        None => None,
    }
}

proof fn lemma_mem_scan_none(ls: Seq<Seq<char>>, k: int)
    requires
        0 <= k <= ls.len(),
        mem_scan(ls.take(k)) is None,
    ensures
        mem_scan(ls) is None,
    decreases ls.len() - k,
{
    if k < ls.len() {
        assert(ls.take(k + 1).drop_last() =~= ls.take(k));
        lemma_mem_scan_none(ls, k + 1);
    } else {
        assert(ls.take(k) =~= ls);
    }
}

/// The host name: `HOSTNAME` when it is not blank, else the trimmed
/// `/etc/hostname` when that is not empty, else empty.
pub open spec fn hostname_spec(env: Option<Seq<char>>, file: Option<Seq<char>>) -> Seq<char> {
    match env {
        Some(e) if trim(e).len() > 0 => e,
        _ => match file {
            Some(f) if trim(f).len() > 0 => trim(f),
            _ => Seq::empty(),
        },
    }
}

pub fn choose_hostname(env: Option<String>, file: Option<String>) -> (h: String)
    ensures
        h@ == hostname_spec(
            match env {
                Some(e) => Some(e@),
                None => None,
            },
            match file {
                Some(f) => Some(f@),
                None => None,
            },
        ),
{
    match env {
        Some(e) => {
            let v = chars_of(e.as_str());
            let (a, b) = trim_range(&v, 0, v.len());
            proof {
                assert(v@.subrange(0, v.len() as int) =~= v@);
            }
            if a < b {
                return e;
            }
        },
        None => {},
    }
    match file {
        Some(f) => {
            let v = chars_of(f.as_str());
            let (a, b) = trim_range(&v, 0, v.len());
            proof {
                assert(v@.subrange(0, v.len() as int) =~= v@);
            }
            string_from_range(&v, a, b)
        },
        None => String::new(),
    }
}

} // verus!
