//! `cluster.ini` of a DST cluster: parsing with the panel's defaults and the
//! rendering that the panel writes back.
use vstd::prelude::*;
use crate::text::{lemma_add_assoc, lemma_add_push, chars_of, line, push_text_line, trim};
use crate::numbers::{bool_text, bool_to_chars, decimal, u64_to_chars};
use crate::ini::{
    lemma_ini_pairs_empty,
    bool_or, ini_get, ini_header_ok, ini_key_ok, ini_lookup, ini_pairs, ini_safe_value, kv_text,
    lemma_bool_ini_safe, lemma_bool_value_roundtrip, lemma_decimal_ini_safe, lemma_header_line,
    lemma_ini_pairs_push_line, lemma_kv_line, lemma_lookup_at, lemma_trim_no_surrounding_ws,
    lemma_u64_value_roundtrip, parse_ini_values, push_kv_line, text_or, u64_or, value_bool_or,
    value_text_or, value_u64_or,
};

verus! {

broadcast use vstd::string::group_string_axioms;

/// Settings of a cluster's `cluster.ini`.
#[derive(Debug, Clone, PartialEq, Eq)]
pub struct ClusterIni {
    pub game_mode: String,
    pub max_players: u64,
    pub pvp: bool,
    pub pause_when_nobody: bool,
    pub vote_enabled: bool,
    pub vote_kick_enabled: bool,
    pub lan_only_cluster: bool,
    pub cluster_intention: String,
    pub cluster_description: String,
    pub cluster_password: String,
    pub cluster_name: String,
    pub offline_cluster: bool,
    pub cluster_language: String,
    pub whitelist_slots: u64,
    pub tick_rate: u64,
    pub console_enabled: bool,
    pub max_snapshots: u64,
    pub shard_enabled: bool,
    pub bind_ip: String,
    pub master_ip: String,
    pub master_port: u64,
    pub cluster_key: String,
    pub steam_group_id: String,
    pub steam_group_only: bool,
    pub steam_group_admins: bool,
}

pub struct ClusterIniView {
    pub game_mode: Seq<char>,
    pub max_players: u64,
    pub pvp: bool,
    pub pause_when_nobody: bool,
    pub vote_enabled: bool,
    pub vote_kick_enabled: bool,
    pub lan_only_cluster: bool,
    pub cluster_intention: Seq<char>,
    pub cluster_description: Seq<char>,
    pub cluster_password: Seq<char>,
    pub cluster_name: Seq<char>,
    pub offline_cluster: bool,
    pub cluster_language: Seq<char>,
    pub whitelist_slots: u64,
    pub tick_rate: u64,
    pub console_enabled: bool,
    pub max_snapshots: u64,
    pub shard_enabled: bool,
    pub bind_ip: Seq<char>,
    pub master_ip: Seq<char>,
    pub master_port: u64,
    pub cluster_key: Seq<char>,
    pub steam_group_id: Seq<char>,
    pub steam_group_only: bool,
    pub steam_group_admins: bool,
}

impl View for ClusterIni {
    type V = ClusterIniView;

    open spec fn view(&self) -> ClusterIniView {
        ClusterIniView {
            game_mode: self.game_mode@,
            max_players: self.max_players,
            pvp: self.pvp,
            pause_when_nobody: self.pause_when_nobody,
            vote_enabled: self.vote_enabled,
            vote_kick_enabled: self.vote_kick_enabled,
            lan_only_cluster: self.lan_only_cluster,
            cluster_intention: self.cluster_intention@,
            cluster_description: self.cluster_description@,
            cluster_password: self.cluster_password@,
            cluster_name: self.cluster_name@,
            offline_cluster: self.offline_cluster,
            cluster_language: self.cluster_language@,
            whitelist_slots: self.whitelist_slots,
            tick_rate: self.tick_rate,
            console_enabled: self.console_enabled,
            max_snapshots: self.max_snapshots,
            shard_enabled: self.shard_enabled,
            bind_ip: self.bind_ip@,
            master_ip: self.master_ip@,
            master_port: self.master_port,
            cluster_key: self.cluster_key@,
            steam_group_id: self.steam_group_id@,
            steam_group_only: self.steam_group_only,
            steam_group_admins: self.steam_group_admins,
        }
    }
}

/// The settings of a new cluster.
pub open spec fn cluster_ini_default_view() -> ClusterIniView {
    ClusterIniView {
        game_mode: "survival"@,
        max_players: 8,
        pvp: false,
        pause_when_nobody: true,
        vote_enabled: true,
        vote_kick_enabled: true,
        lan_only_cluster: false,
        cluster_intention: ""@,
        cluster_description: ""@,
        cluster_password: ""@,
        cluster_name: "我的饥荒服务世界"@,
        offline_cluster: false,
        cluster_language: "zh"@,
        whitelist_slots: 0,
        tick_rate: 15,
        console_enabled: true,
        max_snapshots: 6,
        shard_enabled: true,
        bind_ip: "0.0.0.0"@,
        master_ip: "127.0.0.1"@,
        master_port: 10888,
        cluster_key: ""@,
        steam_group_id: ""@,
        steam_group_only: false,
        steam_group_admins: false,
    }
}

/// The settings that `contents` gives: each setting from its key, a missing or
/// unparsable one from its default; a blank game mode is survival.
pub open spec fn cluster_ini_from(contents: Seq<char>) -> ClusterIniView {
    let p = ini_pairs(contents);
    ClusterIniView {
        game_mode: match ini_lookup(p, "game_mode"@) {
            Some(v) => if trim(v).len() > 0 { v } else { "survival"@ },
            None => "survival"@,
        },
        max_players: u64_or(ini_lookup(p, "max_players"@), 8),
        pvp: bool_or(ini_lookup(p, "pvp"@), false),
        pause_when_nobody: bool_or(ini_lookup(p, "pause_when_empty"@), true),
        vote_enabled: bool_or(ini_lookup(p, "vote_enabled"@), true),
        vote_kick_enabled: bool_or(ini_lookup(p, "vote_kick_enabled"@), true),
        lan_only_cluster: bool_or(ini_lookup(p, "lan_only_cluster"@), false),
        cluster_intention: text_or(ini_lookup(p, "cluster_intention"@), ""@),
        cluster_description: text_or(ini_lookup(p, "cluster_description"@), ""@),
        cluster_password: text_or(ini_lookup(p, "cluster_password"@), ""@),
        cluster_name: text_or(ini_lookup(p, "cluster_name"@), ""@),
        offline_cluster: bool_or(ini_lookup(p, "offline_cluster"@), false),
        cluster_language: text_or(ini_lookup(p, "cluster_language"@), "zh"@),
        whitelist_slots: u64_or(ini_lookup(p, "whitelist_slots"@), 0),
        tick_rate: u64_or(ini_lookup(p, "tick_rate"@), 15),
        console_enabled: bool_or(ini_lookup(p, "console_enabled"@), true),
        max_snapshots: u64_or(ini_lookup(p, "max_snapshots"@), 6),
        shard_enabled: bool_or(ini_lookup(p, "shard_enabled"@), true),
        bind_ip: text_or(ini_lookup(p, "bind_ip"@), "127.0.0.1"@),
        master_ip: text_or(ini_lookup(p, "master_ip"@), "127.0.0.1"@),
        master_port: u64_or(ini_lookup(p, "master_port"@), 10888),
        cluster_key: text_or(ini_lookup(p, "cluster_key"@), ""@),
        steam_group_id: text_or(ini_lookup(p, "steam_group_id"@), ""@),
        steam_group_only: bool_or(ini_lookup(p, "steam_group_only"@), false),
        steam_group_admins: bool_or(ini_lookup(p, "steam_group_admins"@), false),
    }
}

/// The `[GAMEPLAY]` section, with the blank line after it.
pub open spec fn gameplay_section(c: ClusterIniView) -> Seq<char> {
    line("[GAMEPLAY]"@)
        + line(kv_text("game_mode"@, c.game_mode))
        + line(kv_text("max_players"@, decimal(c.max_players as nat)))
        + line(kv_text("pvp"@, bool_text(c.pvp)))
        + line(kv_text("pause_when_empty"@, bool_text(c.pause_when_nobody)))
        + line(kv_text("vote_enabled"@, bool_text(c.vote_enabled)))
        + line(kv_text("vote_kick_enabled"@, bool_text(c.vote_kick_enabled)))
        + line(Seq::empty())
}

/// The pairs of the `[GAMEPLAY]` section.
pub open spec fn gameplay_pairs(c: ClusterIniView) -> Seq<(Seq<char>, Seq<char>)> {
    Seq::empty()
        .push(("game_mode"@, c.game_mode))
        .push(("max_players"@, decimal(c.max_players as nat)))
        .push(("pvp"@, bool_text(c.pvp)))
        .push(("pause_when_empty"@, bool_text(c.pause_when_nobody)))
        .push(("vote_enabled"@, bool_text(c.vote_enabled)))
        .push(("vote_kick_enabled"@, bool_text(c.vote_kick_enabled)))
}

/// The `[NETWORK]` section, with the blank line after it.
pub open spec fn network_section(c: ClusterIniView) -> Seq<char> {
    line("[NETWORK]"@)
        + line(kv_text("lan_only_cluster"@, bool_text(c.lan_only_cluster)))
        + line(kv_text("cluster_intention"@, c.cluster_intention))
        + line(kv_text("cluster_password"@, c.cluster_password))
        + line(kv_text("cluster_description"@, c.cluster_description))
        + line(kv_text("cluster_name"@, c.cluster_name))
        + line(kv_text("offline_cluster"@, bool_text(c.offline_cluster)))
        + line(kv_text("cluster_language"@, c.cluster_language))
        + line(kv_text("whitelist_slots"@, decimal(c.whitelist_slots as nat)))
        + line(kv_text("tick_rate"@, decimal(c.tick_rate as nat)))
        + line(Seq::empty())
}

/// The pairs of the `[NETWORK]` section.
pub open spec fn network_pairs(c: ClusterIniView) -> Seq<(Seq<char>, Seq<char>)> {
    Seq::empty()
        .push(("lan_only_cluster"@, bool_text(c.lan_only_cluster)))
        .push(("cluster_intention"@, c.cluster_intention))
        .push(("cluster_password"@, c.cluster_password))
        .push(("cluster_description"@, c.cluster_description))
        .push(("cluster_name"@, c.cluster_name))
        .push(("offline_cluster"@, bool_text(c.offline_cluster)))
        .push(("cluster_language"@, c.cluster_language))
        .push(("whitelist_slots"@, decimal(c.whitelist_slots as nat)))
        .push(("tick_rate"@, decimal(c.tick_rate as nat)))
}

/// The `[MISC]` section, with the blank line after it.
pub open spec fn misc_section(c: ClusterIniView) -> Seq<char> {
    line("[MISC]"@)
        + line(kv_text("console_enabled"@, bool_text(c.console_enabled)))
        + line(kv_text("max_snapshots"@, decimal(c.max_snapshots as nat)))
        + line(Seq::empty())
}

/// The pairs of the `[MISC]` section.
pub open spec fn misc_pairs(c: ClusterIniView) -> Seq<(Seq<char>, Seq<char>)> {
    Seq::empty()
        .push(("console_enabled"@, bool_text(c.console_enabled)))
        .push(("max_snapshots"@, decimal(c.max_snapshots as nat)))
}

/// The `[SHARD]` section, with the blank line after it.
pub open spec fn shard_section(c: ClusterIniView) -> Seq<char> {
    line("[SHARD]"@)
        + line(kv_text("shard_enabled"@, bool_text(c.shard_enabled)))
        + line(kv_text("bind_ip"@, c.bind_ip))
        + line(kv_text("master_ip"@, c.master_ip))
        + line(kv_text("master_port"@, decimal(c.master_port as nat)))
        + line(kv_text("cluster_key"@, c.cluster_key))
        + line(Seq::empty())
}

/// The pairs of the `[SHARD]` section.
pub open spec fn shard_pairs(c: ClusterIniView) -> Seq<(Seq<char>, Seq<char>)> {
    Seq::empty()
        .push(("shard_enabled"@, bool_text(c.shard_enabled)))
        .push(("bind_ip"@, c.bind_ip))
        .push(("master_ip"@, c.master_ip))
        .push(("master_port"@, decimal(c.master_port as nat)))
        .push(("cluster_key"@, c.cluster_key))
}

/// The `[STEAM]` section.
pub open spec fn steam_section(c: ClusterIniView) -> Seq<char> {
    line("[STEAM]"@)
        + line(kv_text("steam_group_only"@, bool_text(c.steam_group_only)))
        + line(kv_text("steam_group_id"@, c.steam_group_id))
        + line(kv_text("steam_group_admins"@, bool_text(c.steam_group_admins)))
}

/// The pairs of the `[STEAM]` section.
pub open spec fn steam_pairs(c: ClusterIniView) -> Seq<(Seq<char>, Seq<char>)> {
    Seq::empty()
        .push(("steam_group_only"@, bool_text(c.steam_group_only)))
        .push(("steam_group_id"@, c.steam_group_id))
        .push(("steam_group_admins"@, bool_text(c.steam_group_admins)))
}

/// The rendered file.
pub open spec fn cluster_ini_text(c: ClusterIniView) -> Seq<char> {
    gameplay_section(c) + network_section(c) + misc_section(c) + shard_section(c) + steam_section(c)
}

/// The pairs that the rendered file holds, in order.
pub open spec fn cluster_ini_pairs(c: ClusterIniView) -> Seq<(Seq<char>, Seq<char>)> {
    gameplay_pairs(c) + network_pairs(c) + misc_pairs(c) + shard_pairs(c) + steam_pairs(c)
}

proof fn lemma_gameplay_literals()
    ensures
        ini_header_ok("[GAMEPLAY]"@),
        ini_key_ok("game_mode"@),
        ini_key_ok("max_players"@),
        ini_key_ok("pvp"@),
        ini_key_ok("pause_when_empty"@),
        ini_key_ok("vote_enabled"@),
        ini_key_ok("vote_kick_enabled"@),
{
    reveal_strlit("[GAMEPLAY]");
    reveal_strlit("game_mode");
    reveal_strlit("max_players");
    reveal_strlit("pvp");
    reveal_strlit("pause_when_empty");
    reveal_strlit("vote_enabled");
    reveal_strlit("vote_kick_enabled");
}

proof fn lemma_network_literals()
    ensures
        ini_header_ok("[NETWORK]"@),
        ini_key_ok("lan_only_cluster"@),
        ini_key_ok("cluster_intention"@),
        ini_key_ok("cluster_password"@),
        ini_key_ok("cluster_description"@),
        ini_key_ok("cluster_name"@),
        ini_key_ok("offline_cluster"@),
        ini_key_ok("cluster_language"@),
        ini_key_ok("whitelist_slots"@),
        ini_key_ok("tick_rate"@),
{
    reveal_strlit("[NETWORK]");
    reveal_strlit("lan_only_cluster");
    reveal_strlit("cluster_intention");
    reveal_strlit("cluster_password");
    reveal_strlit("cluster_description");
    reveal_strlit("cluster_name");
    reveal_strlit("offline_cluster");
    reveal_strlit("cluster_language");
    reveal_strlit("whitelist_slots");
    reveal_strlit("tick_rate");
}

proof fn lemma_misc_literals()
    ensures
        ini_header_ok("[MISC]"@),
        ini_key_ok("console_enabled"@),
        ini_key_ok("max_snapshots"@),
{
    reveal_strlit("[MISC]");
    reveal_strlit("console_enabled");
    reveal_strlit("max_snapshots");
}

proof fn lemma_shard_literals()
    ensures
        ini_header_ok("[SHARD]"@),
        ini_key_ok("shard_enabled"@),
        ini_key_ok("bind_ip"@),
        ini_key_ok("master_ip"@),
        ini_key_ok("master_port"@),
        ini_key_ok("cluster_key"@),
{
    reveal_strlit("[SHARD]");
    reveal_strlit("shard_enabled");
    reveal_strlit("bind_ip");
    reveal_strlit("master_ip");
    reveal_strlit("master_port");
    reveal_strlit("cluster_key");
}

proof fn lemma_steam_literals()
    ensures
        ini_header_ok("[STEAM]"@),
        ini_key_ok("steam_group_only"@),
        ini_key_ok("steam_group_id"@),
        ini_key_ok("steam_group_admins"@),
{
    reveal_strlit("[STEAM]");
    reveal_strlit("steam_group_only");
    reveal_strlit("steam_group_id");
    reveal_strlit("steam_group_admins");
}

proof fn lemma_cluster_ini_key_shapes()
    ensures
        "game_mode"@.len() == 9,
        "game_mode"@[0] == 'g',
        "max_players"@.len() == 11,
        "max_players"@[0] == 'm',
        "max_players"@[2] == 'x',
        "pvp"@.len() == 3,
        "pvp"@[0] == 'p',
        "pause_when_empty"@.len() == 16,
        "pause_when_empty"@[0] == 'p',
        "vote_enabled"@.len() == 12,
        "vote_enabled"@[0] == 'v',
        "vote_kick_enabled"@.len() == 17,
        "vote_kick_enabled"@[0] == 'v',
        "lan_only_cluster"@.len() == 16,
        "lan_only_cluster"@[0] == 'l',
        "cluster_intention"@.len() == 17,
        "cluster_intention"@[0] == 'c',
        "cluster_password"@.len() == 16,
        "cluster_password"@[0] == 'c',
        "cluster_password"@[8] == 'p',
        "cluster_description"@.len() == 19,
        "cluster_description"@[0] == 'c',
        "cluster_name"@.len() == 12,
        "cluster_name"@[0] == 'c',
        "offline_cluster"@.len() == 15,
        "offline_cluster"@[0] == 'o',
        "cluster_language"@.len() == 16,
        "cluster_language"@[0] == 'c',
        "cluster_language"@[8] == 'l',
        "whitelist_slots"@.len() == 15,
        "whitelist_slots"@[0] == 'w',
        "tick_rate"@.len() == 9,
        "tick_rate"@[0] == 't',
        "console_enabled"@.len() == 15,
        "console_enabled"@[0] == 'c',
        "max_snapshots"@.len() == 13,
        "max_snapshots"@[0] == 'm',
        "shard_enabled"@.len() == 13,
        "shard_enabled"@[0] == 's',
        "bind_ip"@.len() == 7,
        "bind_ip"@[0] == 'b',
        "master_ip"@.len() == 9,
        "master_ip"@[0] == 'm',
        "master_port"@.len() == 11,
        "master_port"@[0] == 'm',
        "master_port"@[2] == 's',
        "cluster_key"@.len() == 11,
        "cluster_key"@[0] == 'c',
        "steam_group_only"@.len() == 16,
        "steam_group_only"@[0] == 's',
        "steam_group_id"@.len() == 14,
        "steam_group_id"@[0] == 's',
        "steam_group_admins"@.len() == 18,
        "steam_group_admins"@[0] == 's',
{
    reveal_strlit("game_mode");
    reveal_strlit("max_players");
    reveal_strlit("pvp");
    reveal_strlit("pause_when_empty");
    reveal_strlit("vote_enabled");
    reveal_strlit("vote_kick_enabled");
    reveal_strlit("lan_only_cluster");
    reveal_strlit("cluster_intention");
    reveal_strlit("cluster_password");
    reveal_strlit("cluster_description");
    reveal_strlit("cluster_name");
    reveal_strlit("offline_cluster");
    reveal_strlit("cluster_language");
    reveal_strlit("whitelist_slots");
    reveal_strlit("tick_rate");
    reveal_strlit("console_enabled");
    reveal_strlit("max_snapshots");
    reveal_strlit("shard_enabled");
    reveal_strlit("bind_ip");
    reveal_strlit("master_ip");
    reveal_strlit("master_port");
    reveal_strlit("cluster_key");
    reveal_strlit("steam_group_only");
    reveal_strlit("steam_group_id");
    reveal_strlit("steam_group_admins");
}

#[verifier::rlimit(100)]
proof fn lemma_gameplay_pairs(p: Seq<char>, c: ClusterIniView)
    requires
        p.len() == 0 || p.last() == '\n',
        ini_safe_value(c.game_mode),
    ensures
        ini_pairs(p + gameplay_section(c)) == ini_pairs(p) + gameplay_pairs(c),
        (p + gameplay_section(c)).last() == '\n',
{
    lemma_gameplay_literals();
    let e = Seq::<char>::empty();
    lemma_header_line(e);
    lemma_header_line("[GAMEPLAY]"@);
    let p0 = p + line("[GAMEPLAY]"@);
    lemma_ini_pairs_push_line(p, "[GAMEPLAY]"@);
    lemma_kv_line("game_mode"@, c.game_mode);
    let p1 = p0 + line(kv_text("game_mode"@, c.game_mode));
    lemma_ini_pairs_push_line(p0, kv_text("game_mode"@, c.game_mode));
    lemma_decimal_ini_safe(c.max_players as nat);
    lemma_kv_line("max_players"@, decimal(c.max_players as nat));
    let p2 = p1 + line(kv_text("max_players"@, decimal(c.max_players as nat)));
    lemma_ini_pairs_push_line(p1, kv_text("max_players"@, decimal(c.max_players as nat)));
    lemma_bool_ini_safe(c.pvp);
    lemma_kv_line("pvp"@, bool_text(c.pvp));
    let p3 = p2 + line(kv_text("pvp"@, bool_text(c.pvp)));
    lemma_ini_pairs_push_line(p2, kv_text("pvp"@, bool_text(c.pvp)));
    lemma_bool_ini_safe(c.pause_when_nobody);
    lemma_kv_line("pause_when_empty"@, bool_text(c.pause_when_nobody));
    let p4 = p3 + line(kv_text("pause_when_empty"@, bool_text(c.pause_when_nobody)));
    lemma_ini_pairs_push_line(p3, kv_text("pause_when_empty"@, bool_text(c.pause_when_nobody)));
    lemma_bool_ini_safe(c.vote_enabled);
    lemma_kv_line("vote_enabled"@, bool_text(c.vote_enabled));
    let p5 = p4 + line(kv_text("vote_enabled"@, bool_text(c.vote_enabled)));
    lemma_ini_pairs_push_line(p4, kv_text("vote_enabled"@, bool_text(c.vote_enabled)));
    lemma_bool_ini_safe(c.vote_kick_enabled);
    lemma_kv_line("vote_kick_enabled"@, bool_text(c.vote_kick_enabled));
    let p6 = p5 + line(kv_text("vote_kick_enabled"@, bool_text(c.vote_kick_enabled)));
    lemma_ini_pairs_push_line(p5, kv_text("vote_kick_enabled"@, bool_text(c.vote_kick_enabled)));
    let p7 = p6 + line(e);
    lemma_ini_pairs_push_line(p6, e);
    lemma_add_assoc(p, line("[GAMEPLAY]"@), line(kv_text("game_mode"@, c.game_mode)));
    lemma_add_assoc(p, line("[GAMEPLAY]"@) + line(kv_text("game_mode"@, c.game_mode)), line(kv_text("max_players"@, decimal(c.max_players as nat))));
    lemma_add_assoc(p, line("[GAMEPLAY]"@) + line(kv_text("game_mode"@, c.game_mode)) + line(kv_text("max_players"@, decimal(c.max_players as nat))), line(kv_text("pvp"@, bool_text(c.pvp))));
    lemma_add_assoc(p, line("[GAMEPLAY]"@) + line(kv_text("game_mode"@, c.game_mode)) + line(kv_text("max_players"@, decimal(c.max_players as nat))) + line(kv_text("pvp"@, bool_text(c.pvp))), line(kv_text("pause_when_empty"@, bool_text(c.pause_when_nobody))));
    lemma_add_assoc(p, line("[GAMEPLAY]"@) + line(kv_text("game_mode"@, c.game_mode)) + line(kv_text("max_players"@, decimal(c.max_players as nat))) + line(kv_text("pvp"@, bool_text(c.pvp))) + line(kv_text("pause_when_empty"@, bool_text(c.pause_when_nobody))), line(kv_text("vote_enabled"@, bool_text(c.vote_enabled))));
    lemma_add_assoc(p, line("[GAMEPLAY]"@) + line(kv_text("game_mode"@, c.game_mode)) + line(kv_text("max_players"@, decimal(c.max_players as nat))) + line(kv_text("pvp"@, bool_text(c.pvp))) + line(kv_text("pause_when_empty"@, bool_text(c.pause_when_nobody))) + line(kv_text("vote_enabled"@, bool_text(c.vote_enabled))), line(kv_text("vote_kick_enabled"@, bool_text(c.vote_kick_enabled))));
    lemma_add_assoc(p, line("[GAMEPLAY]"@) + line(kv_text("game_mode"@, c.game_mode)) + line(kv_text("max_players"@, decimal(c.max_players as nat))) + line(kv_text("pvp"@, bool_text(c.pvp))) + line(kv_text("pause_when_empty"@, bool_text(c.pause_when_nobody))) + line(kv_text("vote_enabled"@, bool_text(c.vote_enabled))) + line(kv_text("vote_kick_enabled"@, bool_text(c.vote_kick_enabled))), line(e));
    assert(p + gameplay_section(c) == p7);
    lemma_add_push(ini_pairs(p), Seq::<(Seq<char>, Seq<char>)>::empty(), ("game_mode"@, c.game_mode));
    lemma_add_push(ini_pairs(p), Seq::<(Seq<char>, Seq<char>)>::empty().push(("game_mode"@, c.game_mode)), ("max_players"@, decimal(c.max_players as nat)));
    lemma_add_push(ini_pairs(p), Seq::<(Seq<char>, Seq<char>)>::empty().push(("game_mode"@, c.game_mode)).push(("max_players"@, decimal(c.max_players as nat))), ("pvp"@, bool_text(c.pvp)));
    lemma_add_push(ini_pairs(p), Seq::<(Seq<char>, Seq<char>)>::empty().push(("game_mode"@, c.game_mode)).push(("max_players"@, decimal(c.max_players as nat))).push(("pvp"@, bool_text(c.pvp))), ("pause_when_empty"@, bool_text(c.pause_when_nobody)));
    lemma_add_push(ini_pairs(p), Seq::<(Seq<char>, Seq<char>)>::empty().push(("game_mode"@, c.game_mode)).push(("max_players"@, decimal(c.max_players as nat))).push(("pvp"@, bool_text(c.pvp))).push(("pause_when_empty"@, bool_text(c.pause_when_nobody))), ("vote_enabled"@, bool_text(c.vote_enabled)));
    lemma_add_push(ini_pairs(p), Seq::<(Seq<char>, Seq<char>)>::empty().push(("game_mode"@, c.game_mode)).push(("max_players"@, decimal(c.max_players as nat))).push(("pvp"@, bool_text(c.pvp))).push(("pause_when_empty"@, bool_text(c.pause_when_nobody))).push(("vote_enabled"@, bool_text(c.vote_enabled))), ("vote_kick_enabled"@, bool_text(c.vote_kick_enabled)));
    assert(ini_pairs(p) + gameplay_pairs(c) == ini_pairs(p7));
}

#[verifier::rlimit(100)]
proof fn lemma_network_pairs(p: Seq<char>, c: ClusterIniView)
    requires
        p.len() == 0 || p.last() == '\n',
        ini_safe_value(c.cluster_intention),
        ini_safe_value(c.cluster_password),
        ini_safe_value(c.cluster_description),
        ini_safe_value(c.cluster_name),
        ini_safe_value(c.cluster_language),
    ensures
        ini_pairs(p + network_section(c)) == ini_pairs(p) + network_pairs(c),
        (p + network_section(c)).last() == '\n',
{
    lemma_network_literals();
    let e = Seq::<char>::empty();
    lemma_header_line(e);
    lemma_header_line("[NETWORK]"@);
    let p0 = p + line("[NETWORK]"@);
    lemma_ini_pairs_push_line(p, "[NETWORK]"@);
    lemma_bool_ini_safe(c.lan_only_cluster);
    lemma_kv_line("lan_only_cluster"@, bool_text(c.lan_only_cluster));
    let p1 = p0 + line(kv_text("lan_only_cluster"@, bool_text(c.lan_only_cluster)));
    lemma_ini_pairs_push_line(p0, kv_text("lan_only_cluster"@, bool_text(c.lan_only_cluster)));
    lemma_kv_line("cluster_intention"@, c.cluster_intention);
    let p2 = p1 + line(kv_text("cluster_intention"@, c.cluster_intention));
    lemma_ini_pairs_push_line(p1, kv_text("cluster_intention"@, c.cluster_intention));
    lemma_kv_line("cluster_password"@, c.cluster_password);
    let p3 = p2 + line(kv_text("cluster_password"@, c.cluster_password));
    lemma_ini_pairs_push_line(p2, kv_text("cluster_password"@, c.cluster_password));
    lemma_kv_line("cluster_description"@, c.cluster_description);
    let p4 = p3 + line(kv_text("cluster_description"@, c.cluster_description));
    lemma_ini_pairs_push_line(p3, kv_text("cluster_description"@, c.cluster_description));
    lemma_kv_line("cluster_name"@, c.cluster_name);
    let p5 = p4 + line(kv_text("cluster_name"@, c.cluster_name));
    lemma_ini_pairs_push_line(p4, kv_text("cluster_name"@, c.cluster_name));
    lemma_bool_ini_safe(c.offline_cluster);
    lemma_kv_line("offline_cluster"@, bool_text(c.offline_cluster));
    let p6 = p5 + line(kv_text("offline_cluster"@, bool_text(c.offline_cluster)));
    lemma_ini_pairs_push_line(p5, kv_text("offline_cluster"@, bool_text(c.offline_cluster)));
    lemma_kv_line("cluster_language"@, c.cluster_language);
    let p7 = p6 + line(kv_text("cluster_language"@, c.cluster_language));
    lemma_ini_pairs_push_line(p6, kv_text("cluster_language"@, c.cluster_language));
    lemma_decimal_ini_safe(c.whitelist_slots as nat);
    lemma_kv_line("whitelist_slots"@, decimal(c.whitelist_slots as nat));
    let p8 = p7 + line(kv_text("whitelist_slots"@, decimal(c.whitelist_slots as nat)));
    lemma_ini_pairs_push_line(p7, kv_text("whitelist_slots"@, decimal(c.whitelist_slots as nat)));
    lemma_decimal_ini_safe(c.tick_rate as nat);
    lemma_kv_line("tick_rate"@, decimal(c.tick_rate as nat));
    let p9 = p8 + line(kv_text("tick_rate"@, decimal(c.tick_rate as nat)));
    lemma_ini_pairs_push_line(p8, kv_text("tick_rate"@, decimal(c.tick_rate as nat)));
    let p10 = p9 + line(e);
    lemma_ini_pairs_push_line(p9, e);
    lemma_add_assoc(p, line("[NETWORK]"@), line(kv_text("lan_only_cluster"@, bool_text(c.lan_only_cluster))));
    lemma_add_assoc(p, line("[NETWORK]"@) + line(kv_text("lan_only_cluster"@, bool_text(c.lan_only_cluster))), line(kv_text("cluster_intention"@, c.cluster_intention)));
    lemma_add_assoc(p, line("[NETWORK]"@) + line(kv_text("lan_only_cluster"@, bool_text(c.lan_only_cluster))) + line(kv_text("cluster_intention"@, c.cluster_intention)), line(kv_text("cluster_password"@, c.cluster_password)));
    lemma_add_assoc(p, line("[NETWORK]"@) + line(kv_text("lan_only_cluster"@, bool_text(c.lan_only_cluster))) + line(kv_text("cluster_intention"@, c.cluster_intention)) + line(kv_text("cluster_password"@, c.cluster_password)), line(kv_text("cluster_description"@, c.cluster_description)));
    lemma_add_assoc(p, line("[NETWORK]"@) + line(kv_text("lan_only_cluster"@, bool_text(c.lan_only_cluster))) + line(kv_text("cluster_intention"@, c.cluster_intention)) + line(kv_text("cluster_password"@, c.cluster_password)) + line(kv_text("cluster_description"@, c.cluster_description)), line(kv_text("cluster_name"@, c.cluster_name)));
    lemma_add_assoc(p, line("[NETWORK]"@) + line(kv_text("lan_only_cluster"@, bool_text(c.lan_only_cluster))) + line(kv_text("cluster_intention"@, c.cluster_intention)) + line(kv_text("cluster_password"@, c.cluster_password)) + line(kv_text("cluster_description"@, c.cluster_description)) + line(kv_text("cluster_name"@, c.cluster_name)), line(kv_text("offline_cluster"@, bool_text(c.offline_cluster))));
    lemma_add_assoc(p, line("[NETWORK]"@) + line(kv_text("lan_only_cluster"@, bool_text(c.lan_only_cluster))) + line(kv_text("cluster_intention"@, c.cluster_intention)) + line(kv_text("cluster_password"@, c.cluster_password)) + line(kv_text("cluster_description"@, c.cluster_description)) + line(kv_text("cluster_name"@, c.cluster_name)) + line(kv_text("offline_cluster"@, bool_text(c.offline_cluster))), line(kv_text("cluster_language"@, c.cluster_language)));
    lemma_add_assoc(p, line("[NETWORK]"@) + line(kv_text("lan_only_cluster"@, bool_text(c.lan_only_cluster))) + line(kv_text("cluster_intention"@, c.cluster_intention)) + line(kv_text("cluster_password"@, c.cluster_password)) + line(kv_text("cluster_description"@, c.cluster_description)) + line(kv_text("cluster_name"@, c.cluster_name)) + line(kv_text("offline_cluster"@, bool_text(c.offline_cluster))) + line(kv_text("cluster_language"@, c.cluster_language)), line(kv_text("whitelist_slots"@, decimal(c.whitelist_slots as nat))));
    lemma_add_assoc(p, line("[NETWORK]"@) + line(kv_text("lan_only_cluster"@, bool_text(c.lan_only_cluster))) + line(kv_text("cluster_intention"@, c.cluster_intention)) + line(kv_text("cluster_password"@, c.cluster_password)) + line(kv_text("cluster_description"@, c.cluster_description)) + line(kv_text("cluster_name"@, c.cluster_name)) + line(kv_text("offline_cluster"@, bool_text(c.offline_cluster))) + line(kv_text("cluster_language"@, c.cluster_language)) + line(kv_text("whitelist_slots"@, decimal(c.whitelist_slots as nat))), line(kv_text("tick_rate"@, decimal(c.tick_rate as nat))));
    lemma_add_assoc(p, line("[NETWORK]"@) + line(kv_text("lan_only_cluster"@, bool_text(c.lan_only_cluster))) + line(kv_text("cluster_intention"@, c.cluster_intention)) + line(kv_text("cluster_password"@, c.cluster_password)) + line(kv_text("cluster_description"@, c.cluster_description)) + line(kv_text("cluster_name"@, c.cluster_name)) + line(kv_text("offline_cluster"@, bool_text(c.offline_cluster))) + line(kv_text("cluster_language"@, c.cluster_language)) + line(kv_text("whitelist_slots"@, decimal(c.whitelist_slots as nat))) + line(kv_text("tick_rate"@, decimal(c.tick_rate as nat))), line(e));
    assert(p + network_section(c) == p10);
    lemma_add_push(ini_pairs(p), Seq::<(Seq<char>, Seq<char>)>::empty(), ("lan_only_cluster"@, bool_text(c.lan_only_cluster)));
    lemma_add_push(ini_pairs(p), Seq::<(Seq<char>, Seq<char>)>::empty().push(("lan_only_cluster"@, bool_text(c.lan_only_cluster))), ("cluster_intention"@, c.cluster_intention));
    lemma_add_push(ini_pairs(p), Seq::<(Seq<char>, Seq<char>)>::empty().push(("lan_only_cluster"@, bool_text(c.lan_only_cluster))).push(("cluster_intention"@, c.cluster_intention)), ("cluster_password"@, c.cluster_password));
    lemma_add_push(ini_pairs(p), Seq::<(Seq<char>, Seq<char>)>::empty().push(("lan_only_cluster"@, bool_text(c.lan_only_cluster))).push(("cluster_intention"@, c.cluster_intention)).push(("cluster_password"@, c.cluster_password)), ("cluster_description"@, c.cluster_description));
    lemma_add_push(ini_pairs(p), Seq::<(Seq<char>, Seq<char>)>::empty().push(("lan_only_cluster"@, bool_text(c.lan_only_cluster))).push(("cluster_intention"@, c.cluster_intention)).push(("cluster_password"@, c.cluster_password)).push(("cluster_description"@, c.cluster_description)), ("cluster_name"@, c.cluster_name));
    lemma_add_push(ini_pairs(p), Seq::<(Seq<char>, Seq<char>)>::empty().push(("lan_only_cluster"@, bool_text(c.lan_only_cluster))).push(("cluster_intention"@, c.cluster_intention)).push(("cluster_password"@, c.cluster_password)).push(("cluster_description"@, c.cluster_description)).push(("cluster_name"@, c.cluster_name)), ("offline_cluster"@, bool_text(c.offline_cluster)));
    lemma_add_push(ini_pairs(p), Seq::<(Seq<char>, Seq<char>)>::empty().push(("lan_only_cluster"@, bool_text(c.lan_only_cluster))).push(("cluster_intention"@, c.cluster_intention)).push(("cluster_password"@, c.cluster_password)).push(("cluster_description"@, c.cluster_description)).push(("cluster_name"@, c.cluster_name)).push(("offline_cluster"@, bool_text(c.offline_cluster))), ("cluster_language"@, c.cluster_language));
    lemma_add_push(ini_pairs(p), Seq::<(Seq<char>, Seq<char>)>::empty().push(("lan_only_cluster"@, bool_text(c.lan_only_cluster))).push(("cluster_intention"@, c.cluster_intention)).push(("cluster_password"@, c.cluster_password)).push(("cluster_description"@, c.cluster_description)).push(("cluster_name"@, c.cluster_name)).push(("offline_cluster"@, bool_text(c.offline_cluster))).push(("cluster_language"@, c.cluster_language)), ("whitelist_slots"@, decimal(c.whitelist_slots as nat)));
    lemma_add_push(ini_pairs(p), Seq::<(Seq<char>, Seq<char>)>::empty().push(("lan_only_cluster"@, bool_text(c.lan_only_cluster))).push(("cluster_intention"@, c.cluster_intention)).push(("cluster_password"@, c.cluster_password)).push(("cluster_description"@, c.cluster_description)).push(("cluster_name"@, c.cluster_name)).push(("offline_cluster"@, bool_text(c.offline_cluster))).push(("cluster_language"@, c.cluster_language)).push(("whitelist_slots"@, decimal(c.whitelist_slots as nat))), ("tick_rate"@, decimal(c.tick_rate as nat)));
    assert(ini_pairs(p) + network_pairs(c) == ini_pairs(p10));
}

proof fn lemma_misc_pairs(p: Seq<char>, c: ClusterIniView)
    requires
        p.len() == 0 || p.last() == '\n',
    ensures
        ini_pairs(p + misc_section(c)) == ini_pairs(p) + misc_pairs(c),
        (p + misc_section(c)).last() == '\n',
{
    lemma_misc_literals();
    let e = Seq::<char>::empty();
    lemma_header_line(e);
    lemma_header_line("[MISC]"@);
    let p0 = p + line("[MISC]"@);
    lemma_ini_pairs_push_line(p, "[MISC]"@);
    lemma_bool_ini_safe(c.console_enabled);
    lemma_kv_line("console_enabled"@, bool_text(c.console_enabled));
    let p1 = p0 + line(kv_text("console_enabled"@, bool_text(c.console_enabled)));
    lemma_ini_pairs_push_line(p0, kv_text("console_enabled"@, bool_text(c.console_enabled)));
    lemma_decimal_ini_safe(c.max_snapshots as nat);
    lemma_kv_line("max_snapshots"@, decimal(c.max_snapshots as nat));
    let p2 = p1 + line(kv_text("max_snapshots"@, decimal(c.max_snapshots as nat)));
    lemma_ini_pairs_push_line(p1, kv_text("max_snapshots"@, decimal(c.max_snapshots as nat)));
    let p3 = p2 + line(e);
    lemma_ini_pairs_push_line(p2, e);
    lemma_add_assoc(p, line("[MISC]"@), line(kv_text("console_enabled"@, bool_text(c.console_enabled))));
    lemma_add_assoc(p, line("[MISC]"@) + line(kv_text("console_enabled"@, bool_text(c.console_enabled))), line(kv_text("max_snapshots"@, decimal(c.max_snapshots as nat))));
    lemma_add_assoc(p, line("[MISC]"@) + line(kv_text("console_enabled"@, bool_text(c.console_enabled))) + line(kv_text("max_snapshots"@, decimal(c.max_snapshots as nat))), line(e));
    assert(p + misc_section(c) == p3);
    lemma_add_push(ini_pairs(p), Seq::<(Seq<char>, Seq<char>)>::empty(), ("console_enabled"@, bool_text(c.console_enabled)));
    lemma_add_push(ini_pairs(p), Seq::<(Seq<char>, Seq<char>)>::empty().push(("console_enabled"@, bool_text(c.console_enabled))), ("max_snapshots"@, decimal(c.max_snapshots as nat)));
    assert(ini_pairs(p) + misc_pairs(c) == ini_pairs(p3));
}

proof fn lemma_shard_pairs(p: Seq<char>, c: ClusterIniView)
    requires
        p.len() == 0 || p.last() == '\n',
        ini_safe_value(c.bind_ip),
        ini_safe_value(c.master_ip),
        ini_safe_value(c.cluster_key),
    ensures
        ini_pairs(p + shard_section(c)) == ini_pairs(p) + shard_pairs(c),
        (p + shard_section(c)).last() == '\n',
{
    lemma_shard_literals();
    let e = Seq::<char>::empty();
    lemma_header_line(e);
    lemma_header_line("[SHARD]"@);
    let p0 = p + line("[SHARD]"@);
    lemma_ini_pairs_push_line(p, "[SHARD]"@);
    lemma_bool_ini_safe(c.shard_enabled);
    lemma_kv_line("shard_enabled"@, bool_text(c.shard_enabled));
    let p1 = p0 + line(kv_text("shard_enabled"@, bool_text(c.shard_enabled)));
    lemma_ini_pairs_push_line(p0, kv_text("shard_enabled"@, bool_text(c.shard_enabled)));
    lemma_kv_line("bind_ip"@, c.bind_ip);
    let p2 = p1 + line(kv_text("bind_ip"@, c.bind_ip));
    lemma_ini_pairs_push_line(p1, kv_text("bind_ip"@, c.bind_ip));
    lemma_kv_line("master_ip"@, c.master_ip);
    let p3 = p2 + line(kv_text("master_ip"@, c.master_ip));
    lemma_ini_pairs_push_line(p2, kv_text("master_ip"@, c.master_ip));
    lemma_decimal_ini_safe(c.master_port as nat);
    lemma_kv_line("master_port"@, decimal(c.master_port as nat));
    let p4 = p3 + line(kv_text("master_port"@, decimal(c.master_port as nat)));
    lemma_ini_pairs_push_line(p3, kv_text("master_port"@, decimal(c.master_port as nat)));
    lemma_kv_line("cluster_key"@, c.cluster_key);
    let p5 = p4 + line(kv_text("cluster_key"@, c.cluster_key));
    lemma_ini_pairs_push_line(p4, kv_text("cluster_key"@, c.cluster_key));
    let p6 = p5 + line(e);
    lemma_ini_pairs_push_line(p5, e);
    lemma_add_assoc(p, line("[SHARD]"@), line(kv_text("shard_enabled"@, bool_text(c.shard_enabled))));
    lemma_add_assoc(p, line("[SHARD]"@) + line(kv_text("shard_enabled"@, bool_text(c.shard_enabled))), line(kv_text("bind_ip"@, c.bind_ip)));
    lemma_add_assoc(p, line("[SHARD]"@) + line(kv_text("shard_enabled"@, bool_text(c.shard_enabled))) + line(kv_text("bind_ip"@, c.bind_ip)), line(kv_text("master_ip"@, c.master_ip)));
    lemma_add_assoc(p, line("[SHARD]"@) + line(kv_text("shard_enabled"@, bool_text(c.shard_enabled))) + line(kv_text("bind_ip"@, c.bind_ip)) + line(kv_text("master_ip"@, c.master_ip)), line(kv_text("master_port"@, decimal(c.master_port as nat))));
    lemma_add_assoc(p, line("[SHARD]"@) + line(kv_text("shard_enabled"@, bool_text(c.shard_enabled))) + line(kv_text("bind_ip"@, c.bind_ip)) + line(kv_text("master_ip"@, c.master_ip)) + line(kv_text("master_port"@, decimal(c.master_port as nat))), line(kv_text("cluster_key"@, c.cluster_key)));
    lemma_add_assoc(p, line("[SHARD]"@) + line(kv_text("shard_enabled"@, bool_text(c.shard_enabled))) + line(kv_text("bind_ip"@, c.bind_ip)) + line(kv_text("master_ip"@, c.master_ip)) + line(kv_text("master_port"@, decimal(c.master_port as nat))) + line(kv_text("cluster_key"@, c.cluster_key)), line(e));
    assert(p + shard_section(c) == p6);
    lemma_add_push(ini_pairs(p), Seq::<(Seq<char>, Seq<char>)>::empty(), ("shard_enabled"@, bool_text(c.shard_enabled)));
    lemma_add_push(ini_pairs(p), Seq::<(Seq<char>, Seq<char>)>::empty().push(("shard_enabled"@, bool_text(c.shard_enabled))), ("bind_ip"@, c.bind_ip));
    lemma_add_push(ini_pairs(p), Seq::<(Seq<char>, Seq<char>)>::empty().push(("shard_enabled"@, bool_text(c.shard_enabled))).push(("bind_ip"@, c.bind_ip)), ("master_ip"@, c.master_ip));
    lemma_add_push(ini_pairs(p), Seq::<(Seq<char>, Seq<char>)>::empty().push(("shard_enabled"@, bool_text(c.shard_enabled))).push(("bind_ip"@, c.bind_ip)).push(("master_ip"@, c.master_ip)), ("master_port"@, decimal(c.master_port as nat)));
    lemma_add_push(ini_pairs(p), Seq::<(Seq<char>, Seq<char>)>::empty().push(("shard_enabled"@, bool_text(c.shard_enabled))).push(("bind_ip"@, c.bind_ip)).push(("master_ip"@, c.master_ip)).push(("master_port"@, decimal(c.master_port as nat))), ("cluster_key"@, c.cluster_key));
    assert(ini_pairs(p) + shard_pairs(c) == ini_pairs(p6));
}

proof fn lemma_steam_pairs(p: Seq<char>, c: ClusterIniView)
    requires
        p.len() == 0 || p.last() == '\n',
        ini_safe_value(c.steam_group_id),
    ensures
        ini_pairs(p + steam_section(c)) == ini_pairs(p) + steam_pairs(c),
        (p + steam_section(c)).last() == '\n',
{
    lemma_steam_literals();
    let e = Seq::<char>::empty();
    lemma_header_line(e);
    lemma_header_line("[STEAM]"@);
    let p0 = p + line("[STEAM]"@);
    lemma_ini_pairs_push_line(p, "[STEAM]"@);
    lemma_bool_ini_safe(c.steam_group_only);
    lemma_kv_line("steam_group_only"@, bool_text(c.steam_group_only));
    let p1 = p0 + line(kv_text("steam_group_only"@, bool_text(c.steam_group_only)));
    lemma_ini_pairs_push_line(p0, kv_text("steam_group_only"@, bool_text(c.steam_group_only)));
    lemma_kv_line("steam_group_id"@, c.steam_group_id);
    let p2 = p1 + line(kv_text("steam_group_id"@, c.steam_group_id));
    lemma_ini_pairs_push_line(p1, kv_text("steam_group_id"@, c.steam_group_id));
    lemma_bool_ini_safe(c.steam_group_admins);
    lemma_kv_line("steam_group_admins"@, bool_text(c.steam_group_admins));
    let p3 = p2 + line(kv_text("steam_group_admins"@, bool_text(c.steam_group_admins)));
    lemma_ini_pairs_push_line(p2, kv_text("steam_group_admins"@, bool_text(c.steam_group_admins)));
    lemma_add_assoc(p, line("[STEAM]"@), line(kv_text("steam_group_only"@, bool_text(c.steam_group_only))));
    lemma_add_assoc(p, line("[STEAM]"@) + line(kv_text("steam_group_only"@, bool_text(c.steam_group_only))), line(kv_text("steam_group_id"@, c.steam_group_id)));
    lemma_add_assoc(p, line("[STEAM]"@) + line(kv_text("steam_group_only"@, bool_text(c.steam_group_only))) + line(kv_text("steam_group_id"@, c.steam_group_id)), line(kv_text("steam_group_admins"@, bool_text(c.steam_group_admins))));
    assert(p + steam_section(c) == p3);
    lemma_add_push(ini_pairs(p), Seq::<(Seq<char>, Seq<char>)>::empty(), ("steam_group_only"@, bool_text(c.steam_group_only)));
    lemma_add_push(ini_pairs(p), Seq::<(Seq<char>, Seq<char>)>::empty().push(("steam_group_only"@, bool_text(c.steam_group_only))), ("steam_group_id"@, c.steam_group_id));
    lemma_add_push(ini_pairs(p), Seq::<(Seq<char>, Seq<char>)>::empty().push(("steam_group_only"@, bool_text(c.steam_group_only))).push(("steam_group_id"@, c.steam_group_id)), ("steam_group_admins"@, bool_text(c.steam_group_admins)));
    assert(ini_pairs(p) + steam_pairs(c) == ini_pairs(p3));
}

/// The rendered text parses to its pairs.
pub proof fn lemma_cluster_ini_text_pairs(c: ClusterIniView)
    requires
        ini_safe_value(c.game_mode),
        ini_safe_value(c.cluster_intention),
        ini_safe_value(c.cluster_description),
        ini_safe_value(c.cluster_password),
        ini_safe_value(c.cluster_name),
        ini_safe_value(c.cluster_language),
        ini_safe_value(c.bind_ip),
        ini_safe_value(c.master_ip),
        ini_safe_value(c.cluster_key),
        ini_safe_value(c.steam_group_id),
    ensures
        ini_pairs(cluster_ini_text(c)) == cluster_ini_pairs(c),
{
    let e = Seq::<char>::empty();
    lemma_ini_pairs_empty();
    assert(ini_pairs(e) =~= Seq::<(Seq<char>, Seq<char>)>::empty());
    lemma_gameplay_pairs(e, c);
    let t1 = e + gameplay_section(c);
    lemma_network_pairs(t1, c);
    let t2 = t1 + network_section(c);
    lemma_misc_pairs(t2, c);
    let t3 = t2 + misc_section(c);
    lemma_shard_pairs(t3, c);
    let t4 = t3 + shard_section(c);
    lemma_steam_pairs(t4, c);
    let t5 = t4 + steam_section(c);
    assert(e + gameplay_section(c) =~= gameplay_section(c));
    assert(t5 =~= cluster_ini_text(c));
    assert(ini_pairs(t5) =~= cluster_ini_pairs(c));
}

#[verifier::rlimit(60)]
proof fn lemma_cluster_ini_lookups_0(c: ClusterIniView)
    ensures
        ini_lookup(cluster_ini_pairs(c), "game_mode"@) == Some(c.game_mode),
        ini_lookup(cluster_ini_pairs(c), "max_players"@) == Some(decimal(c.max_players as nat)),
        ini_lookup(cluster_ini_pairs(c), "pvp"@) == Some(bool_text(c.pvp)),
        ini_lookup(cluster_ini_pairs(c), "pause_when_empty"@) == Some(bool_text(c.pause_when_nobody)),
        ini_lookup(cluster_ini_pairs(c), "vote_enabled"@) == Some(bool_text(c.vote_enabled)),
{
    lemma_cluster_ini_key_shapes();
    let q = cluster_ini_pairs(c);
    assert(q[0] == ("game_mode"@, c.game_mode));
    lemma_lookup_at(q, 0);
    assert(q[1] == ("max_players"@, decimal(c.max_players as nat)));
    lemma_lookup_at(q, 1);
    assert(q[2] == ("pvp"@, bool_text(c.pvp)));
    lemma_lookup_at(q, 2);
    assert(q[3] == ("pause_when_empty"@, bool_text(c.pause_when_nobody)));
    lemma_lookup_at(q, 3);
    assert(q[4] == ("vote_enabled"@, bool_text(c.vote_enabled)));
    lemma_lookup_at(q, 4);
}

#[verifier::rlimit(60)]
proof fn lemma_cluster_ini_lookups_1(c: ClusterIniView)
    ensures
        ini_lookup(cluster_ini_pairs(c), "vote_kick_enabled"@) == Some(bool_text(c.vote_kick_enabled)),
        ini_lookup(cluster_ini_pairs(c), "lan_only_cluster"@) == Some(bool_text(c.lan_only_cluster)),
        ini_lookup(cluster_ini_pairs(c), "cluster_intention"@) == Some(c.cluster_intention),
        ini_lookup(cluster_ini_pairs(c), "cluster_password"@) == Some(c.cluster_password),
        ini_lookup(cluster_ini_pairs(c), "cluster_description"@) == Some(c.cluster_description),
{
    lemma_cluster_ini_key_shapes();
    let q = cluster_ini_pairs(c);
    assert(q[5] == ("vote_kick_enabled"@, bool_text(c.vote_kick_enabled)));
    lemma_lookup_at(q, 5);
    assert(q[6] == ("lan_only_cluster"@, bool_text(c.lan_only_cluster)));
    lemma_lookup_at(q, 6);
    assert(q[7] == ("cluster_intention"@, c.cluster_intention));
    lemma_lookup_at(q, 7);
    assert(q[8] == ("cluster_password"@, c.cluster_password));
    lemma_lookup_at(q, 8);
    assert(q[9] == ("cluster_description"@, c.cluster_description));
    lemma_lookup_at(q, 9);
}

#[verifier::rlimit(60)]
proof fn lemma_cluster_ini_lookups_2(c: ClusterIniView)
    ensures
        ini_lookup(cluster_ini_pairs(c), "cluster_name"@) == Some(c.cluster_name),
        ini_lookup(cluster_ini_pairs(c), "offline_cluster"@) == Some(bool_text(c.offline_cluster)),
        ini_lookup(cluster_ini_pairs(c), "cluster_language"@) == Some(c.cluster_language),
        ini_lookup(cluster_ini_pairs(c), "whitelist_slots"@) == Some(decimal(c.whitelist_slots as nat)),
        ini_lookup(cluster_ini_pairs(c), "tick_rate"@) == Some(decimal(c.tick_rate as nat)),
{
    lemma_cluster_ini_key_shapes();
    let q = cluster_ini_pairs(c);
    assert(q[10] == ("cluster_name"@, c.cluster_name));
    lemma_lookup_at(q, 10);
    assert(q[11] == ("offline_cluster"@, bool_text(c.offline_cluster)));
    lemma_lookup_at(q, 11);
    assert(q[12] == ("cluster_language"@, c.cluster_language));
    lemma_lookup_at(q, 12);
    assert(q[13] == ("whitelist_slots"@, decimal(c.whitelist_slots as nat)));
    lemma_lookup_at(q, 13);
    assert(q[14] == ("tick_rate"@, decimal(c.tick_rate as nat)));
    lemma_lookup_at(q, 14);
}

#[verifier::rlimit(60)]
proof fn lemma_cluster_ini_lookups_3(c: ClusterIniView)
    ensures
        ini_lookup(cluster_ini_pairs(c), "console_enabled"@) == Some(bool_text(c.console_enabled)),
        ini_lookup(cluster_ini_pairs(c), "max_snapshots"@) == Some(decimal(c.max_snapshots as nat)),
        ini_lookup(cluster_ini_pairs(c), "shard_enabled"@) == Some(bool_text(c.shard_enabled)),
        ini_lookup(cluster_ini_pairs(c), "bind_ip"@) == Some(c.bind_ip),
        ini_lookup(cluster_ini_pairs(c), "master_ip"@) == Some(c.master_ip),
{
    lemma_cluster_ini_key_shapes();
    let q = cluster_ini_pairs(c);
    assert(q[15] == ("console_enabled"@, bool_text(c.console_enabled)));
    lemma_lookup_at(q, 15);
    assert(q[16] == ("max_snapshots"@, decimal(c.max_snapshots as nat)));
    lemma_lookup_at(q, 16);
    assert(q[17] == ("shard_enabled"@, bool_text(c.shard_enabled)));
    lemma_lookup_at(q, 17);
    assert(q[18] == ("bind_ip"@, c.bind_ip));
    lemma_lookup_at(q, 18);
    assert(q[19] == ("master_ip"@, c.master_ip));
    lemma_lookup_at(q, 19);
}

#[verifier::rlimit(60)]
proof fn lemma_cluster_ini_lookups_4(c: ClusterIniView)
    ensures
        ini_lookup(cluster_ini_pairs(c), "master_port"@) == Some(decimal(c.master_port as nat)),
        ini_lookup(cluster_ini_pairs(c), "cluster_key"@) == Some(c.cluster_key),
        ini_lookup(cluster_ini_pairs(c), "steam_group_only"@) == Some(bool_text(c.steam_group_only)),
        ini_lookup(cluster_ini_pairs(c), "steam_group_id"@) == Some(c.steam_group_id),
        ini_lookup(cluster_ini_pairs(c), "steam_group_admins"@) == Some(bool_text(c.steam_group_admins)),
{
    lemma_cluster_ini_key_shapes();
    let q = cluster_ini_pairs(c);
    assert(q[20] == ("master_port"@, decimal(c.master_port as nat)));
    lemma_lookup_at(q, 20);
    assert(q[21] == ("cluster_key"@, c.cluster_key));
    lemma_lookup_at(q, 21);
    assert(q[22] == ("steam_group_only"@, bool_text(c.steam_group_only)));
    lemma_lookup_at(q, 22);
    assert(q[23] == ("steam_group_id"@, c.steam_group_id));
    lemma_lookup_at(q, 23);
    assert(q[24] == ("steam_group_admins"@, bool_text(c.steam_group_admins)));
    lemma_lookup_at(q, 24);
}

/// Writing a cluster's settings and reading the text back gives the same
/// settings, when every text setting has no surrounding whitespace and no line
/// break and the game mode is not blank.
pub proof fn lemma_cluster_ini_roundtrip(c: ClusterIniView)
    requires
        ini_safe_value(c.game_mode),
        ini_safe_value(c.cluster_intention),
        ini_safe_value(c.cluster_description),
        ini_safe_value(c.cluster_password),
        ini_safe_value(c.cluster_name),
        ini_safe_value(c.cluster_language),
        ini_safe_value(c.bind_ip),
        ini_safe_value(c.master_ip),
        ini_safe_value(c.cluster_key),
        ini_safe_value(c.steam_group_id),
        c.game_mode.len() > 0,
    ensures
        cluster_ini_from(cluster_ini_text(c)) == c,
{
    lemma_cluster_ini_text_pairs(c);
    lemma_cluster_ini_lookups_0(c);
    lemma_cluster_ini_lookups_1(c);
    lemma_cluster_ini_lookups_2(c);
    lemma_cluster_ini_lookups_3(c);
    lemma_cluster_ini_lookups_4(c);
    lemma_trim_no_surrounding_ws(c.game_mode);
    lemma_u64_value_roundtrip(c.max_players, 8);
    lemma_bool_value_roundtrip(c.pvp, false);
    lemma_bool_value_roundtrip(c.pause_when_nobody, true);
    lemma_bool_value_roundtrip(c.vote_enabled, true);
    lemma_bool_value_roundtrip(c.vote_kick_enabled, true);
    lemma_bool_value_roundtrip(c.lan_only_cluster, false);
    lemma_bool_value_roundtrip(c.offline_cluster, false);
    lemma_u64_value_roundtrip(c.whitelist_slots, 0);
    lemma_u64_value_roundtrip(c.tick_rate, 15);
    lemma_bool_value_roundtrip(c.console_enabled, true);
    lemma_u64_value_roundtrip(c.max_snapshots, 6);
    lemma_bool_value_roundtrip(c.shard_enabled, true);
    lemma_u64_value_roundtrip(c.master_port, 10888);
    lemma_bool_value_roundtrip(c.steam_group_only, false);
    lemma_bool_value_roundtrip(c.steam_group_admins, false);
}

impl ClusterIni {
    /// The settings of a new cluster.
    pub fn default_for_new_cluster() -> (c: Self)
        ensures
            c@ == cluster_ini_default_view(),
    {
        ClusterIni {
            game_mode: "survival".to_string(),
            max_players: 8,
            pvp: false,
            pause_when_nobody: true,
            vote_enabled: true,
            vote_kick_enabled: true,
            lan_only_cluster: false,
            cluster_intention: "".to_string(),
            cluster_description: "".to_string(),
            cluster_password: "".to_string(),
            cluster_name: "我的饥荒服务世界".to_string(),
            offline_cluster: false,
            cluster_language: "zh".to_string(),
            whitelist_slots: 0,
            tick_rate: 15,
            console_enabled: true,
            max_snapshots: 6,
            shard_enabled: true,
            bind_ip: "0.0.0.0".to_string(),
            master_ip: "127.0.0.1".to_string(),
            master_port: 10888,
            cluster_key: "".to_string(),
            steam_group_id: "".to_string(),
            steam_group_only: false,
            steam_group_admins: false,
        }
    }

    /// Parses `cluster.ini` contents.
    pub fn from_contents(contents: &str) -> (c: Self)
        ensures
            c@ == cluster_ini_from(contents@),
    {
        let values = parse_ini_values(contents);
        let ghost p = ini_pairs(contents@);
        proof {
            reveal_strlit("");
        }
        let game_mode = match ini_get(&values, "game_mode") {
            Some(v) => {
                let cs = chars_of(v.as_str());
                let (lo, hi) = crate::text::trim_range(&cs, 0, cs.len());
                assert(cs@.subrange(0, cs.len() as int) =~= cs@);
                if lo < hi {
                    v.clone()
                } else {
                    "survival".to_string()
                }
            },
            None => "survival".to_string(),
        };
        let max_players = value_u64_or(ini_get(&values, "max_players"), 8);
        let pvp = value_bool_or(ini_get(&values, "pvp"), false);
        let pause_when_nobody = value_bool_or(ini_get(&values, "pause_when_empty"), true);
        let vote_enabled = value_bool_or(ini_get(&values, "vote_enabled"), true);
        let vote_kick_enabled = value_bool_or(ini_get(&values, "vote_kick_enabled"), true);
        let lan_only_cluster = value_bool_or(ini_get(&values, "lan_only_cluster"), false);
        let cluster_intention = value_text_or(ini_get(&values, "cluster_intention"), "");
        let cluster_description = value_text_or(ini_get(&values, "cluster_description"), "");
        let cluster_password = value_text_or(ini_get(&values, "cluster_password"), "");
        let cluster_name = value_text_or(ini_get(&values, "cluster_name"), "");
        let offline_cluster = value_bool_or(ini_get(&values, "offline_cluster"), false);
        let cluster_language = value_text_or(ini_get(&values, "cluster_language"), "zh");
        let whitelist_slots = value_u64_or(ini_get(&values, "whitelist_slots"), 0);
        let tick_rate = value_u64_or(ini_get(&values, "tick_rate"), 15);
        let console_enabled = value_bool_or(ini_get(&values, "console_enabled"), true);
        let max_snapshots = value_u64_or(ini_get(&values, "max_snapshots"), 6);
        let shard_enabled = value_bool_or(ini_get(&values, "shard_enabled"), true);
        let bind_ip = value_text_or(ini_get(&values, "bind_ip"), "127.0.0.1");
        let master_ip = value_text_or(ini_get(&values, "master_ip"), "127.0.0.1");
        let master_port = value_u64_or(ini_get(&values, "master_port"), 10888);
        let cluster_key = value_text_or(ini_get(&values, "cluster_key"), "");
        let steam_group_id = value_text_or(ini_get(&values, "steam_group_id"), "");
        let steam_group_only = value_bool_or(ini_get(&values, "steam_group_only"), false);
        let steam_group_admins = value_bool_or(ini_get(&values, "steam_group_admins"), false);
        ClusterIni {
            game_mode,
            max_players,
            pvp,
            pause_when_nobody,
            vote_enabled,
            vote_kick_enabled,
            lan_only_cluster,
            cluster_intention,
            cluster_description,
            cluster_password,
            cluster_name,
            offline_cluster,
            cluster_language,
            whitelist_slots,
            tick_rate,
            console_enabled,
            max_snapshots,
            shard_enabled,
            bind_ip,
            master_ip,
            master_port,
            cluster_key,
            steam_group_id,
            steam_group_only,
            steam_group_admins,
        }
    }

    fn push_gameplay_section(&self, s: &mut String)
        ensures
            final(s)@ == old(s)@ + gameplay_section(self@),
    {
        let ghost start = s@;
        push_text_line(s, "[GAMEPLAY]");
        push_kv_line(s, "game_mode", &chars_of(self.game_mode.as_str()));
        push_kv_line(s, "max_players", &u64_to_chars(self.max_players));
        push_kv_line(s, "pvp", &bool_to_chars(self.pvp));
        push_kv_line(s, "pause_when_empty", &bool_to_chars(self.pause_when_nobody));
        push_kv_line(s, "vote_enabled", &bool_to_chars(self.vote_enabled));
        push_kv_line(s, "vote_kick_enabled", &bool_to_chars(self.vote_kick_enabled));
        push_text_line(s, "");
        proof {
            reveal_strlit("");
        }
        assert(s@ =~= start + gameplay_section(self@));
    }

    fn push_network_section(&self, s: &mut String)
        ensures
            final(s)@ == old(s)@ + network_section(self@),
    {
        let ghost start = s@;
        push_text_line(s, "[NETWORK]");
        push_kv_line(s, "lan_only_cluster", &bool_to_chars(self.lan_only_cluster));
        push_kv_line(s, "cluster_intention", &chars_of(self.cluster_intention.as_str()));
        push_kv_line(s, "cluster_password", &chars_of(self.cluster_password.as_str()));
        push_kv_line(s, "cluster_description", &chars_of(self.cluster_description.as_str()));
        push_kv_line(s, "cluster_name", &chars_of(self.cluster_name.as_str()));
        push_kv_line(s, "offline_cluster", &bool_to_chars(self.offline_cluster));
        push_kv_line(s, "cluster_language", &chars_of(self.cluster_language.as_str()));
        push_kv_line(s, "whitelist_slots", &u64_to_chars(self.whitelist_slots));
        push_kv_line(s, "tick_rate", &u64_to_chars(self.tick_rate));
        push_text_line(s, "");
        proof {
            reveal_strlit("");
        }
        assert(s@ =~= start + network_section(self@));
    }

    fn push_misc_section(&self, s: &mut String)
        ensures
            final(s)@ == old(s)@ + misc_section(self@),
    {
        let ghost start = s@;
        push_text_line(s, "[MISC]");
        push_kv_line(s, "console_enabled", &bool_to_chars(self.console_enabled));
        push_kv_line(s, "max_snapshots", &u64_to_chars(self.max_snapshots));
        push_text_line(s, "");
        proof {
            reveal_strlit("");
        }
        assert(s@ =~= start + misc_section(self@));
    }

    fn push_shard_section(&self, s: &mut String)
        ensures
            final(s)@ == old(s)@ + shard_section(self@),
    {
        let ghost start = s@;
        push_text_line(s, "[SHARD]");
        push_kv_line(s, "shard_enabled", &bool_to_chars(self.shard_enabled));
        push_kv_line(s, "bind_ip", &chars_of(self.bind_ip.as_str()));
        push_kv_line(s, "master_ip", &chars_of(self.master_ip.as_str()));
        push_kv_line(s, "master_port", &u64_to_chars(self.master_port));
        push_kv_line(s, "cluster_key", &chars_of(self.cluster_key.as_str()));
        push_text_line(s, "");
        proof {
            reveal_strlit("");
        }
        assert(s@ =~= start + shard_section(self@));
    }

    fn push_steam_section(&self, s: &mut String)
        ensures
            final(s)@ == old(s)@ + steam_section(self@),
    {
        let ghost start = s@;
        push_text_line(s, "[STEAM]");
        push_kv_line(s, "steam_group_only", &bool_to_chars(self.steam_group_only));
        push_kv_line(s, "steam_group_id", &chars_of(self.steam_group_id.as_str()));
        push_kv_line(s, "steam_group_admins", &bool_to_chars(self.steam_group_admins));
        assert(s@ =~= start + steam_section(self@));
    }

    /// Renders the file.
    pub fn to_ini(&self) -> (s: String)
        ensures
            s@ == cluster_ini_text(self@),
    {
        let mut s = String::new();
        self.push_gameplay_section(&mut s);
        assert(s@ =~= gameplay_section(self@));
        self.push_network_section(&mut s);
        self.push_misc_section(&mut s);
        self.push_shard_section(&mut s);
        self.push_steam_section(&mut s);
        s
    }
}

} // verus!
