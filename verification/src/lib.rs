use vstd::prelude::*;

pub mod text;
pub mod numbers;
pub mod validation;
pub mod process;
pub mod command;
pub mod ini;
pub mod server_ini;
pub mod cluster_ini;
pub mod player_lists;
pub mod dst_config;
pub mod console;
pub mod player_query;
pub mod logs;
pub mod game_status;
pub mod auth;
pub mod session;
pub mod map;
pub mod png;
pub mod cron;
pub mod http;
pub mod fs_path;
pub mod models;
pub mod statistics;
pub mod config;
pub mod lua_files;
pub mod logging;
pub mod restore;
pub mod mod_setup;
pub mod level;
pub mod game_commands;

verus! {

} // verus!
pub mod archive_meta;
pub mod lobby;
