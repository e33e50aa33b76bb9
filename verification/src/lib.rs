//! Verified core of the GoldSrc.rs plugin framework.

pub mod text;
pub mod strmap;
pub mod placeholders;
pub mod i18n;
pub mod keymap;
pub mod ecs;
pub mod schedule;
pub mod cstrike;
pub mod hooks;
pub mod paths;
pub mod logging;
pub mod config;
pub mod print;
pub mod cli;
pub mod manifest;
pub mod task;
pub mod plugins_config;
pub mod host_cli;
pub mod plugin_host;
pub mod placeholder_registry;
pub mod user_msgs;
pub mod metamod;
pub mod menu;
pub mod engine_bridge;
pub mod plugin_info;
pub mod mrs_cli;
pub mod plugin_attr;
pub mod handler_attrs;
pub mod plugin_cmds;
pub mod chat;
