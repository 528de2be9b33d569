//! The bot framework's core: configuration, commands and their arguments, messages, reactions
//! and the module registry.

pub mod bot_cmd;
pub mod config;
pub mod err;
pub mod irc_comm;
pub mod irc_msgs;
pub mod state;
pub mod modl_data;
pub mod modl_sys;
pub mod null_sink;
pub mod pkg_info;
pub mod reaction;
pub mod sandbox;
pub mod trigger;
