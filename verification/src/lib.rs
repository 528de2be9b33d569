//! A library for writing IRC bots, with its text processing, command-argument checking,
//! configuration handling and module registry verified.

pub mod util;
pub mod framework;
pub mod irc_client;
pub mod modules;
