//! A DLNA media renderer: what it announces, answers and decides.

pub mod cli;
pub mod config;
pub mod http;
pub mod identity;
pub mod ipc;
pub mod net;
pub mod number;
pub mod platform;
pub mod player;
pub mod single_instance;
pub mod ssdp;
pub mod state;
pub mod text;
pub mod time;
pub mod tray;
pub mod xml;
