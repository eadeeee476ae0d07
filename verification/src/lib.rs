//! Sharing one keyboard and mouse, the clipboard and files between machines: the rules that the
//! server and its clients follow.
//!
//! Everything here works on plain values. Sockets, files, screens and devices are the business of
//! the program around it.

pub mod announce;
pub mod autostart;
pub mod bytes;
pub mod capture;
pub mod cert;
pub mod client;
pub mod clipboard;
pub mod config;
pub mod digest;
pub mod focus;
pub mod hotkeys;
pub mod inject;
pub mod ipc;
pub mod keymap;
pub mod lock_watch;
pub mod metrics;
pub mod monitor;
pub mod overlay;
pub mod panel;
pub mod paths;
pub mod protocol;
pub mod psk;
pub mod reload;
pub mod saved;
pub mod send;
pub mod server;
pub mod session;
pub mod state;
pub mod status;
pub mod text;
pub mod throttle;
pub mod toml_doc;
pub mod transfer;
pub mod wire;
