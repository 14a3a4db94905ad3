//! The core of a keyboard-hotkey daemon: configuration parsing,
//! per-device key-state tracking, chord matching over a modal mode
//! stack, dispatch with repeat and deferred-release semantics, and the
//! environment-sync protocol between the privileged matcher and the
//! unprivileged command executor.

pub mod config;
pub mod daemon;
pub mod environ;
pub mod keys;
pub mod parse;
pub mod server;
pub mod text;
