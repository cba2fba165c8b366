//! Rules of a local orchestrator for devenv projects.
pub mod bind;
pub mod caddy;
pub mod cli;
pub mod client;
pub mod devenv;
pub mod doctor;
pub mod handler;
pub mod ipc;
pub mod json;
pub mod laws;
pub mod ledger;
pub mod live;
pub mod logs;
pub mod netns;
pub mod nix;
pub mod paths;
pub mod ports;
pub mod process;
pub mod quote;
pub mod refresh;
pub mod registry;
pub mod repl;
pub mod shell;
pub mod state;
pub mod style;
pub mod text;
pub mod up;
pub mod words;
pub mod writing;
pub mod xdg;
