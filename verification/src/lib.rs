pub mod codex_rpc;
pub mod local_usage;
pub mod models;
pub mod monitor;
pub mod settings;
pub mod text;
pub mod token_log;
pub mod tray;
