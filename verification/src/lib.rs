//! The logic of a small desktop shell around `npx -y @deepseek-ai/dsh web`.

pub mod diagnose;
pub mod diagnose_laws;
pub mod download;
pub mod environment;
pub mod event;
pub mod icon;
pub mod install;
pub mod json;
pub mod json_laws;
pub mod launch;
pub mod launch_laws;
pub mod layer_laws;
pub mod node_laws;
pub mod number;
pub mod package_laws;
pub mod patch;
pub mod patch_laws;
pub mod profile;
pub mod reader;
pub mod reader_laws;
pub mod recovery;
pub mod recovery_laws;
pub mod release;
pub mod signature;
pub mod terminal;
pub mod terminal_laws;
pub mod text;
pub mod text_laws;
pub mod ui;
pub mod update;
pub mod utf8;
pub mod wait;
pub mod window;
pub mod window_laws;
