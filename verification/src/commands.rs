//! The rules behind the application's commands.

pub mod models;
pub mod settings;
pub mod stt;
