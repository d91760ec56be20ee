//! The model hub: where model files come from and which models are installed.

pub mod api;
pub mod download;
pub mod registry;
