//! Codex Beacon: the logic behind a desktop status island for Codex tasks.
pub mod text;
pub mod config;
pub mod sessions;
pub mod json;
pub mod pairs;
pub mod rollout;
pub mod hooks;
pub mod desktop;
pub mod status;
pub mod storage;
pub mod install;
pub mod startup;
