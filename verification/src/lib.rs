//! Restore Rehearsal Card: a typed manifest for restore drills, its
//! validation, the Compose isolation rules, the rehearsal runner's decisions,
//! and the signed Markdown evidence card.
pub mod config;
pub mod crypto;
pub mod isolation;
pub mod json;
pub mod paths;
pub mod rehearsal;
pub mod report;
pub mod runner;
pub mod text;
pub mod yaml;
