//! Verified core of a developer-environment dashboard.
pub mod text;
pub mod clock;
pub mod json;
pub mod recent;
pub mod env_health;
pub mod ports;
pub mod git;
pub mod state;
pub mod alerts;
pub mod scripts;
pub mod docker;
pub mod deps;
pub mod search;
pub mod repos;
pub mod manifests;
