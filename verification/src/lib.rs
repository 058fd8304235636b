//! Core of a directory-snapshot service: a registry of monitored targets with
//! single-flight commit discipline, the commit-decision protocol spoken with an
//! external version-control engine, the reconciliation of live schedules
//! against fresh configuration, and the text-level rules those parts share.

pub mod clock;
pub mod config;
pub mod engine;
pub mod excludes;
pub mod git;
pub mod logging;
pub mod message;
pub mod reconcile;
pub mod registry;
pub mod status;
pub mod text;
