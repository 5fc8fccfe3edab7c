//! Parsers and selection rules for Android device diagnostics and application
//! packages: property dumps, package-manager dumps, crash and ANR logs,
//! badging dumps and APK containers.

pub mod analysis;
pub mod anr_log;
pub mod app;
pub mod archive;
pub mod badging;
pub mod bundle;
pub mod cli;
pub mod crash_log;
pub mod device;
pub mod health;
pub mod network;
pub mod package_dump;
pub mod properties;
pub mod search;
pub mod sorting;
pub mod split;
pub mod text;
pub mod unique;
