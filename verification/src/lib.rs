//! Verified core of a web front end for an external media downloader.
//!
//! The library tracks download jobs: it builds the downloader's argument
//! list, keeps a registry of per-job records (phase, progress, status text,
//! log lines, produced file name), and detects the artifact a finished
//! download left behind by comparing directory snapshots. All process,
//! file-system and HTTP work lives outside the library; the functions here
//! take and return plain values and carry contracts for everything they do.

pub mod artifact;
pub mod chars;
pub mod command;
pub mod files;
pub mod record;
pub mod store;
