//! Verified core of a league-statistics harvesting pipeline.
//!
//! The crate covers the logic that carries real risk: crawl politeness
//! (robots.txt rules, crawl delays, retry planning), identity and temporal
//! resolution (canonical keys, season inference, team/league history),
//! adaptive batch uploading, and cross-source reconciliation. I/O around
//! these pieces lives outside the library and hands plain values in.

pub mod schema;
pub mod text;
pub mod identity;
pub mod uploader;
pub mod reconcile;
pub mod robots;
pub mod crawl;
pub mod config;
pub mod models;
pub mod parsing;
pub mod date;
pub mod seed;
pub mod glossary;
pub mod format;
