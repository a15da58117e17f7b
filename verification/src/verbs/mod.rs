//! The `stk` verbs.
pub mod passthrough;
pub mod run;
pub mod proxy;
pub mod compile;
pub mod filesystem_budget;
pub mod rewrite;
pub mod pipe;
pub mod err;
pub mod summary;
pub mod init;
pub mod gain;
pub mod gain_report;
pub mod diff;
pub mod log;
pub mod read;
pub mod find;
pub mod grep;
pub mod bench;
pub mod config;
pub mod json;
