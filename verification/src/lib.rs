pub mod aggregation;
pub mod chunk;
pub mod scoring;
pub mod specialists;
pub mod text;
pub mod normalize;
pub mod budget;
pub mod fastpath;
pub mod history;
pub mod capture;
pub mod io;
pub mod verbs;
pub mod compression;
pub mod config;
pub mod cli;
