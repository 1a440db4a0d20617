//! Package tracking for Termux: the verified core.

pub mod analyzer;
pub mod cache;
pub mod config;
pub mod graph;
pub mod logger;
pub mod models;
pub mod scanner;
pub mod select;
pub mod show;
pub mod sort;
pub mod stats;
pub mod strmap;
pub mod text;
pub mod tracker;
pub mod utils;
pub mod version;
pub mod walk;
