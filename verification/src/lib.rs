//! Verified core of the `yo` voice assistant.
use vstd::prelude::*;

pub mod text;
pub mod levenshtein;
pub mod align;
pub mod expand;
pub mod regex_ops;
pub mod intent;
pub mod memory;
pub mod scoring;
pub mod matcher;
pub mod resolve;
pub mod pattern;
pub mod order;
pub mod exact;
pub mod fuzzy;
pub mod session;
pub mod config;
pub mod compile;
pub mod scripts;
pub mod server;
pub mod voice;
pub mod cli;
pub mod template;
pub mod runner;
pub mod flags;

verus! {
} // verus!
