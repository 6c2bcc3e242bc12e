//! Verified core of a small interactive shell.
//!
//! The library is split in three stages: a quote-aware line tokenizer
//! (`quotes`), a command parser (`command`), and an executor that plans
//! filesystem actions and renders their results (`executor`, `listing`).
//! All filesystem and terminal I/O lives outside this crate; the library
//! works on plain values and is verified end to end.

pub mod text;
pub mod quotes;
pub mod command;
pub mod executor;
pub mod listing;

pub use text::u64_to_string;
