//! Verified building blocks for a small family of classic Unix text tools:
//! a calendar printer, line/word counters, field and range extractors,
//! line mergers and filters, and the numeric parsers behind their flags.
//!
//! Every function here is executable Rust whose behaviour is stated in
//! `requires`/`ensures` contracts and checked by Verus. File handling,
//! argument parsing and terminal output live outside the library and hand
//! plain values in.

pub mod cal;
pub mod cat;
pub mod comm;
pub mod cut;
pub mod find;
pub mod fortune;
pub mod grep;
pub mod head;
pub mod ls;
pub mod tail;
pub mod text;
pub mod uniq;
pub mod wc;
