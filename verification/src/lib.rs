//! Character-level Markov chains for inventing names: training a transition
//! table on example names, walking it to produce a new name, and tidying the
//! result.

pub mod casing;
pub mod consistency;
pub mod context;
pub mod generation;
pub mod pieces;
pub mod repair;
pub mod table;
pub mod text;
pub mod training;

pub use casing::{capitalize_each_substring, capitalize_string};
pub use context::{initial_context, slide, PADDING};
pub use generation::{generate_name, generate_name_from, next_step, Step};
pub use pieces::split_on;
pub use repair::{ensure_complete_name, SEPARATOR};
pub use table::TransitionTable;
pub use text::chars_of;
pub use training::build_chain;
