//! Policy checks for Rust repositories, verified with Verus.

pub mod copies;
pub mod generate_inventory;
pub mod json;
pub mod names;
pub mod order;
pub mod path_laws;
pub mod paths;
pub mod patterns;
pub mod repository_checks;
pub mod select;
pub mod seqs;
pub mod summarize_benchmarks;
pub mod text;
pub mod text_laws;
pub mod validate_tests;
