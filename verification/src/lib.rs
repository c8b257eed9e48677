//! Verified solvers for a set of small line-oriented text puzzles.
//!
//! Each module takes a block of plain text, parses it with a verified
//! scanner, and computes its answer under a contract that pins the result
//! down to a mathematical model of the input.

pub mod assignments;
pub mod calories;
pub mod crane;
pub mod rucksack;
pub mod strategy;
pub mod text;
