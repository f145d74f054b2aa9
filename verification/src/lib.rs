//! A small PLONK-style arithmetic circuit for a bounded Fibonacci
//! sequence, with its witness assignment and constraint checking
//! verified.
//!
//! The circuit exposes three public inputs — the two seeds and the
//! final result — and is laid out in two ways: a three-column sliding
//! window (`example1`) and a single column with a windowed gate
//! (`example2`).  The `system` module declares columns, selectors and
//! gates; the `table` module owns the cells, selector assignments and
//! copy constraints; the `checker` module evaluates every constraint
//! and collects every violation.

pub mod checker;
pub mod example1;
pub mod example2;
pub mod fib;
pub mod field;
pub mod system;
pub mod table;
