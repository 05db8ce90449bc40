//! The expression engine of an interactive calculator.
//!
//! A line of text is a definition (`name = expression`), an expression, or a
//! keyword. The engine checks that its parentheses balance, cuts it into
//! clauses, and resolves the clauses over a fixed list of operator tiers
//! against a memory of named numbers.
//!
//! Numbers are single-precision values carried as their 32-bit patterns. The
//! engine never computes with them: reading a literal and applying an
//! operator are left to the host. [`calculator`] takes the host's arithmetic
//! as two functions; [`engine`] stops at each point where arithmetic is
//! needed and goes on with the host's answer. What a line evaluates to is
//! said in [`meaning`], for any arithmetic.

pub mod balance;
pub mod calculator;
pub mod clause;
pub mod engine;
pub mod keyword;
pub mod meaning;
pub mod memory;
pub mod names;
pub mod number;
pub mod operator;
pub mod quote;
pub mod status;
pub mod text;
