//! A PLONKish circuit assembly and constraint-satisfaction engine.
//!
//! A circuit's shape ([`circuit`]) declares advice, fixed, instance and table columns,
//! selectors, gates and lookups. An [`assembly::Assembly`] places regions of assignments on a
//! grid of `2^k` rows and records copy constraints ([`permutation`]). The [`checker`] reports
//! every violation of a finished grid; [`theorems`] states what that report guarantees.
//! Field arithmetic is that of the Pallas base field ([`field`]). The remaining modules are
//! circuits built on the engine: a multiply/add chip, two Fibonacci layouts and range checks.

pub mod assembly;
pub mod checker;
pub mod circuit;
pub mod error;
pub mod fibonacci_column;
pub mod fibonacci_rows;
pub mod field;
pub mod lookup_range;
pub mod permutation;
pub mod range_check;
pub mod simple_range;
pub mod theorems;
pub mod tutorial;
