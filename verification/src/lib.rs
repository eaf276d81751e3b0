//! A bytecode virtual machine for the Lox language: a single-pass compiler,
//! a stack machine and a mark-sweep collector, with their behaviour stated
//! in contracts.
//!
//! Numbers are carried as IEEE-754 binary64 bit patterns. The machine orders,
//! compares and negates them itself; it hands sums, products and the like,
//! and the reading and printing of decimal text, to its host.

pub mod chunk;
pub mod compiler;
pub mod mem;
pub mod obj;
pub mod text;
pub mod value;
pub mod vm;
