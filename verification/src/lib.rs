//! Execution core of a 32-bit RISC-V integer machine: a register file with the
//! instructions that act on it, and a sparse byte-addressable memory.
//!
//! The two parts do not depend on each other. A driver that fetches an
//! instruction word from [`memory::Memory`] at the program counter, decodes
//! it and calls the matching method of [`processor::Processor`] puts them
//! together.

pub mod word;
pub mod shift;
pub mod processor;
pub mod memory;
