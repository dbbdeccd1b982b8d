//! A minimal fixed-word-size CPU emulator.
//!
//! Source text is assembled line by line into packed 64-bit instruction
//! words, which a machine with a flat register/data/instruction memory
//! executes in program order until it reaches a word that does not decode
//! to a valid opcode (the all-zero sentinel that fills unused instruction
//! memory, in particular).

pub mod assembler;
pub mod cpu;
pub mod insn;
pub mod opcode;
