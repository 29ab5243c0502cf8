//! A deterministic emulator for a balanced-ternary computer: a fixed-width
//! ternary word format, primitive ternary logic circuits, a small RISC-style
//! instruction set encoded into ternary words, and a single-cycle
//! fetch-decode-execute datapath tying memory, registers, and an arithmetic
//! unit together.

pub mod address_space;
pub mod alu;
pub mod cpu;
pub mod circuits;
pub mod instructions;
pub mod registers;
pub mod store;
pub mod trit;
