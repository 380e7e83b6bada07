//! A minimal byte-addressable virtual machine: a fixed-size memory, a bank of
//! named 16-bit registers, a fetch-decode-execute engine over an encoded
//! instruction stream, and a textual assembler that parses mnemonic source
//! lines into typed instructions and encodes them into the engine's byte
//! format.

pub mod parser;
pub mod cpu;
pub mod isa;
pub mod memory;
