//! An assembler and a bytecode virtual machine for a small, typed
//! register-machine assembly language.
//!
//! Source text is lexed into tokens ([`lexer`]), parsed into labeled,
//! typed instructions ([`parser`]), and serialized into a binary image of a
//! 64-byte header followed by the encoded text section ([`assembler`]).  The
//! virtual machine ([`vm`]) decodes that image and interprets it against 32
//! 64-bit registers, a value stack, and a byte-addressed heap.  Every pass
//! is specified against a mathematical model: the instruction encoding and
//! its decoder ([`instructions`], [`encoding`]) are proved to round-trip,
//! and one VM step is proved to follow the specification-level transition
//! function.

pub mod assembler;
pub mod encoding;
pub mod error;
pub mod instructions;
pub mod lexer;
pub mod parser;
pub mod vm;
