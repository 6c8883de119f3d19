//! A minimal assembler for a simple virtual machine: it translates a
//! human-written text program into a fixed-size 256-byte binary memory
//! image.  The pipeline is a lexer producing a token stream, a
//! partitioner splitting the stream into the `data` and `text` sections,
//! a section assembler resolving labels and operands to bytes, and an
//! image builder packing the resolved bytes into the final image with an
//! entry-point byte at address 0.

pub mod assemble;
pub mod chars;
pub mod error;
pub mod image;
pub mod labels;
pub mod lexer;
pub mod partition;
pub mod pipeline;
pub mod token;
