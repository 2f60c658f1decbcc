//! A decoder for a stack-based, opcode-driven object-serialization format.
//!
//! The decoder is a small virtual machine. It reads one instruction at a time
//! from a byte stream, applies it to an operand stack and a memo table, and
//! ends with the decoded value on top of the stack. It never runs code found
//! in the stream: a request to rebuild an object of a foreign type is either
//! handed to a transform that the host registered for that type, or kept as a
//! placeholder.

pub mod error;
pub mod op;
pub mod model;
pub mod value;
pub mod wire;
pub mod reader;
pub mod machine;
pub mod vm;
pub mod preserved;
pub mod render;
pub mod laws;
pub mod order;
pub mod mapping;
