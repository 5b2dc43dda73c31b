//! A verified virtual machine for a tiny eight-symbol instruction language.
//!
//! Source text is compiled by [`parser::BrainfuckParser`] into a flat
//! [`program::Program`] of instructions with pre-resolved branch targets,
//! which [`engine::BrainfuckInterpreter`] executes against a bounded,
//! zero-initialized tape of cells. [`tracer`] renders a program as a
//! human-readable disassembly instead of executing it.

pub mod engine;
pub mod ops;
pub mod parser;
pub mod program;
pub mod tracer;
