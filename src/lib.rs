//! An interpreter for the eight-command tape language: a translator from
//! command characters to instructions, a bracket matcher, and a machine that
//! runs a program on a fixed byte tape.

pub mod error;
pub mod instruction;
pub mod loops;
pub mod machine;
pub mod translate;
