//! Translation of stack-machine programs into assembly for a small
//! register/memory machine.
//!
//! `codegen::translate` turns program text into assembly text. `listing`
//! holds the structured form of the emitted lines, `machine` what they do on
//! the target machine, and `program` the code of a whole program and its labels.
pub mod text;
pub mod listing;
pub mod codegen;
pub mod machine;
pub mod program;
