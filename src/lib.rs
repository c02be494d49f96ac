//! Basic-block partitioning and control-flow graphs for Bril functions, with the wire-record
//! decoding and encoding of instructions and functions.
pub mod cfg;
pub mod laws;
pub mod naming;
pub mod parsing;
pub mod text;
pub mod types;
pub mod wire;

pub use cfg::{Block, CFG};
pub use parsing::to_bril_type;
pub use types::{BrilType, BrilValue, Function, Instruction, InstructionType};
pub use wire::{DecodeError, WireValue};
