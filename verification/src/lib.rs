//! Strategy-directed argument synthesis and execution ranking for smart
//! contracts: normalizes interface parameter descriptors into canonical
//! types, synthesizes concrete argument values under fixed heuristics,
//! encodes call data, and ranks execution outcomes per function.

pub mod abi;
pub mod calldata;
pub mod encode;
pub mod engine;
pub mod evm;
pub mod linker;
pub mod sig;
pub mod words;
pub mod synth;
pub mod types;
