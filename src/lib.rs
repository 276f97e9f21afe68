//! Scheduler core of a runtime that hosts sandboxed WebAssembly programs as cooperatively
//! multiplexed processes.

pub mod engine;
pub mod id_pool;
pub mod interface;
pub mod processes;
pub mod signature;
pub mod vm;

