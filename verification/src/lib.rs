//! Transfer and queue-submission core of a GPU abstraction layer.
//!
//! The crate validates, stages and schedules data movement between host
//! memory, device buffers and device textures, and finalizes recorded command
//! streams for execution on a device queue. The backend is kept at arm's
//! length: what it has to do is recorded as plain commands, and what it did is
//! handed in as plain values. Every function is verified against a contract
//! stated over mathematical models of the data.

pub mod align;
pub mod command;
pub mod copy;
pub mod device;
pub mod fills;
pub mod hal;
pub mod hub;
pub mod memory_init;
pub mod outside;
pub mod queue;
pub mod resource;
pub mod staging;
pub mod stitching;
pub mod storage;
pub mod submit;
pub mod texture_copy;
pub mod trace;
pub mod track;
pub mod transfer;
pub mod types;
pub mod write_texture;
