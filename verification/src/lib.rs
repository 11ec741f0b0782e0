//! Device-memory pooling for a GPU compute runtime, and the plain-value
//! rules of its Vulkan backend.
//!
//! A [`manager::MemoryManager`] routes each request to one of its pools by
//! the requested size. A [`pool::Pool`] owns chunks obtained from the
//! device and hands out slices of them; slices that the device may still be
//! using are pinned by locks, and idle chunks are given back to the device
//! on `tick`. What always holds of the pools is stated and proved in
//! [`laws`].
//!
//! [`features`], [`matmul`] and [`dump`] hold what the backend decides from
//! plain values: which features a device registers, what the launch errors
//! say, and how the files of a dumped kernel are named.

pub mod align;
pub mod chunk;
pub mod config;
pub mod dump;
pub mod error;
pub mod features;
pub mod laws;
pub mod manager;
pub mod matmul;
pub mod pool;
pub mod text;
