//! A configurable encoder for hardware register-map descriptions.
//!
//! The library turns an in-memory model of a peripheral (its registers,
//! clusters, interrupts and address blocks) into a tree of named nodes,
//! under a caller-supplied formatting policy: per-category identifier
//! casing, numeric base selection, and sibling ordering for register and
//! cluster entries.

pub mod access;
pub mod cases;
pub mod config;
pub mod encode;
pub mod model;
pub mod modified_write_values;
pub mod node;
pub mod numbers;
pub mod sort;
pub mod strutil;
