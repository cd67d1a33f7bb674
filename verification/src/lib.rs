//! Columnar storage for time-indexed numeric tables and the block-wise
//! transforms that run over it.
//!
//! A table is a flat buffer of 8-byte little-endian slots, one per cell, in
//! row-major or column-major order. Values are carried as the bit patterns of
//! doubles; the three things that need a machine float (reading a number,
//! taking a logarithm, writing a number) are functions that the caller hands
//! in.
//!
//! - `codec`: slots and bit patterns.
//! - `offsets`: where each cell lies under each layout.
//! - `frame`: the frame, its invariant, re-layout.
//! - `scan`, `ingest`: from the bytes of a comma-separated table to a frame.
//! - `records`: frames from and to records with quoting.
//! - `dlog`: the log-return transform.
//! - `engine`: block transforms applied block by block, in any order.
//! - `command`: pipeline steps.
//! - `mapping`: buffers frozen into read-only memory maps.

pub mod codec;
pub mod offsets;
pub mod frame;
pub mod scan;
pub mod ingest;
pub mod records;
pub mod dlog;
pub mod engine;
pub mod command;
pub mod mapping;
