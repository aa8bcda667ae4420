//! A verified toolkit for a family of packed binary game-asset formats that
//! share one convention: little-endian primitives, relative pointers, and
//! compact per-track animation compression.
//!
//! Floating-point samples are carried everywhere as their IEEE 754 bit
//! patterns (`u32`), so that the structural codec — headers, descriptors,
//! bitstreams, defaults — is verified end to end.  The handful of genuinely
//! numeric steps (quantisation arithmetic) live outside the library and work
//! on the quantised integers this crate produces and consumes.

pub mod adj_data;
pub mod bitio;
pub mod buffers;
pub mod compression;
pub mod floatbits;
pub mod lebytes;
pub mod mesh_data;
pub mod meshex;
pub mod meshex_data;
pub mod modl;
pub mod modl_data;
pub mod ssbh_write;
pub mod strings;
pub mod vectors;
