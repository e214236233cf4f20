//! Splits one source image into per-monitor wallpaper crops.
//!
//! The library holds the pure core of the tool: the monitor-layout solver
//! (PPI and bezel compensation, normalization), the partition planner
//! (canvas size, alignment offsets, per-monitor crop rectangles), the
//! content-addressable cache gate (hash input encoding, artifact naming,
//! validity decision), and the daemon run state machine.  Display-server
//! enumeration, file-system access and process control live outside, in a
//! thin unverified shell that calls into this crate with plain values.

pub mod cache;
pub mod config;
pub mod images;
pub mod integrations;
pub mod layout;
pub mod monitor;
pub mod numbers;
pub mod orchestrator;
pub mod plan;
pub mod text;
pub mod worker;
