//! Telemetry and artifact relay for one node of a compute cluster.
//!
//! Worker processes on the node report progress in a fixed 24-byte message.
//! The library decodes it, keeps the node's and the processes' records up to
//! date, and says what has to be forwarded to the collector. It also names the
//! files that the relay server stores and lays out the batch in which the
//! node's own files travel downstream.
//!
//! Floating-point quantities are held as their IEEE-754 single-precision bit
//! patterns (`u32`); only their decimal rendering is left to the caller.

pub mod communication;
pub mod config;
pub mod monitor;
pub mod text;
