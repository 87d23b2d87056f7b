//! Supervision core for a segmented-streaming host: a pure command builder
//! for the external transcoder, a process-lifecycle state machine, a
//! presence tracker for connected clients, and a shutdown fan-in
//! coordinator. The asynchronous plumbing (process spawning, timers, the
//! HTTP server) lives outside this crate and drives these verified parts
//! with plain values.

pub mod duration;
pub mod ffmpeg;
pub mod path;
pub mod presence;
pub mod shutdown;
pub mod supervisor;
pub mod text;
pub mod web;
