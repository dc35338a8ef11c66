//! Daemon core for day/night display color-temperature control.
//!
//! The library holds the verified logic: the color engine that fills gamma
//! ramp tables, the solar/manual scheduler that partitions a day into phases
//! and interpolates the target temperature, the display-session state machine
//! that tracks outputs and their ramp buffers, the control-command handler,
//! and the coordinator decisions of the daemon's tick loop. Protocol I/O,
//! JSON framing, and the event loop itself live outside the library and hand
//! it plain values.

pub mod cli;
pub mod color;
pub mod coordinator;
pub mod ipc;
pub mod scheduling;
pub mod session;
