//! Core of a door-monitoring appliance: a capture/retention/recording
//! controller that watches a doorway camera feed, reacts to motion events,
//! and persists recorded bursts to a storage sink.
//!
//! Everything here is verified: the calendar arithmetic behind frame ages,
//! the frame-name grammar, the frame registry, the retention policy, the
//! persistence dispatcher, and the controller state machine. The hardware
//! and network shims around it live outside this crate.

pub mod clock;
pub mod controller;
pub mod frame_store;
pub mod names;
pub mod persistence;
pub mod sensor;
pub mod storage;
pub mod timestamp;
