//! The verified core of a benchmark for peer-to-peer messaging.
//!
//! A sender keeps a window of numbered data frames on their way to a receiver, which
//! acknowledges each of them once; the sender measures how long that takes. This crate holds
//! the frames, the counting, the decisions and the reports. Sockets, clocks that drive the
//! loop, and the terminal stay with the program around it.

pub mod address;
pub mod bench;
pub mod dial;
pub mod exchange;
pub mod message_id;
pub mod metrics;
pub mod peer;
pub mod percentile;
pub mod report;
pub mod resources;
pub mod seen;
pub mod setup;
pub mod stack;
pub mod text;
pub mod wire;
