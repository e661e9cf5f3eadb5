//! A sampling-based, leaderless binary consensus: every node keeps one
//! Snowball-style state machine per transaction and a router fans queries
//! out to randomly sampled peers until each node reaches a final verdict.

pub mod config;
pub mod identity;
pub mod message;
pub mod network;
pub mod node;
pub mod state;
pub mod status;
