//! Driver library for the radio connection between a control computer and a team of robots.

use crate::time::Instant;
use crate::transceivers::address::RobotTransceiverAddress;
use crate::transceivers::TransceiverError;
use crate::utils::metrics_tracker::MetricsSample;
use vstd::prelude::*;

pub mod bridge;
pub mod cache;
pub mod conn_core;
pub mod conn_stats;
pub mod driver;
pub mod dual_map;
pub mod framing;
pub mod id_filter;
pub mod interned_map;
pub mod mock;
pub mod packet;
pub mod periodic;
pub mod pool;
pub mod protocol;
pub mod time;
pub mod transceivers;
pub mod utils;

verus! {

/// What a driver reports to its user.
#[derive(Clone, Debug)]
pub enum ConnectionDriverEvent<RR, DR> {
    Connected(u8, RobotTransceiverAddress),
    Disconnected(u8),
    PacketReceived(u8, RR, Instant),
    DatagramReceived(u8, DR, Instant),
    MetricsSample(u8, MetricsSample),
    TransceiverError(TransceiverError),
}

} // verus!
