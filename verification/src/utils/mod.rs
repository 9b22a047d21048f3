//! Helpers around the event stream of a driver.

pub mod maps;
pub mod metrics_analyzer;
pub mod metrics_logger;
pub mod metrics_tracker;
pub mod pending;
pub mod rtt;
pub mod text;
