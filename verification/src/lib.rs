//! Verified core of the ESP32-S3 Rhai + MAVLink firmware: the RAM log ring,
//! the status-message queue, the MAVLink telemetry state and the shared
//! cross-core state records.

pub mod text;
pub mod bounded_text;
pub mod logging;
pub mod status_queue;
pub mod shared_state;
pub mod mavlink;
pub mod rhai_bridge;
pub mod mavlink_bridge;
pub mod rhai_engine;
