//! MAVLink data kept by the firmware.

pub mod state;
