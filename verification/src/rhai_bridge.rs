//! The part of the hardware API offered to Rhai scripts that computes: the
//! records that WiFi, LED and sleep requests log, the LED pixel packet, and
//! the MAVLink telemetry values read from the MAVLink state. The transfers on
//! GPIO, I2C and the UART are done by the firmware around this library.

use vstd::prelude::*;
use crate::logging::{LogLevel, LogRecord};
use crate::mavlink::state::MavlinkState;
use crate::text::{signed_decimal_chars, signed_decimal_string};

verus! {

/// Connect to WiFi: logs `[Rhai] wifi: <ssid>` at level `Info`
/// (prefix `[Rhai] wifi: `, text the SSID).
pub fn wifi(ssid: &str, password: &str) -> (record: LogRecord)
    ensures
        record.level == LogLevel::Info,
        record.prefix == "[Rhai] wifi: ",
        record.text@ == ssid@,
{
    LogRecord { level: LogLevel::Info, prefix: "[Rhai] wifi: ", text: String::from_str(ssid) }
}

/// Set the colour of the WS2812B RGB LED (GPIO48 on the ESP32-S3 Super Mini),
/// each channel 0..255: the pixel packet to send, in the LED's GRB order
/// (each channel taken as its low byte), and the record
/// `[Rhai] rgb(<r>, <g>, <b>)` to log at level `Info`.
pub fn rgb(r: i64, g: i64, b: i64) -> (out: ([u8; 3], LogRecord))
    ensures
        out.0@ == seq![g as u8, r as u8, b as u8],
        out.1.level == LogLevel::Info,
        out.1.prefix == "[Rhai] rgb(",
        out.1.text@ == signed_decimal_chars(r as int) + ", "@
            + signed_decimal_chars(g as int) + ", "@ + signed_decimal_chars(b as int) + ")"@,
{
    let mut message = signed_decimal_string(r);
    message.append(", ");
    message.append(signed_decimal_string(g).as_str());
    message.append(", ");
    message.append(signed_decimal_string(b).as_str());
    message.append(")");
    let packet: [u8; 3] = [g as u8, r as u8, b as u8];
    (packet, LogRecord { level: LogLevel::Info, prefix: "[Rhai] rgb(", text: message })
}

/// Sleep for `ms` milliseconds in a script: logs `[Rhai] sleep(<ms>)` at level
/// `Info`.
pub fn hw_sleep(ms: i64) -> (record: LogRecord)
    ensures
        record.level == LogLevel::Info,
        record.prefix == "[Rhai] sleep(",
        record.text@ == signed_decimal_chars(ms as int) + ")"@,
{
    let mut message = signed_decimal_string(ms);
    message.append(")");
    LogRecord { level: LogLevel::Info, prefix: "[Rhai] sleep(", text: message }
}

/// Whether the drone is armed (MAVLink HEARTBEAT).
pub fn mavlink_is_armed(state: &MavlinkState) -> (armed: bool)
    ensures
        armed == state.armed,
{
    state.armed
}

/// The pitch in fixed point (mrad * 1000) from MAVLink ATTITUDE.
pub fn mavlink_get_pitch(state: &MavlinkState) -> (pitch: i64)
    ensures
        pitch == state.pitch,
{
    state.pitch as i64
}

} // verus!
