//! State shared between the two cores: the LED, the MAVLink link, the command
//! flags that Telegram raises for the MAVLink side, and the Firebase logger.
//! Each record is a plain value here; the firmware keeps one of each behind a
//! lock that both cores use.

use vstd::prelude::*;

verus! {

/// LED state, read and written by both cores.
pub struct LedState {
    /// Colour as `0x00RRGGBB`.
    pub color: u32,
    /// Brightness, 0 to 255.
    pub brightness: u32,
    /// 0 = off, 1 = solid, 2 = blink.
    pub mode: u32,
    pub blink_period_ms: u32,
    pub blink_pulse_ms: u32,
    pub dirty: bool,
}

impl LedState {
    /// LED off, brightness 80, blinking 100 ms out of every 500 ms once on.
    pub fn new() -> (s: Self)
        ensures
            s.color == 0,
            s.brightness == 80,
            s.mode == 0,
            s.blink_period_ms == 500,
            s.blink_pulse_ms == 100,
            !s.dirty,
    {
        LedState {
            color: 0,
            brightness: 80,
            mode: 0,
            blink_period_ms: 500,
            blink_pulse_ms: 100,
            dirty: false,
        }
    }
}

/// MAVLink link telemetry: written by the MAVLink handler, read by scripts.
pub struct MavlinkState {
    pub heartbeat_received: bool,
    pub last_seq: u32,
    pub sys_id: u32,
    pub component_id: u32,
}

impl MavlinkState {
    /// No heartbeat yet; system and component id 1.
    pub fn new() -> (s: Self)
        ensures
            !s.heartbeat_received,
            s.last_seq == 0,
            s.sys_id == 1,
            s.component_id == 1,
    {
        MavlinkState { heartbeat_received: false, last_seq: 0, sys_id: 1, component_id: 1 }
    }
}

/// Commands from Telegram to the MAVLink side.
pub struct CommandState {
    pub arm: bool,
    pub disarm: bool,
    /// -1 = no command, > 0 = altitude in cm.
    pub takeoff_alt: i32,
    pub rtl: bool,
    pub land: bool,
    pub emergency: bool,
    /// Id of the script to run, -1 = no command.
    pub rhai_command: i32,
}

/// The command record with no command pending.
pub open spec fn no_commands() -> CommandState {
    CommandState {
        arm: false,
        disarm: false,
        takeoff_alt: -1i32,
        rtl: false,
        land: false,
        emergency: false,
        rhai_command: -1i32,
    }
}

impl CommandState {
    /// No command pending.
    pub fn new() -> (s: Self)
        ensures
            s == no_commands(),
            !s.arm,
            !s.disarm,
            s.takeoff_alt == -1,
            !s.rtl,
            !s.land,
            !s.emergency,
            s.rhai_command == -1,
    {
        CommandState {
            arm: false,
            disarm: false,
            takeoff_alt: -1,
            rtl: false,
            land: false,
            emergency: false,
            rhai_command: -1,
        }
    }
}

/// Firebase logging state.
pub struct FirebaseState {
    pub connected: bool,
    pub last_sync_ms: u32,
    /// Number of logs waiting to be sent.
    pub pending_logs: u32,
}

impl FirebaseState {
    /// Not connected, never synced, nothing pending.
    pub fn new() -> (s: Self)
        ensures
            !s.connected,
            s.last_sync_ms == 0,
            s.pending_logs == 0,
    {
        FirebaseState { connected: false, last_sync_ms: 0, pending_logs: 0 }
    }
}

/// No command is pending in the command record with no command: every flag
/// is clear and both the altitude and the script id are -1.
pub proof fn lemma_no_commands_pending()
    ensures
        !no_commands().arm,
        !no_commands().disarm,
        no_commands().takeoff_alt == -1,
        !no_commands().rtl,
        !no_commands().land,
        !no_commands().emergency,
        no_commands().rhai_command == -1,
{
}

/// Reset the command flags after they were processed: every flag cleared,
/// altitude and script id back to -1.
pub fn reset_commands(state: &mut CommandState)
    ensures
        *final(state) == no_commands(),
        !final(state).arm,
        !final(state).disarm,
        final(state).takeoff_alt == -1,
        !final(state).rtl,
        !final(state).land,
        !final(state).emergency,
        final(state).rhai_command == -1,
{
    state.arm = false;
    state.disarm = false;
    state.takeoff_alt = -1;
    state.rtl = false;
    state.land = false;
    state.emergency = false;
    state.rhai_command = -1;
}

} // verus!
