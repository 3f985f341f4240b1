//! The MAVLink telemetry state: one record of the values that the MAVLink
//! parser stores and that scripts read, and the mission zones.

use vstd::prelude::*;
use vstd::string::StringSliceAdditionalSpecFns;
use crate::bounded_text::{text4_bytes, text4_new, text4_push_str};

verus! {

/// MAVLink message ids the firmware handles.
pub const MAVLINK_MSG_ID_HEARTBEAT: u32 = 0;
pub const MAVLINK_MSG_ID_GPS_RAW_INT: u32 = 24;
pub const MAVLINK_MSG_ID_ATTITUDE: u32 = 30;
pub const MAVLINK_MSG_ID_MISSION_COUNT: u32 = 44;
pub const MAVLINK_MSG_ID_MISSION_ITEM_INT: u32 = 73;
pub const MAVLINK_MSG_ID_BATTERY_STATUS: u32 = 147;
pub const MAVLINK_MSG_ID_SYS_STATUS: u32 = 1;
pub const MAVLINK_MSG_ID_STATUSTEXT: u32 = 253;

/// Flight modes (`custom_mode` of HEARTBEAT).
pub const MODE_STABILIZE: u32 = 0;
pub const MODE_AKRO: u32 = 1;
pub const MODE_ALT_HOLD: u32 = 2;
pub const MODE_AUTO: u32 = 3;
pub const MODE_LAND: u32 = 9;

/// The MAVLink telemetry record.
pub struct MavlinkState {
    // HEARTBEAT
    pub armed: bool,
    pub custom_mode: u32,
    pub heartbeat_received: bool,
    // GPS_RAW_INT
    /// Degrees * 1e7.
    pub lat: i32,
    /// Degrees * 1e7.
    pub lon: i32,
    /// 0 to 3.
    pub gps_fix_type: u32,
    // ATTITUDE, in mrad * 1000 (fixed point)
    pub pitch: i32,
    pub roll: i32,
    pub yaw: i32,
    // BATTERY_STATUS
    /// 0 to 100 %.
    pub battery_remaining: u32,
    /// mV.
    pub battery_voltage: i32,
    // MISSION
    pub mission_count: u32,
    pub mission_loaded: bool,
    /// cm.
    pub min_radius: i32,
}

impl MavlinkState {
    /// The record after a HEARTBEAT.
    pub open spec fn with_heartbeat(self, armed: bool, custom_mode: u32) -> Self {
        MavlinkState { armed, custom_mode, heartbeat_received: true, ..self }
    }

    /// The record after a GPS_RAW_INT.
    pub open spec fn with_gps(self, lat: i32, lon: i32, fix_type: u8) -> Self {
        MavlinkState { lat, lon, gps_fix_type: fix_type as u32, ..self }
    }

    /// The record after a BATTERY_STATUS.
    pub open spec fn with_battery(self, remaining: u8, voltage_mv: u16) -> Self {
        MavlinkState {
            battery_remaining: remaining as u32,
            battery_voltage: voltage_mv as i32,
            ..self
        }
    }

    /// The record after a MISSION_COUNT: a new mission, not yet loaded.
    pub open spec fn with_mission_count(self, count: u16) -> Self {
        MavlinkState { mission_count: count as u32, mission_loaded: false, ..self }
    }

    /// The record before anything was received.
    pub open spec fn initial() -> Self {
        MavlinkState {
            armed: false,
            custom_mode: 0,
            heartbeat_received: false,
            lat: 0,
            lon: 0,
            gps_fix_type: 0,
            pitch: 0,
            roll: 0,
            yaw: 0,
            battery_remaining: 0,
            battery_voltage: 0,
            mission_count: 0,
            mission_loaded: false,
            min_radius: 5000,
        }
    }

    /// Nothing received: disarmed, mode 0, no fix, no mission, minimum radius
    /// 50.0 m.
    pub fn new() -> (s: Self)
        ensures
            s == Self::initial(),
            !s.armed,
            s.custom_mode == 0,
            !s.heartbeat_received,
            s.lat == 0,
            s.lon == 0,
            s.gps_fix_type == 0,
            s.pitch == 0,
            s.roll == 0,
            s.yaw == 0,
            s.battery_remaining == 0,
            s.battery_voltage == 0,
            s.mission_count == 0,
            !s.mission_loaded,
            s.min_radius == 5000,
    {
        MavlinkState {
            armed: false,
            custom_mode: 0,
            heartbeat_received: false,
            lat: 0,
            lon: 0,
            gps_fix_type: 0,
            pitch: 0,
            roll: 0,
            yaw: 0,
            battery_remaining: 0,
            battery_voltage: 0,
            mission_count: 0,
            mission_loaded: false,
            min_radius: 5000,
        }
    }

    pub fn is_armed(&self) -> (r: bool)
        ensures
            r == self.armed,
    {
        self.armed
    }

    pub fn mode(&self) -> (r: u32)
        ensures
            r == self.custom_mode,
    {
        self.custom_mode
    }

    pub fn has_heartbeat(&self) -> (r: bool)
        ensures
            r == self.heartbeat_received,
    {
        self.heartbeat_received
    }

    pub fn gps_lat(&self) -> (r: i32)
        ensures
            r == self.lat,
    {
        self.lat
    }

    pub fn gps_lon(&self) -> (r: i32)
        ensures
            r == self.lon,
    {
        self.lon
    }

    pub fn gps_fix(&self) -> (r: u32)
        ensures
            r == self.gps_fix_type,
    {
        self.gps_fix_type
    }

    pub fn pitch_mrad(&self) -> (r: i32)
        ensures
            r == self.pitch,
    {
        self.pitch
    }

    pub fn roll_mrad(&self) -> (r: i32)
        ensures
            r == self.roll,
    {
        self.roll
    }

    pub fn yaw_mrad(&self) -> (r: i32)
        ensures
            r == self.yaw,
    {
        self.yaw
    }

    pub fn battery_pct(&self) -> (r: u32)
        ensures
            r == self.battery_remaining,
    {
        self.battery_remaining
    }

    pub fn battery_mv(&self) -> (r: i32)
        ensures
            r == self.battery_voltage,
    {
        self.battery_voltage
    }

    pub fn mission_count(&self) -> (r: u32)
        ensures
            r == self.mission_count,
    {
        self.mission_count
    }

    pub fn is_mission_loaded(&self) -> (r: bool)
        ensures
            r == self.mission_loaded,
    {
        self.mission_loaded
    }

    pub fn min_radius_cm(&self) -> (r: i32)
        ensures
            r == self.min_radius,
    {
        self.min_radius
    }

    /// Store a HEARTBEAT: armed flag and mode; a heartbeat has now been seen.
    pub fn update_heartbeat(&mut self, armed: bool, custom_mode: u32)
        ensures
            *final(self) == old(self).with_heartbeat(armed, custom_mode),
            final(self).armed == armed,
            final(self).custom_mode == custom_mode,
            final(self).heartbeat_received,
            final(self).lat == old(self).lat,
            final(self).lon == old(self).lon,
            final(self).gps_fix_type == old(self).gps_fix_type,
            final(self).pitch == old(self).pitch,
            final(self).roll == old(self).roll,
            final(self).yaw == old(self).yaw,
            final(self).battery_remaining == old(self).battery_remaining,
            final(self).battery_voltage == old(self).battery_voltage,
            final(self).mission_count == old(self).mission_count,
            final(self).mission_loaded == old(self).mission_loaded,
            final(self).min_radius == old(self).min_radius,
    {
        self.armed = armed;
        self.custom_mode = custom_mode;
        self.heartbeat_received = true;
    }

    /// Store a GPS_RAW_INT: position and fix type.
    pub fn update_gps(&mut self, lat: i32, lon: i32, fix_type: u8)
        ensures
            *final(self) == old(self).with_gps(lat, lon, fix_type),
            final(self).lat == lat,
            final(self).lon == lon,
            final(self).gps_fix_type == fix_type as u32,
            final(self).armed == old(self).armed,
            final(self).custom_mode == old(self).custom_mode,
            final(self).heartbeat_received == old(self).heartbeat_received,
            final(self).pitch == old(self).pitch,
            final(self).roll == old(self).roll,
            final(self).yaw == old(self).yaw,
            final(self).battery_remaining == old(self).battery_remaining,
            final(self).battery_voltage == old(self).battery_voltage,
            final(self).mission_count == old(self).mission_count,
            final(self).mission_loaded == old(self).mission_loaded,
            final(self).min_radius == old(self).min_radius,
    {
        self.lat = lat;
        self.lon = lon;
        self.gps_fix_type = fix_type as u32;
    }

    /// Store a BATTERY_STATUS: remaining percentage and voltage in mV.
    pub fn update_battery(&mut self, remaining: u8, voltage_mv: u16)
        ensures
            *final(self) == old(self).with_battery(remaining, voltage_mv),
            final(self).battery_remaining == remaining as u32,
            final(self).battery_voltage == voltage_mv as i32,
            final(self).armed == old(self).armed,
            final(self).custom_mode == old(self).custom_mode,
            final(self).heartbeat_received == old(self).heartbeat_received,
            final(self).lat == old(self).lat,
            final(self).lon == old(self).lon,
            final(self).gps_fix_type == old(self).gps_fix_type,
            final(self).pitch == old(self).pitch,
            final(self).roll == old(self).roll,
            final(self).yaw == old(self).yaw,
            final(self).mission_count == old(self).mission_count,
            final(self).mission_loaded == old(self).mission_loaded,
            final(self).min_radius == old(self).min_radius,
    {
        self.battery_remaining = remaining as u32;
        self.battery_voltage = voltage_mv as i32;
    }

    /// Store a MISSION_COUNT: the new mission is not loaded yet.
    pub fn update_mission_count(&mut self, count: u16)
        ensures
            *final(self) == old(self).with_mission_count(count),
            final(self).mission_count == count as u32,
            !final(self).mission_loaded,
            final(self).armed == old(self).armed,
            final(self).custom_mode == old(self).custom_mode,
            final(self).heartbeat_received == old(self).heartbeat_received,
            final(self).lat == old(self).lat,
            final(self).lon == old(self).lon,
            final(self).gps_fix_type == old(self).gps_fix_type,
            final(self).pitch == old(self).pitch,
            final(self).roll == old(self).roll,
            final(self).yaw == old(self).yaw,
            final(self).battery_remaining == old(self).battery_remaining,
            final(self).battery_voltage == old(self).battery_voltage,
            final(self).min_radius == old(self).min_radius,
    {
        self.mission_count = count as u32;
        self.mission_loaded = false;
    }

    /// Mark the announced mission as loaded.
    pub fn set_mission_loaded(&mut self)
        ensures
            *final(self) == (MavlinkState { mission_loaded: true, ..*old(self) }),
            final(self).mission_loaded,
            final(self).armed == old(self).armed,
            final(self).custom_mode == old(self).custom_mode,
            final(self).heartbeat_received == old(self).heartbeat_received,
            final(self).lat == old(self).lat,
            final(self).lon == old(self).lon,
            final(self).gps_fix_type == old(self).gps_fix_type,
            final(self).pitch == old(self).pitch,
            final(self).roll == old(self).roll,
            final(self).yaw == old(self).yaw,
            final(self).battery_remaining == old(self).battery_remaining,
            final(self).battery_voltage == old(self).battery_voltage,
            final(self).mission_count == old(self).mission_count,
            final(self).min_radius == old(self).min_radius,
    {
        self.mission_loaded = true;
    }
}

/// Each update is read back unchanged by its getters and leaves every other
/// value as it was: a HEARTBEAT sets armed, mode and the heartbeat flag only.
pub proof fn lemma_heartbeat_read_back(s: MavlinkState, armed: bool, mode: u32)
    ensures
        s.with_heartbeat(armed, mode).armed == armed,
        s.with_heartbeat(armed, mode).custom_mode == mode,
        s.with_heartbeat(armed, mode).heartbeat_received,
        s.with_heartbeat(armed, mode).with_heartbeat(s.armed, s.custom_mode).armed == s.armed,
        s.with_heartbeat(armed, mode).lat == s.lat && s.with_heartbeat(armed, mode).lon == s.lon
            && s.with_heartbeat(armed, mode).mission_count == s.mission_count
            && s.with_heartbeat(armed, mode).battery_voltage == s.battery_voltage,
{
}

/// A GPS fix type is stored as the number received, whatever its width.
pub proof fn lemma_gps_read_back(s: MavlinkState, lat: i32, lon: i32, fix_type: u8)
    ensures
        s.with_gps(lat, lon, fix_type).lat == lat,
        s.with_gps(lat, lon, fix_type).lon == lon,
        s.with_gps(lat, lon, fix_type).gps_fix_type == fix_type as nat,
        s.with_gps(lat, lon, fix_type).armed == s.armed,
{
}

/// Battery values read back as the numbers received.
pub proof fn lemma_battery_read_back(s: MavlinkState, remaining: u8, voltage_mv: u16)
    ensures
        s.with_battery(remaining, voltage_mv).battery_remaining == remaining as nat,
        s.with_battery(remaining, voltage_mv).battery_voltage == voltage_mv as int,
        s.with_battery(remaining, voltage_mv).lat == s.lat,
{
}

/// A new mission count always starts a mission that is not loaded, whatever
/// was loaded before; only marking it loaded changes that.
pub proof fn lemma_new_mission_not_loaded(s: MavlinkState, count: u16)
    ensures
        !s.with_mission_count(count).mission_loaded,
        s.with_mission_count(count).mission_count == count as nat,
{
}

/// One update of the MAVLink record, as the parser applies them.
pub enum StateUpdate {
    Heartbeat { armed: bool, custom_mode: u32 },
    Gps { lat: i32, lon: i32, fix_type: u8 },
    Battery { remaining: u8, voltage_mv: u16 },
    MissionCount { count: u16 },
    MissionLoaded,
}

/// The record after one update, as the update methods leave it.
pub open spec fn apply_update(s: MavlinkState, u: StateUpdate) -> MavlinkState {
    match u {
        StateUpdate::Heartbeat { armed, custom_mode } => s.with_heartbeat(armed, custom_mode),
        StateUpdate::Gps { lat, lon, fix_type } => s.with_gps(lat, lon, fix_type),
        StateUpdate::Battery { remaining, voltage_mv } => s.with_battery(remaining, voltage_mv),
        StateUpdate::MissionCount { count } => s.with_mission_count(count),
        StateUpdate::MissionLoaded => MavlinkState { mission_loaded: true, ..s },
    }
}

/// The record after the updates `us`, in order, starting from `s`.
pub open spec fn apply_updates(s: MavlinkState, us: Seq<StateUpdate>) -> MavlinkState
    decreases us.len(),
{
    if us.len() == 0 {
        s
    } else {
        apply_update(apply_updates(s, us.drop_last()), us.last())
    }
}

/// Armed flag and mode of the last HEARTBEAT among `us`, if any.
pub open spec fn last_heartbeat(us: Seq<StateUpdate>) -> Option<(bool, u32)>
    decreases us.len(),
{
    if us.len() == 0 {
        None
    } else {
        match us.last() {
            StateUpdate::Heartbeat { armed, custom_mode } => Some((armed, custom_mode)),
            _ => last_heartbeat(us.drop_last()),
        }
    }
}

/// Position and fix of the last GPS_RAW_INT among `us`, if any.
pub open spec fn last_gps(us: Seq<StateUpdate>) -> Option<(i32, i32, u8)>
    decreases us.len(),
{
    if us.len() == 0 {
        None
    } else {
        match us.last() {
            StateUpdate::Gps { lat, lon, fix_type } => Some((lat, lon, fix_type)),
            _ => last_gps(us.drop_last()),
        }
    }
}

/// Charge and voltage of the last battery report among `us`, if any.
pub open spec fn last_battery(us: Seq<StateUpdate>) -> Option<(u8, u16)>
    decreases us.len(),
{
    if us.len() == 0 {
        None
    } else {
        match us.last() {
            StateUpdate::Battery { remaining, voltage_mv } => Some((remaining, voltage_mv)),
            _ => last_battery(us.drop_last()),
        }
    }
}

/// What the getters read after any sequence of updates from a fresh record:
/// armed flag and mode are those of the last HEARTBEAT (disarmed and mode 0
/// before the first); a heartbeat has been seen exactly when there was one;
/// position and fix are those of the last GPS_RAW_INT (0 before the first),
/// and the fix is at most 255; charge and voltage are those of the last
/// battery report (0 before the first), so the voltage lies in 0..=65535.
pub proof fn lemma_updates_read_back(us: Seq<StateUpdate>)
    ensures
        ({
            let s = apply_updates(MavlinkState::initial(), us);
            &&& s.armed == match last_heartbeat(us) {
                Some(h) => h.0,
                None => false,
            }
            &&& s.custom_mode == match last_heartbeat(us) {
                Some(h) => h.1,
                None => 0u32,
            }
            &&& s.heartbeat_received == last_heartbeat(us).is_some()
            &&& s.lat == match last_gps(us) {
                Some(g) => g.0,
                None => 0i32,
            }
            &&& s.lon == match last_gps(us) {
                Some(g) => g.1,
                None => 0i32,
            }
            &&& s.gps_fix_type == match last_gps(us) {
                Some(g) => g.2 as u32,
                None => 0u32,
            }
            &&& s.gps_fix_type <= 255
            &&& s.battery_remaining == match last_battery(us) {
                Some(b) => b.0 as u32,
                None => 0u32,
            }
            &&& s.battery_voltage == match last_battery(us) {
                Some(b) => b.1 as i32,
                None => 0i32,
            }
            &&& 0 <= s.battery_voltage <= 65535
        }),
    decreases us.len(),
{
    if us.len() > 0 {
        lemma_updates_read_back(us.drop_last());
    }
}

/// Every battery report with a charge in 0..=100 keeps the charge in
/// 0..=100 over any sequence of updates from a fresh record.
pub proof fn lemma_battery_pct_in_range(us: Seq<StateUpdate>)
    requires
        forall|i: int|
            0 <= i < us.len() ==> match #[trigger] us[i] {
                StateUpdate::Battery { remaining, .. } => remaining <= 100,
                _ => true,
            },
    ensures
        apply_updates(MavlinkState::initial(), us).battery_remaining <= 100,
    decreases us.len(),
{
    if us.len() > 0 {
        let prev = us.drop_last();
        assert forall|i: int| 0 <= i < prev.len() implies match #[trigger] prev[i] {
            StateUpdate::Battery { remaining, .. } => remaining <= 100,
            _ => true,
        } by {
            assert(prev[i] == us[i]);
        }
        lemma_battery_pct_in_range(prev);
        assert(match us[us.len() - 1] {
            StateUpdate::Battery { remaining, .. } => remaining <= 100,
            _ => true,
        });
    }
}

/// Once a heartbeat has been seen it stays seen: no update clears the flag.
pub proof fn lemma_heartbeat_monotone(s: MavlinkState, us: Seq<StateUpdate>)
    requires
        s.heartbeat_received,
    ensures
        apply_updates(s, us).heartbeat_received,
    decreases us.len(),
{
    if us.len() > 0 {
        lemma_heartbeat_monotone(s, us.drop_last());
    }
}

/// What each update stores, and that it touches nothing else: a HEARTBEAT
/// stores armed flag, mode and the heartbeat flag only (the mission, position
/// and battery stay as they were); a GPS fix stores position and fix only; a
/// battery report stores charge and voltage only; a mission count stores the
/// count and marks the mission not loaded, and nothing else.
pub proof fn lemma_update_frames(
    s: MavlinkState,
    armed: bool,
    mode: u32,
    lat: i32,
    lon: i32,
    fix: u8,
    rem: u8,
    mv: u16,
    count: u16,
)
    ensures
        s.with_heartbeat(armed, mode).armed == armed,
        s.with_heartbeat(armed, mode).custom_mode == mode,
        s.with_heartbeat(armed, mode).heartbeat_received,
        s.with_heartbeat(armed, mode).lat == s.lat,
        s.with_heartbeat(armed, mode).lon == s.lon,
        s.with_heartbeat(armed, mode).gps_fix_type == s.gps_fix_type,
        s.with_heartbeat(armed, mode).pitch == s.pitch,
        s.with_heartbeat(armed, mode).roll == s.roll,
        s.with_heartbeat(armed, mode).yaw == s.yaw,
        s.with_heartbeat(armed, mode).battery_remaining == s.battery_remaining,
        s.with_heartbeat(armed, mode).battery_voltage == s.battery_voltage,
        s.with_heartbeat(armed, mode).mission_count == s.mission_count,
        s.with_heartbeat(armed, mode).mission_loaded == s.mission_loaded,
        s.with_heartbeat(armed, mode).min_radius == s.min_radius,
        s.with_gps(lat, lon, fix).lat == lat,
        s.with_gps(lat, lon, fix).lon == lon,
        s.with_gps(lat, lon, fix).gps_fix_type == fix as u32,
        s.with_gps(lat, lon, fix).armed == s.armed,
        s.with_gps(lat, lon, fix).custom_mode == s.custom_mode,
        s.with_gps(lat, lon, fix).heartbeat_received == s.heartbeat_received,
        s.with_gps(lat, lon, fix).pitch == s.pitch,
        s.with_gps(lat, lon, fix).roll == s.roll,
        s.with_gps(lat, lon, fix).yaw == s.yaw,
        s.with_gps(lat, lon, fix).battery_remaining == s.battery_remaining,
        s.with_gps(lat, lon, fix).battery_voltage == s.battery_voltage,
        s.with_gps(lat, lon, fix).mission_count == s.mission_count,
        s.with_gps(lat, lon, fix).mission_loaded == s.mission_loaded,
        s.with_gps(lat, lon, fix).min_radius == s.min_radius,
        s.with_battery(rem, mv).battery_remaining == rem as u32,
        s.with_battery(rem, mv).battery_voltage == mv as i32,
        s.with_battery(rem, mv).armed == s.armed,
        s.with_battery(rem, mv).custom_mode == s.custom_mode,
        s.with_battery(rem, mv).heartbeat_received == s.heartbeat_received,
        s.with_battery(rem, mv).lat == s.lat,
        s.with_battery(rem, mv).lon == s.lon,
        s.with_battery(rem, mv).gps_fix_type == s.gps_fix_type,
        s.with_battery(rem, mv).pitch == s.pitch,
        s.with_battery(rem, mv).roll == s.roll,
        s.with_battery(rem, mv).yaw == s.yaw,
        s.with_battery(rem, mv).mission_count == s.mission_count,
        s.with_battery(rem, mv).mission_loaded == s.mission_loaded,
        s.with_battery(rem, mv).min_radius == s.min_radius,
        s.with_mission_count(count).mission_count == count as u32,
        !s.with_mission_count(count).mission_loaded,
        s.with_mission_count(count).armed == s.armed,
        s.with_mission_count(count).custom_mode == s.custom_mode,
        s.with_mission_count(count).heartbeat_received == s.heartbeat_received,
        s.with_mission_count(count).lat == s.lat,
        s.with_mission_count(count).lon == s.lon,
        s.with_mission_count(count).gps_fix_type == s.gps_fix_type,
        s.with_mission_count(count).pitch == s.pitch,
        s.with_mission_count(count).roll == s.roll,
        s.with_mission_count(count).yaw == s.yaw,
        s.with_mission_count(count).battery_remaining == s.battery_remaining,
        s.with_mission_count(count).battery_voltage == s.battery_voltage,
        s.with_mission_count(count).min_radius == s.min_radius,
{
}

/// A fresh record: disarmed, mode 0, no heartbeat, no fix, no battery
/// reading, no mission, minimum radius 5000 cm.
pub proof fn lemma_initial_record()
    ensures
        !MavlinkState::initial().armed,
        MavlinkState::initial().custom_mode == 0,
        !MavlinkState::initial().heartbeat_received,
        MavlinkState::initial().lat == 0,
        MavlinkState::initial().lon == 0,
        MavlinkState::initial().gps_fix_type == 0,
        MavlinkState::initial().battery_remaining == 0,
        MavlinkState::initial().battery_voltage == 0,
        MavlinkState::initial().mission_count == 0,
        !MavlinkState::initial().mission_loaded,
        MavlinkState::initial().min_radius == 5000,
{
}

/// Zone data taken from the mission.
#[derive(Clone)]
pub struct Zone {
    pub name: heapless::String<4>,
    pub lat: i32,
    pub lon: i32,
    pub rel: bool,
    pub received: bool,
    pub t_off_seq: u16,
}

impl Zone {
    /// A zone named `name` (left empty when the name does not fit in 4 bytes),
    /// at 0/0, not relative, not received, take-off sequence 0.
    pub fn new(name: &str) -> (z: Self)
        ensures
            text4_bytes(z.name) == if name.spec_bytes().len() <= 4 {
                name.spec_bytes()
            } else {
                Seq::<u8>::empty()
            },
            z.lat == 0,
            z.lon == 0,
            !z.rel,
            !z.received,
            z.t_off_seq == 0,
    {
        let mut n = text4_new();
        let _ = text4_push_str(&mut n, name);
        assert(Seq::<u8>::empty() + name.spec_bytes() =~= name.spec_bytes());
        Zone { name: n, lat: 0, lon: 0, rel: false, received: false, t_off_seq: 0 }
    }
}

} // verus!
