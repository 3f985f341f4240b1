use esp32_s3_rhai::rhai_engine::{run_step, RunAction, RunEvent, RunState};
use esp32_s3_rhai::mavlink::state::{MavlinkState, Zone, MAVLINK_MSG_ID_STATUSTEXT, MODE_LAND};
use esp32_s3_rhai::mavlink_bridge::parse_incoming;
use esp32_s3_rhai::shared_state::{self, reset_commands, CommandState, FirebaseState, LedState};
use esp32_s3_rhai::rhai_bridge::{hw_sleep, mavlink_get_pitch, mavlink_is_armed, rgb, wifi};
use esp32_s3_rhai::status_queue::{pop, StatusQueue};
use esp32_s3_rhai::logging::LogLevel;
use esp32_s3_rhai::text::{decimal_string, signed_decimal_string};

#[test]
fn mavlink_state_defaults() {
    let s = MavlinkState::new();
    assert!(!s.is_armed());
    assert_eq!(s.mode(), 0);
    assert!(!s.has_heartbeat());
    assert_eq!(s.gps_lat(), 0);
    assert_eq!(s.gps_lon(), 0);
    assert_eq!(s.gps_fix(), 0);
    assert_eq!(s.pitch_mrad(), 0);
    assert_eq!(s.roll_mrad(), 0);
    assert_eq!(s.yaw_mrad(), 0);
    assert_eq!(s.battery_pct(), 0);
    assert_eq!(s.battery_mv(), 0);
    assert_eq!(s.mission_count(), 0);
    assert!(!s.is_mission_loaded());
    assert_eq!(s.min_radius_cm(), 5000);
}

#[test]
fn mavlink_updates_read_back() {
    let mut s = MavlinkState::new();
    s.update_heartbeat(true, MODE_LAND);
    assert!(s.is_armed());
    assert_eq!(s.mode(), 9);
    assert!(s.has_heartbeat());
    s.update_gps(-123456789, 987654321, 3);
    assert_eq!(s.gps_lat(), -123456789);
    assert_eq!(s.gps_lon(), 987654321);
    assert_eq!(s.gps_fix(), 3);
    s.update_battery(87, 16800);
    assert_eq!(s.battery_pct(), 87);
    assert_eq!(s.battery_mv(), 16800);
    s.set_mission_loaded();
    assert!(s.is_mission_loaded());
    s.update_mission_count(12);
    assert_eq!(s.mission_count(), 12);
    assert!(!s.is_mission_loaded());
    s.set_mission_loaded();
    assert!(s.is_mission_loaded());
    // Earlier updates are untouched.
    assert!(s.is_armed());
    assert_eq!(s.gps_lat(), -123456789);
    assert_eq!(MAVLINK_MSG_ID_STATUSTEXT, 253);
}

#[test]
fn zone_names() {
    let z = Zone::new("A1");
    assert_eq!(z.name.as_str(), "A1");
    assert_eq!(z.lat, 0);
    assert!(!z.received);
    let z = Zone::new("TOOLONG");
    assert_eq!(z.name.as_str(), "");
    let z2 = Zone::new("ABCD").clone();
    assert_eq!(z2.name.as_str(), "ABCD");
}

#[test]
fn shared_state_defaults() {
    let led = LedState::new();
    assert_eq!(led.brightness, 80);
    assert_eq!(led.blink_period_ms, 500);
    assert_eq!(led.blink_pulse_ms, 100);
    assert!(!led.dirty);
    let m = shared_state::MavlinkState::new();
    assert_eq!(m.sys_id, 1);
    assert_eq!(m.component_id, 1);
    let f = FirebaseState::new();
    assert!(!f.connected);
    assert_eq!(f.pending_logs, 0);
}

#[test]
fn reset_commands_restores_fresh_record() {
    let mut c = CommandState::new();
    c.arm = true;
    c.takeoff_alt = 1500;
    c.emergency = true;
    c.rhai_command = 3;
    reset_commands(&mut c);
    let fresh = CommandState::new();
    assert_eq!(c.arm, fresh.arm);
    assert_eq!(c.disarm, fresh.disarm);
    assert_eq!(c.takeoff_alt, -1);
    assert_eq!(c.rtl, fresh.rtl);
    assert_eq!(c.land, fresh.land);
    assert!(!c.emergency);
    assert_eq!(c.rhai_command, -1);
}

#[test]
fn bridge_records() {
    let (packet, r) = rgb(255, 0, 7);
    assert_eq!(packet, [0, 255, 7]);
    assert_eq!(r.level, LogLevel::Info);
    assert_eq!(format!("{}{}", r.prefix, r.text), "[Rhai] rgb(255, 0, 7)");
    let (packet, r) = rgb(-1, 256, 18);
    assert_eq!(packet, [0, 255, 18]);
    assert_eq!(r.text, "-1, 256, 18)");
    let s = hw_sleep(500);
    assert_eq!(format!("{}{}", s.prefix, s.text), "[Rhai] sleep(500)");
    let w = wifi("HomeNet", "secret");
    assert_eq!(format!("{}{}", w.prefix, w.text), "[Rhai] wifi: HomeNet");
}

#[test]
fn bridge_reads_mavlink_state() {
    let mut s = MavlinkState::new();
    assert!(!mavlink_is_armed(&s));
    assert_eq!(mavlink_get_pitch(&s), 0);
    s.update_heartbeat(true, 3);
    s.pitch = -1570;
    assert!(mavlink_is_armed(&s));
    assert_eq!(mavlink_get_pitch(&s), -1570);
}

fn crc(bytes: &[u8]) -> u16 {
    let mut crc: u16 = 0xffff;
    for &b in bytes {
        let mut tmp = b ^ (crc & 0xff) as u8;
        tmp ^= tmp << 4;
        crc = (crc >> 8) ^ ((tmp as u16) << 8) ^ ((tmp as u16) << 3) ^ ((tmp as u16) >> 4);
    }
    crc
}

fn frame_v1(msg_id: u8, extra: u8, payload: &[u8]) -> Vec<u8> {
    let mut f = vec![0xfe, payload.len() as u8, 7, 1, 1, msg_id];
    f.extend_from_slice(payload);
    let mut body = f[1..].to_vec();
    body.push(extra);
    let c = crc(&body);
    f.push((c & 0xff) as u8);
    f.push((c >> 8) as u8);
    f
}

fn frame_v2(msg_id: u32, extra: u8, payload: &[u8]) -> Vec<u8> {
    let mut f = vec![
        0xfd,
        payload.len() as u8,
        0,
        0,
        9,
        1,
        1,
        (msg_id & 0xff) as u8,
        ((msg_id >> 8) & 0xff) as u8,
        (msg_id >> 16) as u8,
    ];
    f.extend_from_slice(payload);
    let mut body = f[1..].to_vec();
    body.push(extra);
    let c = crc(&body);
    f.push((c & 0xff) as u8);
    f.push((c >> 8) as u8);
    f
}

fn heartbeat_payload(custom_mode: u32, base_mode: u8) -> Vec<u8> {
    let mut p = custom_mode.to_le_bytes().to_vec();
    p.extend_from_slice(&[2, 3, base_mode, 4, 3]);
    p
}

#[test]
fn crc_of_known_string() {
    // CRC-16/MCRF4XX check value of "123456789".
    assert_eq!(crc(b"123456789"), 0x6f91);
}

#[test]
fn parse_heartbeat_v1() {
    let mut s = MavlinkState::new();
    let mut q = StatusQueue::new();
    let f = frame_v1(0, 50, &heartbeat_payload(9, 0x81));
    parse_incoming(&f, &mut s, &mut q);
    assert!(s.is_armed());
    assert_eq!(s.mode(), 9);
    assert!(s.has_heartbeat());
    assert_eq!(s.gps_lat(), 0);
}

#[test]
fn parse_heartbeat_v2_disarmed() {
    let mut s = MavlinkState::new();
    s.update_heartbeat(true, 1);
    let mut q = StatusQueue::new();
    let f = frame_v2(0, 50, &heartbeat_payload(3, 0x01));
    parse_incoming(&f, &mut s, &mut q);
    assert!(!s.is_armed());
    assert_eq!(s.mode(), 3);
}

#[test]
fn parse_skips_bad_checksum_and_noise() {
    let mut s = MavlinkState::new();
    let mut q = StatusQueue::new();
    let mut f = frame_v1(0, 50, &heartbeat_payload(9, 0x80));
    let last = f.len() - 1;
    f[last] ^= 0x55;
    let mut data = vec![0x00, 0xfe, 0x13];
    data.extend_from_slice(&f);
    parse_incoming(&data, &mut s, &mut q);
    assert!(!s.has_heartbeat());
    // The same frame with a valid checksum behind noise is taken.
    let good = frame_v1(0, 50, &heartbeat_payload(9, 0x80));
    let mut data = vec![0x42, 0xfd, 0x99];
    data.extend_from_slice(&good);
    parse_incoming(&data, &mut s, &mut q);
    assert!(s.is_armed());
}

#[test]
fn parse_gps_raw_int() {
    let mut s = MavlinkState::new();
    let mut q = StatusQueue::new();
    let mut p = vec![0u8; 30];
    p[8..12].copy_from_slice(&(-123456789i32).to_le_bytes());
    p[12..16].copy_from_slice(&(987654321i32).to_le_bytes());
    p[28] = 3;
    parse_incoming(&frame_v1(24, 24, &p), &mut s, &mut q);
    assert_eq!(s.gps_lat(), -123456789);
    assert_eq!(s.gps_lon(), 987654321);
    assert_eq!(s.gps_fix(), 3);
}

#[test]
fn parse_sys_status_voltage() {
    let mut s = MavlinkState::new();
    s.update_battery(87, 11000);
    let mut q = StatusQueue::new();
    let mut p = vec![0u8; 31];
    p[14..16].copy_from_slice(&16800u16.to_le_bytes());
    p[30] = 42;
    parse_incoming(&frame_v1(1, 124, &p), &mut s, &mut q);
    assert_eq!(s.battery_mv(), 16800);
    // The charge is not taken from SYS_STATUS.
    assert_eq!(s.battery_pct(), 87);
}

#[test]
fn parse_global_position_int() {
    let mut s = MavlinkState::new();
    s.update_gps(1, 2, 3);
    let mut q = StatusQueue::new();
    let mut p = vec![0u8; 28];
    p[4..8].copy_from_slice(&(504501234i32).to_le_bytes());
    p[8..12].copy_from_slice(&(-305233456i32).to_le_bytes());
    parse_incoming(&frame_v2(33, 104, &p), &mut s, &mut q);
    assert_eq!(s.gps_lat(), 504501234);
    assert_eq!(s.gps_lon(), -305233456);
    assert_eq!(s.gps_fix(), 3);
}

#[test]
fn parse_mission_count_and_v2_truncated_payload() {
    let mut s = MavlinkState::new();
    s.set_mission_loaded();
    let mut q = StatusQueue::new();
    // v2 drops trailing zero bytes: count 12, target system and component 0.
    parse_incoming(&frame_v2(44, 221, &[12]), &mut s, &mut q);
    assert_eq!(s.mission_count(), 12);
    assert!(!s.is_mission_loaded());
}

#[test]
fn parse_statustext_goes_to_queue() {
    let mut s = MavlinkState::new();
    let mut q = StatusQueue::new();
    let mut p = vec![0u8; 51];
    p[0] = 4;
    p[1..16].copy_from_slice(b"PreArm: no GPS!");
    let hb = frame_v1(0, 50, &heartbeat_payload(2, 0x80));
    let mut data = frame_v1(253, 83, &p);
    data.extend_from_slice(&hb);
    parse_incoming(&data, &mut s, &mut q);
    assert_eq!(pop(&mut q).unwrap().as_str(), "PreArm: no GPS!");
    assert!(pop(&mut q).is_none());
    assert_eq!(s.mode(), 2);
}

#[test]
fn parse_ignores_unhandled_messages() {
    let mut s = MavlinkState::new();
    let mut q = StatusQueue::new();
    // ATTITUDE (id 30) is not handled here.
    parse_incoming(&frame_v1(30, 39, &[0u8; 28]), &mut s, &mut q);
    assert!(!s.has_heartbeat());
    assert!(pop(&mut q).is_none());
}

#[test]
fn decimal_rendering() {
    assert_eq!(decimal_string(0), "0");
    assert_eq!(decimal_string(1234567890), "1234567890");
    assert_eq!(decimal_string(u64::MAX), "18446744073709551615");
    assert_eq!(signed_decimal_string(i64::MIN), "-9223372036854775808");
    assert_eq!(signed_decimal_string(-5), "-5");
}

#[test]
fn runner_steps() {
    let (s, a, r) = run_step(RunState::Starting, &RunEvent::Started);
    assert_eq!((s, a), (RunState::InitEngine, RunAction::InitEngine));
    assert_eq!(r.unwrap().prefix, "[Core1] Rhai engine starting...");
    let (s, a, r) = run_step(s, &RunEvent::EngineReady);
    assert_eq!((s, a), (RunState::Mount, RunAction::MountScript("test_log.rhai")));
    assert!(r.is_none());
    let (s2, a2, r2) = run_step(s, &RunEvent::MountFailed("no file".to_string()));
    assert_eq!((s2, a2), (RunState::Dump, RunAction::DumpBuffer));
    let r2 = r2.unwrap();
    assert_eq!(r2.level, LogLevel::Error);
    assert_eq!(format!("{}{}", r2.prefix, r2.text), "[Core1] Script mount error: no file");
    let (s, a, _) = run_step(s, &RunEvent::ScriptMounted("print(1);".to_string()));
    assert_eq!((s, a), (RunState::Eval, RunAction::EvalScript("print(1);".to_string())));
    let (s, a, r) = run_step(s, &RunEvent::ScriptFailed("boom".to_string()));
    assert_eq!((s, a), (RunState::Dump, RunAction::DumpBuffer));
    assert_eq!(r.unwrap().text, "boom");
    let (s, a, r) = run_step(s, &RunEvent::Dumped(String::new()));
    assert_eq!((s, a), (RunState::Done, RunAction::Stop));
    assert!(r.is_none());
    let (_, _, r) = run_step(RunState::Dump, &RunEvent::Dumped("x\n".to_string()));
    assert_eq!(r.unwrap().text, "x\n");
    let (s, a, r) = run_step(RunState::InitEngine, &RunEvent::EngineFailed("oom".to_string()));
    assert_eq!((s, a), (RunState::Done, RunAction::Stop));
    assert_eq!(r.unwrap().prefix, "Failed to init Rhai: ");
    let (s, a, r) = run_step(RunState::Eval, &RunEvent::Started);
    assert_eq!((s, a), (RunState::Done, RunAction::Stop));
    assert!(r.is_none());
}

#[test]
fn update_sequence_read_back() {
    let mut s = MavlinkState::new();
    s.update_gps(10, 20, 2);
    s.update_heartbeat(true, 4);
    s.update_battery(50, 12000);
    s.update_heartbeat(false, 5);
    s.update_mission_count(3);
    assert!(!s.is_armed());
    assert_eq!(s.mode(), 5);
    assert!(s.has_heartbeat());
    assert_eq!((s.gps_lat(), s.gps_lon(), s.gps_fix()), (10, 20, 2));
    assert_eq!((s.battery_pct(), s.battery_mv()), (50, 12000));
}
