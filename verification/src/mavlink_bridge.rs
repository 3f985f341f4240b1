//! MAVLink packet parser: finds the MAVLink v1 and v2 frames in a buffer of
//! received bytes, checks their checksums, and applies the messages that the
//! firmware handles to the MAVLink state and the status queue.
//!
//! Handled messages: HEARTBEAT (armed flag and mode), GPS_RAW_INT (position
//! and fix), GLOBAL_POSITION_INT (position), SYS_STATUS (battery voltage),
//! MISSION_COUNT (a new mission is announced) and STATUSTEXT (its text goes to
//! the status queue). Any byte that does not start a complete frame of a
//! handled message with a valid checksum is skipped, and so are frames of
//! other messages: ATTITUDE, MISSION_ITEM_INT (which carries NAV_DELAY and the
//! minimum radius) and COMMAND_ACK are not decoded.

use vstd::prelude::*;
use vstd::string::StringSliceAdditionalSpecFns;
use vstd::utf8::valid_utf8;
use crate::mavlink::state::MavlinkState;
use crate::status_queue::{push_str, queue_after_send, StatusQueue};
use crate::text::str_from_utf8;

verus! {

/// Start byte of a MAVLink v1 frame.
pub const STX_V1: u8 = 0xfe;

/// Start byte of a MAVLink v2 frame.
pub const STX_V2: u8 = 0xfd;

/// One step of the MAVLink checksum (CRC-16/MCRF4XX) over the byte `b`.
pub open spec fn crc_step(crc: u16, b: u8) -> u16 {
    let t: u8 = b ^ (crc as u8);
    let t2: u8 = t ^ (t << 4u8);
    ((crc >> 8u16) ^ ((t2 as u16) << 8u16) ^ ((t2 as u16) << 3u16) ^ ((t2 as u16) >> 4u16)) as u16
}

/// The MAVLink checksum of `bytes`, starting from 0xFFFF.
pub open spec fn crc_of(bytes: Seq<u8>) -> u16
    decreases bytes.len(),
{
    if bytes.len() == 0 {
        0xffffu16
    } else {
        crc_step(crc_of(bytes.drop_last()), bytes.last())
    }
}

/// The per-message checksum seed of the handled messages, -1 for others.
pub open spec fn crc_extra(id: int) -> int {
    if id == 0 {
        50
    } else if id == 1 {
        124
    } else if id == 24 {
        24
    } else if id == 33 {
        104
    } else if id == 44 {
        221
    } else if id == 253 {
        83
    } else {
        -1
    }
}

/// Header length of the frame starting at `i` (v2 frames start with 0xFD).
pub open spec fn header_len(d: Seq<u8>, i: int) -> int {
    if d[i] == STX_V2 {
        10
    } else {
        6
    }
}

/// The message id of the frame starting at `i`.
pub open spec fn msg_id(d: Seq<u8>, i: int) -> int {
    if d[i] == STX_V2 {
        d[i + 7] + 256 * d[i + 8] + 65536 * d[i + 9]
    } else {
        d[i + 5] as int
    }
}

/// Length of the signature trailing the frame starting at `i`.
pub open spec fn signature_len(d: Seq<u8>, i: int) -> int {
    if d[i] == STX_V2 && d[i + 2] == 1 {
        13
    } else {
        0
    }
}

/// The length of the complete, checksum-valid frame of a handled message that
/// starts at `i`, or 0 when none starts there. A v2 frame may only carry the
/// "signed" incompatibility flag.
pub open spec fn frame_len(d: Seq<u8>, i: int) -> int {
    if !(0 <= i && i + 2 < d.len()) {
        0
    } else if d[i] != STX_V1 && d[i] != STX_V2 {
        0
    } else if d[i] == STX_V2 && d[i + 2] > 1 {
        0
    } else {
        let h = header_len(d, i);
        let plen = d[i + 1] as int;
        let total = h + plen + 2 + signature_len(d, i);
        if i + total > d.len() {
            0
        } else if crc_extra(msg_id(d, i)) < 0 {
            0
        } else {
            let body = d.subrange(i + 1, i + h + plen).push(crc_extra(msg_id(d, i)) as u8);
            if crc_of(body) as int == d[i + h + plen] + 256 * d[i + h + plen + 1] {
                total
            } else {
                0
            }
        }
    }
}

/// Payload byte `off` of the frame at `i`; bytes past the payload read as
/// zero (v2 frames drop trailing zero bytes).
pub open spec fn payload_byte(d: Seq<u8>, i: int, off: int) -> u8 {
    if off < d[i + 1] {
        d[i + header_len(d, i) + off]
    } else {
        0u8
    }
}

/// Little-endian 16-bit payload field at `off`.
pub open spec fn payload_u16(d: Seq<u8>, i: int, off: int) -> int {
    payload_byte(d, i, off) + 256 * payload_byte(d, i, off + 1)
}

/// Little-endian unsigned 32-bit payload field at `off`.
pub open spec fn payload_u32(d: Seq<u8>, i: int, off: int) -> int {
    payload_u16(d, i, off) + 65536 * payload_u16(d, i, off + 2)
}

/// Little-endian signed 32-bit payload field at `off`.
pub open spec fn payload_i32(d: Seq<u8>, i: int, off: int) -> int {
    let u = payload_u32(d, i, off);
    if u >= 0x8000_0000 {
        u - 0x1_0000_0000
    } else {
        u
    }
}

/// The text of a STATUSTEXT payload: its 50 text bytes, up to the first zero.
pub open spec fn statustext_text(d: Seq<u8>, i: int) -> Seq<u8> {
    let all = Seq::new(50, |k: int| payload_byte(d, i, 1 + k));
    all.take(first_zero(all) as int)
}

/// Index of the first zero byte of `s`, or its length.
pub open spec fn first_zero(s: Seq<u8>) -> nat
    decreases s.len(),
{
    if s.len() == 0 {
        0
    } else if first_zero(s.drop_last()) < s.len() - 1 {
        first_zero(s.drop_last())
    } else if s.last() == 0 {
        (s.len() - 1) as nat
    } else {
        s.len()
    }
}

/// The MAVLink state and the status queue after the message of the valid
/// frame at `i`:
/// HEARTBEAT stores the mode and the armed flag (bit 7 of `base_mode`);
/// GPS_RAW_INT stores latitude, longitude and fix type;
/// GLOBAL_POSITION_INT stores latitude and longitude;
/// SYS_STATUS stores the battery voltage;
/// MISSION_COUNT announces a mission of `count` items, not loaded yet;
/// STATUSTEXT queues its text when the text is UTF-8.
pub open spec fn apply_frame(d: Seq<u8>, i: int, st: MavlinkState, q: Seq<Seq<u8>>) -> (
    MavlinkState,
    Seq<Seq<u8>>,
) {
    let id = msg_id(d, i);
    if id == 0 {
        (st.with_heartbeat(payload_byte(d, i, 6) >= 128, payload_u32(d, i, 0) as u32), q)
    } else if id == 24 {
        (
            st.with_gps(
                payload_i32(d, i, 8) as i32,
                payload_i32(d, i, 12) as i32,
                payload_byte(d, i, 28),
            ),
            q,
        )
    } else if id == 33 {
        (MavlinkState { lat: payload_i32(d, i, 4) as i32, lon: payload_i32(d, i, 8) as i32, ..st }, q)
    } else if id == 1 {
        (MavlinkState { battery_voltage: payload_u16(d, i, 14) as i32, ..st }, q)
    } else if id == 44 {
        (st.with_mission_count(payload_u16(d, i, 0) as u16), q)
    } else {
        let text = statustext_text(d, i);
        if valid_utf8(text) {
            (st, queue_after_send(q, text))
        } else {
            (st, q)
        }
    }
}

/// The MAVLink state and status queue after parsing `d` from index `i` on:
/// each valid frame is applied and skipped whole, any other byte is skipped.
pub open spec fn parse_from(d: Seq<u8>, i: int, st: MavlinkState, q: Seq<Seq<u8>>) -> (
    MavlinkState,
    Seq<Seq<u8>>,
)
    decreases d.len() - i,
{
    if i < 0 || i >= d.len() {
        (st, q)
    } else if frame_len(d, i) > 0 {
        let (st2, q2) = apply_frame(d, i, st, q);
        parse_from(d, i + frame_len(d, i), st2, q2)
    } else {
        parse_from(d, i + 1, st, q)
    }
}

/// One step of the MAVLink checksum.
fn crc_accumulate(crc: u16, b: u8) -> (r: u16)
    ensures
        r == crc_step(crc, b),
{
    let t: u8 = b ^ (crc as u8);
    let t2: u8 = t ^ (t << 4u8);
    ((crc >> 8u16) ^ ((t2 as u16) << 8u16) ^ ((t2 as u16) << 3u16) ^ ((t2 as u16) >> 4u16)) as u16
}

/// The checksum seed of a message id, -1 when the message is not handled.
fn crc_extra_of(id: u32) -> (x: i32)
    ensures
        x == crc_extra(id as int),
{
    if id == 0 {
        50
    } else if id == 1 {
        124
    } else if id == 24 {
        24
    } else if id == 33 {
        104
    } else if id == 44 {
        221
    } else if id == 253 {
        83
    } else {
        -1
    }
}

/// The length of the valid frame of a handled message at `i`, or 0.
fn frame_at(data: &[u8], i: usize) -> (n: usize)
    ensures
        n == frame_len(data@, i as int),
{
    let len = data.len();
    if !(i < len && len - i > 2) {
        return 0;
    }
    let stx = data[i];
    if stx != STX_V1 && stx != STX_V2 {
        return 0;
    }
    if stx == STX_V2 && data[i + 2] > 1 {
        return 0;
    }
    let h: usize = if stx == STX_V2 { 10 } else { 6 };
    let plen: usize = data[i + 1] as usize;
    let sig: usize = if stx == STX_V2 && data[i + 2] == 1 { 13 } else { 0 };
    let total: usize = h + plen + 2 + sig;
    if len - i < total {
        return 0;
    }
    let id: u32 = if stx == STX_V2 {
        data[i + 7] as u32 + 256 * (data[i + 8] as u32) + 65536 * (data[i + 9] as u32)
    } else {
        data[i + 5] as u32
    };
    let extra = crc_extra_of(id);
    if extra < 0 {
        return 0;
    }
    let ghost d = data@;
    let mut crc: u16 = 0xffff;
    let mut k: usize = i + 1;
    while k < i + h + plen
        invariant
            i + 1 <= k <= i + h + plen,
            i + h + plen + 2 <= len,
            len == d.len(),
            d == data@,
            crc == crc_of(d.subrange(i + 1, k as int)),
        decreases i + h + plen - k,
    {
        assert(d.subrange(i + 1, k + 1).drop_last() =~= d.subrange(i + 1, k as int));
        crc = crc_accumulate(crc, data[k]);
        k = k + 1;
    }
    crc = crc_accumulate(crc, extra as u8);
    proof {
        let body = d.subrange(i + 1, i + h + plen);
        assert(body.push(extra as u8).drop_last() =~= body);
    }
    let lo = data[i + h + plen] as u16;
    let hi = data[i + h + plen + 1] as u16;
    if crc == lo + 256 * hi {
        total
    } else {
        0
    }
}

/// Payload byte `off` of the valid frame at `i` (zero past the payload).
fn payload_at(data: &[u8], i: usize, off: usize) -> (b: u8)
    requires
        frame_len(data@, i as int) > 0,
        off < 256,
    ensures
        b == payload_byte(data@, i as int, off as int),
{
    let h: usize = if data[i] == STX_V2 { 10 } else { 6 };
    if off < data[i + 1] as usize {
        data[i + h + off]
    } else {
        0
    }
}

/// Little-endian 16-bit payload field.
fn payload_u16_at(data: &[u8], i: usize, off: usize) -> (v: u16)
    requires
        frame_len(data@, i as int) > 0,
        off < 255,
    ensures
        v == payload_u16(data@, i as int, off as int),
{
    payload_at(data, i, off) as u16 + 256 * (payload_at(data, i, off + 1) as u16)
}

/// Little-endian unsigned 32-bit payload field.
fn payload_u32_at(data: &[u8], i: usize, off: usize) -> (v: u32)
    requires
        frame_len(data@, i as int) > 0,
        off < 253,
    ensures
        v == payload_u32(data@, i as int, off as int),
{
    payload_u16_at(data, i, off) as u32 + 65536 * (payload_u16_at(data, i, off + 2) as u32)
}

/// Little-endian signed 32-bit payload field.
fn payload_i32_at(data: &[u8], i: usize, off: usize) -> (v: i32)
    requires
        frame_len(data@, i as int) > 0,
        off < 253,
    ensures
        v == payload_i32(data@, i as int, off as int),
{
    let u = payload_u32_at(data, i, off);
    if u >= 0x8000_0000 {
        (u as i64 - 0x1_0000_0000i64) as i32
    } else {
        u as i32
    }
}

/// The text bytes of the STATUSTEXT frame at `i`, up to the first zero.
fn statustext_at(data: &[u8], i: usize) -> (t: Vec<u8>)
    requires
        frame_len(data@, i as int) > 0,
    ensures
        t@ == statustext_text(data@, i as int),
{
    let ghost all = Seq::new(50, |k: int| payload_byte(data@, i as int, 1 + k));
    let mut t: Vec<u8> = Vec::new();
    let mut k: usize = 0;
    while k < 50
        invariant
            k <= 50,
            frame_len(data@, i as int) > 0,
            all == Seq::new(50, |j: int| payload_byte(data@, i as int, 1 + j)),
            first_zero(all.take(k as int)) == k,
            t@ == all.take(k as int),
        decreases 50 - k,
    {
        let b = payload_at(data, i, 1 + k);
        if b == 0 {
            proof {
                lemma_first_zero_stops(all, k as int, 50);
                assert(all.take(50) =~= all);
            }
            return t;
        }
        t.push(b);
        proof {
            assert(all.take(k + 1).drop_last() =~= all.take(k as int));
        }
        k = k + 1;
    }
    proof {
        assert(all.take(50) =~= all);
        assert(all.take(50).take(50) =~= all);
    }
    t
}

/// Once the first zero has been met, reading further does not move it.
proof fn lemma_first_zero_stops(s: Seq<u8>, i: int, j: int)
    requires
        0 <= i < j <= s.len(),
        first_zero(s.take(i)) == i,
        s[i] == 0,
    ensures
        first_zero(s.take(j)) == i,
    decreases j - i,
{
    assert(s.take(j).drop_last() =~= s.take(j - 1));
    if j > i + 1 {
        lemma_first_zero_stops(s, i, j - 1);
    }
}

/// The first zero lies within the sequence.
proof fn lemma_first_zero_bound(s: Seq<u8>)
    ensures
        first_zero(s) <= s.len(),
    decreases s.len(),
{
    if s.len() > 0 {
        lemma_first_zero_bound(s.drop_last());
    }
}

/// Applies the message of the valid frame at `i`.
fn apply_frame_at(data: &[u8], i: usize, shared: &mut MavlinkState, queue: &mut StatusQueue)
    requires
        frame_len(data@, i as int) > 0,
    ensures
        (*final(shared), final(queue)@) == apply_frame(data@, i as int, *old(shared), old(queue)@),
{
    let stx = data[i];
    let id: u32 = if stx == STX_V2 {
        data[i + 7] as u32 + 256 * (data[i + 8] as u32) + 65536 * (data[i + 9] as u32)
    } else {
        data[i + 5] as u32
    };
    if id == 0 {
        let base_mode = payload_at(data, i, 6);
        let custom_mode = payload_u32_at(data, i, 0);
        shared.update_heartbeat(base_mode >= 128, custom_mode);
    } else if id == 24 {
        let lat = payload_i32_at(data, i, 8);
        let lon = payload_i32_at(data, i, 12);
        let fix = payload_at(data, i, 28);
        shared.update_gps(lat, lon, fix);
    } else if id == 33 {
        shared.lat = payload_i32_at(data, i, 4);
        shared.lon = payload_i32_at(data, i, 8);
    } else if id == 1 {
        shared.battery_voltage = payload_u16_at(data, i, 14) as i32;
    } else if id == 44 {
        let count = payload_u16_at(data, i, 0);
        shared.update_mission_count(count);
    } else {
        let text = statustext_at(data, i);
        proof {
            lemma_first_zero_bound(Seq::new(50, |k: int| payload_byte(data@, i as int, 1 + k)));
        }
        match str_from_utf8(text.as_slice()) {
            Some(t) => {
                push_str(queue, t);
            },
            None => {},
        }
    }
}

/// Parse a buffer of incoming MAVLink bytes: every complete frame of a
/// handled message with a valid checksum is applied in order (to the MAVLink
/// state, or to the status queue for STATUSTEXT); any other byte is skipped.
pub fn parse_incoming(data: &[u8], shared: &mut MavlinkState, queue: &mut StatusQueue)
    ensures
        (*final(shared), final(queue)@) == parse_from(data@, 0, *old(shared), old(queue)@),
{
    let ghost d = data@;
    let ghost goal = parse_from(d, 0, *shared, queue@);
    let mut i: usize = 0;
    while i < data.len()
        invariant
            i <= data.len(),
            d == data@,
            goal == parse_from(d, i as int, *shared, queue@),
        decreases data.len() - i,
    {
        let n = frame_at(data, i);
        if n > 0 {
            apply_frame_at(data, i, shared, queue);
            i = i + n;
        } else {
            i = i + 1;
        }
    }
}

/// A buffer that holds exactly one valid HEARTBEAT frame stores its mode and
/// armed flag and changes nothing else.
pub proof fn lemma_single_heartbeat(d: Seq<u8>, st: MavlinkState, q: Seq<Seq<u8>>)
    requires
        d.len() > 0,
        frame_len(d, 0) == d.len(),
        msg_id(d, 0) == 0,
    ensures
        parse_from(d, 0, st, q) == (
            st.with_heartbeat(payload_byte(d, 0, 6) >= 128, payload_u32(d, 0, 0) as u32),
            q,
        ),
{
    assert(apply_frame(d, 0, st, q) == (st.with_heartbeat(payload_byte(d, 0, 6) >= 128, payload_u32(d, 0, 0) as u32), q));
    assert(parse_from(d, d.len() as int, st.with_heartbeat(payload_byte(d, 0, 6) >= 128, payload_u32(d, 0, 0) as u32), q)
        == (st.with_heartbeat(payload_byte(d, 0, 6) >= 128, payload_u32(d, 0, 0) as u32), q));
}

/// A STATUSTEXT frame hands its text to the status queue, whatever its
/// severity, and changes nothing in the MAVLink state; a text that is not
/// UTF-8 changes nothing at all.
pub proof fn lemma_statustext_is_queued(d: Seq<u8>, i: int, st: MavlinkState, q: Seq<Seq<u8>>)
    requires
        frame_len(d, i) > 0,
        msg_id(d, i) == 253,
    ensures
        apply_frame(d, i, st, q).0 == st,
        valid_utf8(statustext_text(d, i)) ==> apply_frame(d, i, st, q).1 == (if q.len()
            < 8 {
            q.push(statustext_text(d, i))
        } else {
            q
        }),
        !valid_utf8(statustext_text(d, i)) ==> apply_frame(d, i, st, q).1 == q,
{
}

/// The text of a STATUSTEXT frame is its payload from the byte after the
/// severity on, up to the first zero byte or the end of the 50 text bytes:
/// it holds no zero byte, each of its bytes is the payload byte at that
/// place, and it ends at a zero byte or after 50 bytes.
pub proof fn lemma_statustext_text(d: Seq<u8>, i: int)
    ensures
        statustext_text(d, i).len() <= 50,
        forall|k: int|
            0 <= k < statustext_text(d, i).len() ==> #[trigger] statustext_text(d, i)[k]
                == payload_byte(d, i, 1 + k) && statustext_text(d, i)[k] != 0,
        statustext_text(d, i).len() == 50 || payload_byte(
            d,
            i,
            1 + statustext_text(d, i).len() as int,
        ) == 0,
{
    let all = Seq::new(50, |k: int| payload_byte(d, i, 1 + k));
    lemma_first_zero_shape(all);
}

/// The first zero of `s` lies within it, no byte before it is zero, and the
/// byte at it is zero unless it is the end.
proof fn lemma_first_zero_shape(s: Seq<u8>)
    ensures
        first_zero(s) <= s.len(),
        forall|k: int| 0 <= k < first_zero(s) ==> #[trigger] s[k] != 0,
        first_zero(s) == s.len() || s[first_zero(s) as int] == 0,
    decreases s.len(),
{
    if s.len() > 0 {
        let p = s.drop_last();
        lemma_first_zero_shape(p);
        assert forall|k: int| 0 <= k < first_zero(s) implies #[trigger] s[k] != 0 by {
            if k < p.len() {
                assert(s[k] == p[k]);
            }
        }
        if first_zero(p) < p.len() {
            assert(s[first_zero(p) as int] == p[first_zero(p) as int]);
        }
    }
}

/// A HEARTBEAT frame stores the mode from the first four payload bytes and
/// the armed flag from bit 7 of `base_mode` (payload byte 6), marks the
/// heartbeat seen, and changes nothing else: not the mission, position or
/// battery, and not the status queue.
pub proof fn lemma_heartbeat_frame(d: Seq<u8>, i: int, st: MavlinkState, q: Seq<Seq<u8>>)
    requires
        frame_len(d, i) > 0,
        msg_id(d, i) == 0,
    ensures
        apply_frame(d, i, st, q).1 == q,
        apply_frame(d, i, st, q).0.armed == (payload_byte(d, i, 6) >= 128),
        apply_frame(d, i, st, q).0.custom_mode == payload_byte(d, i, 0) + 256 * payload_byte(d, i, 1)
            + 65536 * payload_byte(d, i, 2) + 16777216 * payload_byte(d, i, 3),
        apply_frame(d, i, st, q).0.heartbeat_received,
        apply_frame(d, i, st, q).0.mission_loaded == st.mission_loaded,
        apply_frame(d, i, st, q).0.mission_count == st.mission_count,
        apply_frame(d, i, st, q).0.lat == st.lat,
        apply_frame(d, i, st, q).0.lon == st.lon,
        apply_frame(d, i, st, q).0.gps_fix_type == st.gps_fix_type,
        apply_frame(d, i, st, q).0.battery_remaining == st.battery_remaining,
        apply_frame(d, i, st, q).0.battery_voltage == st.battery_voltage,
        apply_frame(d, i, st, q).0.pitch == st.pitch,
        apply_frame(d, i, st, q).0.min_radius == st.min_radius,
{
}

/// The other handled frames: GPS_RAW_INT stores latitude (payload bytes
/// 8..12), longitude (12..16) and fix type (byte 28); GLOBAL_POSITION_INT
/// stores latitude (4..8) and longitude (8..12) and keeps the fix;
/// SYS_STATUS stores the voltage (bytes 14..16) and keeps the charge;
/// MISSION_COUNT stores the count (bytes 0..2) and marks the mission not
/// loaded. None of them touches the heartbeat values or the status queue.
pub proof fn lemma_other_frames(d: Seq<u8>, i: int, st: MavlinkState, q: Seq<Seq<u8>>)
    requires
        frame_len(d, i) > 0,
    ensures
        msg_id(d, i) == 24 ==> {
            &&& apply_frame(d, i, st, q).0.lat == payload_i32(d, i, 8)
            &&& apply_frame(d, i, st, q).0.lon == payload_i32(d, i, 12)
            &&& apply_frame(d, i, st, q).0.gps_fix_type == payload_byte(d, i, 28)
            &&& apply_frame(d, i, st, q).0.armed == st.armed
            &&& apply_frame(d, i, st, q).0.mission_loaded == st.mission_loaded
            &&& apply_frame(d, i, st, q).1 == q
        },
        msg_id(d, i) == 33 ==> {
            &&& apply_frame(d, i, st, q).0.lat == payload_i32(d, i, 4)
            &&& apply_frame(d, i, st, q).0.lon == payload_i32(d, i, 8)
            &&& apply_frame(d, i, st, q).0.gps_fix_type == st.gps_fix_type
            &&& apply_frame(d, i, st, q).0.armed == st.armed
            &&& apply_frame(d, i, st, q).1 == q
        },
        msg_id(d, i) == 1 ==> {
            &&& apply_frame(d, i, st, q).0.battery_voltage == payload_byte(d, i, 14) + 256
                * payload_byte(d, i, 15)
            &&& apply_frame(d, i, st, q).0.battery_remaining == st.battery_remaining
            &&& apply_frame(d, i, st, q).0.armed == st.armed
            &&& apply_frame(d, i, st, q).0.lat == st.lat
            &&& apply_frame(d, i, st, q).1 == q
        },
        msg_id(d, i) == 44 ==> {
            &&& apply_frame(d, i, st, q).0.mission_count == payload_byte(d, i, 0) + 256
                * payload_byte(d, i, 1)
            &&& !apply_frame(d, i, st, q).0.mission_loaded
            &&& apply_frame(d, i, st, q).0.armed == st.armed
            &&& apply_frame(d, i, st, q).0.lat == st.lat
            &&& apply_frame(d, i, st, q).1 == q
        },
{
}

/// A buffer that holds exactly one valid STATUSTEXT frame with a UTF-8 text
/// queues that text (when the queue has room) and leaves the state as it is.
pub proof fn lemma_single_statustext(d: Seq<u8>, st: MavlinkState, q: Seq<Seq<u8>>)
    requires
        d.len() > 0,
        frame_len(d, 0) == d.len(),
        msg_id(d, 0) == 253,
        valid_utf8(statustext_text(d, 0)),
    ensures
        parse_from(d, 0, st, q) == (st, queue_after_send(q, statustext_text(d, 0))),
{
    assert(apply_frame(d, 0, st, q) == (st, queue_after_send(q, statustext_text(d, 0))));
    assert(parse_from(d, d.len() as int, st, queue_after_send(q, statustext_text(d, 0))) == (
        st,
        queue_after_send(q, statustext_text(d, 0)),
    ));
}

/// Bytes that start no valid frame are skipped: a buffer in which no
/// position starts a valid frame changes nothing.
pub proof fn lemma_noise_is_ignored(d: Seq<u8>, i: int, st: MavlinkState, q: Seq<Seq<u8>>)
    requires
        0 <= i,
        forall|k: int| i <= k < d.len() ==> frame_len(d, k) == 0,
    ensures
        parse_from(d, i, st, q) == (st, q),
    decreases d.len() - i,
{
    if i < d.len() {
        lemma_noise_is_ignored(d, i + 1, st, q);
    }
}

} // verus!
