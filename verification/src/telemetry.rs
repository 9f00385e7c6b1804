use vstd::prelude::*;
use vstd::bytes::{
    spec_u32_from_le_bytes, spec_u32_to_le_bytes, lemma_auto_spec_u32_to_from_le_bytes,
    u32_from_le_bytes, u32_to_le_bytes,
};
use vstd::slice::slice_subrange;
use crate::util::RBR2G29Error;

verus! {

// The telemetry datagram is a fixed-size snapshot with no length prefixes,
// optional fields or versioning: 32-bit words in a fixed order, all
// little-endian. Words that carry float readings (RPM, temperatures,
// positions and the like) are held here as their raw IEEE-754 bit
// patterns, unchanged; the bridge never does float arithmetic on them, and
// carrying the bits makes the decode-reencode round trip exact.
/// Total length in bytes of one telemetry datagram.
pub const PACKET_LEN: usize = 664;

/// The 32-bit word stored little-endian at byte offset `off`.
pub open spec fn le32(b: Seq<u8>, off: int) -> u32 {
    spec_u32_from_le_bytes(b.subrange(off, off + 4))
}

/// The signed reading of a 32-bit word (two's complement).
pub open spec fn i32_of_bits(u: u32) -> i32 {
    if u < 0x8000_0000 {
        u as i32
    } else {
        (u - 0x1_0000_0000) as i32
    }
}

/// The 32-bit image of a signed value (two's complement).
pub open spec fn bits_of_i32(v: i32) -> u32 {
    if v >= 0 {
        v as u32
    } else {
        (v + 0x1_0000_0000) as u32
    }
}

proof fn lemma_i32_bits_roundtrip(u: u32, v: i32)
    ensures
        bits_of_i32(i32_of_bits(u)) == u,
        i32_of_bits(bits_of_i32(v)) == v,
{
}

fn read_u32(b: &[u8], off: usize) -> (v: u32)
    requires
        off + 4 <= b@.len() <= usize::MAX,
    ensures
        v == le32(b@, off as int),
{
    let s = slice_subrange(b, off, off + 4);
    u32_from_le_bytes(s)
}

fn read_i32(b: &[u8], off: usize) -> (v: i32)
    requires
        off + 4 <= b@.len() <= usize::MAX,
    ensures
        v == i32_of_bits(le32(b@, off as int)),
{
    let u = read_u32(b, off);
    if u < 0x8000_0000 {
        u as i32
    } else {
        ((u as i64) - 0x1_0000_0000i64) as i32
    }
}

fn write_u32(out: &mut Vec<u8>, v: u32)
    ensures
        final(out)@ == old(out)@ + spec_u32_to_le_bytes(v),
{
    let mut bs = u32_to_le_bytes(v);
    out.append(&mut bs);
}

fn write_i32(out: &mut Vec<u8>, v: i32)
    ensures
        final(out)@ == old(out)@ + spec_u32_to_le_bytes(bits_of_i32(v)),
{
    let u: u32 = if v >= 0 {
        v as u32
    } else {
        ((v as i64) + 0x1_0000_0000i64) as u32
    };
    write_u32(out, u)
}

/// A three-axis motion block: velocities or accelerations.
#[derive(Clone, Copy, Debug, PartialEq, Eq, Structural)]
pub struct Motion {
    pub surge: u32,
    pub sway: u32,
    pub heave: u32,
    pub roll: u32,
    pub pitch: u32,
    pub yaw: u32,
}

pub open spec fn motion_at(b: Seq<u8>, off: int) -> Motion {
    Motion {
        surge: le32(b, off),
        sway: le32(b, off + 4),
        heave: le32(b, off + 8),
        roll: le32(b, off + 12),
        pitch: le32(b, off + 16),
        yaw: le32(b, off + 20),
    }
}

pub open spec fn motion_bytes(m: Motion) -> Seq<u8> {
    spec_u32_to_le_bytes(m.surge) + spec_u32_to_le_bytes(m.sway) + spec_u32_to_le_bytes(m.heave)
        + spec_u32_to_le_bytes(m.roll) + spec_u32_to_le_bytes(m.pitch) + spec_u32_to_le_bytes(m.yaw)
}

proof fn lemma_motion_len(m: Motion)
    ensures
        motion_bytes(m).len() == 24,
{
    lemma_auto_spec_u32_to_from_le_bytes();
}

proof fn lemma_motion_reencode(b: Seq<u8>, off: int)
    requires
        0 <= off,
        off + 24 <= b.len(),
    ensures
        motion_bytes(motion_at(b, off)) == b.subrange(off, off + 24),
{
    lemma_auto_spec_u32_to_from_le_bytes();
    assert(motion_bytes(motion_at(b, off)) =~= b.subrange(off, off + 24));
}

proof fn lemma_motion_decode(x: Motion, b: Seq<u8>, off: int)
    requires
        0 <= off,
        off + 24 <= b.len(),
        b.subrange(off, off + 24) == motion_bytes(x),
    ensures
        motion_at(b, off) == x,
{
    lemma_auto_spec_u32_to_from_le_bytes();
    let whole = b.subrange(off, off + 24);
    assert forall|k: int| 0 <= k < 6 implies #[trigger] b.subrange(off + 4 * k, off + 4 * k + 4)
        == motion_bytes(x).subrange(4 * k, 4 * k + 4) by {
        assert(b.subrange(off + 4 * k, off + 4 * k + 4) =~= whole.subrange(4 * k, 4 * k + 4));
    }
    assert(motion_bytes(x).subrange(0, 4) =~= spec_u32_to_le_bytes(x.surge));
    assert(motion_bytes(x).subrange(4, 8) =~= spec_u32_to_le_bytes(x.sway));
    assert(motion_bytes(x).subrange(8, 12) =~= spec_u32_to_le_bytes(x.heave));
    assert(motion_bytes(x).subrange(12, 16) =~= spec_u32_to_le_bytes(x.roll));
    assert(motion_bytes(x).subrange(16, 20) =~= spec_u32_to_le_bytes(x.pitch));
    assert(motion_bytes(x).subrange(20, 24) =~= spec_u32_to_le_bytes(x.yaw));
    assert(b.subrange(off + 0, off + 0 + 4) == motion_bytes(x).subrange(0, 4));
    assert(b.subrange(off + 4, off + 4 + 4) == motion_bytes(x).subrange(4, 8));
    assert(b.subrange(off + 8, off + 8 + 4) == motion_bytes(x).subrange(8, 12));
    assert(b.subrange(off + 12, off + 12 + 4) == motion_bytes(x).subrange(12, 16));
    assert(b.subrange(off + 16, off + 16 + 4) == motion_bytes(x).subrange(16, 20));
    assert(b.subrange(off + 20, off + 20 + 4) == motion_bytes(x).subrange(20, 24));
}

fn decode_motion(b: &[u8], off: usize) -> (m: Motion)
    requires
        off + 24 <= b@.len() <= usize::MAX,
    ensures
        m == motion_at(b@, off as int),
{
    Motion {
        surge: read_u32(b, off),
        sway: read_u32(b, off + 4),
        heave: read_u32(b, off + 8),
        roll: read_u32(b, off + 12),
        pitch: read_u32(b, off + 16),
        yaw: read_u32(b, off + 20),
    }
}

fn encode_motion(m: &Motion, out: &mut Vec<u8>)
    ensures
        final(out)@ == old(out)@ + motion_bytes(*m),
{
    write_u32(out, m.surge);
    write_u32(out, m.sway);
    write_u32(out, m.heave);
    write_u32(out, m.roll);
    write_u32(out, m.pitch);
    write_u32(out, m.yaw);
    proof {
        assert(out@ =~= old(out)@ + motion_bytes(*m));
    }
}

/// The engine block: RPM and three temperatures.
#[derive(Clone, Copy, Debug, PartialEq, Eq, Structural)]
pub struct Engine {
    pub rpm: u32,
    pub radiator_coolant_temperature: u32,
    pub engine_coolant_temperature: u32,
    pub engine_temperature: u32,
}

pub open spec fn engine_at(b: Seq<u8>, off: int) -> Engine {
    Engine {
        rpm: le32(b, off),
        radiator_coolant_temperature: le32(b, off + 4),
        engine_coolant_temperature: le32(b, off + 8),
        engine_temperature: le32(b, off + 12),
    }
}

pub open spec fn engine_bytes(x: Engine) -> Seq<u8> {
    spec_u32_to_le_bytes(x.rpm) + spec_u32_to_le_bytes(x.radiator_coolant_temperature) + spec_u32_to_le_bytes(x.engine_coolant_temperature) + spec_u32_to_le_bytes(x.engine_temperature)
}

proof fn lemma_engine_len(x: Engine)
    ensures
        engine_bytes(x).len() == 16,
{
    lemma_auto_spec_u32_to_from_le_bytes();
}

proof fn lemma_engine_reencode(b: Seq<u8>, off: int)
    requires
        0 <= off,
        off + 16 <= b.len(),
    ensures
        engine_bytes(engine_at(b, off)) == b.subrange(off, off + 16),
{
    lemma_auto_spec_u32_to_from_le_bytes();
    assert(engine_bytes(engine_at(b, off)) =~= b.subrange(off, off + 16));
}

proof fn lemma_engine_decode(x: Engine, b: Seq<u8>, off: int)
    requires
        0 <= off,
        off + 16 <= b.len(),
        b.subrange(off, off + 16) == engine_bytes(x),
    ensures
        engine_at(b, off) == x,
{
    lemma_auto_spec_u32_to_from_le_bytes();
    let whole = b.subrange(off, off + 16);
    assert(b.subrange(off, off + 4) =~= whole.subrange(0, 4));
    assert(engine_bytes(x).subrange(0, 4) =~= spec_u32_to_le_bytes(x.rpm));
    assert(b.subrange(off + 4, off + 4 + 4) =~= whole.subrange(4, 8));
    assert(engine_bytes(x).subrange(4, 8) =~= spec_u32_to_le_bytes(x.radiator_coolant_temperature));
    assert(b.subrange(off + 8, off + 8 + 4) =~= whole.subrange(8, 12));
    assert(engine_bytes(x).subrange(8, 12) =~= spec_u32_to_le_bytes(x.engine_coolant_temperature));
    assert(b.subrange(off + 12, off + 12 + 4) =~= whole.subrange(12, 16));
    assert(engine_bytes(x).subrange(12, 16) =~= spec_u32_to_le_bytes(x.engine_temperature));
    assert(engine_at(b, off) == x);
}

fn decode_engine(b: &[u8], off: usize) -> (x: Engine)
    requires
        off + 16 <= b@.len() <= usize::MAX,
    ensures
        x == engine_at(b@, off as int),
{
    Engine {
        rpm: read_u32(b, off),
        radiator_coolant_temperature: read_u32(b, off + 4),
        engine_coolant_temperature: read_u32(b, off + 8),
        engine_temperature: read_u32(b, off + 12),
    }
}

fn encode_engine(x: &Engine, out: &mut Vec<u8>)
    ensures
        final(out)@ == old(out)@ + engine_bytes(*x),
{
    write_u32(out, x.rpm);
    write_u32(out, x.radiator_coolant_temperature);
    write_u32(out, x.engine_coolant_temperature);
    write_u32(out, x.engine_temperature);
    proof {
        assert(out@ =~= old(out)@ + engine_bytes(*x));
    }
}

/// The stage block: index, progress, race time and distances.
#[derive(Clone, Copy, Debug, PartialEq, Eq, Structural)]
pub struct Stage {
    pub index: i32,
    pub progress: u32,
    pub race_time: u32,
    pub drive_line_location: u32,
    pub distance_to_end: u32,
}

pub open spec fn stage_at(b: Seq<u8>, off: int) -> Stage {
    Stage {
        index: i32_of_bits(le32(b, off)),
        progress: le32(b, off + 4),
        race_time: le32(b, off + 8),
        drive_line_location: le32(b, off + 12),
        distance_to_end: le32(b, off + 16),
    }
}

pub open spec fn stage_bytes(x: Stage) -> Seq<u8> {
    spec_u32_to_le_bytes(bits_of_i32(x.index)) + spec_u32_to_le_bytes(x.progress) + spec_u32_to_le_bytes(x.race_time) + spec_u32_to_le_bytes(x.drive_line_location) + spec_u32_to_le_bytes(x.distance_to_end)
}

proof fn lemma_stage_len(x: Stage)
    ensures
        stage_bytes(x).len() == 20,
{
    lemma_auto_spec_u32_to_from_le_bytes();
}

proof fn lemma_stage_reencode(b: Seq<u8>, off: int)
    requires
        0 <= off,
        off + 20 <= b.len(),
    ensures
        stage_bytes(stage_at(b, off)) == b.subrange(off, off + 20),
{
    lemma_auto_spec_u32_to_from_le_bytes();
    assert(stage_bytes(stage_at(b, off)) =~= b.subrange(off, off + 20));
}

proof fn lemma_stage_decode(x: Stage, b: Seq<u8>, off: int)
    requires
        0 <= off,
        off + 20 <= b.len(),
        b.subrange(off, off + 20) == stage_bytes(x),
    ensures
        stage_at(b, off) == x,
{
    lemma_auto_spec_u32_to_from_le_bytes();
    let whole = b.subrange(off, off + 20);
    assert(b.subrange(off, off + 4) =~= whole.subrange(0, 4));
    assert(stage_bytes(x).subrange(0, 4) =~= spec_u32_to_le_bytes(bits_of_i32(x.index)));
    lemma_i32_bits_roundtrip(le32(b, off), x.index);
    assert(b.subrange(off + 4, off + 4 + 4) =~= whole.subrange(4, 8));
    assert(stage_bytes(x).subrange(4, 8) =~= spec_u32_to_le_bytes(x.progress));
    assert(b.subrange(off + 8, off + 8 + 4) =~= whole.subrange(8, 12));
    assert(stage_bytes(x).subrange(8, 12) =~= spec_u32_to_le_bytes(x.race_time));
    assert(b.subrange(off + 12, off + 12 + 4) =~= whole.subrange(12, 16));
    assert(stage_bytes(x).subrange(12, 16) =~= spec_u32_to_le_bytes(x.drive_line_location));
    assert(b.subrange(off + 16, off + 16 + 4) =~= whole.subrange(16, 20));
    assert(stage_bytes(x).subrange(16, 20) =~= spec_u32_to_le_bytes(x.distance_to_end));
    assert(stage_at(b, off) == x);
}

fn decode_stage(b: &[u8], off: usize) -> (x: Stage)
    requires
        off + 20 <= b@.len() <= usize::MAX,
    ensures
        x == stage_at(b@, off as int),
{
    Stage {
        index: read_i32(b, off),
        progress: read_u32(b, off + 4),
        race_time: read_u32(b, off + 8),
        drive_line_location: read_u32(b, off + 12),
        distance_to_end: read_u32(b, off + 16),
    }
}

fn encode_stage(x: &Stage, out: &mut Vec<u8>)
    ensures
        final(out)@ == old(out)@ + stage_bytes(*x),
{
    write_i32(out, x.index);
    write_u32(out, x.progress);
    write_u32(out, x.race_time);
    write_u32(out, x.drive_line_location);
    write_u32(out, x.distance_to_end);
    proof {
        assert(out@ =~= old(out)@ + stage_bytes(*x));
    }
}

/// The control-input block: pedals, steering, gear and pressures.
#[derive(Clone, Copy, Debug, PartialEq, Eq, Structural)]
pub struct Control {
    pub steering: u32,
    pub throttle: u32,
    pub brake: u32,
    pub handbrake: u32,
    pub clutch: u32,
    pub gear: i32,
    pub footbrake_pressure: u32,
    pub handbrake_pressure: u32,
}

pub open spec fn control_at(b: Seq<u8>, off: int) -> Control {
    Control {
        steering: le32(b, off),
        throttle: le32(b, off + 4),
        brake: le32(b, off + 8),
        handbrake: le32(b, off + 12),
        clutch: le32(b, off + 16),
        gear: i32_of_bits(le32(b, off + 20)),
        footbrake_pressure: le32(b, off + 24),
        handbrake_pressure: le32(b, off + 28),
    }
}

pub open spec fn control_bytes(x: Control) -> Seq<u8> {
    spec_u32_to_le_bytes(x.steering) + spec_u32_to_le_bytes(x.throttle) + spec_u32_to_le_bytes(x.brake) + spec_u32_to_le_bytes(x.handbrake) + spec_u32_to_le_bytes(x.clutch) + spec_u32_to_le_bytes(bits_of_i32(x.gear)) + spec_u32_to_le_bytes(x.footbrake_pressure) + spec_u32_to_le_bytes(x.handbrake_pressure)
}

proof fn lemma_control_len(x: Control)
    ensures
        control_bytes(x).len() == 32,
{
    lemma_auto_spec_u32_to_from_le_bytes();
}

proof fn lemma_control_reencode(b: Seq<u8>, off: int)
    requires
        0 <= off,
        off + 32 <= b.len(),
    ensures
        control_bytes(control_at(b, off)) == b.subrange(off, off + 32),
{
    lemma_auto_spec_u32_to_from_le_bytes();
    assert(control_bytes(control_at(b, off)) =~= b.subrange(off, off + 32));
}

proof fn lemma_control_decode(x: Control, b: Seq<u8>, off: int)
    requires
        0 <= off,
        off + 32 <= b.len(),
        b.subrange(off, off + 32) == control_bytes(x),
    ensures
        control_at(b, off) == x,
{
    lemma_auto_spec_u32_to_from_le_bytes();
    let whole = b.subrange(off, off + 32);
    assert(b.subrange(off, off + 4) =~= whole.subrange(0, 4));
    assert(control_bytes(x).subrange(0, 4) =~= spec_u32_to_le_bytes(x.steering));
    assert(b.subrange(off + 4, off + 4 + 4) =~= whole.subrange(4, 8));
    assert(control_bytes(x).subrange(4, 8) =~= spec_u32_to_le_bytes(x.throttle));
    assert(b.subrange(off + 8, off + 8 + 4) =~= whole.subrange(8, 12));
    assert(control_bytes(x).subrange(8, 12) =~= spec_u32_to_le_bytes(x.brake));
    assert(b.subrange(off + 12, off + 12 + 4) =~= whole.subrange(12, 16));
    assert(control_bytes(x).subrange(12, 16) =~= spec_u32_to_le_bytes(x.handbrake));
    assert(b.subrange(off + 16, off + 16 + 4) =~= whole.subrange(16, 20));
    assert(control_bytes(x).subrange(16, 20) =~= spec_u32_to_le_bytes(x.clutch));
    assert(b.subrange(off + 20, off + 20 + 4) =~= whole.subrange(20, 24));
    assert(control_bytes(x).subrange(20, 24) =~= spec_u32_to_le_bytes(bits_of_i32(x.gear)));
    lemma_i32_bits_roundtrip(le32(b, off + 20), x.gear);
    assert(b.subrange(off + 24, off + 24 + 4) =~= whole.subrange(24, 28));
    assert(control_bytes(x).subrange(24, 28) =~= spec_u32_to_le_bytes(x.footbrake_pressure));
    assert(b.subrange(off + 28, off + 28 + 4) =~= whole.subrange(28, 32));
    assert(control_bytes(x).subrange(28, 32) =~= spec_u32_to_le_bytes(x.handbrake_pressure));
    assert(control_at(b, off) == x);
}

fn decode_control(b: &[u8], off: usize) -> (x: Control)
    requires
        off + 32 <= b@.len() <= usize::MAX,
    ensures
        x == control_at(b@, off as int),
{
    Control {
        steering: read_u32(b, off),
        throttle: read_u32(b, off + 4),
        brake: read_u32(b, off + 8),
        handbrake: read_u32(b, off + 12),
        clutch: read_u32(b, off + 16),
        gear: read_i32(b, off + 20),
        footbrake_pressure: read_u32(b, off + 24),
        handbrake_pressure: read_u32(b, off + 28),
    }
}

fn encode_control(x: &Control, out: &mut Vec<u8>)
    ensures
        final(out)@ == old(out)@ + control_bytes(*x),
{
    write_u32(out, x.steering);
    write_u32(out, x.throttle);
    write_u32(out, x.brake);
    write_u32(out, x.handbrake);
    write_u32(out, x.clutch);
    write_i32(out, x.gear);
    write_u32(out, x.footbrake_pressure);
    write_u32(out, x.handbrake_pressure);
    proof {
        assert(out@ =~= old(out)@ + control_bytes(*x));
    }
}

/// One tread segment of a tire: temperature and wear.
#[derive(Clone, Copy, Debug, PartialEq, Eq, Structural)]
pub struct TireSegment {
    pub temperature: u32,
    pub wear: u32,
}

pub open spec fn tire_segment_at(b: Seq<u8>, off: int) -> TireSegment {
    TireSegment {
        temperature: le32(b, off),
        wear: le32(b, off + 4),
    }
}

pub open spec fn tire_segment_bytes(x: TireSegment) -> Seq<u8> {
    spec_u32_to_le_bytes(x.temperature) + spec_u32_to_le_bytes(x.wear)
}

proof fn lemma_tire_segment_len(x: TireSegment)
    ensures
        tire_segment_bytes(x).len() == 8,
{
    lemma_auto_spec_u32_to_from_le_bytes();
}

proof fn lemma_tire_segment_reencode(b: Seq<u8>, off: int)
    requires
        0 <= off,
        off + 8 <= b.len(),
    ensures
        tire_segment_bytes(tire_segment_at(b, off)) == b.subrange(off, off + 8),
{
    lemma_auto_spec_u32_to_from_le_bytes();
    assert(tire_segment_bytes(tire_segment_at(b, off)) =~= b.subrange(off, off + 8));
}

proof fn lemma_tire_segment_decode(x: TireSegment, b: Seq<u8>, off: int)
    requires
        0 <= off,
        off + 8 <= b.len(),
        b.subrange(off, off + 8) == tire_segment_bytes(x),
    ensures
        tire_segment_at(b, off) == x,
{
    lemma_auto_spec_u32_to_from_le_bytes();
    let whole = b.subrange(off, off + 8);
    assert(b.subrange(off, off + 4) =~= whole.subrange(0, 4));
    assert(tire_segment_bytes(x).subrange(0, 4) =~= spec_u32_to_le_bytes(x.temperature));
    assert(b.subrange(off + 4, off + 4 + 4) =~= whole.subrange(4, 8));
    assert(tire_segment_bytes(x).subrange(4, 8) =~= spec_u32_to_le_bytes(x.wear));
    assert(tire_segment_at(b, off) == x);
}

fn decode_tire_segment(b: &[u8], off: usize) -> (x: TireSegment)
    requires
        off + 8 <= b@.len() <= usize::MAX,
    ensures
        x == tire_segment_at(b@, off as int),
{
    TireSegment {
        temperature: read_u32(b, off),
        wear: read_u32(b, off + 4),
    }
}

fn encode_tire_segment(x: &TireSegment, out: &mut Vec<u8>)
    ensures
        final(out)@ == old(out)@ + tire_segment_bytes(*x),
{
    write_u32(out, x.temperature);
    write_u32(out, x.wear);
    proof {
        assert(out@ =~= old(out)@ + tire_segment_bytes(*x));
    }
}

/// One brake disk: layer temperature, temperature and wear.
#[derive(Clone, Copy, Debug, PartialEq, Eq, Structural)]
pub struct BrakeDisk {
    pub layer_temperature: u32,
    pub temperature: u32,
    pub wear: u32,
}

pub open spec fn brake_disk_at(b: Seq<u8>, off: int) -> BrakeDisk {
    BrakeDisk {
        layer_temperature: le32(b, off),
        temperature: le32(b, off + 4),
        wear: le32(b, off + 8),
    }
}

pub open spec fn brake_disk_bytes(x: BrakeDisk) -> Seq<u8> {
    spec_u32_to_le_bytes(x.layer_temperature) + spec_u32_to_le_bytes(x.temperature) + spec_u32_to_le_bytes(x.wear)
}

proof fn lemma_brake_disk_len(x: BrakeDisk)
    ensures
        brake_disk_bytes(x).len() == 12,
{
    lemma_auto_spec_u32_to_from_le_bytes();
}

proof fn lemma_brake_disk_reencode(b: Seq<u8>, off: int)
    requires
        0 <= off,
        off + 12 <= b.len(),
    ensures
        brake_disk_bytes(brake_disk_at(b, off)) == b.subrange(off, off + 12),
{
    lemma_auto_spec_u32_to_from_le_bytes();
    assert(brake_disk_bytes(brake_disk_at(b, off)) =~= b.subrange(off, off + 12));
}

proof fn lemma_brake_disk_decode(x: BrakeDisk, b: Seq<u8>, off: int)
    requires
        0 <= off,
        off + 12 <= b.len(),
        b.subrange(off, off + 12) == brake_disk_bytes(x),
    ensures
        brake_disk_at(b, off) == x,
{
    lemma_auto_spec_u32_to_from_le_bytes();
    let whole = b.subrange(off, off + 12);
    assert(b.subrange(off, off + 4) =~= whole.subrange(0, 4));
    assert(brake_disk_bytes(x).subrange(0, 4) =~= spec_u32_to_le_bytes(x.layer_temperature));
    assert(b.subrange(off + 4, off + 4 + 4) =~= whole.subrange(4, 8));
    assert(brake_disk_bytes(x).subrange(4, 8) =~= spec_u32_to_le_bytes(x.temperature));
    assert(b.subrange(off + 8, off + 8 + 4) =~= whole.subrange(8, 12));
    assert(brake_disk_bytes(x).subrange(8, 12) =~= spec_u32_to_le_bytes(x.wear));
    assert(brake_disk_at(b, off) == x);
}

fn decode_brake_disk(b: &[u8], off: usize) -> (x: BrakeDisk)
    requires
        off + 12 <= b@.len() <= usize::MAX,
    ensures
        x == brake_disk_at(b@, off as int),
{
    BrakeDisk {
        layer_temperature: read_u32(b, off),
        temperature: read_u32(b, off + 4),
        wear: read_u32(b, off + 8),
    }
}

fn encode_brake_disk(x: &BrakeDisk, out: &mut Vec<u8>)
    ensures
        final(out)@ == old(out)@ + brake_disk_bytes(*x),
{
    write_u32(out, x.layer_temperature);
    write_u32(out, x.temperature);
    write_u32(out, x.wear);
    proof {
        assert(out@ =~= old(out)@ + brake_disk_bytes(*x));
    }
}

/// One damper: damage and piston velocity.
#[derive(Clone, Copy, Debug, PartialEq, Eq, Structural)]
pub struct Damper {
    pub damage: u32,
    pub piston_velocity: u32,
}

pub open spec fn damper_at(b: Seq<u8>, off: int) -> Damper {
    Damper {
        damage: le32(b, off),
        piston_velocity: le32(b, off + 4),
    }
}

pub open spec fn damper_bytes(x: Damper) -> Seq<u8> {
    spec_u32_to_le_bytes(x.damage) + spec_u32_to_le_bytes(x.piston_velocity)
}

proof fn lemma_damper_len(x: Damper)
    ensures
        damper_bytes(x).len() == 8,
{
    lemma_auto_spec_u32_to_from_le_bytes();
}

proof fn lemma_damper_reencode(b: Seq<u8>, off: int)
    requires
        0 <= off,
        off + 8 <= b.len(),
    ensures
        damper_bytes(damper_at(b, off)) == b.subrange(off, off + 8),
{
    lemma_auto_spec_u32_to_from_le_bytes();
    assert(damper_bytes(damper_at(b, off)) =~= b.subrange(off, off + 8));
}

proof fn lemma_damper_decode(x: Damper, b: Seq<u8>, off: int)
    requires
        0 <= off,
        off + 8 <= b.len(),
        b.subrange(off, off + 8) == damper_bytes(x),
    ensures
        damper_at(b, off) == x,
{
    lemma_auto_spec_u32_to_from_le_bytes();
    let whole = b.subrange(off, off + 8);
    assert(b.subrange(off, off + 4) =~= whole.subrange(0, 4));
    assert(damper_bytes(x).subrange(0, 4) =~= spec_u32_to_le_bytes(x.damage));
    assert(b.subrange(off + 4, off + 4 + 4) =~= whole.subrange(4, 8));
    assert(damper_bytes(x).subrange(4, 8) =~= spec_u32_to_le_bytes(x.piston_velocity));
    assert(damper_at(b, off) == x);
}

fn decode_damper(b: &[u8], off: usize) -> (x: Damper)
    requires
        off + 8 <= b@.len() <= usize::MAX,
    ensures
        x == damper_at(b@, off as int),
{
    Damper {
        damage: read_u32(b, off),
        piston_velocity: read_u32(b, off + 4),
    }
}

fn encode_damper(x: &Damper, out: &mut Vec<u8>)
    ensures
        final(out)@ == old(out)@ + damper_bytes(*x),
{
    write_u32(out, x.damage);
    write_u32(out, x.piston_velocity);
    proof {
        assert(out@ =~= old(out)@ + damper_bytes(*x));
    }
}

/// One tire: pressures and temperatures, the currently measured segment, and eight tread segments.
#[derive(Clone, Copy, Debug, PartialEq, Eq, Structural)]
pub struct Tire {
    pub pressure: u32,
    pub temperature: u32,
    pub carcass_temperature: u32,
    pub tread_temperature: u32,
    pub current_segment: u32,
    pub segment1: TireSegment,
    pub segment2: TireSegment,
    pub segment3: TireSegment,
    pub segment4: TireSegment,
    pub segment5: TireSegment,
    pub segment6: TireSegment,
    pub segment7: TireSegment,
    pub segment8: TireSegment,
}

pub open spec fn tire_at(b: Seq<u8>, off: int) -> Tire {
    Tire {
        pressure: le32(b, off),
        temperature: le32(b, off + 4),
        carcass_temperature: le32(b, off + 8),
        tread_temperature: le32(b, off + 12),
        current_segment: le32(b, off + 16),
        segment1: tire_segment_at(b, off + 20),
        segment2: tire_segment_at(b, off + 28),
        segment3: tire_segment_at(b, off + 36),
        segment4: tire_segment_at(b, off + 44),
        segment5: tire_segment_at(b, off + 52),
        segment6: tire_segment_at(b, off + 60),
        segment7: tire_segment_at(b, off + 68),
        segment8: tire_segment_at(b, off + 76),
    }
}

pub open spec fn tire_bytes(x: Tire) -> Seq<u8> {
    spec_u32_to_le_bytes(x.pressure) + spec_u32_to_le_bytes(x.temperature) + spec_u32_to_le_bytes(x.carcass_temperature) + spec_u32_to_le_bytes(x.tread_temperature) + spec_u32_to_le_bytes(x.current_segment) + tire_segment_bytes(x.segment1) + tire_segment_bytes(x.segment2) + tire_segment_bytes(x.segment3) + tire_segment_bytes(x.segment4) + tire_segment_bytes(x.segment5) + tire_segment_bytes(x.segment6) + tire_segment_bytes(x.segment7) + tire_segment_bytes(x.segment8)
}

proof fn lemma_tire_len(x: Tire)
    ensures
        tire_bytes(x).len() == 84,
{
    lemma_auto_spec_u32_to_from_le_bytes();
    lemma_tire_segment_len(x.segment1);
    lemma_tire_segment_len(x.segment2);
    lemma_tire_segment_len(x.segment3);
    lemma_tire_segment_len(x.segment4);
    lemma_tire_segment_len(x.segment5);
    lemma_tire_segment_len(x.segment6);
    lemma_tire_segment_len(x.segment7);
    lemma_tire_segment_len(x.segment8);
}

proof fn lemma_tire_reencode(b: Seq<u8>, off: int)
    requires
        0 <= off,
        off + 84 <= b.len(),
    ensures
        tire_bytes(tire_at(b, off)) == b.subrange(off, off + 84),
{
    lemma_auto_spec_u32_to_from_le_bytes();
    lemma_tire_segment_reencode(b, off + 20);
    lemma_tire_segment_len(tire_segment_at(b, off + 20));
    lemma_tire_segment_reencode(b, off + 28);
    lemma_tire_segment_len(tire_segment_at(b, off + 28));
    lemma_tire_segment_reencode(b, off + 36);
    lemma_tire_segment_len(tire_segment_at(b, off + 36));
    lemma_tire_segment_reencode(b, off + 44);
    lemma_tire_segment_len(tire_segment_at(b, off + 44));
    lemma_tire_segment_reencode(b, off + 52);
    lemma_tire_segment_len(tire_segment_at(b, off + 52));
    lemma_tire_segment_reencode(b, off + 60);
    lemma_tire_segment_len(tire_segment_at(b, off + 60));
    lemma_tire_segment_reencode(b, off + 68);
    lemma_tire_segment_len(tire_segment_at(b, off + 68));
    lemma_tire_segment_reencode(b, off + 76);
    lemma_tire_segment_len(tire_segment_at(b, off + 76));
    assert(tire_bytes(tire_at(b, off)) =~= b.subrange(off, off + 84));
}

proof fn lemma_tire_decode(x: Tire, b: Seq<u8>, off: int)
    requires
        0 <= off,
        off + 84 <= b.len(),
        b.subrange(off, off + 84) == tire_bytes(x),
    ensures
        tire_at(b, off) == x,
{
    lemma_auto_spec_u32_to_from_le_bytes();
    lemma_tire_segment_len(x.segment1);
    lemma_tire_segment_len(x.segment2);
    lemma_tire_segment_len(x.segment3);
    lemma_tire_segment_len(x.segment4);
    lemma_tire_segment_len(x.segment5);
    lemma_tire_segment_len(x.segment6);
    lemma_tire_segment_len(x.segment7);
    lemma_tire_segment_len(x.segment8);
    let whole = b.subrange(off, off + 84);
    assert(b.subrange(off, off + 4) =~= whole.subrange(0, 4));
    assert(tire_bytes(x).subrange(0, 4) =~= spec_u32_to_le_bytes(x.pressure));
    assert(b.subrange(off + 4, off + 4 + 4) =~= whole.subrange(4, 8));
    assert(tire_bytes(x).subrange(4, 8) =~= spec_u32_to_le_bytes(x.temperature));
    assert(b.subrange(off + 8, off + 8 + 4) =~= whole.subrange(8, 12));
    assert(tire_bytes(x).subrange(8, 12) =~= spec_u32_to_le_bytes(x.carcass_temperature));
    assert(b.subrange(off + 12, off + 12 + 4) =~= whole.subrange(12, 16));
    assert(tire_bytes(x).subrange(12, 16) =~= spec_u32_to_le_bytes(x.tread_temperature));
    assert(b.subrange(off + 16, off + 16 + 4) =~= whole.subrange(16, 20));
    assert(tire_bytes(x).subrange(16, 20) =~= spec_u32_to_le_bytes(x.current_segment));
    assert(b.subrange(off + 20, off + 20 + 8) =~= whole.subrange(20, 28));
    assert(tire_bytes(x).subrange(20, 28) =~= tire_segment_bytes(x.segment1));
    lemma_tire_segment_decode(x.segment1, b, off + 20);
    assert(b.subrange(off + 28, off + 28 + 8) =~= whole.subrange(28, 36));
    assert(tire_bytes(x).subrange(28, 36) =~= tire_segment_bytes(x.segment2));
    lemma_tire_segment_decode(x.segment2, b, off + 28);
    assert(b.subrange(off + 36, off + 36 + 8) =~= whole.subrange(36, 44));
    assert(tire_bytes(x).subrange(36, 44) =~= tire_segment_bytes(x.segment3));
    lemma_tire_segment_decode(x.segment3, b, off + 36);
    assert(b.subrange(off + 44, off + 44 + 8) =~= whole.subrange(44, 52));
    assert(tire_bytes(x).subrange(44, 52) =~= tire_segment_bytes(x.segment4));
    lemma_tire_segment_decode(x.segment4, b, off + 44);
    assert(b.subrange(off + 52, off + 52 + 8) =~= whole.subrange(52, 60));
    assert(tire_bytes(x).subrange(52, 60) =~= tire_segment_bytes(x.segment5));
    lemma_tire_segment_decode(x.segment5, b, off + 52);
    assert(b.subrange(off + 60, off + 60 + 8) =~= whole.subrange(60, 68));
    assert(tire_bytes(x).subrange(60, 68) =~= tire_segment_bytes(x.segment6));
    lemma_tire_segment_decode(x.segment6, b, off + 60);
    assert(b.subrange(off + 68, off + 68 + 8) =~= whole.subrange(68, 76));
    assert(tire_bytes(x).subrange(68, 76) =~= tire_segment_bytes(x.segment7));
    lemma_tire_segment_decode(x.segment7, b, off + 68);
    assert(b.subrange(off + 76, off + 76 + 8) =~= whole.subrange(76, 84));
    assert(tire_bytes(x).subrange(76, 84) =~= tire_segment_bytes(x.segment8));
    lemma_tire_segment_decode(x.segment8, b, off + 76);
    assert(tire_at(b, off) == x);
}

fn decode_tire(b: &[u8], off: usize) -> (x: Tire)
    requires
        off + 84 <= b@.len() <= usize::MAX,
    ensures
        x == tire_at(b@, off as int),
{
    Tire {
        pressure: read_u32(b, off),
        temperature: read_u32(b, off + 4),
        carcass_temperature: read_u32(b, off + 8),
        tread_temperature: read_u32(b, off + 12),
        current_segment: read_u32(b, off + 16),
        segment1: decode_tire_segment(b, off + 20),
        segment2: decode_tire_segment(b, off + 28),
        segment3: decode_tire_segment(b, off + 36),
        segment4: decode_tire_segment(b, off + 44),
        segment5: decode_tire_segment(b, off + 52),
        segment6: decode_tire_segment(b, off + 60),
        segment7: decode_tire_segment(b, off + 68),
        segment8: decode_tire_segment(b, off + 76),
    }
}

fn encode_tire(x: &Tire, out: &mut Vec<u8>)
    ensures
        final(out)@ == old(out)@ + tire_bytes(*x),
{
    write_u32(out, x.pressure);
    write_u32(out, x.temperature);
    write_u32(out, x.carcass_temperature);
    write_u32(out, x.tread_temperature);
    write_u32(out, x.current_segment);
    encode_tire_segment(&x.segment1, out);
    encode_tire_segment(&x.segment2, out);
    encode_tire_segment(&x.segment3, out);
    encode_tire_segment(&x.segment4, out);
    encode_tire_segment(&x.segment5, out);
    encode_tire_segment(&x.segment6, out);
    encode_tire_segment(&x.segment7, out);
    encode_tire_segment(&x.segment8, out);
    proof {
        assert(out@ =~= old(out)@ + tire_bytes(*x));
    }
}

/// One wheel: its brake disk and its tire.
#[derive(Clone, Copy, Debug, PartialEq, Eq, Structural)]
pub struct Wheel {
    pub brake_disk: BrakeDisk,
    pub tire: Tire,
}

pub open spec fn wheel_at(b: Seq<u8>, off: int) -> Wheel {
    Wheel {
        brake_disk: brake_disk_at(b, off),
        tire: tire_at(b, off + 12),
    }
}

pub open spec fn wheel_bytes(x: Wheel) -> Seq<u8> {
    brake_disk_bytes(x.brake_disk) + tire_bytes(x.tire)
}

proof fn lemma_wheel_len(x: Wheel)
    ensures
        wheel_bytes(x).len() == 96,
{
    lemma_auto_spec_u32_to_from_le_bytes();
    lemma_brake_disk_len(x.brake_disk);
    lemma_tire_len(x.tire);
}

proof fn lemma_wheel_reencode(b: Seq<u8>, off: int)
    requires
        0 <= off,
        off + 96 <= b.len(),
    ensures
        wheel_bytes(wheel_at(b, off)) == b.subrange(off, off + 96),
{
    lemma_auto_spec_u32_to_from_le_bytes();
    lemma_brake_disk_reencode(b, off);
    lemma_brake_disk_len(brake_disk_at(b, off));
    lemma_tire_reencode(b, off + 12);
    lemma_tire_len(tire_at(b, off + 12));
    assert(wheel_bytes(wheel_at(b, off)) =~= b.subrange(off, off + 96));
}

proof fn lemma_wheel_decode(x: Wheel, b: Seq<u8>, off: int)
    requires
        0 <= off,
        off + 96 <= b.len(),
        b.subrange(off, off + 96) == wheel_bytes(x),
    ensures
        wheel_at(b, off) == x,
{
    lemma_auto_spec_u32_to_from_le_bytes();
    lemma_brake_disk_len(x.brake_disk);
    lemma_tire_len(x.tire);
    let whole = b.subrange(off, off + 96);
    assert(b.subrange(off, off + 12) =~= whole.subrange(0, 12));
    assert(wheel_bytes(x).subrange(0, 12) =~= brake_disk_bytes(x.brake_disk));
    lemma_brake_disk_decode(x.brake_disk, b, off);
    assert(b.subrange(off + 12, off + 12 + 84) =~= whole.subrange(12, 96));
    assert(wheel_bytes(x).subrange(12, 96) =~= tire_bytes(x.tire));
    lemma_tire_decode(x.tire, b, off + 12);
    assert(wheel_at(b, off) == x);
}

fn decode_wheel(b: &[u8], off: usize) -> (x: Wheel)
    requires
        off + 96 <= b@.len() <= usize::MAX,
    ensures
        x == wheel_at(b@, off as int),
{
    Wheel {
        brake_disk: decode_brake_disk(b, off),
        tire: decode_tire(b, off + 12),
    }
}

fn encode_wheel(x: &Wheel, out: &mut Vec<u8>)
    ensures
        final(out)@ == old(out)@ + wheel_bytes(*x),
{
    encode_brake_disk(&x.brake_disk, out);
    encode_tire(&x.tire, out);
    proof {
        assert(out@ =~= old(out)@ + wheel_bytes(*x));
    }
}

/// One suspension corner: spring and force readings, the helper-spring flag, the damper and the wheel.
#[derive(Clone, Copy, Debug, PartialEq, Eq, Structural)]
pub struct Suspension {
    pub spring_deflection: u32,
    pub rollbar_force: u32,
    pub spring_force: u32,
    pub damper_force: u32,
    pub strut_force: u32,
    pub helper_spring_is_active: i32,
    pub damper: Damper,
    pub wheel: Wheel,
}

pub open spec fn suspension_at(b: Seq<u8>, off: int) -> Suspension {
    Suspension {
        spring_deflection: le32(b, off),
        rollbar_force: le32(b, off + 4),
        spring_force: le32(b, off + 8),
        damper_force: le32(b, off + 12),
        strut_force: le32(b, off + 16),
        helper_spring_is_active: i32_of_bits(le32(b, off + 20)),
        damper: damper_at(b, off + 24),
        wheel: wheel_at(b, off + 32),
    }
}

pub open spec fn suspension_bytes(x: Suspension) -> Seq<u8> {
    spec_u32_to_le_bytes(x.spring_deflection) + spec_u32_to_le_bytes(x.rollbar_force) + spec_u32_to_le_bytes(x.spring_force) + spec_u32_to_le_bytes(x.damper_force) + spec_u32_to_le_bytes(x.strut_force) + spec_u32_to_le_bytes(bits_of_i32(x.helper_spring_is_active)) + damper_bytes(x.damper) + wheel_bytes(x.wheel)
}

proof fn lemma_suspension_len(x: Suspension)
    ensures
        suspension_bytes(x).len() == 128,
{
    lemma_auto_spec_u32_to_from_le_bytes();
    lemma_damper_len(x.damper);
    lemma_wheel_len(x.wheel);
}

proof fn lemma_suspension_reencode(b: Seq<u8>, off: int)
    requires
        0 <= off,
        off + 128 <= b.len(),
    ensures
        suspension_bytes(suspension_at(b, off)) == b.subrange(off, off + 128),
{
    lemma_auto_spec_u32_to_from_le_bytes();
    lemma_damper_reencode(b, off + 24);
    lemma_damper_len(damper_at(b, off + 24));
    lemma_wheel_reencode(b, off + 32);
    lemma_wheel_len(wheel_at(b, off + 32));
    assert(suspension_bytes(suspension_at(b, off)) =~= b.subrange(off, off + 128));
}

proof fn lemma_suspension_decode(x: Suspension, b: Seq<u8>, off: int)
    requires
        0 <= off,
        off + 128 <= b.len(),
        b.subrange(off, off + 128) == suspension_bytes(x),
    ensures
        suspension_at(b, off) == x,
{
    lemma_auto_spec_u32_to_from_le_bytes();
    lemma_damper_len(x.damper);
    lemma_wheel_len(x.wheel);
    let whole = b.subrange(off, off + 128);
    assert(b.subrange(off, off + 4) =~= whole.subrange(0, 4));
    assert(suspension_bytes(x).subrange(0, 4) =~= spec_u32_to_le_bytes(x.spring_deflection));
    assert(b.subrange(off + 4, off + 4 + 4) =~= whole.subrange(4, 8));
    assert(suspension_bytes(x).subrange(4, 8) =~= spec_u32_to_le_bytes(x.rollbar_force));
    assert(b.subrange(off + 8, off + 8 + 4) =~= whole.subrange(8, 12));
    assert(suspension_bytes(x).subrange(8, 12) =~= spec_u32_to_le_bytes(x.spring_force));
    assert(b.subrange(off + 12, off + 12 + 4) =~= whole.subrange(12, 16));
    assert(suspension_bytes(x).subrange(12, 16) =~= spec_u32_to_le_bytes(x.damper_force));
    assert(b.subrange(off + 16, off + 16 + 4) =~= whole.subrange(16, 20));
    assert(suspension_bytes(x).subrange(16, 20) =~= spec_u32_to_le_bytes(x.strut_force));
    assert(b.subrange(off + 20, off + 20 + 4) =~= whole.subrange(20, 24));
    assert(suspension_bytes(x).subrange(20, 24) =~= spec_u32_to_le_bytes(bits_of_i32(x.helper_spring_is_active)));
    lemma_i32_bits_roundtrip(le32(b, off + 20), x.helper_spring_is_active);
    assert(b.subrange(off + 24, off + 24 + 8) =~= whole.subrange(24, 32));
    assert(suspension_bytes(x).subrange(24, 32) =~= damper_bytes(x.damper));
    lemma_damper_decode(x.damper, b, off + 24);
    assert(b.subrange(off + 32, off + 32 + 96) =~= whole.subrange(32, 128));
    assert(suspension_bytes(x).subrange(32, 128) =~= wheel_bytes(x.wheel));
    lemma_wheel_decode(x.wheel, b, off + 32);
    assert(suspension_at(b, off) == x);
}

fn decode_suspension(b: &[u8], off: usize) -> (x: Suspension)
    requires
        off + 128 <= b@.len() <= usize::MAX,
    ensures
        x == suspension_at(b@, off as int),
{
    Suspension {
        spring_deflection: read_u32(b, off),
        rollbar_force: read_u32(b, off + 4),
        spring_force: read_u32(b, off + 8),
        damper_force: read_u32(b, off + 12),
        strut_force: read_u32(b, off + 16),
        helper_spring_is_active: read_i32(b, off + 20),
        damper: decode_damper(b, off + 24),
        wheel: decode_wheel(b, off + 32),
    }
}

fn encode_suspension(x: &Suspension, out: &mut Vec<u8>)
    ensures
        final(out)@ == old(out)@ + suspension_bytes(*x),
{
    write_u32(out, x.spring_deflection);
    write_u32(out, x.rollbar_force);
    write_u32(out, x.spring_force);
    write_u32(out, x.damper_force);
    write_u32(out, x.strut_force);
    write_i32(out, x.helper_spring_is_active);
    encode_damper(&x.damper, out);
    encode_wheel(&x.wheel, out);
    proof {
        assert(out@ =~= old(out)@ + suspension_bytes(*x));
    }
}

/// The car block: index, speed, position and orientation, motion, the engine and the four suspension corners.
#[derive(Clone, Copy, Debug, PartialEq, Eq, Structural)]
pub struct Car {
    pub index: i32,
    pub speed: u32,
    pub position_x: u32,
    pub position_y: u32,
    pub position_z: u32,
    pub roll: u32,
    pub pitch: u32,
    pub yaw: u32,
    pub velocities: Motion,
    pub accelerations: Motion,
    pub engine: Engine,
    pub suspension_lf: Suspension,
    pub suspension_rf: Suspension,
    pub suspension_lb: Suspension,
    pub suspension_rb: Suspension,
}

pub open spec fn car_at(b: Seq<u8>, off: int) -> Car {
    Car {
        index: i32_of_bits(le32(b, off)),
        speed: le32(b, off + 4),
        position_x: le32(b, off + 8),
        position_y: le32(b, off + 12),
        position_z: le32(b, off + 16),
        roll: le32(b, off + 20),
        pitch: le32(b, off + 24),
        yaw: le32(b, off + 28),
        velocities: motion_at(b, off + 32),
        accelerations: motion_at(b, off + 56),
        engine: engine_at(b, off + 80),
        suspension_lf: suspension_at(b, off + 96),
        suspension_rf: suspension_at(b, off + 224),
        suspension_lb: suspension_at(b, off + 352),
        suspension_rb: suspension_at(b, off + 480),
    }
}

pub open spec fn car_bytes(x: Car) -> Seq<u8> {
    spec_u32_to_le_bytes(bits_of_i32(x.index)) + spec_u32_to_le_bytes(x.speed) + spec_u32_to_le_bytes(x.position_x) + spec_u32_to_le_bytes(x.position_y) + spec_u32_to_le_bytes(x.position_z) + spec_u32_to_le_bytes(x.roll) + spec_u32_to_le_bytes(x.pitch) + spec_u32_to_le_bytes(x.yaw) + motion_bytes(x.velocities) + motion_bytes(x.accelerations) + engine_bytes(x.engine) + suspension_bytes(x.suspension_lf) + suspension_bytes(x.suspension_rf) + suspension_bytes(x.suspension_lb) + suspension_bytes(x.suspension_rb)
}

proof fn lemma_car_len(x: Car)
    ensures
        car_bytes(x).len() == 608,
{
    lemma_auto_spec_u32_to_from_le_bytes();
    lemma_motion_len(x.velocities);
    lemma_motion_len(x.accelerations);
    lemma_engine_len(x.engine);
    lemma_suspension_len(x.suspension_lf);
    lemma_suspension_len(x.suspension_rf);
    lemma_suspension_len(x.suspension_lb);
    lemma_suspension_len(x.suspension_rb);
}

proof fn lemma_car_reencode(b: Seq<u8>, off: int)
    requires
        0 <= off,
        off + 608 <= b.len(),
    ensures
        car_bytes(car_at(b, off)) == b.subrange(off, off + 608),
{
    lemma_auto_spec_u32_to_from_le_bytes();
    lemma_motion_reencode(b, off + 32);
    lemma_motion_len(motion_at(b, off + 32));
    lemma_motion_reencode(b, off + 56);
    lemma_motion_len(motion_at(b, off + 56));
    lemma_engine_reencode(b, off + 80);
    lemma_engine_len(engine_at(b, off + 80));
    lemma_suspension_reencode(b, off + 96);
    lemma_suspension_len(suspension_at(b, off + 96));
    lemma_suspension_reencode(b, off + 224);
    lemma_suspension_len(suspension_at(b, off + 224));
    lemma_suspension_reencode(b, off + 352);
    lemma_suspension_len(suspension_at(b, off + 352));
    lemma_suspension_reencode(b, off + 480);
    lemma_suspension_len(suspension_at(b, off + 480));
    assert(car_bytes(car_at(b, off)) =~= b.subrange(off, off + 608));
}

proof fn lemma_car_decode(x: Car, b: Seq<u8>, off: int)
    requires
        0 <= off,
        off + 608 <= b.len(),
        b.subrange(off, off + 608) == car_bytes(x),
    ensures
        car_at(b, off) == x,
{
    lemma_auto_spec_u32_to_from_le_bytes();
    lemma_motion_len(x.velocities);
    lemma_motion_len(x.accelerations);
    lemma_engine_len(x.engine);
    lemma_suspension_len(x.suspension_lf);
    lemma_suspension_len(x.suspension_rf);
    lemma_suspension_len(x.suspension_lb);
    lemma_suspension_len(x.suspension_rb);
    let whole = b.subrange(off, off + 608);
    assert(b.subrange(off, off + 4) =~= whole.subrange(0, 4));
    assert(car_bytes(x).subrange(0, 4) =~= spec_u32_to_le_bytes(bits_of_i32(x.index)));
    lemma_i32_bits_roundtrip(le32(b, off), x.index);
    assert(b.subrange(off + 4, off + 4 + 4) =~= whole.subrange(4, 8));
    assert(car_bytes(x).subrange(4, 8) =~= spec_u32_to_le_bytes(x.speed));
    assert(b.subrange(off + 8, off + 8 + 4) =~= whole.subrange(8, 12));
    assert(car_bytes(x).subrange(8, 12) =~= spec_u32_to_le_bytes(x.position_x));
    assert(b.subrange(off + 12, off + 12 + 4) =~= whole.subrange(12, 16));
    assert(car_bytes(x).subrange(12, 16) =~= spec_u32_to_le_bytes(x.position_y));
    assert(b.subrange(off + 16, off + 16 + 4) =~= whole.subrange(16, 20));
    assert(car_bytes(x).subrange(16, 20) =~= spec_u32_to_le_bytes(x.position_z));
    assert(b.subrange(off + 20, off + 20 + 4) =~= whole.subrange(20, 24));
    assert(car_bytes(x).subrange(20, 24) =~= spec_u32_to_le_bytes(x.roll));
    assert(b.subrange(off + 24, off + 24 + 4) =~= whole.subrange(24, 28));
    assert(car_bytes(x).subrange(24, 28) =~= spec_u32_to_le_bytes(x.pitch));
    assert(b.subrange(off + 28, off + 28 + 4) =~= whole.subrange(28, 32));
    assert(car_bytes(x).subrange(28, 32) =~= spec_u32_to_le_bytes(x.yaw));
    assert(b.subrange(off + 32, off + 32 + 24) =~= whole.subrange(32, 56));
    assert(car_bytes(x).subrange(32, 56) =~= motion_bytes(x.velocities));
    lemma_motion_decode(x.velocities, b, off + 32);
    assert(b.subrange(off + 56, off + 56 + 24) =~= whole.subrange(56, 80));
    assert(car_bytes(x).subrange(56, 80) =~= motion_bytes(x.accelerations));
    lemma_motion_decode(x.accelerations, b, off + 56);
    assert(b.subrange(off + 80, off + 80 + 16) =~= whole.subrange(80, 96));
    assert(car_bytes(x).subrange(80, 96) =~= engine_bytes(x.engine));
    lemma_engine_decode(x.engine, b, off + 80);
    assert(b.subrange(off + 96, off + 96 + 128) =~= whole.subrange(96, 224));
    assert(car_bytes(x).subrange(96, 224) =~= suspension_bytes(x.suspension_lf));
    lemma_suspension_decode(x.suspension_lf, b, off + 96);
    assert(b.subrange(off + 224, off + 224 + 128) =~= whole.subrange(224, 352));
    assert(car_bytes(x).subrange(224, 352) =~= suspension_bytes(x.suspension_rf));
    lemma_suspension_decode(x.suspension_rf, b, off + 224);
    assert(b.subrange(off + 352, off + 352 + 128) =~= whole.subrange(352, 480));
    assert(car_bytes(x).subrange(352, 480) =~= suspension_bytes(x.suspension_lb));
    lemma_suspension_decode(x.suspension_lb, b, off + 352);
    assert(b.subrange(off + 480, off + 480 + 128) =~= whole.subrange(480, 608));
    assert(car_bytes(x).subrange(480, 608) =~= suspension_bytes(x.suspension_rb));
    lemma_suspension_decode(x.suspension_rb, b, off + 480);
    assert(car_at(b, off) == x);
}

fn decode_car(b: &[u8], off: usize) -> (x: Car)
    requires
        off + 608 <= b@.len() <= usize::MAX,
    ensures
        x == car_at(b@, off as int),
{
    Car {
        index: read_i32(b, off),
        speed: read_u32(b, off + 4),
        position_x: read_u32(b, off + 8),
        position_y: read_u32(b, off + 12),
        position_z: read_u32(b, off + 16),
        roll: read_u32(b, off + 20),
        pitch: read_u32(b, off + 24),
        yaw: read_u32(b, off + 28),
        velocities: decode_motion(b, off + 32),
        accelerations: decode_motion(b, off + 56),
        engine: decode_engine(b, off + 80),
        suspension_lf: decode_suspension(b, off + 96),
        suspension_rf: decode_suspension(b, off + 224),
        suspension_lb: decode_suspension(b, off + 352),
        suspension_rb: decode_suspension(b, off + 480),
    }
}

fn encode_car(x: &Car, out: &mut Vec<u8>)
    ensures
        final(out)@ == old(out)@ + car_bytes(*x),
{
    write_i32(out, x.index);
    write_u32(out, x.speed);
    write_u32(out, x.position_x);
    write_u32(out, x.position_y);
    write_u32(out, x.position_z);
    write_u32(out, x.roll);
    write_u32(out, x.pitch);
    write_u32(out, x.yaw);
    encode_motion(&x.velocities, out);
    encode_motion(&x.accelerations, out);
    encode_engine(&x.engine, out);
    encode_suspension(&x.suspension_lf, out);
    encode_suspension(&x.suspension_rf, out);
    encode_suspension(&x.suspension_lb, out);
    encode_suspension(&x.suspension_rb, out);
    proof {
        assert(out@ =~= old(out)@ + car_bytes(*x));
    }
}
/// One decoded telemetry datagram: the step counter and the stage, control
/// and car blocks. Immutable after decode; the caller owns it for one
/// update cycle.
#[derive(Clone, Copy, Debug, PartialEq, Eq, Structural)]
pub struct Telemetry {
    pub total_steps: u32,
    pub stage: Stage,
    pub control: Control,
    pub car: Car,
}

pub open spec fn telemetry_at(b: Seq<u8>, off: int) -> Telemetry {
    Telemetry {
        total_steps: le32(b, off),
        stage: stage_at(b, off + 4),
        control: control_at(b, off + 24),
        car: car_at(b, off + 56),
    }
}

pub open spec fn telemetry_bytes(x: Telemetry) -> Seq<u8> {
    spec_u32_to_le_bytes(x.total_steps) + stage_bytes(x.stage) + control_bytes(x.control)
        + car_bytes(x.car)
}

pub proof fn lemma_telemetry_len(x: Telemetry)
    ensures
        telemetry_bytes(x).len() == 664,
{
    lemma_auto_spec_u32_to_from_le_bytes();
    lemma_stage_len(x.stage);
    lemma_control_len(x.control);
    lemma_car_len(x.car);
}

proof fn lemma_telemetry_reencode(b: Seq<u8>, off: int)
    requires
        0 <= off,
        off + 664 <= b.len(),
    ensures
        telemetry_bytes(telemetry_at(b, off)) == b.subrange(off, off + 664),
{
    lemma_auto_spec_u32_to_from_le_bytes();
    lemma_stage_reencode(b, off + 4);
    lemma_stage_len(stage_at(b, off + 4));
    lemma_control_reencode(b, off + 24);
    lemma_control_len(control_at(b, off + 24));
    lemma_car_reencode(b, off + 56);
    lemma_car_len(car_at(b, off + 56));
    assert(telemetry_bytes(telemetry_at(b, off)) =~= b.subrange(off, off + 664));
}

proof fn lemma_telemetry_decode(x: Telemetry, b: Seq<u8>, off: int)
    requires
        0 <= off,
        off + 664 <= b.len(),
        b.subrange(off, off + 664) == telemetry_bytes(x),
    ensures
        telemetry_at(b, off) == x,
{
    lemma_auto_spec_u32_to_from_le_bytes();
    lemma_stage_len(x.stage);
    lemma_control_len(x.control);
    lemma_car_len(x.car);
    let whole = b.subrange(off, off + 664);
    assert(b.subrange(off, off + 4) =~= whole.subrange(0, 4));
    assert(telemetry_bytes(x).subrange(0, 4) =~= spec_u32_to_le_bytes(x.total_steps));
    assert(b.subrange(off + 4, off + 4 + 20) =~= whole.subrange(4, 24));
    assert(telemetry_bytes(x).subrange(4, 24) =~= stage_bytes(x.stage));
    lemma_stage_decode(x.stage, b, off + 4);
    assert(b.subrange(off + 24, off + 24 + 32) =~= whole.subrange(24, 56));
    assert(telemetry_bytes(x).subrange(24, 56) =~= control_bytes(x.control));
    lemma_control_decode(x.control, b, off + 24);
    assert(b.subrange(off + 56, off + 56 + 608) =~= whole.subrange(56, 664));
    assert(telemetry_bytes(x).subrange(56, 664) =~= car_bytes(x.car));
    lemma_car_decode(x.car, b, off + 56);
    assert(telemetry_at(b, off) == x);
}

impl Telemetry {
    /// Decodes one received datagram. Succeeds exactly on buffers of the
    /// packet's fixed length; any other length is a malformed packet, an
    /// error the bridge logs before it goes on receiving.
    pub fn decode(data: &[u8]) -> (r: Result<Telemetry, RBR2G29Error>)
        ensures
            match r {
                Ok(t) => data@.len() == PACKET_LEN && t == telemetry_at(data@, 0),
                Err(e) => data@.len() != PACKET_LEN && e == RBR2G29Error::MalformedPacket,
            },
    {
        if data.len() != PACKET_LEN {
            return Err(RBR2G29Error::MalformedPacket);
        }
        Ok(
            Telemetry {
                total_steps: read_u32(data, 0),
                stage: decode_stage(data, 4),
                control: decode_control(data, 24),
                car: decode_car(data, 56),
            },
        )
    }

    /// Encodes the record back into a datagram of the packet's fixed
    /// length.
    pub fn encode(&self) -> (out: Vec<u8>)
        ensures
            out@ == telemetry_bytes(*self),
            out@.len() == PACKET_LEN,
    {
        let mut out: Vec<u8> = Vec::new();
        write_u32(&mut out, self.total_steps);
        encode_stage(&self.stage, &mut out);
        encode_control(&self.control, &mut out);
        encode_car(&self.car, &mut out);
        proof {
            assert(out@ =~= telemetry_bytes(*self));
            lemma_telemetry_len(*self);
        }
        out
    }
}

/// Every full-length packet round-trips: decoding it and re-encoding the
/// record reproduces the packet byte for byte, so no field — float bit
/// patterns included — loses anything as stored.
pub proof fn lemma_packet_roundtrip(b: Seq<u8>)
    requires
        b.len() == PACKET_LEN,
    ensures
        telemetry_bytes(telemetry_at(b, 0)) == b,
{
    lemma_telemetry_reencode(b, 0);
    assert(b.subrange(0, 664) =~= b);
}

/// Every record round-trips the other way: encoding it and decoding the
/// bytes gives the record back exactly.
pub proof fn lemma_record_roundtrip(t: Telemetry)
    ensures
        telemetry_at(telemetry_bytes(t), 0) == t,
{
    lemma_telemetry_len(t);
    let b = telemetry_bytes(t);
    assert(b.subrange(0, 664) =~= b);
    lemma_telemetry_decode(t, b, 0);
}

} // verus!
