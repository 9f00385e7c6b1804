use rbr2g29::telemetry::{Telemetry, PACKET_LEN};
use rbr2g29::util::RBR2G29Error;

fn patterned_packet() -> Vec<u8> {
    (0..PACKET_LEN).map(|i| ((i * 31 + 7) % 256) as u8).collect()
}

fn put_u32(buf: &mut [u8], off: usize, v: u32) {
    buf[off..off + 4].copy_from_slice(&v.to_le_bytes());
}

#[test]
fn test_decode_rejects_wrong_length() {
    assert!(matches!(
        Telemetry::decode(&[0u8; 10]),
        Err(RBR2G29Error::MalformedPacket)
    ));
    assert!(matches!(
        Telemetry::decode(&[0u8; 663]),
        Err(RBR2G29Error::MalformedPacket)
    ));
    assert!(matches!(
        Telemetry::decode(&[0u8; 665]),
        Err(RBR2G29Error::MalformedPacket)
    ));
    assert!(Telemetry::decode(&[0u8; 664]).is_ok());
}

#[test]
fn test_decode_reads_fixed_layout() {
    let mut buf = vec![0u8; PACKET_LEN];
    put_u32(&mut buf, 0, 0x0403_0201); // total_steps
    put_u32(&mut buf, 4, 0xFFFF_FFFE); // stage.index == -2
    put_u32(&mut buf, 12, 12.5f32.to_bits()); // stage.race_time
    put_u32(&mut buf, 44, 3); // control.gear
    put_u32(&mut buf, 56, 5); // car.index
    put_u32(&mut buf, 136, 6500.0f32.to_bits()); // car.engine.rpm
    put_u32(&mut buf, 660, 0.25f32.to_bits()); // last word: rb tire segment 8 wear
    let t = Telemetry::decode(&buf).unwrap();
    assert_eq!(t.total_steps, 0x0403_0201);
    assert_eq!(t.stage.index, -2);
    assert_eq!(t.stage.race_time, 12.5f32.to_bits());
    assert_eq!(t.control.gear, 3);
    assert_eq!(t.car.index, 5);
    assert_eq!(t.car.engine.rpm, 6500.0f32.to_bits());
    assert_eq!(t.car.suspension_rb.wheel.tire.segment8.wear, 0.25f32.to_bits());
}

#[test]
fn test_decode_then_reencode_is_identity() {
    let buf = patterned_packet();
    let t = Telemetry::decode(&buf).unwrap();
    let out = t.encode();
    assert_eq!(out, buf);
}

#[test]
fn test_reencode_all_zero_packet() {
    let buf = vec![0u8; PACKET_LEN];
    let t = Telemetry::decode(&buf).unwrap();
    assert_eq!(t.total_steps, 0);
    assert_eq!(t.car.index, 0);
    assert_eq!(t.encode(), buf);
}

#[test]
fn test_encode_places_fields_little_endian() {
    let buf = patterned_packet();
    let mut t = Telemetry::decode(&buf).unwrap();
    t.total_steps = 0x1122_3344;
    t.car.index = -1;
    let out = t.encode();
    assert_eq!(&out[0..4], &[0x44, 0x33, 0x22, 0x11]);
    assert_eq!(&out[56..60], &[0xFF, 0xFF, 0xFF, 0xFF]);
    // the rest of the packet is untouched
    assert_eq!(&out[4..56], &buf[4..56]);
    assert_eq!(&out[60..], &buf[60..]);
}
