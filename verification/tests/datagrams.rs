use aster_dual::packet::{
    decode_packet, encode_packet, make_text_field, InputPacket, EVENT_FOCUS, EVENT_MOUSE,
    PACKET_SIZE,
};
use aster_dual::remote::{receive, WorkerEvent};

fn sample() -> InputPacket {
    let mut p = InputPacket::new(EVENT_MOUSE);
    p.msg = 0x01020304;
    p.msg2 = -2;
    p.wparam = 0x1122334455667788;
    p.lparam = -3;
    p.wheel_delta = -120;
    p.x_delta = i32::MIN;
    p.y_delta = i32::MAX;
    p.x = 0xABCD;
    p.y = 0x0102;
    p.target_monitor_name = make_text_field(&[0x41, 0xD55C]);
    p.is_admin = 1;
    p
}

#[test]
fn packet_survives_its_datagram() {
    let p = sample();
    let bytes = encode_packet(&p);
    assert_eq!(bytes.len(), PACKET_SIZE);
    assert_eq!(decode_packet(&bytes), Some(p));
}

#[test]
fn fields_stand_where_the_layout_puts_them() {
    let bytes = encode_packet(&sample());
    assert_eq!(&bytes[0..4], &[0, 0, 0, 0]);
    assert_eq!(&bytes[4..8], &[4, 3, 2, 1]);
    assert_eq!(&bytes[8..12], &[0xFE, 0xFF, 0xFF, 0xFF]);
    assert_eq!(&bytes[12..16], &[0, 0, 0, 0]);
    assert_eq!(&bytes[16..24], &[0x88, 0x77, 0x66, 0x55, 0x44, 0x33, 0x22, 0x11]);
    assert_eq!(&bytes[24..32], &(-3i64).to_le_bytes());
    assert_eq!(&bytes[32..36], &(-120i32).to_le_bytes());
    assert_eq!(&bytes[36..40], &[0, 0, 0, 0x80]);
    assert_eq!(&bytes[40..44], &[0xFF, 0xFF, 0xFF, 0x7F]);
    assert_eq!(&bytes[44..48], &[0xCD, 0xAB, 0x02, 0x01]);
    assert_eq!(&bytes[48..54], &[0x41, 0, 0x5C, 0xD5, 0, 0]);
    assert_eq!(&bytes[112..120], &[1, 0, 0, 0, 0, 0, 0, 0]);
}

#[test]
fn text_field_ends_with_a_zero() {
    let units = [7u16; 40];
    let field = make_text_field(&units);
    assert_eq!(field[30], 7);
    assert_eq!(field[31], 0);
}

#[test]
fn datagram_of_another_length_is_ignored() {
    let bytes = encode_packet(&sample());
    assert!(decode_packet(&bytes[0..119]).is_none());
    assert!(matches!(receive(&bytes[0..119]), WorkerEvent::Ignore));
    assert!(matches!(receive(&[]), WorkerEvent::Ignore));
}

#[test]
fn worker_tells_focus_from_input() {
    let mut p = InputPacket::new(EVENT_FOCUS);
    p.msg = 3;
    assert!(matches!(receive(&encode_packet(&p)), WorkerEvent::Focus(3)));
    match receive(&encode_packet(&sample())) {
        WorkerEvent::Input(q) => assert_eq!(q, sample()),
        _ => panic!("input expected"),
    }
}
