//! The input packet that a controller sends to a worker, and its datagram.
//!
//! A datagram is the little-endian image of the packet's fields, each aligned to its own
//! size: the byte positions are those in `packet_bytes`.
use vstd::prelude::*;

use crate::bytes::{
    bits_of_i32, bits_of_i64, i32_of_bits, i64_of_bits, le_at, le_bytes, push_le,
    push_zeros, read_le, signed_of, unsigned_of,
};

verus! {

/// The packet moves or clicks the mouse.
pub const EVENT_MOUSE: u8 = 0;

/// The packet presses or releases a key.
pub const EVENT_KEY: u8 = 1;

/// The packet types text.
pub const EVENT_TEXT: u8 = 2;

/// The packet names the monitor that has the focus.
pub const EVENT_FOCUS: u8 = 3;

/// The packet turns the mouse wheel.
pub const EVENT_WHEEL: u8 = 4;

pub const WM_KEYDOWN: u32 = 0x0100;

pub const WM_KEYUP: u32 = 0x0101;

pub const WM_MOUSEMOVE: u32 = 0x0200;

pub const WM_LBUTTONDOWN: u32 = 0x0201;

pub const WM_LBUTTONUP: u32 = 0x0202;

pub const WM_RBUTTONDOWN: u32 = 0x0204;

pub const WM_RBUTTONUP: u32 = 0x0205;

pub const WM_MOUSEWHEEL: u32 = 0x020A;

/// The length of a datagram.
pub const PACKET_SIZE: usize = 120;

/// One input event on its way to a worker.
#[derive(Clone, Copy, Debug, PartialEq, Eq)]
pub struct InputPacket {
    pub event_type: u8,
    pub msg: u32,
    pub msg2: i32,
    pub wparam: u64,
    pub lparam: i64,
    pub wheel_delta: i32,
    pub x_delta: i32,
    pub y_delta: i32,
    pub x: u16,
    pub y: u16,
    pub target_monitor_name: [u16; 32],
    pub is_admin: u8,
}

/// An input packet with its text field as a sequence.
#[verifier::ext_equal]
pub struct PacketView {
    pub event_type: u8,
    pub msg: u32,
    pub msg2: i32,
    pub wparam: u64,
    pub lparam: i64,
    pub wheel_delta: i32,
    pub x_delta: i32,
    pub y_delta: i32,
    pub x: u16,
    pub y: u16,
    pub target_monitor_name: Seq<u16>,
    pub is_admin: u8,
}

impl View for InputPacket {
    type V = PacketView;

    open spec fn view(&self) -> PacketView {
        PacketView {
            event_type: self.event_type,
            msg: self.msg,
            msg2: self.msg2,
            wparam: self.wparam,
            lparam: self.lparam,
            wheel_delta: self.wheel_delta,
            x_delta: self.x_delta,
            y_delta: self.y_delta,
            x: self.x,
            y: self.y,
            target_monitor_name: self.target_monitor_name@,
            is_admin: self.is_admin,
        }
    }
}

/// A text field without text.
pub open spec fn no_text() -> Seq<u16> {
    Seq::new(32, |i: int| 0u16)
}

/// A text field: at most 31 code units, then zeros.
pub open spec fn text_field(units: Seq<u16>) -> Seq<u16> {
    Seq::new(
        32,
        |i: int|
            if i < 31 && i < units.len() {
                units[i]
            } else {
                0u16
            },
    )
}

/// The packet of kind `event_type` in which nothing else is set.
pub open spec fn blank(event_type: u8) -> PacketView {
    PacketView {
        event_type,
        msg: 0,
        msg2: 0,
        wparam: 0,
        lparam: 0,
        wheel_delta: 0,
        x_delta: 0,
        y_delta: 0,
        x: 0,
        y: 0,
        target_monitor_name: no_text(),
        is_admin: 0,
    }
}

/// Puts code units into a text field.
pub fn make_text_field(units: &[u16]) -> (field: [u16; 32])
    ensures
        field@ == text_field(units@),
{
    let mut field: [u16; 32] = [0u16;32];
    let mut i: usize = 0;
    while i < 31 && i < units.len()
        invariant
            i <= 31,
            i <= units@.len(),
            forall|j: int| 0 <= j < i ==> field@[j] == units@[j],
            forall|j: int| i <= j < 32 ==> field@[j] == 0u16,
        decreases 31 - i,
    {
        field[i] = units[i];
        i = i + 1;
    }
    assert(field@ =~= text_field(units@));
    field
}

impl InputPacket {
    /// A packet of kind `event_type` in which nothing else is set.
    pub fn new(event_type: u8) -> (packet: InputPacket)
        ensures
            packet@ == blank(event_type),
    {
        let packet: InputPacket = InputPacket {
            event_type,
            msg: 0,
            msg2: 0,
            wparam: 0,
            lparam: 0,
            wheel_delta: 0,
            x_delta: 0,
            y_delta: 0,
            x: 0,
            y: 0,
            target_monitor_name: [0u16;32],
            is_admin: 0,
        };
        assert(packet@ =~= blank(event_type));
        packet
    }
}

pub open spec fn zeros(k: nat) -> Seq<u8> {
    Seq::new(k, |i: int| 0u8)
}

/// The bytes of code units, two for each.
pub open spec fn unit_bytes(units: Seq<u16>) -> Seq<u8>
    decreases units.len(),
{
    if units.len() == 0 {
        Seq::empty()
    } else {
        unit_bytes(units.drop_last()) + le_bytes(units.last() as nat, 2)
    }
}

/// The datagram of a packet.
pub open spec fn packet_bytes(p: PacketView) -> Seq<u8> {
    seq![p.event_type] + zeros(3) + le_bytes(p.msg as nat, 4) + le_bytes(
        unsigned_of(p.msg2 as int, 0x1_0000_0000),
        4,
    ) + zeros(4) + le_bytes(p.wparam as nat, 8) + le_bytes(
        unsigned_of(p.lparam as int, 0x1_0000_0000_0000_0000),
        8,
    ) + le_bytes(unsigned_of(p.wheel_delta as int, 0x1_0000_0000), 4) + le_bytes(
        unsigned_of(p.x_delta as int, 0x1_0000_0000),
        4,
    ) + le_bytes(unsigned_of(p.y_delta as int, 0x1_0000_0000), 4) + le_bytes(p.x as nat, 2)
        + le_bytes(p.y as nat, 2) + unit_bytes(p.target_monitor_name) + seq![p.is_admin] + zeros(7)
}

/// The packet in a datagram of the right length.
pub open spec fn packet_of(b: Seq<u8>) -> PacketView {
    PacketView {
        event_type: b[0],
        msg: le_at(b, 4, 4) as u32,
        msg2: signed_of(le_at(b, 8, 4), 0x1_0000_0000) as i32,
        wparam: le_at(b, 16, 8) as u64,
        lparam: signed_of(le_at(b, 24, 8), 0x1_0000_0000_0000_0000) as i64,
        wheel_delta: signed_of(le_at(b, 32, 4), 0x1_0000_0000) as i32,
        x_delta: signed_of(le_at(b, 36, 4), 0x1_0000_0000) as i32,
        y_delta: signed_of(le_at(b, 40, 4), 0x1_0000_0000) as i32,
        x: le_at(b, 44, 2) as u16,
        y: le_at(b, 46, 2) as u16,
        target_monitor_name: Seq::new(32, |i: int| le_at(b, 48 + 2 * i, 2) as u16),
        is_admin: b[112],
    }
}

/// The datagram of `packet`.
pub fn encode_packet(packet: &InputPacket) -> (out: Vec<u8>)
    ensures
        out@ == packet_bytes(packet@),
        out@.len() == PACKET_SIZE,
{
    let mut out: Vec<u8> = Vec::new();
    out.push(packet.event_type);
    push_zeros(&mut out, 3);
    push_le(&mut out, packet.msg as u64, 4);
    push_le(&mut out, bits_of_i32(packet.msg2) as u64, 4);
    push_zeros(&mut out, 4);
    push_le(&mut out, packet.wparam, 8);
    push_le(&mut out, bits_of_i64(packet.lparam), 8);
    push_le(&mut out, bits_of_i32(packet.wheel_delta) as u64, 4);
    push_le(&mut out, bits_of_i32(packet.x_delta) as u64, 4);
    push_le(&mut out, bits_of_i32(packet.y_delta) as u64, 4);
    push_le(&mut out, packet.x as u64, 2);
    push_le(&mut out, packet.y as u64, 2);
    let ghost head = out@;
    let mut i: usize = 0;
    assert(head + unit_bytes(packet.target_monitor_name@.take(0)) =~= head);
    while i < 32
        invariant
            i <= 32,
            out@ == head + unit_bytes(packet.target_monitor_name@.take(i as int)),
        decreases 32 - i,
    {
        push_le(&mut out, packet.target_monitor_name[i] as u64, 2);
        proof {
            let upto = packet.target_monitor_name@.take(i as int + 1);
            assert(upto.drop_last() =~= packet.target_monitor_name@.take(i as int));
            assert(upto.last() == packet.target_monitor_name@[i as int]);
            assert(out@ =~= head + unit_bytes(upto));
        }
        i = i + 1;
    }
    assert(packet.target_monitor_name@.take(32) =~= packet.target_monitor_name@);
    out.push(packet.is_admin);
    push_zeros(&mut out, 7);
    assert(out@ =~= packet_bytes(packet@));
    proof {
        lemma_packet_layout(packet@);
    }
    out
}

/// Two bytes for each code unit, in order.
proof fn lemma_unit_bytes(units: Seq<u16>)
    ensures
        unit_bytes(units).len() == 2 * units.len(),
        forall|i: int|
            0 <= i < units.len() ==> #[trigger] unit_bytes(units).subrange(2 * i, 2 * i + 2)
                == le_bytes(units[i] as nat, 2),
    decreases units.len(),
{
    if units.len() > 0 {
        let front = units.drop_last();
        lemma_unit_bytes(front);
        crate::bytes::lemma_le_bytes_len(units.last() as nat, 2);
        assert forall|i: int| 0 <= i < units.len() implies #[trigger] unit_bytes(units).subrange(
            2 * i,
            2 * i + 2,
        ) == le_bytes(units[i] as nat, 2) by {
            if i < front.len() {
                assert(unit_bytes(units).subrange(2 * i, 2 * i + 2) =~= unit_bytes(front).subrange(
                    2 * i,
                    2 * i + 2,
                ));
            } else {
                assert(unit_bytes(units).subrange(2 * i, 2 * i + 2) =~= le_bytes(
                    units.last() as nat,
                    2,
                ));
            }
        }
    }
}

/// Where each field of a packet stands in its datagram.
proof fn lemma_packet_layout(p: PacketView)
    requires
        p.target_monitor_name.len() == 32,
    ensures
        packet_bytes(p).len() == 120,
        packet_bytes(p)[0] == p.event_type,
        packet_bytes(p).subrange(4, 8) == le_bytes(p.msg as nat, 4),
        packet_bytes(p).subrange(8, 12) == le_bytes(unsigned_of(p.msg2 as int, 0x1_0000_0000), 4),
        packet_bytes(p).subrange(16, 24) == le_bytes(p.wparam as nat, 8),
        packet_bytes(p).subrange(24, 32) == le_bytes(
            unsigned_of(p.lparam as int, 0x1_0000_0000_0000_0000),
            8,
        ),
        packet_bytes(p).subrange(32, 36) == le_bytes(
            unsigned_of(p.wheel_delta as int, 0x1_0000_0000),
            4,
        ),
        packet_bytes(p).subrange(36, 40) == le_bytes(
            unsigned_of(p.x_delta as int, 0x1_0000_0000),
            4,
        ),
        packet_bytes(p).subrange(40, 44) == le_bytes(
            unsigned_of(p.y_delta as int, 0x1_0000_0000),
            4,
        ),
        packet_bytes(p).subrange(44, 46) == le_bytes(p.x as nat, 2),
        packet_bytes(p).subrange(46, 48) == le_bytes(p.y as nat, 2),
        packet_bytes(p).subrange(48, 112) == unit_bytes(p.target_monitor_name),
        packet_bytes(p)[112] == p.is_admin,
{
    let b = packet_bytes(p);
    let msg2 = unsigned_of(p.msg2 as int, 0x1_0000_0000);
    let lparam = unsigned_of(p.lparam as int, 0x1_0000_0000_0000_0000);
    let wheel = unsigned_of(p.wheel_delta as int, 0x1_0000_0000);
    let dx = unsigned_of(p.x_delta as int, 0x1_0000_0000);
    let dy = unsigned_of(p.y_delta as int, 0x1_0000_0000);
    crate::bytes::lemma_le_bytes_len(p.msg as nat, 4);
    crate::bytes::lemma_le_bytes_len(msg2, 4);
    crate::bytes::lemma_le_bytes_len(p.wparam as nat, 8);
    crate::bytes::lemma_le_bytes_len(lparam, 8);
    crate::bytes::lemma_le_bytes_len(wheel, 4);
    crate::bytes::lemma_le_bytes_len(dx, 4);
    crate::bytes::lemma_le_bytes_len(dy, 4);
    crate::bytes::lemma_le_bytes_len(p.x as nat, 2);
    crate::bytes::lemma_le_bytes_len(p.y as nat, 2);
    lemma_unit_bytes(p.target_monitor_name);
    assert(b.subrange(4, 8) =~= le_bytes(p.msg as nat, 4));
    assert(b.subrange(8, 12) =~= le_bytes(msg2, 4));
    assert(b.subrange(16, 24) =~= le_bytes(p.wparam as nat, 8));
    assert(b.subrange(24, 32) =~= le_bytes(lparam, 8));
    assert(b.subrange(32, 36) =~= le_bytes(wheel, 4));
    assert(b.subrange(36, 40) =~= le_bytes(dx, 4));
    assert(b.subrange(40, 44) =~= le_bytes(dy, 4));
    assert(b.subrange(44, 46) =~= le_bytes(p.x as nat, 2));
    assert(b.subrange(46, 48) =~= le_bytes(p.y as nat, 2));
    assert(b.subrange(48, 112) =~= unit_bytes(p.target_monitor_name));
}

/// A packet that was sent is the packet that arrives.
pub proof fn packet_survives_datagram(p: PacketView)
    requires
        p.target_monitor_name.len() == 32,
    ensures
        packet_bytes(p).len() == PACKET_SIZE,
        packet_of(packet_bytes(p)) == p,
{
    let b = packet_bytes(p);
    lemma_packet_layout(p);
    crate::bytes::lemma_byte_ranges();
    crate::bytes::le_value_of_le_bytes(p.msg as nat, 4);
    crate::bytes::le_value_of_le_bytes(unsigned_of(p.msg2 as int, 0x1_0000_0000), 4);
    crate::bytes::le_value_of_le_bytes(p.wparam as nat, 8);
    crate::bytes::le_value_of_le_bytes(unsigned_of(p.lparam as int, 0x1_0000_0000_0000_0000), 8);
    crate::bytes::le_value_of_le_bytes(unsigned_of(p.wheel_delta as int, 0x1_0000_0000), 4);
    crate::bytes::le_value_of_le_bytes(unsigned_of(p.x_delta as int, 0x1_0000_0000), 4);
    crate::bytes::le_value_of_le_bytes(unsigned_of(p.y_delta as int, 0x1_0000_0000), 4);
    crate::bytes::le_value_of_le_bytes(p.x as nat, 2);
    crate::bytes::le_value_of_le_bytes(p.y as nat, 2);
    lemma_unit_bytes(p.target_monitor_name);
    let name = packet_of(b).target_monitor_name;
    assert forall|i: int| 0 <= i < 32 implies name[i] == p.target_monitor_name[i] by {
        crate::bytes::le_value_of_le_bytes(p.target_monitor_name[i] as nat, 2);
        assert(b.subrange(48 + 2 * i, 48 + 2 * i + 2) =~= b.subrange(48, 112).subrange(
            2 * i,
            2 * i + 2,
        ));
        assert(unit_bytes(p.target_monitor_name).subrange(2 * i, 2 * i + 2) == le_bytes(
            p.target_monitor_name[i] as nat,
            2,
        ));
    }
    assert(name =~= p.target_monitor_name);
    assert(packet_of(b) =~= p);
}

/// The packet in a datagram. One that does not have the length of a packet holds none.
pub fn decode_packet(datagram: &[u8]) -> (packet: Option<InputPacket>)
    ensures
        datagram@.len() != PACKET_SIZE ==> packet is None,
        datagram@.len() == PACKET_SIZE ==> packet is Some && packet->0@ == packet_of(datagram@),
{
    if datagram.len() != PACKET_SIZE {
        return None;
    }
    proof {
        crate::bytes::lemma_byte_ranges();
    }
    let msg: u32 = read_le(datagram, 4, 4) as u32;
    let msg2: i32 = i32_of_bits(read_le(datagram, 8, 4) as u32);
    let wparam: u64 = read_le(datagram, 16, 8);
    let lparam: i64 = i64_of_bits(read_le(datagram, 24, 8));
    let wheel_delta: i32 = i32_of_bits(read_le(datagram, 32, 4) as u32);
    let x_delta: i32 = i32_of_bits(read_le(datagram, 36, 4) as u32);
    let y_delta: i32 = i32_of_bits(read_le(datagram, 40, 4) as u32);
    let x: u16 = read_le(datagram, 44, 2) as u16;
    let y: u16 = read_le(datagram, 46, 2) as u16;
    let mut name: [u16; 32] = [0u16;32];
    let mut i: usize = 0;
    while i < 32
        invariant
            i <= 32,
            datagram@.len() == 120,
            forall|j: int| 0 <= j < i ==> name@[j] == le_at(datagram@, 48 + 2 * j, 2) as u16,
        decreases 32 - i,
    {
        proof {
            crate::bytes::lemma_byte_ranges();
        }
        let unit: u16 = read_le(datagram, 48 + 2 * i, 2) as u16;
        name[i] = unit;
        i = i + 1;
    }
    let packet: InputPacket = InputPacket {
        event_type: datagram[0],
        msg,
        msg2,
        wparam,
        lparam,
        wheel_delta,
        x_delta,
        y_delta,
        x,
        y,
        target_monitor_name: name,
        is_admin: datagram[112],
    };
    assert(packet@ =~= packet_of(datagram@));
    Some(packet)
}

// ---------------------------------------------------------------------------------------
// What stands where
// ---------------------------------------------------------------------------------------

/// The fields of a packet, as they stand in the bytes of any datagram: numbers with their lowest
/// byte first, each at a place of its own, signed ones by their bits.
pub proof fn datagram_holds_the_fields(b: Seq<u8>, i: int)
    requires
        b.len() == 120,
        0 <= i < 32,
    ensures
        ({
            let p = packet_of(b);
            &&& p.event_type == b[0]
            &&& p.msg == b[4] + 256 * b[5] + 65536 * b[6] + 16777216 * b[7]
            &&& p.msg2 == b[8] + 256 * b[9] + 65536 * b[10] + 16777216 * b[11] - (
            if b[11] >= 128 {
                0x1_0000_0000int
            } else {
                0int
            })
            &&& p.wparam == b[16] + 256 * b[17] + 65536 * b[18] + 16777216 * b[19] + 4294967296 * (
            b[20] + 256 * b[21] + 65536 * b[22] + 16777216 * b[23])
            &&& p.lparam == b[24] + 256 * b[25] + 65536 * b[26] + 16777216 * b[27] + 4294967296 * (
            b[28] + 256 * b[29] + 65536 * b[30] + 16777216 * b[31]) - (if b[31] >= 128 {
                0x1_0000_0000_0000_0000int
            } else {
                0int
            })
            &&& p.wheel_delta == b[32] + 256 * b[33] + 65536 * b[34] + 16777216 * b[35] - (
            if b[35] >= 128 {
                0x1_0000_0000int
            } else {
                0int
            })
            &&& p.x_delta == b[36] + 256 * b[37] + 65536 * b[38] + 16777216 * b[39] - (
            if b[39] >= 128 {
                0x1_0000_0000int
            } else {
                0int
            })
            &&& p.y_delta == b[40] + 256 * b[41] + 65536 * b[42] + 16777216 * b[43] - (
            if b[43] >= 128 {
                0x1_0000_0000int
            } else {
                0int
            })
            &&& p.x == b[44] + 256 * b[45]
            &&& p.y == b[46] + 256 * b[47]
            &&& p.target_monitor_name.len() == 32
            &&& p.target_monitor_name[i] == b[48 + 2 * i] + 256 * b[49 + 2 * i]
            &&& p.is_admin == b[112]
        }),
{
    crate::bytes::low_byte_counts_least(b, 4);
    crate::bytes::low_byte_counts_least(b, 8);
    crate::bytes::low_byte_counts_least(b, 16);
    crate::bytes::low_byte_counts_least(b, 24);
    crate::bytes::low_byte_counts_least(b, 32);
    crate::bytes::low_byte_counts_least(b, 36);
    crate::bytes::low_byte_counts_least(b, 40);
    crate::bytes::low_byte_counts_least(b, 44);
    crate::bytes::low_byte_counts_least(b, 46);
    crate::bytes::low_byte_counts_least(b, 48 + 2 * i);
}

/// The datagram of a packet has 120 bytes, gives back every field, and holds zeros between them.
pub proof fn datagram_of_a_packet(p: PacketView)
    requires
        p.target_monitor_name.len() == 32,
    ensures
        ({
            let b = packet_bytes(p);
            &&& b.len() == 120
            &&& packet_of(b) == p
            &&& b[1] == 0 && b[2] == 0 && b[3] == 0
            &&& b[12] == 0 && b[13] == 0 && b[14] == 0 && b[15] == 0
            &&& forall|k: int| 113 <= k < 120 ==> #[trigger] b[k] == 0
        }),
{
    packet_survives_datagram(p);
    lemma_unit_bytes(p.target_monitor_name);
    crate::bytes::lemma_le_bytes_len(p.msg as nat, 4);
    crate::bytes::lemma_le_bytes_len(unsigned_of(p.msg2 as int, 0x1_0000_0000), 4);
    crate::bytes::lemma_le_bytes_len(p.wparam as nat, 8);
    crate::bytes::lemma_le_bytes_len(unsigned_of(p.lparam as int, 0x1_0000_0000_0000_0000), 8);
    crate::bytes::lemma_le_bytes_len(unsigned_of(p.wheel_delta as int, 0x1_0000_0000), 4);
    crate::bytes::lemma_le_bytes_len(unsigned_of(p.x_delta as int, 0x1_0000_0000), 4);
    crate::bytes::lemma_le_bytes_len(unsigned_of(p.y_delta as int, 0x1_0000_0000), 4);
    crate::bytes::lemma_le_bytes_len(p.x as nat, 2);
    crate::bytes::lemma_le_bytes_len(p.y as nat, 2);
}

/// The view of a packet has each of its fields.
pub proof fn view_has_every_field(packet: InputPacket)
    ensures
        packet@.event_type == packet.event_type,
        packet@.msg == packet.msg,
        packet@.msg2 == packet.msg2,
        packet@.wparam == packet.wparam,
        packet@.lparam == packet.lparam,
        packet@.wheel_delta == packet.wheel_delta,
        packet@.x_delta == packet.x_delta,
        packet@.y_delta == packet.y_delta,
        packet@.x == packet.x,
        packet@.y == packet.y,
        packet@.target_monitor_name == packet.target_monitor_name@,
        packet@.is_admin == packet.is_admin,
{
}

/// In a new packet everything but its kind is zero.
pub proof fn new_packet_is_blank(event_type: u8, i: int)
    requires
        0 <= i < 32,
    ensures
        ({
            let p = blank(event_type);
            &&& p.event_type == event_type
            &&& p.msg == 0 && p.msg2 == 0 && p.wparam == 0 && p.lparam == 0
            &&& p.wheel_delta == 0 && p.x_delta == 0 && p.y_delta == 0 && p.x == 0 && p.y == 0
            &&& p.target_monitor_name.len() == 32 && p.target_monitor_name[i] == 0
            &&& p.is_admin == 0
        }),
{
}

/// A text field holds the first 31 code units of a text, in order, and zeros behind them.
pub proof fn text_field_holds_31_units(units: Seq<u16>, i: int)
    requires
        0 <= i < 32,
    ensures
        text_field(units).len() == 32,
        i < 31 && i < units.len() ==> text_field(units)[i] == units[i],
        i == 31 || i >= units.len() ==> text_field(units)[i] == 0,
{
}

} // verus!
