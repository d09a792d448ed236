//! The worker's side of remote input: packets become input for the system.
use vstd::prelude::*;

use crate::bytes::{bits_of_i32, unsigned_of};
use crate::control::{
    focus_packet, key_packet, mouse_packet, move_packet, text_packet, wheel_packet, Modifiers,
};
use crate::packet::{
    decode_packet, packet_bytes, packet_of, packet_survives_datagram, text_field, InputPacket,
    PacketView, EVENT_FOCUS, EVENT_KEY, EVENT_MOUSE, EVENT_TEXT, EVENT_WHEEL, PACKET_SIZE, WM_KEYUP,
    WM_LBUTTONDOWN, WM_LBUTTONUP, WM_RBUTTONDOWN, WM_RBUTTONUP,
};
use crate::utf16::units;

verus! {

/// The mouse moves.
pub const MOUSEEVENTF_MOVE: u32 = 0x0001;

/// The left button goes down.
pub const MOUSEEVENTF_LEFTDOWN: u32 = 0x0002;

/// The left button comes up.
pub const MOUSEEVENTF_LEFTUP: u32 = 0x0004;

/// The right button goes down.
pub const MOUSEEVENTF_RIGHTDOWN: u32 = 0x0008;

/// The right button comes up.
pub const MOUSEEVENTF_RIGHTUP: u32 = 0x0010;

/// The wheel turns.
pub const MOUSEEVENTF_WHEEL: u32 = 0x0800;

/// The place is one on the whole desktop.
pub const MOUSEEVENTF_VIRTUALDESK: u32 = 0x4000;

/// The place is absolute.
pub const MOUSEEVENTF_ABSOLUTE: u32 = 0x8000;

/// The key is an extended one.
pub const KEYEVENTF_EXTENDEDKEY: u32 = 0x0001;

/// The key comes up.
pub const KEYEVENTF_KEYUP: u32 = 0x0002;

/// The scan code is a character.
pub const KEYEVENTF_UNICODE: u32 = 0x0004;

/// The key is given by its scan code.
pub const KEYEVENTF_SCANCODE: u32 = 0x0008;

/// What a datagram asks of a worker.
pub enum WorkerEvent {
    /// It is not a packet.
    Ignore,
    /// The monitor with this index has the focus.
    Focus(u32),
    /// There is input.
    Input(InputPacket),
}

/// Sorts out a datagram. One of another length than that of a packet is ignored.
pub fn receive(datagram: &[u8]) -> (event: WorkerEvent)
    ensures
        datagram@.len() != PACKET_SIZE ==> event is Ignore,
        datagram@.len() == PACKET_SIZE ==> {
            let packet = packet_of(datagram@);
            if packet.event_type == EVENT_FOCUS {
                event == WorkerEvent::Focus(packet.msg)
            } else {
                event is Input && event->Input_0@ == packet
            }
        },
{
    match decode_packet(datagram) {
        Some(packet) => {
            if packet.event_type == EVENT_FOCUS {
                WorkerEvent::Focus(packet.msg)
            } else {
                WorkerEvent::Input(packet)
            }
        },
        None => WorkerEvent::Ignore,
    }
}

/// Mouse input for the system.
#[derive(Clone, Copy, Debug, PartialEq, Eq, Structural)]
pub struct MouseInput {
    pub dx: i32,
    pub dy: i32,
    pub mouse_data: u32,
    pub flags: u32,
}

/// Keyboard input for the system.
#[derive(Clone, Copy, Debug, PartialEq, Eq, Structural)]
pub struct KeyInput {
    pub vk: u16,
    pub scan: u16,
    pub flags: u32,
}

/// Input that the system takes at once.
#[derive(Clone, Copy, Debug, PartialEq, Eq, Structural)]
pub enum Batch {
    Mouse(MouseInput),
    Key(KeyInput),
    /// A key that goes down and comes up again.
    Stroke(KeyInput, KeyInput),
}

/// What must be asked of the system before a packet becomes input.
#[derive(Clone, Copy, Debug, PartialEq, Eq, Structural)]
pub enum Inquiry {
    Nothing,
    /// Where on the desktop the place of the packet is.
    Place,
    /// The scan code of a key.
    ScanCode(u16),
}

/// Whether a mouse packet moves the mouse by so much rather than to a place.
pub open spec fn is_relative(p: PacketView) -> bool {
    p.x_delta != 0 || p.y_delta != 0
}

/// The key that a packet is about.
pub open spec fn packet_vk(p: PacketView) -> u16 {
    (p.wparam % 0x1_0000) as u16
}

pub open spec fn inquiry_for(p: PacketView) -> Inquiry {
    if p.event_type == EVENT_MOUSE && !is_relative(p) {
        Inquiry::Place
    } else if p.event_type == EVENT_KEY {
        Inquiry::ScanCode(packet_vk(p))
    } else {
        Inquiry::Nothing
    }
}

/// What must be asked of the system before this packet becomes input.
pub fn inquire(packet: &InputPacket) -> (inquiry: Inquiry)
    ensures
        inquiry == inquiry_for(packet@),
{
    if packet.event_type == EVENT_MOUSE && packet.x_delta == 0 && packet.y_delta == 0 {
        Inquiry::Place
    } else if packet.event_type == EVENT_KEY {
        Inquiry::ScanCode((packet.wparam % 0x1_0000) as u16)
    } else {
        Inquiry::Nothing
    }
}

/// The flag of the button that a mouse message is about.
pub open spec fn button_flag(msg: u32) -> int {
    if msg == WM_LBUTTONDOWN {
        MOUSEEVENTF_LEFTDOWN as int
    } else if msg == WM_LBUTTONUP {
        MOUSEEVENTF_LEFTUP as int
    } else if msg == WM_RBUTTONDOWN {
        MOUSEEVENTF_RIGHTDOWN as int
    } else if msg == WM_RBUTTONUP {
        MOUSEEVENTF_RIGHTUP as int
    } else {
        0
    }
}

/// Mouse input. A packet with a distance moves the mouse by it; any other moves it to the
/// place that was asked for. Either may press or release a button.
pub open spec fn mouse_input(p: PacketView, place: (i32, i32)) -> MouseInput {
    if is_relative(p) {
        MouseInput {
            dx: p.x_delta,
            dy: p.y_delta,
            mouse_data: 0,
            flags: (MOUSEEVENTF_MOVE + button_flag(p.msg)) as u32,
        }
    } else {
        MouseInput {
            dx: place.0,
            dy: place.1,
            mouse_data: 0,
            flags: (MOUSEEVENTF_ABSOLUTE + MOUSEEVENTF_VIRTUALDESK + MOUSEEVENTF_MOVE + button_flag(
                p.msg,
            )) as u32,
        }
    }
}

/// The extended keys: the navigation keys and arrows, Insert, Delete, the keypad's division,
/// Num Lock, right Control and right Alt, the Windows and menu keys, Hangul and Hanja.
pub open spec fn is_extended(vk: u16) -> bool {
    ||| 0x21 <= vk <= 0x28
    ||| vk == 0x2D
    ||| vk == 0x2E
    ||| vk == 0x6F
    ||| vk == 0x90
    ||| vk == 0xA3
    ||| vk == 0xA5
    ||| vk == 0x5B
    ||| vk == 0x5C
    ||| vk == 0x5D
    ||| vk == 0x15
    ||| vk == 0x19
}

/// Keyboard input for the key with that code: by scan code where there is one, else by code.
pub open spec fn key_input(vk: u16, scancode: u16, up: bool) -> KeyInput {
    KeyInput {
        vk: if scancode > 0 {
            0
        } else {
            vk
        },
        scan: scancode,
        flags: ((if scancode > 0 {
            KEYEVENTF_SCANCODE as int
        } else {
            0
        }) + (if up {
            KEYEVENTF_KEYUP as int
        } else {
            0
        }) + (if is_extended(vk) {
            KEYEVENTF_EXTENDEDKEY as int
        } else {
            0
        })) as u32,
    }
}

/// The code units before the first zero.
pub open spec fn until_zero(u: Seq<u16>) -> Seq<u16>
    decreases u.len(),
{
    if u.len() == 0 || u[0] == 0 {
        Seq::empty()
    } else {
        seq![u[0]] + until_zero(u.drop_first())
    }
}

/// The stroke that types one code unit.
pub open spec fn stroke(unit: u16) -> Batch {
    Batch::Stroke(
        KeyInput { vk: 0, scan: unit, flags: KEYEVENTF_UNICODE },
        KeyInput { vk: 0, scan: unit, flags: (KEYEVENTF_UNICODE + KEYEVENTF_KEYUP) as u32 },
    )
}

/// The strokes that type code units.
pub open spec fn strokes(u: Seq<u16>) -> Seq<Batch> {
    u.map_values(|unit: u16| stroke(unit))
}

/// The input that a packet becomes, given what the system answered.
pub open spec fn remote_input(p: PacketView, place: (i32, i32), scancode: u16) -> Seq<Batch> {
    if p.event_type == EVENT_MOUSE {
        seq![Batch::Mouse(mouse_input(p, place))]
    } else if p.event_type == EVENT_KEY {
        seq![Batch::Key(key_input(packet_vk(p), scancode, p.msg == WM_KEYUP))]
    } else if p.event_type == EVENT_TEXT {
        strokes(until_zero(p.target_monitor_name))
    } else if p.event_type == EVENT_WHEEL {
        seq![
            Batch::Mouse(
                MouseInput {
                    dx: 0,
                    dy: 0,
                    mouse_data: unsigned_of(p.wheel_delta as int, 0x1_0000_0000) as u32,
                    flags: MOUSEEVENTF_WHEEL,
                },
            ),
        ]
    } else {
        Seq::empty()
    }
}

fn make_mouse_input(packet: &InputPacket, place: (i32, i32)) -> (input: MouseInput)
    ensures
        input == mouse_input(packet@, place),
{
    let button: u32 = if packet.msg == WM_LBUTTONDOWN {
        MOUSEEVENTF_LEFTDOWN
    } else if packet.msg == WM_LBUTTONUP {
        MOUSEEVENTF_LEFTUP
    } else if packet.msg == WM_RBUTTONDOWN {
        MOUSEEVENTF_RIGHTDOWN
    } else if packet.msg == WM_RBUTTONUP {
        MOUSEEVENTF_RIGHTUP
    } else {
        0
    };
    if packet.x_delta != 0 || packet.y_delta != 0 {
        MouseInput {
            dx: packet.x_delta,
            dy: packet.y_delta,
            mouse_data: 0,
            flags: MOUSEEVENTF_MOVE + button,
        }
    } else {
        MouseInput {
            dx: place.0,
            dy: place.1,
            mouse_data: 0,
            flags: MOUSEEVENTF_ABSOLUTE + MOUSEEVENTF_VIRTUALDESK + MOUSEEVENTF_MOVE + button,
        }
    }
}

fn make_key_input(vk: u16, scancode: u16, up: bool) -> (input: KeyInput)
    ensures
        input == key_input(vk, scancode, up),
{
    let mut flags: u32 = 0;
    if scancode > 0 {
        flags = flags + KEYEVENTF_SCANCODE;
    }
    if up {
        flags = flags + KEYEVENTF_KEYUP;
    }
    let extended: bool = (0x21 <= vk && vk <= 0x28) || vk == 0x2D || vk == 0x2E || vk == 0x6F
        || vk == 0x90 || vk == 0xA3 || vk == 0xA5 || vk == 0x5B || vk == 0x5C || vk == 0x5D || vk
        == 0x15 || vk == 0x19;
    if extended {
        flags = flags + KEYEVENTF_EXTENDEDKEY;
    }
    KeyInput { vk: if scancode > 0 { 0 } else { vk }, scan: scancode, flags }
}

fn make_strokes(name: &[u16]) -> (batches: Vec<Batch>)
    ensures
        batches@ == strokes(until_zero(name@)),
{
    let mut batches: Vec<Batch> = Vec::new();
    let mut i: usize = 0;
    assert(name@.skip(0) =~= name@);
    assert(batches@ + strokes(until_zero(name@)) =~= strokes(until_zero(name@)));
    while i < name.len() && name[i] != 0
        invariant
            i <= name@.len(),
            batches@ + strokes(until_zero(name@.skip(i as int))) == strokes(until_zero(name@)),
        decreases name@.len() - i,
    {
        let unit: u16 = name[i];
        let ghost rest = name@.skip(i as int);
        let ghost before = batches@;
        batches.push(
            Batch::Stroke(
                KeyInput { vk: 0, scan: unit, flags: KEYEVENTF_UNICODE },
                KeyInput { vk: 0, scan: unit, flags: KEYEVENTF_UNICODE + KEYEVENTF_KEYUP },
            ),
        );
        proof {
            assert(rest[0] == unit);
            assert(rest.drop_first() =~= name@.skip(i as int + 1));
            assert(strokes(until_zero(rest)) =~= seq![stroke(unit)] + strokes(
                until_zero(rest.drop_first()),
            ));
            assert(batches@ + strokes(until_zero(rest.drop_first())) =~= before + strokes(
                until_zero(rest),
            ));
        }
        i = i + 1;
    }
    proof {
        let rest = name@.skip(i as int);
        if i < name@.len() {
            assert(rest[0] == 0);
        }
        assert(until_zero(rest) =~= Seq::<u16>::empty());
        assert(batches@ + strokes(until_zero(rest)) =~= batches@);
    }
    batches
}

/// Makes input of a packet. `place` counts where `inquire` asks for a place, `scancode` where
/// it asks for a scan code.
pub fn handle_remote_input(
    packet: &InputPacket,
    place: (i32, i32),
    scancode: u16,
) -> (batches: Vec<Batch>)
    ensures
        batches@ == remote_input(packet@, place, scancode),
{
    let mut batches: Vec<Batch> = Vec::new();
    if packet.event_type == EVENT_MOUSE {
        batches.push(Batch::Mouse(make_mouse_input(packet, place)));
    } else if packet.event_type == EVENT_KEY {
        let vk: u16 = (packet.wparam % 0x1_0000) as u16;
        batches.push(Batch::Key(make_key_input(vk, scancode, packet.msg == WM_KEYUP)));
    } else if packet.event_type == EVENT_TEXT {
        return make_strokes(packet.target_monitor_name.as_slice());
    } else if packet.event_type == EVENT_WHEEL {
        batches.push(
            Batch::Mouse(
                MouseInput {
                    dx: 0,
                    dy: 0,
                    mouse_data: bits_of_i32(packet.wheel_delta),
                    flags: MOUSEEVENTF_WHEEL,
                },
            ),
        );
    }
    assert(batches@ =~= remote_input(packet@, place, scancode));
    batches
}

// ---------------------------------------------------------------------------------------
// From controller to worker
// ---------------------------------------------------------------------------------------

/// What was asked for matters, and nothing else: the answer to a question that was not asked
/// changes nothing.
pub proof fn only_answers_count(
    p: PacketView,
    place: (i32, i32),
    other_place: (i32, i32),
    scancode: u16,
    other_scancode: u16,
)
    ensures
        inquiry_for(p) is Nothing ==> remote_input(p, place, scancode) == remote_input(
            p,
            other_place,
            other_scancode,
        ),
        inquiry_for(p) is Place ==> remote_input(p, place, scancode) == remote_input(
            p,
            place,
            other_scancode,
        ),
        inquiry_for(p) is ScanCode ==> remote_input(p, place, scancode) == remote_input(
            p,
            other_place,
            scancode,
        ),
{
}

proof fn lemma_until_zero(u: Seq<u16>, n: int)
    requires
        0 <= n <= u.len(),
        forall|i: int| 0 <= i < n ==> u[i] != 0,
        n < u.len() ==> u[n] == 0,
    ensures
        until_zero(u) == u.take(n),
    decreases n,
{
    if n > 0 {
        let rest = u.drop_first();
        assert forall|i: int| 0 <= i < n - 1 implies rest[i] != 0 by {
            assert(rest[i] == u[i + 1]);
        }
        lemma_until_zero(rest, n - 1);
        assert(u[0] != 0);
    }
    assert(until_zero(u) =~= u.take(n));
}

/// Text that the controller types is what the worker types: of a text without a zero
/// character, the first 31 code units, each as a stroke.
pub proof fn typed_text_arrives(text: Seq<char>, place: (i32, i32), scancode: u16)
    requires
        !units(text).contains(0u16),
    ensures
        ({
            let n = if units(text).len() < 31 {
                units(text).len() as int
            } else {
                31
            };
            remote_input(packet_of(packet_bytes(text_packet(text))), place, scancode) == strokes(
                units(text).take(n),
            )
        }),
{
    let p = text_packet(text);
    let all = units(text);
    let n = if all.len() < 31 {
        all.len() as int
    } else {
        31
    };
    packet_survives_datagram(p);
    let field = text_field(all);
    assert forall|i: int| 0 <= i < n implies field[i] != 0 by {
        assert(all.contains(all[i]));
    }
    lemma_until_zero(field, n);
    assert(field.take(n) =~= all.take(n));
}

/// A key that goes down or up at the controller goes down or up at the worker.
pub proof fn key_arrives(
    m_idx: u32,
    vk: u16,
    pressed: bool,
    mods: Modifiers,
    place: (i32, i32),
    scancode: u16,
)
    ensures
        ({
            let p = packet_of(packet_bytes(key_packet(m_idx, vk, pressed, mods)));
            &&& inquiry_for(p) == Inquiry::ScanCode(vk)
            &&& remote_input(p, place, scancode) == seq![
                Batch::Key(key_input(vk, scancode, !pressed)),
            ]
        }),
{
    packet_survives_datagram(key_packet(m_idx, vk, pressed, mods));
}

/// A mouse message reaches the worker with its place and its button.
pub proof fn mouse_message_arrives(
    m_idx: u32,
    msg: u32,
    wheel: i32,
    x: u16,
    y: u16,
    place: (i32, i32),
    scancode: u16,
)
    ensures
        ({
            let p = packet_of(packet_bytes(mouse_packet(m_idx, msg, wheel, x, y)));
            &&& p.x == x && p.y == y
            &&& inquiry_for(p) == Inquiry::Place
            &&& remote_input(p, place, scancode) == seq![
                Batch::Mouse(
                    MouseInput {
                        dx: place.0,
                        dy: place.1,
                        mouse_data: 0,
                        flags: (MOUSEEVENTF_ABSOLUTE + MOUSEEVENTF_VIRTUALDESK + MOUSEEVENTF_MOVE
                            + button_flag(msg)) as u32,
                    },
                ),
            ]
        }),
{
    packet_survives_datagram(mouse_packet(m_idx, msg, wheel, x, y));
}

/// A movement moves the mouse at the worker by as much, and a turn of the wheel turns it by
/// as much. This holds of a movement that is one.
pub proof fn movement_arrives(dx: i32, dy: i32, delta: i32, place: (i32, i32), scancode: u16)
    ensures
        dx != 0 || dy != 0 ==> remote_input(
            packet_of(packet_bytes(move_packet(dx, dy))),
            place,
            scancode,
        ) == seq![Batch::Mouse(MouseInput { dx, dy, mouse_data: 0, flags: MOUSEEVENTF_MOVE })],
        remote_input(packet_of(packet_bytes(wheel_packet(delta))), place, scancode) == seq![
            Batch::Mouse(
                MouseInput {
                    dx: 0,
                    dy: 0,
                    mouse_data: unsigned_of(delta as int, 0x1_0000_0000) as u32,
                    flags: MOUSEEVENTF_WHEEL,
                },
            ),
        ],
{
    packet_survives_datagram(move_packet(dx, dy));
    packet_survives_datagram(wheel_packet(delta));
}

/// The news of the focus reaches the worker as such: `receive` answers with the index.
pub proof fn focus_arrives(m_idx: u32)
    ensures
        packet_bytes(focus_packet(m_idx)).len() == PACKET_SIZE,
        packet_of(packet_bytes(focus_packet(m_idx))).event_type == EVENT_FOCUS,
        packet_of(packet_bytes(focus_packet(m_idx))).msg == m_idx,
{
    packet_survives_datagram(focus_packet(m_idx));
}

// ---------------------------------------------------------------------------------------
// What the input of a packet is
// ---------------------------------------------------------------------------------------

/// What is asked of the system: for a mouse packet without a distance its place, for a key packet
/// the scan code of the key in its low sixteen bits, and else nothing.
pub proof fn questions_are_asked_where_needed(p: PacketView)
    ensures
        p.event_type == 0 && p.x_delta == 0 && p.y_delta == 0 <==> inquiry_for(p) is Place,
        p.event_type == 1 <==> inquiry_for(p) is ScanCode,
        p.event_type == 1 ==> inquiry_for(p)->ScanCode_0 == p.wparam % 65536,
{
}

/// A mouse packet is one mouse input. With a distance it goes by that distance, else to the place
/// on the whole desktop that the system gave. It presses or releases a button just where its
/// message says so, and it never turns the wheel. Every other flag is clear.
pub proof fn mouse_packet_moves_and_clicks(p: PacketView, place: (i32, i32), scancode: u16)
    requires
        p.event_type == 0,
    ensures
        ({
            let input = remote_input(p, place, scancode);
            let m = input[0]->Mouse_0;
            let far = p.x_delta != 0 || p.y_delta != 0;
            &&& input.len() == 1
            &&& input[0] is Mouse
            &&& m.dx == (if far {
                p.x_delta
            } else {
                place.0
            })
            &&& m.dy == (if far {
                p.y_delta
            } else {
                place.1
            })
            &&& m.mouse_data == 0
            &&& m.flags % 2 == 1
            &&& (m.flags / 2) % 2 == 1 <==> p.msg == 0x0201
            &&& (m.flags / 4) % 2 == 1 <==> p.msg == 0x0202
            &&& (m.flags / 8) % 2 == 1 <==> p.msg == 0x0204
            &&& (m.flags / 16) % 2 == 1 <==> p.msg == 0x0205
            &&& (m.flags / 32) % 512 == 0
            &&& (m.flags / 0x4000) % 2 == 1 <==> !far
            &&& (m.flags / 0x8000) % 2 == 1 <==> !far
            &&& m.flags < 0x10000
        }),
{
}

/// A key packet is one key input, for every key and every scan code. It is a release just where
/// the message is that the key comes up. It goes by scan code just where there is one, and else
/// by the code of the key. It is extended just for the keys from page up to the arrow down, insert
/// and delete, the Windows and menu keys, the keypad's division, num lock, right control, right
/// alt, Hangul and Hanja. Every other flag is clear.
pub proof fn key_packet_presses_or_releases(p: PacketView, place: (i32, i32), scancode: u16)
    requires
        p.event_type == 1,
    ensures
        ({
            let input = remote_input(p, place, scancode);
            let k = input[0]->Key_0;
            let vk = p.wparam % 65536;
            &&& input.len() == 1
            &&& input[0] is Key
            &&& k.scan == scancode
            &&& scancode == 0 ==> k.vk == vk
            &&& scancode != 0 ==> k.vk == 0
            &&& (k.flags / 2) % 2 == 1 <==> p.msg == 0x0101
            &&& (k.flags / 8) % 2 == 1 <==> scancode != 0
            &&& k.flags % 2 == 1 <==> (33 <= vk <= 40 || 45 <= vk <= 46 || 91 <= vk <= 93 || vk
                == 111 || vk == 144 || vk == 163 || vk == 165 || vk == 21 || vk == 25)
            &&& (k.flags / 4) % 2 == 0
            &&& k.flags < 16
        }),
{
}

/// A text packet is one stroke for each code unit before the first zero, in order: down and up
/// again, each time with the unit and marked as a character.
pub proof fn text_packet_is_typed_unit_by_unit(
    p: PacketView,
    place: (i32, i32),
    scancode: u16,
    i: int,
)
    requires
        p.event_type == 2,
        0 <= i < p.target_monitor_name.len(),
    ensures
        ({
            let input = remote_input(p, place, scancode);
            let u = p.target_monitor_name;
            &&& input.len() <= u.len()
            &&& input.len() < u.len() ==> u[input.len() as int] == 0
            &&& i < input.len() ==> {
                &&& u[i] != 0
                &&& input[i] is Stroke
                &&& input[i]->Stroke_0.vk == 0 && input[i]->Stroke_1.vk == 0
                &&& input[i]->Stroke_0.scan == u[i] && input[i]->Stroke_1.scan == u[i]
                &&& input[i]->Stroke_0.flags == 4
                &&& input[i]->Stroke_1.flags == 6
            }
        }),
{
    let u = p.target_monitor_name;
    lemma_until_first_zero(u);
    assert(remote_input(p, place, scancode).len() == until_zero(u).len());
}

proof fn lemma_until_first_zero(u: Seq<u16>)
    ensures
        until_zero(u).len() <= u.len(),
        until_zero(u).len() < u.len() ==> u[until_zero(u).len() as int] == 0,
        forall|i: int| 0 <= i < until_zero(u).len() ==> #[trigger] until_zero(u)[i] == u[i] && u[i] != 0,
    decreases u.len(),
{
    if u.len() > 0 && u[0] != 0 {
        let rest = u.drop_first();
        lemma_until_first_zero(rest);
        assert forall|i: int| 0 <= i < until_zero(u).len() implies #[trigger] until_zero(u)[i]
            == u[i] && u[i] != 0 by {
            if i > 0 {
                assert(until_zero(u)[i] == until_zero(rest)[i - 1]);
                assert(rest[i - 1] == u[i]);
            }
        }
    }
}

/// A wheel packet turns the wheel by its amount and moves nothing. A packet of any other kind is
/// no input.
pub proof fn wheel_packet_turns_the_wheel(p: PacketView, place: (i32, i32), scancode: u16)
    ensures
        p.event_type == 4 ==> {
            let input = remote_input(p, place, scancode);
            let m = input[0]->Mouse_0;
            &&& input.len() == 1
            &&& input[0] is Mouse
            &&& m.dx == 0 && m.dy == 0
            &&& m.flags == 0x0800
            &&& m.mouse_data == p.wheel_delta || m.mouse_data == p.wheel_delta + 0x1_0000_0000
        },
        p.event_type == 3 || p.event_type > 4 ==> remote_input(p, place, scancode).len() == 0,
{
}

/// A key goes down at the worker just where it went down at the controller, for every key, every
/// scan code and whatever modifiers are held.
pub proof fn release_arrives_as_release(
    m_idx: u32,
    vk: u16,
    pressed: bool,
    mods: Modifiers,
    place: (i32, i32),
    scancode: u16,
)
    ensures
        ({
            let p = packet_of(packet_bytes(key_packet(m_idx, vk, pressed, mods)));
            let input = remote_input(p, place, scancode);
            &&& input.len() == 1 && input[0] is Key
            &&& (input[0]->Key_0.flags / 2) % 2 == 0 <==> pressed
            &&& scancode == 0 ==> input[0]->Key_0.vk == vk
            &&& input[0]->Key_0.scan == scancode
        }),
{
    packet_survives_datagram(key_packet(m_idx, vk, pressed, mods));
}

/// A mouse message that the left button goes down presses the left button at the worker and no
/// other, and so for its coming up and for the right button.
pub proof fn click_arrives_at_its_button(
    m_idx: u32,
    msg: u32,
    wheel: i32,
    x: u16,
    y: u16,
    place: (i32, i32),
    scancode: u16,
)
    ensures
        ({
            let p = packet_of(packet_bytes(mouse_packet(m_idx, msg, wheel, x, y)));
            let input = remote_input(p, place, scancode);
            let flags = input[0]->Mouse_0.flags;
            &&& p.x == x && p.y == y
            &&& inquiry_for(p) is Place
            &&& input.len() == 1 && input[0] is Mouse
            &&& input[0]->Mouse_0.dx == place.0 && input[0]->Mouse_0.dy == place.1
            &&& (flags / 2) % 2 == 1 <==> msg == 0x0201
            &&& (flags / 4) % 2 == 1 <==> msg == 0x0202
            &&& (flags / 8) % 2 == 1 <==> msg == 0x0204
            &&& (flags / 16) % 2 == 1 <==> msg == 0x0205
        }),
{
    packet_survives_datagram(mouse_packet(m_idx, msg, wheel, x, y));
}

} // verus!
