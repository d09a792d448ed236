//! The controller's side of remote input: what the user does becomes packets for a worker.
//!
//! A monitor is known by one number: the port of its worker times one hundred, plus its
//! index among the monitors of that worker.
use vstd::prelude::*;

use crate::keys::{egui_key_to_vk, vk_of, Key};
use crate::packet::{
    blank, make_text_field, text_field, InputPacket, PacketView, EVENT_FOCUS, EVENT_KEY,
    EVENT_MOUSE, EVENT_TEXT, EVENT_WHEEL, WM_KEYDOWN, WM_KEYUP, WM_LBUTTONDOWN, WM_LBUTTONUP,
    WM_MOUSEMOVE, WM_MOUSEWHEEL, WM_RBUTTONDOWN, WM_RBUTTONUP,
};
use crate::remote::MOUSEEVENTF_MOVE;
use crate::text::{chars_of, decimal, is_ascii_letter, is_digit, push_decimal, string_of};
use crate::utf16::{encode_utf16, units};

verus! {

/// Left Control.
pub const VK_LCONTROL: u16 = 0xA2;

/// Right Control.
pub const VK_RCONTROL: u16 = 0xA3;

/// Left Shift.
pub const VK_LSHIFT: u16 = 0xA0;

/// Right Shift.
pub const VK_RSHIFT: u16 = 0xA1;

/// Left Alt.
pub const VK_LMENU: u16 = 0xA4;

/// Right Alt.
pub const VK_RMENU: u16 = 0xA5;

// ---------------------------------------------------------------------------------------
// The numbers of monitors
// ---------------------------------------------------------------------------------------

/// The number of a monitor.
pub open spec fn monitor_id(port: u16, m_idx: int) -> int {
    port * 100 + m_idx
}

/// The port of the worker in the number of a monitor.
pub open spec fn id_port(id: u32) -> u16 {
    ((id / 100) % 0x1_0000) as u16
}

/// The index in the number of a monitor.
pub open spec fn id_index(id: u32) -> u32 {
    id % 100
}

/// The number of the monitor with that index on that worker.
pub fn unique_id(port: u16, m_idx: usize) -> (id: u32)
    requires
        m_idx < 100,
    ensures
        id == monitor_id(port, m_idx as int),
{
    port as u32 * 100 + m_idx as u32
}

/// The port of the worker that a monitor belongs to.
pub fn port_of(id: u32) -> (port: u16)
    ensures
        port == id_port(id),
{
    ((id / 100) % 0x1_0000) as u16
}

/// The index of a monitor on its worker.
pub fn index_of(id: u32) -> (m_idx: u32)
    ensures
        m_idx == id_index(id),
{
    id % 100
}

/// The number of a monitor gives back its port and its index; so no two monitors share one.
pub proof fn id_tells_monitor(port: u16, m_idx: int, id: u32)
    requires
        0 <= m_idx < 100,
        id == monitor_id(port, m_idx),
    ensures
        id_port(id) == port,
        id_index(id) == m_idx,
{
}

/// Where the packets for a worker go: the address of the machine, a colon and the port.
pub open spec fn worker_address(target_ip: Seq<char>, port: u16) -> Seq<char> {
    target_ip + ":"@ + decimal(port as nat)
}

/// Where the packets for a worker go.
pub fn address_of(target_ip: &str, port: u16) -> (address: String)
    ensures
        address@ == worker_address(target_ip@, port),
{
    let mut address: String = String::new();
    address.append(target_ip);
    address.append(":");
    push_decimal(&mut address, port as u64);
    assert(address@ =~= worker_address(target_ip@, port));
    address
}

// ---------------------------------------------------------------------------------------
// Packets
// ---------------------------------------------------------------------------------------

/// The packets of a list, as views.
pub open spec fn views(packets: Seq<InputPacket>) -> Seq<PacketView> {
    packets.map_values(|p: InputPacket| p@)
}

/// The text field that names a monitor by its index.
pub open spec fn index_field(m_idx: u32) -> Seq<u16> {
    text_field(units(decimal(m_idx as nat)))
}

/// A mouse message for a place on a monitor.
pub open spec fn mouse_packet(m_idx: u32, msg: u32, wheel: i32, x: u16, y: u16) -> PacketView {
    PacketView { msg, wheel_delta: wheel, x, y, target_monitor_name: index_field(m_idx), ..blank(EVENT_MOUSE) }
}

/// The modifier keys that are held.
#[derive(Clone, Copy, Debug, PartialEq, Eq, Structural)]
pub struct Modifiers {
    pub ctrl: bool,
    pub shift: bool,
    pub alt: bool,
    pub command: bool,
}

pub open spec fn bit(set: bool, weight: int) -> int {
    if set {
        weight
    } else {
        0
    }
}

impl Modifiers {
    /// One bit for each modifier: Control 1, Shift 2, Alt 4, Command 8.
    pub open spec fn mask(self) -> int {
        bit(self.ctrl, 1) + bit(self.shift, 2) + bit(self.alt, 4) + bit(self.command, 8)
    }

    /// No modifier.
    pub fn none() -> (mods: Modifiers)
        ensures
            !mods.ctrl && !mods.shift && !mods.alt && !mods.command,
    {
        Modifiers { ctrl: false, shift: false, alt: false, command: false }
    }

    /// One bit for each modifier.
    pub fn to_mask(&self) -> (mask: i64)
        ensures
            mask == self.mask(),
    {
        let ctrl: i64 = if self.ctrl { 1 } else { 0 };
        let shift: i64 = if self.shift { 2 } else { 0 };
        let alt: i64 = if self.alt { 4 } else { 0 };
        let command: i64 = if self.command { 8 } else { 0 };
        ctrl + shift + alt + command
    }
}

/// A key that goes down or up, together with the modifiers that are held.
pub open spec fn key_packet(m_idx: u32, vk: u16, pressed: bool, mods: Modifiers) -> PacketView {
    PacketView {
        msg: if pressed {
            WM_KEYDOWN
        } else {
            WM_KEYUP
        },
        wparam: vk as u64,
        lparam: mods.mask() as i64,
        target_monitor_name: index_field(m_idx),
        ..blank(EVENT_KEY)
    }
}

/// Text to type.
pub open spec fn text_packet(text: Seq<char>) -> PacketView {
    PacketView { target_monitor_name: text_field(units(text)), ..blank(EVENT_TEXT) }
}

/// A movement of the mouse by so much.
pub open spec fn move_packet(dx: i32, dy: i32) -> PacketView {
    PacketView { msg: MOUSEEVENTF_MOVE, x_delta: dx, y_delta: dy, ..blank(EVENT_MOUSE) }
}

/// A turn of the wheel by so much.
pub open spec fn wheel_packet(delta: i32) -> PacketView {
    PacketView { wheel_delta: delta, ..blank(EVENT_WHEEL) }
}

/// The news that a monitor has the focus.
pub open spec fn focus_packet(m_idx: u32) -> PacketView {
    PacketView { msg: m_idx, ..blank(EVENT_FOCUS) }
}

fn make_index_field(m_idx: u32) -> (field: [u16; 32])
    ensures
        field@ == index_field(m_idx),
{
    let mut name: String = String::new();
    push_decimal(&mut name, m_idx as u64);
    assert(name@ =~= decimal(m_idx as nat));
    make_text_field(encode_utf16(name.as_str()).as_slice())
}

/// A mouse message for a place on a monitor.
pub fn make_mouse_packet(m_idx: u32, msg: u32, wheel: i32, x: u16, y: u16) -> (packet: InputPacket)
    ensures
        packet@ == mouse_packet(m_idx, msg, wheel, x, y),
{
    let mut packet: InputPacket = InputPacket::new(EVENT_MOUSE);
    packet.msg = msg;
    packet.wheel_delta = wheel;
    packet.x = x;
    packet.y = y;
    packet.target_monitor_name = make_index_field(m_idx);
    assert(packet@ =~= mouse_packet(m_idx, msg, wheel, x, y));
    packet
}

/// A key that goes down or up, together with the modifiers that are held.
pub fn make_key_packet(
    m_idx: u32,
    vk: u16,
    pressed: bool,
    mods: Modifiers,
) -> (packet: InputPacket)
    ensures
        packet@ == key_packet(m_idx, vk, pressed, mods),
{
    let mut packet: InputPacket = InputPacket::new(EVENT_KEY);
    packet.msg = if pressed { WM_KEYDOWN } else { WM_KEYUP };
    packet.wparam = vk as u64;
    packet.lparam = mods.to_mask();
    packet.target_monitor_name = make_index_field(m_idx);
    assert(packet@ =~= key_packet(m_idx, vk, pressed, mods));
    packet
}

/// Text to type, as far as a packet holds it.
pub fn make_text_packet(text: &str) -> (packet: InputPacket)
    ensures
        packet@ == text_packet(text@),
{
    let mut packet: InputPacket = InputPacket::new(EVENT_TEXT);
    packet.target_monitor_name = make_text_field(encode_utf16(text).as_slice());
    assert(packet@ =~= text_packet(text@));
    packet
}

/// A movement of the mouse by so much.
pub fn make_move_packet(dx: i32, dy: i32) -> (packet: InputPacket)
    ensures
        packet@ == move_packet(dx, dy),
{
    let mut packet: InputPacket = InputPacket::new(EVENT_MOUSE);
    packet.msg = MOUSEEVENTF_MOVE;
    packet.x_delta = dx;
    packet.y_delta = dy;
    packet
}

/// A turn of the wheel by so much.
pub fn make_wheel_packet(delta: i32) -> (packet: InputPacket)
    ensures
        packet@ == wheel_packet(delta),
{
    let mut packet: InputPacket = InputPacket::new(EVENT_WHEEL);
    packet.wheel_delta = delta;
    packet
}

/// The news that a monitor has the focus.
pub fn make_focus_packet(m_idx: u32) -> (packet: InputPacket)
    ensures
        packet@ == focus_packet(m_idx),
{
    let mut packet: InputPacket = InputPacket::new(EVENT_FOCUS);
    packet.msg = m_idx;
    packet
}

// ---------------------------------------------------------------------------------------
// What the user does
// ---------------------------------------------------------------------------------------

/// What the pointer did since the last look at it.
pub struct PointerFrame {
    /// Whether it is over the picture of the monitor.
    pub inside: bool,
    /// Whether the primary or the secondary button is down.
    pub held: bool,
    /// Its exact place, as two numbers that are equal for two places just where the places are.
    /// There are none where the place cannot be told, which is never the place of before.
    pub place: Option<(u32, u32)>,
    /// Its place on the monitor, 65535 standing for the far edge.
    pub x: u16,
    pub y: u16,
    pub primary_pressed: bool,
    pub primary_released: bool,
    pub secondary_pressed: bool,
    pub secondary_released: bool,
    /// How far the wheel was turned, turn by turn.
    pub wheel: Vec<i32>,
}

/// What the keyboard did.
pub enum KeyEvent {
    /// A key went down or up.
    Key { key: Key, pressed: bool },
    /// Text was entered.
    Text(String),
    /// Anything else.
    Other,
}

/// The states of the right modifier keys, as the system reports them: negative where the key
/// is down.
#[derive(Clone, Copy, Debug)]
pub struct RightKeys {
    pub ctrl: i16,
    pub shift: i16,
    pub alt: i16,
}

pub open spec fn opt(present: bool, p: PacketView) -> Seq<PacketView> {
    if present {
        seq![p]
    } else {
        Seq::empty()
    }
}

/// Whether messages of the pointer are sent: while it is over the picture or a button is held.
pub open spec fn is_followed(f: PointerFrame) -> bool {
    f.inside || f.held
}

/// Whether the pointer is at another place than that of the last message.
pub open spec fn has_moved(f: PointerFrame, last_place: Option<(u32, u32)>) -> bool {
    f.place is None || f.place != last_place
}

/// The place of the last message, after a look at the pointer.
pub open spec fn place_after(
    pointer: Option<PointerFrame>,
    last_place: Option<(u32, u32)>,
) -> Option<(u32, u32)> {
    match pointer {
        Some(f) => if is_followed(f) {
            f.place
        } else {
            last_place
        },
        None => last_place,
    }
}

/// The messages of the pointer, while it is followed. A movement comes first, where there was
/// one; buttons go down and the wheel turns only over the picture, buttons come up anywhere.
pub open spec fn pointer_packets(
    m_idx: u32,
    f: PointerFrame,
    last_place: Option<(u32, u32)>,
) -> Seq<PacketView> {
    let send = |msg: u32, wheel: i32| mouse_packet(m_idx, msg, wheel, f.x, f.y);
    if is_followed(f) {
        opt(has_moved(f, last_place), send(WM_MOUSEMOVE, 0)) + opt(
            f.inside && f.primary_pressed,
            send(WM_LBUTTONDOWN, 0),
        ) + opt(f.primary_released, send(WM_LBUTTONUP, 0)) + opt(
            f.inside && f.secondary_pressed,
            send(WM_RBUTTONDOWN, 0),
        ) + opt(f.secondary_released, send(WM_RBUTTONUP, 0)) + (if f.inside {
            f.wheel@.map_values(|turn: i32| send(WM_MOUSEWHEEL, turn))
        } else {
            Seq::empty()
        })
    } else {
        Seq::empty()
    }
}

/// The code of a modifier key: that of the right one where the right one is down.
pub open spec fn side(right_state: i16, right: u16, left: u16) -> u16 {
    if right_state < 0 {
        right
    } else {
        left
    }
}

/// A key packet for each of Control, Shift and Alt that changed.
pub open spec fn modifier_packets(
    m_idx: u32,
    last: Modifiers,
    current: Modifiers,
    right: RightKeys,
) -> Seq<PacketView> {
    opt(
        current.ctrl != last.ctrl,
        key_packet(m_idx, side(right.ctrl, VK_RCONTROL, VK_LCONTROL), current.ctrl, current),
    ) + opt(
        current.shift != last.shift,
        key_packet(m_idx, side(right.shift, VK_RSHIFT, VK_LSHIFT), current.shift, current),
    ) + opt(
        current.alt != last.alt,
        key_packet(m_idx, side(right.alt, VK_RMENU, VK_LMENU), current.alt, current),
    )
}

/// A character that is typed as text: ASCII letters, digits and the space go as keys instead.
pub open spec fn is_typed(c: char) -> bool {
    !is_digit(c) && !is_ascii_letter(c) && c != ' '
}

/// The characters that are typed as text.
pub open spec fn typed(s: Seq<char>) -> Seq<char>
    decreases s.len(),
{
    if s.len() == 0 {
        Seq::empty()
    } else if is_typed(s.last()) {
        typed(s.drop_last()).push(s.last())
    } else {
        typed(s.drop_last())
    }
}

/// The packets of one keyboard event. A key without a code and a text with nothing to type
/// are not passed on.
pub open spec fn event_packets(m_idx: u32, mods: Modifiers, event: KeyEvent) -> Seq<PacketView> {
    match event {
        KeyEvent::Key { key, pressed } => opt(
            vk_of(key) != 0,
            key_packet(m_idx, vk_of(key), pressed, mods),
        ),
        KeyEvent::Text(text) => opt(typed(text@).len() > 0, text_packet(typed(text@))),
        KeyEvent::Other => Seq::empty(),
    }
}

/// The packets of keyboard events, in order.
pub open spec fn all_event_packets(
    m_idx: u32,
    mods: Modifiers,
    events: Seq<KeyEvent>,
) -> Seq<PacketView>
    decreases events.len(),
{
    if events.len() == 0 {
        Seq::empty()
    } else {
        all_event_packets(m_idx, mods, events.drop_last()) + event_packets(
            m_idx,
            mods,
            events.last(),
        )
    }
}

/// Adds a packet where `present` says so.
fn push_if(packets: &mut Vec<InputPacket>, present: bool, packet: InputPacket)
    ensures
        views(final(packets)@) == views(old(packets)@) + opt(present, packet@),
{
    if present {
        packets.push(packet);
    }
    assert(views(packets@) =~= views(old(packets)@) + opt(present, packet@));
}

/// The messages of the pointer.
pub fn make_pointer_packets(
    m_idx: u32,
    frame: &PointerFrame,
    last_place: &mut Option<(u32, u32)>,
) -> (packets: Vec<InputPacket>)
    ensures
        views(packets@) == pointer_packets(m_idx, *frame, *old(last_place)),
        *final(last_place) == place_after(Some(*frame), *old(last_place)),
{
    let mut packets: Vec<InputPacket> = Vec::new();
    if !(frame.inside || frame.held) {
        assert(views(packets@) =~= pointer_packets(m_idx, *frame, *old(last_place)));
        return packets;
    }
    let moved: bool = match (frame.place, *last_place) {
        (Some((x, y)), Some((last_x, last_y))) => x != last_x || y != last_y,
        _ => true,
    };
    *last_place = frame.place;
    let x: u16 = frame.x;
    let y: u16 = frame.y;
    push_if(&mut packets, moved, make_mouse_packet(m_idx, WM_MOUSEMOVE, 0, x, y));
    push_if(
        &mut packets,
        frame.inside && frame.primary_pressed,
        make_mouse_packet(m_idx, WM_LBUTTONDOWN, 0, x, y),
    );
    push_if(
        &mut packets,
        frame.primary_released,
        make_mouse_packet(m_idx, WM_LBUTTONUP, 0, x, y),
    );
    push_if(
        &mut packets,
        frame.inside && frame.secondary_pressed,
        make_mouse_packet(m_idx, WM_RBUTTONDOWN, 0, x, y),
    );
    push_if(
        &mut packets,
        frame.secondary_released,
        make_mouse_packet(m_idx, WM_RBUTTONUP, 0, x, y),
    );
    let ghost buttons = views(packets@);
    let ghost turn_packet = |turn: i32| mouse_packet(m_idx, WM_MOUSEWHEEL, turn, x, y);
    if frame.inside {
        let mut i: usize = 0;
        while i < frame.wheel.len()
            invariant
                i <= frame.wheel@.len(),
                views(packets@) == buttons + frame.wheel@.take(i as int).map_values(turn_packet),
                turn_packet == (|turn: i32| mouse_packet(m_idx, WM_MOUSEWHEEL, turn, x, y)),
            decreases frame.wheel@.len() - i,
        {
            let ghost before = packets@;
            let packet: InputPacket = make_mouse_packet(m_idx, WM_MOUSEWHEEL, frame.wheel[i], x, y);
            packets.push(packet);
            proof {
                assert(views(packets@) =~= views(before).push(packet@));
                assert(frame.wheel@.take(i as int + 1) =~= frame.wheel@.take(i as int).push(
                    frame.wheel@[i as int],
                ));
                assert(frame.wheel@.take(i as int + 1).map_values(turn_packet)
                    =~= frame.wheel@.take(i as int).map_values(turn_packet).push(packet@));
                assert(views(packets@) =~= buttons + frame.wheel@.take(i as int + 1).map_values(
                    turn_packet,
                ));
            }
            i = i + 1;
        }
        assert(frame.wheel@.take(frame.wheel@.len() as int) =~= frame.wheel@);
    }
    assert(views(packets@) =~= pointer_packets(m_idx, *frame, *old(last_place)));
    packets
}

fn side_code(right_state: i16, right: u16, left: u16) -> (vk: u16)
    ensures
        vk == side(right_state, right, left),
{
    if right_state < 0 {
        right
    } else {
        left
    }
}

/// A key packet for each of Control, Shift and Alt that changed.
pub fn make_modifier_packets(
    m_idx: u32,
    last: Modifiers,
    current: Modifiers,
    right: RightKeys,
) -> (packets: Vec<InputPacket>)
    ensures
        views(packets@) == modifier_packets(m_idx, last, current, right),
{
    let mut packets: Vec<InputPacket> = Vec::new();
    let ctrl: u16 = side_code(right.ctrl, VK_RCONTROL, VK_LCONTROL);
    push_if(
        &mut packets,
        current.ctrl != last.ctrl,
        make_key_packet(m_idx, ctrl, current.ctrl, current),
    );
    let shift: u16 = side_code(right.shift, VK_RSHIFT, VK_LSHIFT);
    push_if(
        &mut packets,
        current.shift != last.shift,
        make_key_packet(m_idx, shift, current.shift, current),
    );
    let alt: u16 = side_code(right.alt, VK_RMENU, VK_LMENU);
    push_if(
        &mut packets,
        current.alt != last.alt,
        make_key_packet(m_idx, alt, current.alt, current),
    );
    assert(views(packets@) =~= modifier_packets(m_idx, last, current, right));
    packets
}

/// Keeps the characters that are typed as text.
pub fn typed_text(text: &str) -> (out: String)
    ensures
        out@ == typed(text@),
{
    let chars: Vec<char> = chars_of(text);
    let mut out: Vec<char> = Vec::new();
    let mut i: usize = 0;
    while i < chars.len()
        invariant
            i <= chars@.len(),
            out@ == typed(chars@.take(i as int)),
        decreases chars@.len() - i,
    {
        let c: char = chars[i];
        proof {
            let upto = chars@.take(i as int + 1);
            assert(upto.drop_last() =~= chars@.take(i as int));
            assert(upto.last() == c);
        }
        let digit: bool = c >= '0' && c <= '9';
        let letter: bool = (c >= 'a' && c <= 'z') || (c >= 'A' && c <= 'Z');
        if !digit && !letter && c != ' ' {
            out.push(c);
        }
        i = i + 1;
    }
    assert(chars@.take(chars@.len() as int) =~= chars@);
    string_of(out.as_slice())
}

/// The packets of keyboard events, in order.
pub fn make_event_packets(
    m_idx: u32,
    mods: Modifiers,
    events: &Vec<KeyEvent>,
) -> (packets: Vec<InputPacket>)
    ensures
        views(packets@) == all_event_packets(m_idx, mods, events@),
{
    let mut packets: Vec<InputPacket> = Vec::new();
    let mut i: usize = 0;
    assert(views(packets@) =~= all_event_packets(m_idx, mods, events@.take(0)));
    while i < events.len()
        invariant
            i <= events@.len(),
            views(packets@) == all_event_packets(m_idx, mods, events@.take(i as int)),
        decreases events@.len() - i,
    {
        let ghost before = views(packets@);
        match &events[i] {
            KeyEvent::Key { key, pressed } => {
                let vk: u16 = egui_key_to_vk(*key);
                let packet: InputPacket = make_key_packet(m_idx, vk, *pressed, mods);
                push_if(&mut packets, vk != 0, packet);
            },
            KeyEvent::Text(text) => {
                let kept: String = typed_text(text.as_str());
                let packet: InputPacket = make_text_packet(kept.as_str());
                push_if(&mut packets, !kept.as_str().is_empty(), packet);
            },
            KeyEvent::Other => {},
        }
        proof {
            let upto = events@.take(i as int + 1);
            assert(upto.drop_last() =~= events@.take(i as int));
            assert(upto.last() == events@[i as int]);
            assert(views(packets@) =~= before + event_packets(m_idx, mods, events@[i as int]));
        }
        i = i + 1;
    }
    assert(events@.take(events@.len() as int) =~= events@);
    packets
}

/// The packets of everything that the user did over a monitor: the pointer first, where it is
/// anywhere at all, then the modifier keys that changed, then the keyboard events.
pub open spec fn input_packets(
    id: u32,
    pointer: Option<PointerFrame>,
    last_place: Option<(u32, u32)>,
    last: Modifiers,
    current: Modifiers,
    right: RightKeys,
    events: Seq<KeyEvent>,
) -> Seq<PacketView> {
    (match pointer {
        Some(frame) => pointer_packets(id_index(id), frame, last_place),
        None => Seq::empty(),
    }) + modifier_packets(id_index(id), last, current, right) + all_event_packets(
        id_index(id),
        current,
        events,
    )
}

/// The packets of everything that the user did over a monitor since the last look. The place of
/// the pointer and the modifiers are remembered for the next look.
pub fn handle_input_static(
    unique_id: u32,
    pointer: &Option<PointerFrame>,
    last_place: &mut Option<(u32, u32)>,
    last_modifiers: &mut Modifiers,
    current_modifiers: Modifiers,
    right: RightKeys,
    events: &Vec<KeyEvent>,
) -> (packets: Vec<InputPacket>)
    ensures
        views(packets@) == input_packets(
            unique_id,
            *pointer,
            *old(last_place),
            *old(last_modifiers),
            current_modifiers,
            right,
            events@,
        ),
        *final(last_place) == place_after(*pointer, *old(last_place)),
        *final(last_modifiers) == current_modifiers,
{
    let m_idx: u32 = index_of(unique_id);
    let mut packets: Vec<InputPacket> = match pointer {
        Some(frame) => make_pointer_packets(m_idx, frame, last_place),
        None => Vec::new(),
    };
    let ghost first = packets@;
    let mut modifiers: Vec<InputPacket> = make_modifier_packets(
        m_idx,
        *last_modifiers,
        current_modifiers,
        right,
    );
    let ghost second = modifiers@;
    *last_modifiers = current_modifiers;
    let mut keys: Vec<InputPacket> = make_event_packets(m_idx, current_modifiers, events);
    let ghost third = keys@;
    packets.append(&mut modifiers);
    packets.append(&mut keys);
    assert(packets@ =~= first + second + third);
    assert(views(packets@) =~= views(first) + views(second) + views(third));
    assert(pointer is None ==> views(first) =~= Seq::<PacketView>::empty());
    packets
}

/// A pointer that is followed sends one movement, before anything else, just where its place is
/// another than that of the last message. The place is then that of the last message, so the
/// same place sends none again.
pub proof fn movement_is_sent_once(
    m_idx: u32,
    f: PointerFrame,
    last_place: Option<(u32, u32)>,
    i: int,
)
    requires
        is_followed(f),
        0 <= i < pointer_packets(m_idx, f, last_place).len(),
    ensures
        pointer_packets(m_idx, f, last_place)[i].msg == WM_MOUSEMOVE <==> (i == 0 && has_moved(
            f,
            last_place,
        )),
        place_after(Some(f), last_place) == f.place,
        f.place is Some ==> !has_moved(f, place_after(Some(f), last_place)),
{
}

/// Where a pointer that is followed has moved, there is a movement to send.
pub proof fn movement_is_sent(m_idx: u32, f: PointerFrame, last_place: Option<(u32, u32)>)
    requires
        is_followed(f),
        has_moved(f, last_place),
    ensures
        pointer_packets(m_idx, f, last_place).len() > 0,
        pointer_packets(m_idx, f, last_place)[0] == mouse_packet(m_idx, WM_MOUSEMOVE, 0, f.x, f.y),
{
}

// ---------------------------------------------------------------------------------------
// What the packets of a look are for
// ---------------------------------------------------------------------------------------

/// The number of a monitor is taken apart into a port and an index below one hundred, and put
/// together again it is the same number, as far as there are ports.
pub proof fn number_is_port_and_index(id: u32, port: u16, m_idx: int)
    ensures
        id_index(id) < 100,
        id_port(id) * 100 + id_index(id) == id % 6553600,
        monitor_id(port, m_idx) - m_idx == 100 * port,
{
}

/// The address of a worker is that of the machine, a colon, and the number of the port.
pub proof fn address_is_machine_and_port(target_ip: Seq<char>, port: u16)
    ensures
        ({
            let n = target_ip.len() as int;
            let address = worker_address(target_ip, port);
            &&& address.len() > n
            &&& address.take(n) == target_ip
            &&& address[n] == ':'
            &&& address.skip(n + 1) == decimal(port as nat)
        }),
{
    reveal_strlit(":");
    let n = target_ip.len() as int;
    let address = worker_address(target_ip, port);
    assert(address.take(n) =~= target_ip);
    assert(address.skip(n + 1) =~= decimal(port as nat));
}

/// Each modifier has a bit of its own: Control the first, Shift the second, Alt the third and
/// Command the fourth.
pub proof fn each_modifier_has_a_bit(mods: Modifiers)
    ensures
        0 <= mods.mask() < 16,
        mods.mask() % 2 == 1 <==> mods.ctrl,
        (mods.mask() / 2) % 2 == 1 <==> mods.shift,
        (mods.mask() / 4) % 2 == 1 <==> mods.alt,
        mods.mask() / 8 == 1 <==> mods.command,
{
}

/// The packets of a list are viewed one by one.
pub proof fn packets_are_viewed_one_by_one(packets: Seq<InputPacket>, i: int)
    requires
        0 <= i < packets.len(),
    ensures
        views(packets).len() == packets.len(),
        views(packets)[i] == packets[i]@,
{
}

/// The field that names a monitor holds the digits of its index and then zeros.
pub proof fn monitor_is_named_by_its_index(m_idx: u32, i: int)
    requires
        m_idx < 100,
        0 <= i < 32,
    ensures
        index_field(m_idx).len() == 32,
        m_idx < 10 ==> index_field(m_idx)[0] == 48 + m_idx,
        m_idx >= 10 ==> index_field(m_idx)[0] == 48 + m_idx / 10 && index_field(m_idx)[1] == 48
            + m_idx % 10,
        i >= 2 || (i == 1 && m_idx < 10) ==> index_field(m_idx)[i] == 0,
{
    reveal_with_fuel(decimal, 3);
    reveal_with_fuel(units, 3);
    let digits = decimal(m_idx as nat);
    if m_idx < 10 {
        assert(digits =~= seq![digits[0]]);
        assert(digits.drop_last() =~= Seq::<char>::empty());
        assert(units(digits) =~= seq![(48 + m_idx) as u16]);
    } else {
        assert(digits =~= seq![digits[0], digits[1]]);
        assert(digits.drop_last() =~= seq![digits[0]]);
        assert(digits.drop_last().drop_last() =~= Seq::<char>::empty());
        assert(units(digits) =~= seq![(48 + m_idx / 10) as u16, (48 + m_idx % 10) as u16]);
    }
}

/// However large an index is, the field holds its digits, as far as there is room, and then zeros.
pub proof fn index_field_holds_the_digits(m_idx: u32, i: int)
    requires
        0 <= i < 32,
    ensures
        index_field(m_idx).len() == 32,
        i < 31 && i < decimal(m_idx as nat).len() ==> index_field(m_idx)[i] as int == decimal(
            m_idx as nat,
        )[i] as int,
        i == 31 || i >= decimal(m_idx as nat).len() ==> index_field(m_idx)[i] == 0,
{
    crate::text::decimal_reads_back(m_idx as nat, 0);
    lemma_digit_units(decimal(m_idx as nat));
}

/// The code units of digits are their codes.
proof fn lemma_digit_units(s: Seq<char>)
    requires
        crate::text::all_digits(s),
    ensures
        units(s).len() == s.len(),
        forall|i: int| 0 <= i < s.len() ==> #[trigger] units(s)[i] as int == s[i] as int,
    decreases s.len(),
{
    if s.len() > 0 {
        let front = s.drop_last();
        assert forall|i: int| 0 <= i < front.len() implies is_digit(#[trigger] front[i]) by {
            assert(is_digit(s[i]));
        }
        lemma_digit_units(front);
        assert(is_digit(s[s.len() - 1]));
        assert forall|i: int| 0 <= i < s.len() implies #[trigger] units(s)[i] as int == s[i] as int by {
            if i < front.len() {
                assert(units(s)[i] == units(front)[i]);
            }
        }
    }
}

/// What each kind of packet carries, field by field. What is not named is zero.
pub proof fn packets_carry_what_they_are_given(
    m_idx: u32,
    msg: u32,
    wheel: i32,
    x: u16,
    y: u16,
    vk: u16,
    pressed: bool,
    mods: Modifiers,
    text: Seq<char>,
    i: int,
)
    requires
        0 <= i < 32,
    ensures
        ({
            let p = mouse_packet(m_idx, msg, wheel, x, y);
            &&& p.event_type == 0 && p.msg == msg && p.wheel_delta == wheel && p.x == x && p.y == y
            &&& p.msg2 == 0 && p.wparam == 0 && p.lparam == 0 && p.x_delta == 0 && p.y_delta == 0
            &&& p.target_monitor_name == index_field(m_idx) && p.is_admin == 0
        }),
        ({
            let p = key_packet(m_idx, vk, pressed, mods);
            &&& p.event_type == 1 && p.wparam == vk
            &&& pressed ==> p.msg == 0x0100
            &&& !pressed ==> p.msg == 0x0101
            &&& 0 <= p.lparam < 16
            &&& p.lparam % 2 == 1 <==> mods.ctrl
            &&& (p.lparam / 2) % 2 == 1 <==> mods.shift
            &&& (p.lparam / 4) % 2 == 1 <==> mods.alt
            &&& p.lparam / 8 == 1 <==> mods.command
            &&& p.msg2 == 0 && p.wheel_delta == 0 && p.x_delta == 0 && p.y_delta == 0 && p.x == 0
                && p.y == 0
            &&& p.target_monitor_name == index_field(m_idx) && p.is_admin == 0
        }),
        ({
            let p = text_packet(text);
            &&& p.event_type == 2
            &&& p.msg == 0 && p.msg2 == 0 && p.wparam == 0 && p.lparam == 0 && p.wheel_delta == 0
                && p.x_delta == 0 && p.y_delta == 0 && p.x == 0 && p.y == 0 && p.is_admin == 0
            &&& p.target_monitor_name.len() == 32
            &&& i < 31 && i < units(text).len() ==> p.target_monitor_name[i] == units(text)[i]
            &&& i == 31 || i >= units(text).len() ==> p.target_monitor_name[i] == 0
        }),
{
}

/// A movement carries how far, a turn of the wheel how much, the news of the focus which monitor,
/// and none of them anything else.
pub proof fn news_carry_what_they_are_given(dx: i32, dy: i32, delta: i32, m_idx: u32, i: int)
    requires
        0 <= i < 32,
    ensures
        ({
            let p = move_packet(dx, dy);
            &&& p.event_type == 0 && p.msg == 1 && p.x_delta == dx && p.y_delta == dy
            &&& p.msg2 == 0 && p.wparam == 0 && p.lparam == 0 && p.wheel_delta == 0 && p.x == 0
                && p.y == 0 && p.is_admin == 0
            &&& p.target_monitor_name.len() == 32 && p.target_monitor_name[i] == 0
        }),
        ({
            let p = wheel_packet(delta);
            &&& p.event_type == 4 && p.wheel_delta == delta
            &&& p.msg == 0 && p.msg2 == 0 && p.wparam == 0 && p.lparam == 0 && p.x_delta == 0
                && p.y_delta == 0 && p.x == 0 && p.y == 0 && p.is_admin == 0
            &&& p.target_monitor_name.len() == 32 && p.target_monitor_name[i] == 0
        }),
        ({
            let p = focus_packet(m_idx);
            &&& p.event_type == 3 && p.msg == m_idx
            &&& p.msg2 == 0 && p.wparam == 0 && p.lparam == 0 && p.wheel_delta == 0 && p.x_delta
                == 0 && p.y_delta == 0 && p.x == 0 && p.y == 0 && p.is_admin == 0
            &&& p.target_monitor_name.len() == 32 && p.target_monitor_name[i] == 0
        }),
{
}

/// A pointer that is neither over the picture nor holds a button sends nothing, and the place of
/// the last message stays. Otherwise its place becomes that of the last message.
pub proof fn pointer_is_followed_or_not(
    m_idx: u32,
    f: PointerFrame,
    last_place: Option<(u32, u32)>,
)
    ensures
        !f.inside && !f.held ==> pointer_packets(m_idx, f, last_place).len() == 0 && place_after(
            Some(f),
            last_place,
        ) == last_place,
        f.inside || f.held ==> place_after(Some(f), last_place) == f.place,
        place_after(None, last_place) == last_place,
{
}

/// Every message of a pointer is a mouse message at its place for the monitor, and tells of the
/// wheel only where it is the wheel's.
pub proof fn pointer_messages_are_at_its_place(
    m_idx: u32,
    f: PointerFrame,
    last_place: Option<(u32, u32)>,
    i: int,
)
    requires
        0 <= i < pointer_packets(m_idx, f, last_place).len(),
    ensures
        ({
            let p = pointer_packets(m_idx, f, last_place)[i];
            &&& p.event_type == 0
            &&& p.x == f.x && p.y == f.y
            &&& p.msg2 == 0 && p.wparam == 0 && p.lparam == 0 && p.x_delta == 0 && p.y_delta == 0
            &&& p.target_monitor_name == index_field(m_idx) && p.is_admin == 0
            &&& p.msg != 0x020A ==> p.wheel_delta == 0
            &&& p.msg == 0x0200 || p.msg == 0x0201 || p.msg == 0x0202 || p.msg == 0x0204 || p.msg
                == 0x0205 || p.msg == 0x020A
        }),
{
    let msg = lemma_pointer_packet(m_idx, f, last_place, i);
    assert(pointer_packets(m_idx, f, last_place)[i] == mouse_packet(
        m_idx,
        msg.0,
        msg.1,
        f.x,
        f.y,
    ));
}

/// Which message each packet of a pointer is.
proof fn lemma_pointer_packet(
    m_idx: u32,
    f: PointerFrame,
    last_place: Option<(u32, u32)>,
    i: int,
) -> (msg: (u32, i32))
    requires
        0 <= i < pointer_packets(m_idx, f, last_place).len(),
    ensures
        pointer_packets(m_idx, f, last_place)[i] == mouse_packet(m_idx, msg.0, msg.1, f.x, f.y),
        msg.0 == WM_MOUSEMOVE || msg.0 == WM_LBUTTONDOWN || msg.0 == WM_LBUTTONUP || msg.0
            == WM_RBUTTONDOWN || msg.0 == WM_RBUTTONUP || msg.0 == WM_MOUSEWHEEL,
        msg.0 != WM_MOUSEWHEEL ==> msg.1 == 0,
{
    let n0 = opt(has_moved(f, last_place), blank(0)).len() as int;
    let n1 = n0 + opt(f.inside && f.primary_pressed, blank(0)).len();
    let n2 = n1 + opt(f.primary_released, blank(0)).len();
    let n3 = n2 + opt(f.inside && f.secondary_pressed, blank(0)).len();
    let n4 = n3 + opt(f.secondary_released, blank(0)).len();
    if i < n0 {
        (WM_MOUSEMOVE, 0)
    } else if i < n1 {
        (WM_LBUTTONDOWN, 0)
    } else if i < n2 {
        (WM_LBUTTONUP, 0)
    } else if i < n3 {
        (WM_RBUTTONDOWN, 0)
    } else if i < n4 {
        (WM_RBUTTONUP, 0)
    } else {
        (WM_MOUSEWHEEL, f.wheel@[i - n4])
    }
}

/// Which messages a pointer that is followed sends. There is one of a movement just where its
/// place cannot be told or is not that of the last message. There is one that the left button
/// goes down just where the primary button was pressed over the picture, and the right button so
/// for the secondary one; one that the left button comes up just where the primary button was
/// released, anywhere, and the right button so for the secondary one; and one of the wheel just
/// where it was turned over the picture.
pub proof fn pointer_sends_what_it_did(
    m_idx: u32,
    f: PointerFrame,
    last_place: Option<(u32, u32)>,
)
    requires
        f.inside || f.held,
    ensures
        ({
            let sent = pointer_packets(m_idx, f, last_place);
            &&& (exists|i: int| 0 <= i < sent.len() && (#[trigger] sent[i]).msg == 0x0200) <==> (
            f.place is None || last_place is None || (f.place->0).0 != (last_place->0).0 || (
            f.place->0).1 != (last_place->0).1)
            &&& (exists|i: int| 0 <= i < sent.len() && (#[trigger] sent[i]).msg == 0x0201) <==> (
            f.inside && f.primary_pressed)
            &&& (exists|i: int| 0 <= i < sent.len() && (#[trigger] sent[i]).msg == 0x0202)
                <==> f.primary_released
            &&& (exists|i: int| 0 <= i < sent.len() && (#[trigger] sent[i]).msg == 0x0204) <==> (
            f.inside && f.secondary_pressed)
            &&& (exists|i: int| 0 <= i < sent.len() && (#[trigger] sent[i]).msg == 0x0205)
                <==> f.secondary_released
            &&& (exists|i: int| 0 <= i < sent.len() && (#[trigger] sent[i]).msg == 0x020A) <==> (
            f.inside && f.wheel@.len() > 0)
        }),
{
    let sent = pointer_packets(m_idx, f, last_place);
    let n0 = opt(has_moved(f, last_place), blank(0)).len() as int;
    let n1 = n0 + opt(f.inside && f.primary_pressed, blank(0)).len();
    let n2 = n1 + opt(f.primary_released, blank(0)).len();
    let n3 = n2 + opt(f.inside && f.secondary_pressed, blank(0)).len();
    let n4 = n3 + opt(f.secondary_released, blank(0)).len();
    if has_moved(f, last_place) {
        assert(sent[0].msg == 0x0200);
    }
    if f.inside && f.primary_pressed {
        assert(sent[n0].msg == 0x0201);
    }
    if f.primary_released {
        assert(sent[n1].msg == 0x0202);
    }
    if f.inside && f.secondary_pressed {
        assert(sent[n2].msg == 0x0204);
    }
    if f.secondary_released {
        assert(sent[n3].msg == 0x0205);
    }
    if f.inside && f.wheel@.len() > 0 {
        assert(sent[n4].msg == 0x020A);
    }
}

/// The messages of a pointer come in the order of their codes: the movement, the left button down,
/// up, the right button down, up, and the wheel. None comes twice but those of the wheel.
pub proof fn pointer_messages_are_in_order(
    m_idx: u32,
    f: PointerFrame,
    last_place: Option<(u32, u32)>,
    i: int,
    j: int,
)
    requires
        0 <= i < j < pointer_packets(m_idx, f, last_place).len(),
    ensures
        ({
            let sent = pointer_packets(m_idx, f, last_place);
            sent[i].msg < sent[j].msg || (sent[i].msg == 0x020A && sent[j].msg == 0x020A)
        }),
{
}

/// Over the picture every turn of the wheel is sent, in order, as the last messages.
pub proof fn every_turn_of_the_wheel_is_sent(
    m_idx: u32,
    f: PointerFrame,
    last_place: Option<(u32, u32)>,
    k: int,
)
    requires
        f.inside,
        0 <= k < f.wheel@.len(),
    ensures
        ({
            let sent = pointer_packets(m_idx, f, last_place);
            let first = sent.len() - f.wheel@.len();
            &&& first >= 0
            &&& sent[first + k].msg == 0x020A
            &&& sent[first + k].wheel_delta == f.wheel@[k]
            &&& forall|i: int| 0 <= i < first ==> (#[trigger] sent[i]).msg != 0x020A
        }),
{
}

/// Which keys are sent for modifiers: the right or left key of each of Control, Shift and Alt just
/// where that modifier changed, the right one just where the system says that it is down.
pub proof fn changed_modifiers_are_sent(
    m_idx: u32,
    last: Modifiers,
    current: Modifiers,
    right: RightKeys,
)
    ensures
        ({
            let sent = modifier_packets(m_idx, last, current, right);
            &&& (exists|i: int| 0 <= i < sent.len() && (#[trigger] sent[i]).wparam == 0xA3) <==> (
            current.ctrl != last.ctrl && right.ctrl < 0)
            &&& (exists|i: int| 0 <= i < sent.len() && (#[trigger] sent[i]).wparam == 0xA2) <==> (
            current.ctrl != last.ctrl && right.ctrl >= 0)
            &&& (exists|i: int| 0 <= i < sent.len() && (#[trigger] sent[i]).wparam == 0xA1) <==> (
            current.shift != last.shift && right.shift < 0)
            &&& (exists|i: int| 0 <= i < sent.len() && (#[trigger] sent[i]).wparam == 0xA0) <==> (
            current.shift != last.shift && right.shift >= 0)
            &&& (exists|i: int| 0 <= i < sent.len() && (#[trigger] sent[i]).wparam == 0xA5) <==> (
            current.alt != last.alt && right.alt < 0)
            &&& (exists|i: int| 0 <= i < sent.len() && (#[trigger] sent[i]).wparam == 0xA4) <==> (
            current.alt != last.alt && right.alt >= 0)
        }),
{
    let sent = modifier_packets(m_idx, last, current, right);
    let n0 = opt(current.ctrl != last.ctrl, blank(0)).len() as int;
    let n1 = n0 + opt(current.shift != last.shift, blank(0)).len();
    if current.ctrl != last.ctrl {
        assert(sent[0].wparam == side(right.ctrl, VK_RCONTROL, VK_LCONTROL));
    }
    if current.shift != last.shift {
        assert(sent[n0].wparam == side(right.shift, VK_RSHIFT, VK_LSHIFT));
    }
    if current.alt != last.alt {
        assert(sent[n1].wparam == side(right.alt, VK_RMENU, VK_LMENU));
    }
}

/// A key that is sent for a modifier goes down where the modifier is now held and up where it is
/// not, with the modifiers that are now held. None is sent twice, and Control comes before Shift,
/// which comes before Alt.
pub proof fn modifier_keys_follow_the_modifiers(
    m_idx: u32,
    last: Modifiers,
    current: Modifiers,
    right: RightKeys,
    i: int,
    j: int,
)
    requires
        0 <= i < modifier_packets(m_idx, last, current, right).len(),
        0 <= j < modifier_packets(m_idx, last, current, right).len(),
    ensures
        ({
            let sent = modifier_packets(m_idx, last, current, right);
            let vk = sent[i].wparam;
            let next = sent[j].wparam;
            &&& sent[i].event_type == 1 && sent[i].lparam == current.mask()
            &&& sent[i].target_monitor_name == index_field(m_idx)
            &&& 0xA0 <= vk <= 0xA5
            &&& sent[i].msg == (if (vk == 0xA2 || vk == 0xA3) && current.ctrl || (vk == 0xA0 || vk
                == 0xA1) && current.shift || (vk == 0xA4 || vk == 0xA5) && current.alt {
                0x0100int
            } else {
                0x0101int
            })
            &&& i < j ==> {
                ||| (vk == 0xA2 || vk == 0xA3) && (next == 0xA0 || next == 0xA1 || next == 0xA4
                    || next == 0xA5)
                ||| (vk == 0xA0 || vk == 0xA1) && (next == 0xA4 || next == 0xA5)
            }
        }),
{
}

/// Of a text everything is typed but ASCII letters, digits and spaces, in order: what is typed of
/// two texts is what is typed of each, and a character is typed or not by itself.
pub proof fn text_is_typed_character_by_character(a: Seq<char>, b: Seq<char>, c: char)
    ensures
        typed(Seq::<char>::empty()) == Seq::<char>::empty(),
        typed(a + b) == typed(a) + typed(b),
        c == ' ' || 48 <= c as int <= 57 || 65 <= c as int <= 90 || 97 <= c as int <= 122 ==> typed(
            seq![c],
        ) == Seq::<char>::empty(),
        !(c == ' ' || 48 <= c as int <= 57 || 65 <= c as int <= 90 || 97 <= c as int <= 122)
            ==> typed(seq![c]) == seq![c],
    decreases b.len(),
{
    reveal_with_fuel(typed, 2);
    assert(seq![c].drop_last() =~= Seq::<char>::empty());
    assert(Seq::<char>::empty().push(c) =~= seq![c]);
    if b.len() == 0 {
        assert(a + b =~= a);
        assert(typed(a) + typed(b) =~= typed(a));
    } else {
        text_is_typed_character_by_character(a, b.drop_last(), c);
        assert((a + b).drop_last() =~= a + b.drop_last());
        assert((a + b).last() == b.last());
        assert(typed(a + b) =~= typed(a) + typed(b));
    }
}

/// Keyboard events are passed on one after the other: the packets of two runs of events are those
/// of the first and then those of the second.
pub proof fn events_are_passed_on_in_order(
    m_idx: u32,
    mods: Modifiers,
    a: Seq<KeyEvent>,
    b: Seq<KeyEvent>,
)
    ensures
        all_event_packets(m_idx, mods, Seq::<KeyEvent>::empty()) == Seq::<PacketView>::empty(),
        all_event_packets(m_idx, mods, a + b) == all_event_packets(m_idx, mods, a)
            + all_event_packets(m_idx, mods, b),
    decreases b.len(),
{
    if b.len() == 0 {
        assert(a + b =~= a);
        assert(all_event_packets(m_idx, mods, a) + all_event_packets(m_idx, mods, b)
            =~= all_event_packets(m_idx, mods, a));
    } else {
        events_are_passed_on_in_order(m_idx, mods, a, b.drop_last());
        assert((a + b).drop_last() =~= a + b.drop_last());
        assert((a + b).last() == b.last());
        assert(all_event_packets(m_idx, mods, a + b) =~= all_event_packets(m_idx, mods, a)
            + all_event_packets(m_idx, mods, b));
    }
}

/// What becomes of one keyboard event. A key with a code is one packet, down or up as the key
/// went, with its code and the modifiers that are held; a key without a code is none. A text is
/// one packet with what is typed of it, or none where nothing is. Anything else is none.
pub proof fn event_becomes_its_packet(m_idx: u32, mods: Modifiers, event: KeyEvent)
    ensures
        ({
            let sent = all_event_packets(m_idx, mods, seq![event]);
            match event {
                KeyEvent::Key { key, pressed } => {
                    &&& vk_of(key) == 0 ==> sent.len() == 0
                    &&& vk_of(key) != 0 ==> {
                        &&& sent.len() == 1
                        &&& sent[0].event_type == 1
                        &&& sent[0].wparam == vk_of(key)
                        &&& sent[0].msg == (if pressed {
                            0x0100int
                        } else {
                            0x0101int
                        })
                        &&& sent[0].lparam == mods.mask()
                        &&& sent[0].target_monitor_name == index_field(m_idx)
                    }
                },
                KeyEvent::Text(text) => {
                    &&& typed(text@).len() == 0 ==> sent.len() == 0
                    &&& typed(text@).len() > 0 ==> sent.len() == 1 && sent[0] == text_packet(
                        typed(text@),
                    )
                },
                KeyEvent::Other => sent.len() == 0,
            }
        }),
{
    reveal_with_fuel(all_event_packets, 2);
    assert(seq![event].drop_last() =~= Seq::<KeyEvent>::empty());
    assert(all_event_packets(m_idx, mods, seq![event]) =~= event_packets(m_idx, mods, event));
}

/// The keyboard goes on whatever the pointer is or does. The packets of a look are those of the
/// pointer alone, as of a look at which nothing else happened, then a key for each modifier that
/// changed, then those of the keyboard events, in order.
pub proof fn keyboard_goes_on_whatever_the_pointer_does(
    id: u32,
    pointer: Option<PointerFrame>,
    last_place: Option<(u32, u32)>,
    last: Modifiers,
    current: Modifiers,
    right: RightKeys,
    events: Seq<KeyEvent>,
)
    ensures
        ({
            let sent = input_packets(id, pointer, last_place, last, current, right, events);
            let pointed = match pointer {
                Some(frame) => pointer_packets(id % 100, frame, last_place),
                None => Seq::empty(),
            };
            let modified = modifier_packets(id % 100, last, current, right);
            let typed_in = all_event_packets(id % 100, current, events);
            &&& sent.len() == pointed.len() + modified.len() + typed_in.len()
            &&& sent.take(pointed.len() as int) == pointed
            &&& sent.subrange(
                pointed.len() as int,
                pointed.len() as int + modified.len(),
            ) == modified
            &&& sent.skip(pointed.len() as int + modified.len()) == typed_in
            &&& sent == input_packets(
                id,
                pointer,
                last_place,
                current,
                current,
                right,
                Seq::<KeyEvent>::empty(),
            ) + input_packets(id, None, last_place, last, current, right, events)
        }),
{
    let sent = input_packets(id, pointer, last_place, last, current, right, events);
    let pointed = match pointer {
        Some(frame) => pointer_packets(id % 100, frame, last_place),
        None => Seq::empty(),
    };
    let modified = modifier_packets(id % 100, last, current, right);
    let typed_in = all_event_packets(id % 100, current, events);
    assert(sent.take(pointed.len() as int) =~= pointed);
    assert(sent.subrange(pointed.len() as int, pointed.len() as int + modified.len()) =~= modified);
    assert(sent.skip(pointed.len() as int + modified.len()) =~= typed_in);
    assert(modifier_packets(id % 100, current, current, right) =~= Seq::<PacketView>::empty());
    assert(all_event_packets(id % 100, current, Seq::<KeyEvent>::empty())
        =~= Seq::<PacketView>::empty());
    assert(sent =~= input_packets(
        id,
        pointer,
        last_place,
        current,
        current,
        right,
        Seq::<KeyEvent>::empty(),
    ) + input_packets(id, None, last_place, last, current, right, events));
}

} // verus!
