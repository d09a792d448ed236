use aster_dual::control::{
    address_of, handle_input_static, index_of, make_focus_packet, make_key_packet,
    make_mouse_packet, make_move_packet, make_text_packet, make_wheel_packet, port_of, typed_text,
    unique_id, KeyEvent, Modifiers, PointerFrame, RightKeys,
};
use aster_dual::keys::{egui_key_to_vk, Key};
use aster_dual::packet::{
    decode_packet, encode_packet, InputPacket, WM_KEYDOWN, WM_KEYUP, WM_LBUTTONDOWN, WM_LBUTTONUP,
    WM_MOUSEMOVE, WM_MOUSEWHEEL, WM_RBUTTONDOWN, WM_RBUTTONUP,
};
use aster_dual::remote::{
    handle_remote_input, inquire, Batch, Inquiry, KeyInput, MouseInput, KEYEVENTF_EXTENDEDKEY,
    KEYEVENTF_KEYUP, KEYEVENTF_SCANCODE, KEYEVENTF_UNICODE, MOUSEEVENTF_ABSOLUTE,
    MOUSEEVENTF_LEFTDOWN, MOUSEEVENTF_LEFTUP, MOUSEEVENTF_MOVE, MOUSEEVENTF_RIGHTDOWN,
    MOUSEEVENTF_RIGHTUP, MOUSEEVENTF_VIRTUALDESK, MOUSEEVENTF_WHEEL,
};
use windows::Win32::UI::Input::KeyboardAndMouse as km;

const NO_RIGHT: RightKeys = RightKeys { ctrl: 0, shift: 0, alt: 0 };

fn mods(ctrl: bool, shift: bool, alt: bool, command: bool) -> Modifiers {
    Modifiers { ctrl, shift, alt, command }
}

fn frame() -> PointerFrame {
    PointerFrame {
        inside: true,
        held: false,
        place: Some((1, 2)),
        x: 100,
        y: 200,
        primary_pressed: true,
        primary_released: true,
        secondary_pressed: true,
        secondary_released: true,
        wheel: vec![40, -80],
    }
}

#[test]
fn flags_are_those_of_the_system() {
    assert_eq!(MOUSEEVENTF_MOVE, km::MOUSEEVENTF_MOVE.0);
    assert_eq!(MOUSEEVENTF_LEFTDOWN, km::MOUSEEVENTF_LEFTDOWN.0);
    assert_eq!(MOUSEEVENTF_LEFTUP, km::MOUSEEVENTF_LEFTUP.0);
    assert_eq!(MOUSEEVENTF_RIGHTDOWN, km::MOUSEEVENTF_RIGHTDOWN.0);
    assert_eq!(MOUSEEVENTF_RIGHTUP, km::MOUSEEVENTF_RIGHTUP.0);
    assert_eq!(MOUSEEVENTF_WHEEL, km::MOUSEEVENTF_WHEEL.0);
    assert_eq!(MOUSEEVENTF_VIRTUALDESK, km::MOUSEEVENTF_VIRTUALDESK.0);
    assert_eq!(MOUSEEVENTF_ABSOLUTE, km::MOUSEEVENTF_ABSOLUTE.0);
    assert_eq!(KEYEVENTF_EXTENDEDKEY, km::KEYEVENTF_EXTENDEDKEY.0);
    assert_eq!(KEYEVENTF_KEYUP, km::KEYEVENTF_KEYUP.0);
    assert_eq!(KEYEVENTF_UNICODE, km::KEYEVENTF_UNICODE.0);
    assert_eq!(KEYEVENTF_SCANCODE, km::KEYEVENTF_SCANCODE.0);
}

#[test]
fn keys_have_the_codes_of_the_system() {
    assert_eq!(egui_key_to_vk(Key::A), km::VK_A.0);
    assert_eq!(egui_key_to_vk(Key::Num9), km::VK_9.0);
    assert_eq!(egui_key_to_vk(Key::Enter), km::VK_RETURN.0);
    assert_eq!(egui_key_to_vk(Key::PageDown), km::VK_NEXT.0);
    assert_eq!(egui_key_to_vk(Key::F12), km::VK_F12.0);
    assert_eq!(egui_key_to_vk(Key::Semicolon), km::VK_OEM_1.0);
    assert_eq!(egui_key_to_vk(Key::Other), 0);
}

#[test]
fn number_of_a_monitor_gives_port_and_index() {
    assert_eq!(unique_id(9090, 7), 909007);
    assert_eq!(port_of(909007), 9090);
    assert_eq!(index_of(909007), 7);
    assert_eq!(unique_id(65535, 99), 6553599);
    assert_eq!(port_of(6553600), 0);
    assert_eq!(address_of("10.0.0.1", 9092), "10.0.0.1:9092");
}

#[test]
fn pointer_comes_first_and_in_order() {
    let mut last = mods(false, false, false, false);
    let held = last;
    let packets =
        handle_input_static(909002, &Some(frame()), &mut None, &mut last, held, NO_RIGHT, &Vec::new());
    let msgs: Vec<u32> = packets.iter().map(|p| p.msg).collect();
    assert_eq!(
        msgs,
        vec![
            WM_MOUSEMOVE, WM_LBUTTONDOWN, WM_LBUTTONUP, WM_RBUTTONDOWN, WM_RBUTTONUP,
            WM_MOUSEWHEEL, WM_MOUSEWHEEL
        ]
    );
    assert_eq!(packets[5].wheel_delta, 40);
    assert_eq!(packets[6].wheel_delta, -80);
    for p in &packets {
        assert_eq!((p.event_type, p.x, p.y), (0, 100, 200));
        assert_eq!(p.target_monitor_name[0], '2' as u16);
        assert_eq!(p.target_monitor_name[1], 0);
    }
}

#[test]
fn outside_only_releases_and_movements_count() {
    let mut f = frame();
    f.inside = false;
    f.held = true;
    let mut last = mods(false, false, false, false);
    let held = last;
    let packets = handle_input_static(909000, &Some(f), &mut None, &mut last, held, NO_RIGHT, &Vec::new());
    let msgs: Vec<u32> = packets.iter().map(|p| p.msg).collect();
    assert_eq!(msgs, vec![WM_MOUSEMOVE, WM_LBUTTONUP, WM_RBUTTONUP]);
    let mut f = frame();
    f.inside = false;
    assert!(handle_input_static(909000, &Some(f), &mut None, &mut last, held, NO_RIGHT, &Vec::new()).is_empty());
    assert!(handle_input_static(909000, &None, &mut None, &mut last, held, NO_RIGHT, &Vec::new()).is_empty());
}

#[test]
fn movement_is_sent_where_the_place_changes() {
    let mut last = mods(false, false, false, false);
    let held = last;
    let mut place = None;
    let mut moves = |f: PointerFrame| -> usize {
        handle_input_static(909000, &Some(f), &mut place, &mut last, held, NO_RIGHT, &Vec::new())
            .iter()
            .filter(|p| p.msg == WM_MOUSEMOVE)
            .count()
    };
    let at = |place: Option<(u32, u32)>, inside: bool| {
        let mut f = frame();
        f.place = place;
        f.inside = inside;
        f
    };
    assert_eq!(moves(at(Some((1, 2)), true)), 1);
    assert_eq!(moves(at(Some((1, 2)), true)), 0);
    assert_eq!(moves(at(Some((1, 3)), true)), 1);
    assert_eq!(moves(at(Some((9, 9)), false)), 0);
    assert_eq!(moves(at(Some((1, 3)), true)), 0);
    assert_eq!(moves(at(None, true)), 1);
    assert_eq!(moves(at(None, true)), 1);
    assert_eq!(moves(at(Some((1, 3)), true)), 1);
}

#[test]
fn modifiers_that_change_become_keys() {
    let mut last = mods(false, true, false, false);
    let current = mods(true, false, true, true);
    let right = RightKeys { ctrl: -32768, shift: 1, alt: -1 };
    let packets = handle_input_static(909001, &None, &mut None, &mut last, current, right, &Vec::new());
    assert_eq!(last, current);
    let keys: Vec<(u64, u32, i64)> = packets.iter().map(|p| (p.wparam, p.msg, p.lparam)).collect();
    assert_eq!(keys, vec![(0xA3, WM_KEYDOWN, 13), (0xA0, WM_KEYUP, 13), (0xA5, WM_KEYDOWN, 13)]);
    let again = handle_input_static(909001, &None, &mut None, &mut last, current, right, &Vec::new());
    assert!(again.is_empty());
}

#[test]
fn keyboard_events_become_keys_and_text() {
    let mut last = mods(false, true, false, false);
    let held = last;
    let events = vec![
        KeyEvent::Key { key: Key::A, pressed: true },
        KeyEvent::Key { key: Key::Other, pressed: true },
        KeyEvent::Text("abc 1".to_string()),
        KeyEvent::Text("a@한".to_string()),
        KeyEvent::Other,
        KeyEvent::Key { key: Key::A, pressed: false },
    ];
    let packets = handle_input_static(909003, &None, &mut None, &mut last, held, NO_RIGHT, &events);
    assert_eq!(packets.len(), 3);
    assert_eq!((packets[0].event_type, packets[0].msg, packets[0].wparam), (1, WM_KEYDOWN, 0x41));
    assert_eq!(packets[0].lparam, 2);
    assert_eq!(packets[1].event_type, 2);
    assert_eq!(&packets[1].target_monitor_name[0..3], &['@' as u16, 0xD55C, 0]);
    assert_eq!((packets[2].event_type, packets[2].msg, packets[2].wparam), (1, WM_KEYUP, 0x41));
}

#[test]
fn letters_digits_and_spaces_are_not_typed() {
    assert_eq!(typed_text("aZ09 !ä\t"), "!ä\t");
    assert_eq!(typed_text(""), "");
}

fn arrives(p: &InputPacket) -> InputPacket {
    decode_packet(&encode_packet(p)).unwrap()
}

#[test]
fn mouse_message_arrives_with_its_button() {
    let base = MOUSEEVENTF_ABSOLUTE | MOUSEEVENTF_VIRTUALDESK | MOUSEEVENTF_MOVE;
    for (msg, flag) in [
        (WM_MOUSEMOVE, 0),
        (WM_LBUTTONDOWN, MOUSEEVENTF_LEFTDOWN),
        (WM_LBUTTONUP, MOUSEEVENTF_LEFTUP),
        (WM_RBUTTONDOWN, MOUSEEVENTF_RIGHTDOWN),
        (WM_RBUTTONUP, MOUSEEVENTF_RIGHTUP),
    ] {
        let p = arrives(&make_mouse_packet(1, msg, 0, 5, 6));
        assert_eq!((p.x, p.y), (5, 6));
        assert_eq!(inquire(&p), Inquiry::Place);
        assert_eq!(
            handle_remote_input(&p, (11, 12), 0),
            vec![Batch::Mouse(MouseInput { dx: 11, dy: 12, mouse_data: 0, flags: base | flag })]
        );
    }
}

#[test]
fn movement_and_wheel_arrive() {
    let p = arrives(&make_move_packet(0, -7));
    assert_eq!(inquire(&p), Inquiry::Nothing);
    assert_eq!(
        handle_remote_input(&p, (1, 1), 1),
        vec![Batch::Mouse(MouseInput { dx: 0, dy: -7, mouse_data: 0, flags: MOUSEEVENTF_MOVE })]
    );
    let p = arrives(&make_wheel_packet(-120));
    assert_eq!(
        handle_remote_input(&p, (1, 1), 1),
        vec![Batch::Mouse(MouseInput {
            dx: 0,
            dy: 0,
            mouse_data: -120i32 as u32,
            flags: MOUSEEVENTF_WHEEL
        })]
    );
}

#[test]
fn key_arrives_by_scan_code_or_by_code() {
    let p = arrives(&make_key_packet(0, 0x25, true, mods(false, false, false, false)));
    assert_eq!(inquire(&p), Inquiry::ScanCode(0x25));
    assert_eq!(
        handle_remote_input(&p, (0, 0), 0x4B),
        vec![Batch::Key(KeyInput {
            vk: 0,
            scan: 0x4B,
            flags: KEYEVENTF_SCANCODE | KEYEVENTF_EXTENDEDKEY
        })]
    );
    let p = arrives(&make_key_packet(0, 0x41, false, mods(false, false, false, false)));
    assert_eq!(
        handle_remote_input(&p, (0, 0), 0),
        vec![Batch::Key(KeyInput { vk: 0x41, scan: 0, flags: KEYEVENTF_KEYUP })]
    );
}

#[test]
fn extended_keys_are_marked() {
    for vk in 0u16..0x120 {
        let p = make_key_packet(0, vk, true, mods(false, false, false, false));
        let expected = matches!(
            vk,
            0x21..=0x28 | 0x2D | 0x2E | 0x6F | 0x90 | 0xA3 | 0xA5 | 0x5B | 0x5C | 0x5D | 0x15 | 0x19
        );
        match handle_remote_input(&p, (0, 0), 1)[0] {
            Batch::Key(k) => assert_eq!(k.flags & KEYEVENTF_EXTENDEDKEY != 0, expected),
            _ => panic!("key expected"),
        }
    }
}

#[test]
fn text_arrives_unit_by_unit() {
    let p = arrives(&make_text_packet("@한"));
    let stroke = |c: u16| {
        Batch::Stroke(
            KeyInput { vk: 0, scan: c, flags: KEYEVENTF_UNICODE },
            KeyInput { vk: 0, scan: c, flags: KEYEVENTF_UNICODE | KEYEVENTF_KEYUP },
        )
    };
    assert_eq!(handle_remote_input(&p, (0, 0), 0), vec![stroke('@' as u16), stroke(0xD55C)]);
    let long = "!".repeat(50);
    assert_eq!(handle_remote_input(&arrives(&make_text_packet(&long)), (0, 0), 0).len(), 31);
}

#[test]
fn focus_and_unknown_packets_are_no_input() {
    assert!(handle_remote_input(&make_focus_packet(2), (0, 0), 0).is_empty());
    assert!(handle_remote_input(&InputPacket::new(9), (0, 0), 0).is_empty());
    assert_eq!(inquire(&InputPacket::new(9)), Inquiry::Nothing);
}
