use aster_dual::control::{KeyEvent, Modifiers, RightKeys};
use aster_dual::keys::Key;
use aster_dual::monitors::{
    cache_is_stale, can_measure, frame_pause_ms, keep_monitors, monitor_entry, rect_size,
    target_rect, MonitorInfo, Rect, NO_FOCUS,
};
use aster_dual::session::Session;
use aster_dual::view::{
    focus_packets, grid_label, grid_row, grid_rows, monitor_input, monitor_label, motion_packets,
    selection_label, sorted_ids, thumbnail_label, Centre, Outgoing, ViewState,
};

fn logged_in() -> Session {
    let mut session = Session::new();
    session.take_events(Some(("kim".to_string(), String::new())), None, false);
    session
}

fn rect(left: i32, top: i32, right: i32, bottom: i32) -> Rect {
    Rect { left, top, right, bottom }
}

fn monitor(name: &str, left: i32) -> MonitorInfo {
    let mut device: Vec<u16> = name.encode_utf16().collect();
    device.resize(32, 0);
    monitor_entry(&device, rect(left, 0, left + 10, 10), 1, 77)
}

#[test]
fn device_name_ends_at_the_zeros() {
    let info = monitor("\\\\.\\DISPLAY1", 0);
    assert_eq!(info.name, "\\\\.\\DISPLAY1");
    assert!(info.is_primary);
    assert_eq!(info.handle, 77);
    let odd = monitor_entry(&[0, 0x41, 0, 0x42, 0, 0], rect(0, 0, 1, 1), 2, 0);
    assert_eq!(odd.name, "A\u{0}B");
    assert!(!odd.is_primary);
}

#[test]
fn marked_monitor_is_left_out() {
    let list =
        keep_monitors(&vec![monitor("A", 0), monitor("xJtnCw8iKfGVx$y", 1), monitor("B", 2)]);
    let names: Vec<&str> = list.iter().map(|m| m.name.as_str()).collect();
    assert_eq!(names, vec!["A", "B"]);
    assert_eq!(list[1].rect.left, 2);
}

#[test]
fn packet_goes_to_its_monitor_or_the_first() {
    let list = vec![monitor("A", 5), monitor("B", 6)];
    assert_eq!(target_rect(&list, 1).left, 6);
    assert_eq!(target_rect(&list, 2).left, 5);
    assert_eq!(target_rect(&list, -1).left, 5);
    assert_eq!(target_rect(&Vec::new(), 0), rect(0, 0, 0, 0));
}

#[test]
fn monitors_are_measured() {
    assert_eq!(rect_size(rect(-1920, 0, 0, 1080)), (1920, 1080));
    assert_eq!(rect_size(rect(1, 0, 0, 0)), (u32::MAX, 0));
    assert!(!can_measure(rect(i32::MIN, 0, i32::MAX, 0)));
    assert!(can_measure(rect(0, 0, i32::MAX, 0)));
}

#[test]
fn list_of_monitors_lasts_five_seconds() {
    assert!(!cache_is_stale(5_000_000_000, 1));
    assert!(cache_is_stale(5_000_000_001, 1));
    assert!(cache_is_stale(0, 0));
}

#[test]
fn monitor_with_the_focus_is_fast() {
    assert_eq!(frame_pause_ms(NO_FOCUS, 3), 1);
    assert_eq!(frame_pause_ms(3, 3), 1);
    assert_eq!(frame_pause_ms(2, 3), 30);
}

#[test]
fn view_follows_the_user() {
    let mut v = ViewState::new();
    assert_eq!(v.centre(), Centre::Nothing);
    v.toggle_input(&logged_in());
    assert!(v.input_active);
    v.select(&logged_in(), 909001);
    assert_eq!(v.centre(), Centre::Monitor(909001));
    assert!(v.is_shown(909001));
    v.show_grid(&logged_in());
    assert_eq!(v.centre(), Centre::Grid);
    assert!(v.is_selected(909001));
    assert!(!v.is_shown(909001));
    v.select(&logged_in(), 909002);
    assert!(!v.is_selected(909001));
    assert!(!v.grid_view);
    assert!(v.input_active);
}

#[test]
fn view_stays_while_nobody_is_logged_in() {
    let closed = Session::new();
    let mut view = ViewState::new();
    view.select(&logged_in(), 909001);
    let before = view;
    view.toggle_input(&closed);
    view.select(&closed, 909002);
    view.show_grid(&closed);
    assert_eq!(view, before);
}

#[test]
fn monitors_are_listed_in_order() {
    assert_eq!(sorted_ids(&vec![3, 1, 2, 1]), vec![1, 1, 2, 3]);
    assert_eq!(sorted_ids(&Vec::new()), Vec::<u32>::new());
}

#[test]
fn labels_count_from_one() {
    assert_eq!(thumbnail_label(909000, "user1"), "Monitor #1 (user1)");
    assert_eq!(monitor_label(909004), "🖥 모니터 #5 (Port: 9090)");
    assert_eq!(monitor_label(6553600), "🖥 모니터 #1 (Port: 0)");
    assert_eq!(grid_label(6553600), "🖥 모니터 #1 (Port: 65536)");
    assert_eq!(selection_label(Some(909004)), "선택됨: 모니터 #5 (포트: 9090)");
    assert_eq!(selection_label(None), "하단에서 모니터를 선택하세요.");
}

#[test]
fn change_of_selection_is_told_to_every_worker() {
    let table = "a:9090\nbad\nb:9092\n";
    let open = logged_in();
    let news = focus_packets(&open, None, Some(909203), table);
    let sent: Vec<(u16, u8, u32)> =
        news.iter().map(|o| (o.port, o.packet.event_type, o.packet.msg)).collect();
    assert_eq!(sent, vec![(9090, 3, 3), (9092, 3, 3)]);
    assert!(focus_packets(&open, Some(909203), Some(909203), table).is_empty());
    assert!(focus_packets(&open, Some(909203), None, table).is_empty());
    assert!(focus_packets(&Session::new(), None, Some(909203), table).is_empty());
}

#[test]
fn movement_needs_active_input_and_the_wheel_does_not() {
    let both = motion_packets(true, 909001, Some((3, -4)), Some(30));
    assert_eq!(both.len(), 2);
    assert_eq!((both[0].port, both[0].packet.x_delta, both[0].packet.y_delta), (9090, 3, -4));
    assert_eq!((both[1].packet.event_type, both[1].packet.wheel_delta), (4, 30));
    let passive = motion_packets(false, 909001, Some((3, -4)), Some(30));
    assert_eq!(passive.len(), 1);
    assert_eq!(passive[0].packet.event_type, 4);
    assert!(motion_packets(true, 909001, None, None).is_empty());
}

fn shift_and_a(session: &Session, view: &ViewState, last: &mut Modifiers) -> Vec<Outgoing> {
    let held = Modifiers { ctrl: false, shift: true, alt: false, command: false };
    let right = RightKeys { ctrl: 0, shift: 0, alt: 0 };
    let events = vec![KeyEvent::Key { key: Key::A, pressed: true }];
    monitor_input(
        session,
        view,
        909001,
        Some((3, -4)),
        Some(30),
        &None,
        &mut None,
        last,
        held,
        right,
        &events,
    )
}

#[test]
fn input_goes_to_the_worker_of_the_monitor() {
    let mut view = ViewState::new();
    view.select(&logged_in(), 909001);
    view.toggle_input(&logged_in());
    let mut last = Modifiers::none();
    let sent = shift_and_a(&logged_in(), &view, &mut last);
    let kinds: Vec<u8> = sent.iter().map(|o| o.packet.event_type).collect();
    assert_eq!(kinds, vec![0, 4, 1, 1]);
    assert!(sent.iter().all(|o| o.port == 9090));
    assert_eq!((sent[2].packet.wparam, sent[3].packet.wparam), (0xA0, 0x41));
    assert!(last.shift);
}

#[test]
fn looking_only_passes_nothing_but_the_wheel() {
    let mut view = ViewState::new();
    view.select(&logged_in(), 909001);
    let mut last = Modifiers::none();
    let sent = shift_and_a(&logged_in(), &view, &mut last);
    assert_eq!(sent.len(), 1);
    assert_eq!((sent[0].port, sent[0].packet.event_type), (9090, 4));
    assert_eq!(last, Modifiers::none());
}

#[test]
fn nothing_is_sent_without_a_session_or_for_a_monitor_out_of_sight() {
    let mut view = ViewState::new();
    view.select(&logged_in(), 909001);
    view.toggle_input(&logged_in());
    let mut last = Modifiers::none();
    assert!(shift_and_a(&Session::new(), &view, &mut last).is_empty());
    let mut grid = view;
    grid.show_grid(&logged_in());
    assert!(shift_and_a(&logged_in(), &grid, &mut last).is_empty());
    view.select(&logged_in(), 909002);
    assert!(shift_and_a(&logged_in(), &view, &mut last).is_empty());
    assert_eq!(last, Modifiers::none());
}

#[test]
fn grid_shows_each_monitor_in_one_place() {
    let ids = vec![10, 11, 12, 13, 14];
    assert_eq!(grid_rows(5, 2), 3);
    assert_eq!(grid_rows(4, 2), 2);
    assert_eq!(grid_rows(0, 2), 0);
    let mut all: Vec<u32> = Vec::new();
    for row in 0..3 {
        all.extend(grid_row(&ids, row, 2));
    }
    assert_eq!(all, ids);
    assert_eq!(grid_row(&ids, 0, usize::MAX), ids);
}
