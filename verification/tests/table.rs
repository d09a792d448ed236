use aster_dual::ports::{can_assign_port, get_auto_port, owner_of, read_entries};

fn pairs(content: &str) -> Vec<(String, u16)> {
    read_entries(content).into_iter().map(|e| (e.name, e.port)).collect()
}

#[test]
fn table_is_read_line_by_line() {
    assert_eq!(
        pairs("user1:9090\r\nbad\na:b:1\nuser2:70000\n:5\nuser3:+9092\nuser4:9094\r"),
        vec![("user1".to_string(), 9090), ("".to_string(), 5), ("user3".to_string(), 9092)]
    );
    assert_eq!(pairs(""), vec![]);
    assert_eq!(pairs("user1:1"), vec![("user1".to_string(), 1)]);
    assert_eq!(pairs("\n\nuser1:1\n"), vec![("user1".to_string(), 1)]);
}

#[test]
fn known_user_keeps_the_last_port() {
    let d = get_auto_port("a:9090\nb:9092\na:9100\n", "a", 9090);
    assert_eq!(d.port, 9100);
    assert!(d.content.is_none());
}

#[test]
fn first_user_gets_the_default_port() {
    let d = get_auto_port("", "user1", 9090);
    assert_eq!(d.port, 9090);
    assert_eq!(d.content.unwrap(), "user1:9090\n");
}

#[test]
fn new_user_gets_two_above_the_highest() {
    let d = get_auto_port("a:9090\nb:9096\na:9092\n", "c", 9090);
    assert_eq!(d.port, 9098);
    assert_eq!(d.content.unwrap(), "a:9092\nb:9096\nc:9098\n");
}

#[test]
fn replaced_port_does_not_count_for_the_highest() {
    let d = get_auto_port("a:9999\na:9092\n", "c", 9090);
    assert_eq!(d.port, 9094);
}

#[test]
fn assigned_port_is_kept_and_the_others_too() {
    let first = get_auto_port("a:9090\n", "b", 9090);
    let written = first.content.unwrap();
    let again = get_auto_port(&written, "b", 9090);
    assert_eq!(again.port, first.port);
    assert!(again.content.is_none());
    assert_eq!(get_auto_port(&written, "a", 9090).port, 9090);
}

#[test]
fn no_port_beyond_the_last() {
    assert!(!can_assign_port("a:65534\n", "b", 9090));
    assert!(can_assign_port("a:65533\n", "b", 9090));
    assert!(can_assign_port("a:65535\n", "a", 0));
    assert!(!can_assign_port("", "a", 1));
    assert!(can_assign_port("", "a", 2));
}

#[test]
fn owner_is_the_last_user_of_the_port() {
    let list = read_entries("a:9090\nb:9092\nc:9090\n");
    assert_eq!(owner_of(&list, 9090), "c");
    assert_eq!(owner_of(&list, 9092), "b");
    assert_eq!(owner_of(&list, 9094), "P:9094");
}
