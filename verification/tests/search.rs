use aster_dual::discovery::{discover, is_worker_user, slots_to_try};

#[test]
fn only_users_1_to_100_are_workers() {
    for name in ["user1", "USER100", "User42", "user7"] {
        assert!(is_worker_user(name), "{}", name);
    }
    for name in [
        "user0", "user101", "user", "admin", "use1", "user1a", "user-1", "", "xuser1", "user+7",
        "user007", "user01", "user+", "user0100",
    ] {
        assert!(!is_worker_user(name), "{}", name);
    }
}

#[test]
fn new_workers_are_found_once() {
    let mut met: Vec<String> = Vec::new();
    let table = "user1:9090\nadmin:9092\nUser2:9094\nuser1:9096\n";
    let found = discover(&mut met, table, "uSER2");
    assert_eq!(found.len(), 1);
    assert_eq!((found[0].name.as_str(), found[0].port), ("user1", 9090));
    assert_eq!(met, vec!["user1".to_string(), "admin".to_string(), "User2".to_string()]);
    assert!(discover(&mut met, table, "uSER2").is_empty());
    assert_eq!(met.len(), 3);
    let found = discover(&mut met, "user3:9098\n", "uSER2");
    assert_eq!(found.len(), 1);
    assert_eq!(met.len(), 4);
}

#[test]
fn names_like_those_of_workers_are_not_watched() {
    let mut met: Vec<String> = Vec::new();
    let found = discover(&mut met, "user+5:9090\nuser007:9092\nUSER7:9094\n", "me");
    assert_eq!(found.len(), 1);
    assert_eq!((found[0].name.as_str(), found[0].port), ("USER7", 9094));
    assert_eq!(met.len(), 3);
}

#[test]
fn monitors_that_are_open_are_not_tried() {
    let slots = slots_to_try("User1", 9090, &vec![0, 2, 3, 4, 5, 6]);
    assert_eq!(slots.len(), 2);
    assert_eq!(slots[0].m_idx, 1);
    assert_eq!(slots[0].unique_id, 909001);
    assert_eq!(slots[0].shm_name, "Global\\AsterShm_user1_1");
    assert_eq!(slots[1].m_idx, 7);
    assert_eq!(slots[1].evt_name, "Global\\AsterEvt_user1_7");
    assert_eq!(slots_to_try("User1", 9090, &Vec::new()).len(), 8);
}
