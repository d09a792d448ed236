use aster_dual::names::{evt_name_for, instance_lock_name, shm_name_for};

#[test]
fn shared_memory_name_is_sanitised_and_lower_case() {
    assert_eq!(shm_name_for("User 1", 3), "Global\\AsterShm_user_1_3");
}

#[test]
fn event_name_is_sanitised_and_lower_case() {
    assert_eq!(evt_name_for("User.1", 0), "Global\\AsterEvt_user_1_0");
}

#[test]
fn case_of_the_user_name_does_not_matter() {
    assert_eq!(shm_name_for("USER7", 1), shm_name_for("user7", 1));
    assert_eq!(evt_name_for("UsEr7", 1), evt_name_for("user7", 1));
}

#[test]
fn letters_beyond_ascii_stay_and_fall() {
    assert_eq!(shm_name_for("ÄÖ-홍길동", 12), "Global\\AsterShm_äö_홍길동_12");
}

#[test]
fn empty_user_name_has_a_name() {
    assert_eq!(shm_name_for("", 0), "Global\\AsterShm__0");
}

#[test]
fn each_monitor_has_a_name_of_its_own() {
    assert_ne!(shm_name_for("user1", 1), shm_name_for("user1", 11));
    assert_ne!(shm_name_for("user1", 1), evt_name_for("user1", 1));
}

#[test]
fn lock_is_per_user_for_workers_only() {
    assert_eq!(instance_lock_name(true, "Kim"), "Global\\AsterDualWorkerMutex_Kim");
    assert_eq!(instance_lock_name(false, "Kim"), "Global\\AsterDualControllerMutex");
}

#[test]
fn object_names_stay_global() {
    for user in ["a\\b\0c", "\\\\", "", "ÄÖ\\홍길동\0"] {
        for name in [shm_name_for(user, 3), evt_name_for(user, 3)] {
            assert!(name.starts_with("Global\\Aster"), "{}", name);
            assert_eq!(name.matches('\\').count(), 1, "{}", name);
            assert!(!name.contains('\0'));
        }
    }
}

#[test]
fn users_have_names_of_their_own() {
    assert_ne!(shm_name_for("user1", 11), shm_name_for("user11", 1));
    assert_ne!(shm_name_for("a_1", 1), shm_name_for("a", 11));
    assert_ne!(shm_name_for("a", 1), shm_name_for("b", 1));
    assert_eq!(shm_name_for("a.b", 1), shm_name_for("a b", 1));
}

#[test]
fn what_is_no_letter_is_replaced_beyond_ascii_too() {
    assert_eq!(shm_name_for("Kim🙂", 1), "Global\\AsterShm_kim__1");
    assert_eq!(shm_name_for("KIM🙂", 1), shm_name_for("kim🙂", 1));
    assert_eq!(evt_name_for("KIM-ß", 1), evt_name_for("kim-ß", 1));
}
