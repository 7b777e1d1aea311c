use nethsm_session::{SessionManager, SlotConfig};

fn slot(label: &str) -> SlotConfig {
    SlotConfig { label: label.to_string(), api_url: "https://hsm.example/api/v1".to_string() }
}

fn handles(m: &SessionManager) -> Vec<u64> {
    m.sessions.iter().map(|(h, _)| *h).collect()
}

#[test]
fn handles_increase_and_never_repeat() {
    let mut m = SessionManager::new();
    let a = m.create_session(0, slot("a"), 4);
    let b = m.create_session(0, slot("a"), 4);
    assert_eq!((a, b), (1, 2));
    m.delete_session(b);
    let c = m.create_session(1, slot("b"), 4);
    assert_eq!(c, 3);
    m.delete_all_slot_sessions(0);
    m.delete_all_slot_sessions(1);
    let d = m.create_session(0, slot("a"), 4);
    assert_eq!(d, 4);
}

#[test]
fn delete_removes_exactly_that_session() {
    let mut m = SessionManager::new();
    let a = m.create_session(0, slot("a"), 4);
    let b = m.create_session(1, slot("b"), 6);
    let (h, s) = m.delete_session(a).expect("open session");
    assert_eq!(h, a);
    assert_eq!(s.slot_id, 0);
    assert!(m.get_session(a).is_none());
    assert!(m.delete_session(a).is_none());
    assert_eq!(m.get_session(b).expect("still open").flags, 6);
}

#[test]
fn get_session_mut_changes_the_stored_session() {
    let mut m = SessionManager::new();
    let a = m.create_session(0, slot("a"), 4);
    m.get_session_mut(a).expect("open session").device_error = 48;
    assert_eq!(m.get_session(a).unwrap().device_error, 48);
    assert!(m.get_session_mut(a + 1).is_none());
    assert!(m.get_session(0).is_none());
}

#[test]
fn bulk_close_by_slot() {
    let mut m = SessionManager::new();
    let a = m.create_session(0, slot("a"), 4);
    let b = m.create_session(1, slot("b"), 4);
    let c = m.create_session(0, slot("a"), 4);
    let d = m.create_session(2, slot("c"), 4);
    m.delete_all_slot_sessions(0);
    assert_eq!(handles(&m), vec![b, d]);
    assert!(m.get_session(a).is_none() && m.get_session(c).is_none());
    m.delete_all_slot_sessions(5);
    assert_eq!(handles(&m), vec![b, d]);
}

#[test]
fn bulk_close_order_does_not_matter() {
    let build = || {
        let mut m = SessionManager::new();
        for slot_id in [0u64, 1, 2, 0, 1, 2] {
            m.create_session(slot_id, slot("s"), 4);
        }
        m
    };
    let mut x = build();
    x.delete_all_slot_sessions(0);
    x.delete_all_slot_sessions(1);
    let mut y = build();
    y.delete_all_slot_sessions(1);
    y.delete_all_slot_sessions(0);
    assert_eq!(handles(&x), handles(&y));
    assert_eq!(handles(&x), vec![3, 6]);
}

#[test]
fn created_session_is_fresh() {
    let mut m = SessionManager::new();
    let a = m.create_session(3, slot("a"), 6);
    let s = m.get_session(a).expect("open session");
    assert_eq!(s.slot_id, 3);
    assert_eq!(s.flags, 6);
    assert_eq!(s.state, 0);
    assert_eq!(s.device_error, 0);
    assert!(!s.fetched_all_keys);
    assert!(s.sign_ctx.is_none() && s.encrypt_ctx.is_none() && s.decrypt_ctx.is_none());
    assert!(s.enum_ctx.is_none());
    assert!(!s.search_pending());
    assert_eq!(s.db().len(), 0);
    assert_eq!(s.slot().label, "a");
}
