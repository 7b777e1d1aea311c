use nethsm_session::{
    choose_filter, find_key_id, KeyRecord, RawAttr, RemoteReply, SearchAction, Session,
    SessionError, SlotConfig, ATTR_ID, ATTR_LABEL,
};

fn slot() -> SlotConfig {
    SlotConfig { label: "slot0".to_string(), api_url: "https://hsm.example/api/v1".to_string() }
}

fn record(kind: &str) -> KeyRecord {
    KeyRecord {
        key_type: kind.to_string(),
        mechanisms: vec!["RSA_Signature_PKCS1".to_string()],
        public_data: vec![1, 2, 3],
    }
}

fn attr(kind: u64, text: &str) -> RawAttr {
    RawAttr { kind, value: Some(text.as_bytes().to_vec()) }
}

/// Answers the requests of a search from a fixed inventory of key ids, and
/// counts the requests it was asked.
fn drive(session: &mut Session, first: SearchAction, inventory: &[&str], calls: &mut usize) -> Result<(), SessionError> {
    let mut action = first;
    loop {
        match action {
            SearchAction::Finished(r) => return r,
            SearchAction::ListKeys => {
                *calls += 1;
                let ids = inventory.iter().map(|s| s.to_string()).collect();
                action = session.handle_reply(RemoteReply::KeyList(ids));
            },
            SearchAction::FetchKey(id) => {
                *calls += 1;
                let reply = if inventory.contains(&id.as_str()) {
                    RemoteReply::Key(record(&format!("type-{}", id)))
                } else {
                    RemoteReply::Failed
                };
                action = session.handle_reply(reply);
            },
        }
    }
}

fn ctx(session: &Session) -> Vec<u64> {
    session.enum_ctx.as_ref().expect("a search context").handles.clone()
}

#[test]
fn attribute_kinds_match_pkcs11() {
    assert_eq!(ATTR_ID, cryptoki_sys::CKA_ID as u64);
    assert_eq!(ATTR_LABEL, cryptoki_sys::CKA_LABEL as u64);
}

#[test]
fn search_by_id_found() {
    let mut s = Session::new(1, slot(), 4);
    let template = vec![attr(ATTR_ID, "k1")];
    let first = s.enum_init(Some(&template));
    assert!(matches!(&first, SearchAction::FetchKey(id) if id == "k1"));
    let mut calls = 0;
    assert_eq!(drive(&mut s, first, &["k1", "k2"], &mut calls), Ok(()));
    assert_eq!(calls, 1);
    let handles = ctx(&s);
    assert_eq!(handles.len(), 1);
    let object = s.db().get(handles[0]).expect("cached object");
    assert_eq!(object.id, "k1");
    assert_eq!(object.record.key_type, "type-k1");
}

#[test]
fn search_by_id_not_found() {
    let mut s = Session::new(1, slot(), 4);
    let template = vec![attr(ATTR_ID, "k1")];
    let first = s.enum_init(Some(&template));
    let mut calls = 0;
    assert_eq!(drive(&mut s, first, &["k2"], &mut calls), Err(SessionError::DeviceError));
    assert!(s.enum_ctx.is_none());
    assert!(!s.search_pending());
    assert_eq!(s.db().len(), 0);
}

#[test]
fn id_overrides_earlier_label() {
    let template = vec![attr(ATTR_LABEL, "foo"), attr(0x100, "x"), attr(ATTR_ID, "bar")];
    assert_eq!(find_key_id(Some(&template)), Ok(Some("bar".to_string())));
    let mut s = Session::new(1, slot(), 4);
    let first = s.enum_init(Some(&template));
    assert!(matches!(&first, SearchAction::FetchKey(id) if id == "bar"));
}

#[test]
fn first_label_is_kept() {
    let template = vec![attr(ATTR_LABEL, "first"), attr(ATTR_LABEL, "second")];
    assert_eq!(find_key_id(Some(&template)), Ok(Some("first".to_string())));
}

#[test]
fn no_template_or_no_filter_matches_all() {
    assert_eq!(find_key_id(None), Ok(None));
    let template = vec![attr(0x0, "class"), attr(0x100, "type")];
    assert_eq!(find_key_id(Some(&template)), Ok(None));
    assert_eq!(find_key_id(Some(&Vec::new())), Ok(None));
}

#[test]
fn multibyte_text_is_decoded() {
    let template = vec![RawAttr { kind: ATTR_ID, value: Some(vec![0x6b, 0xc3, 0xa9, 0x79]) }];
    assert_eq!(find_key_id(Some(&template)), Ok(Some("k\u{e9}y".to_string())));
}

#[test]
fn choose_filter_on_decoded_texts() {
    let kinds = vec![ATTR_LABEL, 0x100, ATTR_ID, ATTR_ID];
    let texts = vec![Some("l".to_string()), None, Some("i".to_string()), None];
    assert_eq!(choose_filter(&kinds, &texts), Ok(Some("i".to_string())));
    let kinds = vec![0x100, ATTR_LABEL];
    let texts = vec![None, Some("l".to_string())];
    assert_eq!(choose_filter(&kinds, &texts), Ok(Some("l".to_string())));
    let kinds = vec![ATTR_LABEL, ATTR_ID];
    let texts = vec![None, Some("i".to_string())];
    assert_eq!(choose_filter(&kinds, &texts), Err(SessionError::ArgumentsInvalid));
}

#[test]
fn full_fetch_then_cached() {
    let mut s = Session::new(1, slot(), 4);
    let first = s.enum_init(None);
    assert!(matches!(first, SearchAction::ListKeys));
    let mut calls = 0;
    assert_eq!(drive(&mut s, first, &["a", "b", "c"], &mut calls), Ok(()));
    assert_eq!(calls, 4);
    assert!(s.fetched_all_keys);
    let handles = ctx(&s);
    assert_eq!(handles.len(), 3);
    for (h, id) in handles.iter().zip(["a", "b", "c"]) {
        assert_eq!(s.db().get(*h).expect("cached object").id, id);
    }
    assert!(handles[0] < handles[1] && handles[1] < handles[2]);

    s.enum_ctx = None;
    let again = s.enum_init(None);
    assert!(matches!(again, SearchAction::Finished(Ok(()))));
    assert_eq!(ctx(&s), handles);
}

#[test]
fn empty_inventory_completes_cache() {
    let mut s = Session::new(1, slot(), 4);
    let first = s.enum_init(None);
    let mut calls = 0;
    assert_eq!(drive(&mut s, first, &[], &mut calls), Ok(()));
    assert_eq!(calls, 1);
    assert!(s.fetched_all_keys);
    assert_eq!(ctx(&s), Vec::<u64>::new());
}

#[test]
fn full_fetch_failure_leaves_no_context() {
    let mut s = Session::new(1, slot(), 4);
    let first = s.enum_init(None);
    assert!(matches!(first, SearchAction::ListKeys));
    let ids = vec!["a".to_string(), "b".to_string()];
    let next = s.handle_reply(RemoteReply::KeyList(ids));
    assert!(matches!(&next, SearchAction::FetchKey(id) if id == "a"));
    let next = s.handle_reply(RemoteReply::Key(record("rsa")));
    assert!(matches!(&next, SearchAction::FetchKey(id) if id == "b"));
    let last = s.handle_reply(RemoteReply::Failed);
    assert!(matches!(last, SearchAction::Finished(Err(SessionError::DeviceError))));
    assert!(s.enum_ctx.is_none());
    assert!(!s.fetched_all_keys);
    assert_eq!(s.db().len(), 1);

    // the next full fetch starts from an empty cache
    let first = s.enum_init(None);
    assert!(matches!(first, SearchAction::ListKeys));
    assert_eq!(s.db().len(), 0);
    let mut calls = 0;
    assert_eq!(drive(&mut s, first, &["a", "b"], &mut calls), Ok(()));
    assert_eq!(s.db().len(), 2);
}

#[test]
fn list_failure_is_device_error() {
    let mut s = Session::new(1, slot(), 4);
    s.enum_init(None);
    let r = s.handle_reply(RemoteReply::Failed);
    assert!(matches!(r, SearchAction::Finished(Err(SessionError::DeviceError))));
    assert!(s.enum_ctx.is_none());
    assert!(!s.search_pending());
}

#[test]
fn second_search_is_refused() {
    let mut s = Session::new(1, slot(), 4);
    let template = vec![attr(ATTR_ID, "k1")];
    let first = s.enum_init(Some(&template));
    let mut calls = 0;
    assert_eq!(drive(&mut s, first, &["k1"], &mut calls), Ok(()));
    let handles = ctx(&s);
    let second = s.enum_init(None);
    assert!(matches!(second, SearchAction::Finished(Err(SessionError::OperationActive))));
    assert_eq!(ctx(&s), handles);
}

#[test]
fn search_refused_while_pending() {
    let mut s = Session::new(1, slot(), 4);
    let first = s.enum_init(None);
    assert!(matches!(first, SearchAction::ListKeys));
    let second = s.enum_init(Some(&vec![attr(ATTR_ID, "k1")]));
    assert!(matches!(second, SearchAction::Finished(Err(SessionError::OperationActive))));
    assert!(s.search_pending());
}

#[test]
fn undecodable_values_are_refused() {
    for kind in [ATTR_ID, ATTR_LABEL] {
        let mut s = Session::new(1, slot(), 4);
        let template = vec![RawAttr { kind, value: Some(vec![0xff, 0xfe]) }];
        let r = s.enum_init(Some(&template));
        assert!(matches!(r, SearchAction::Finished(Err(SessionError::ArgumentsInvalid))));
        assert!(s.enum_ctx.is_none());
        assert!(!s.search_pending());
        let template = vec![RawAttr { kind, value: None }];
        assert_eq!(find_key_id(Some(&template)), Err(SessionError::ArgumentsInvalid));
    }
    let template = vec![attr(ATTR_LABEL, "ok"), RawAttr { kind: ATTR_LABEL, value: Some(vec![0xc3]) }];
    assert_eq!(find_key_id(Some(&template)), Err(SessionError::ArgumentsInvalid));
    // entries after the first ID are not read
    let template = vec![attr(ATTR_ID, "k"), RawAttr { kind: ATTR_LABEL, value: None }];
    assert_eq!(find_key_id(Some(&template)), Ok(Some("k".to_string())));
}

#[test]
fn single_fetch_gives_fresh_handles() {
    let mut s = Session::new(1, slot(), 4);
    let template = vec![attr(ATTR_ID, "k1")];
    let mut calls = 0;
    let first = s.enum_init(Some(&template));
    drive(&mut s, first, &["k1"], &mut calls).unwrap();
    let h1 = ctx(&s)[0];
    s.enum_ctx = None;
    let first = s.enum_init(Some(&template));
    drive(&mut s, first, &["k1"], &mut calls).unwrap();
    let h2 = ctx(&s)[0];
    assert_ne!(h1, h2);
    assert_eq!(s.db().len(), 2);
    assert_eq!(s.db().handles(), vec![h1, h2]);
}

#[test]
fn session_info_reports_fields() {
    let s = Session::new(7, slot(), 6);
    let info = s.get_ck_info();
    assert_eq!(info.slot_id, 7);
    assert_eq!(info.flags, 6);
    assert_eq!(info.state, cryptoki_sys::CKS_RO_PUBLIC_SESSION as u64);
    assert_eq!(info.device_error, cryptoki_sys::CKR_OK as u64);
    assert_eq!(s.slot().label, "slot0");
}
