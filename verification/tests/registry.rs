use session_core::messages::Message;
use session_core::registry::ClientHandle;
use session_core::registry::ConnId;
use session_core::registry::Registry;

fn id(n: u16) -> ConnId {
    ConnId { ip: 0x7f000001, port: n }
}

fn handle() -> (ClientHandle, tokio::sync::mpsc::UnboundedReceiver<Message>) {
    let (tx, rx) = tokio::sync::mpsc::unbounded_channel();
    (ClientHandle::new(tx), rx)
}

#[test]
fn fresh_handle_is_unset() {
    let (h, _rx) = handle();
    assert_eq!(h.steam_id(), 0);
    assert_eq!(h.name().as_str(), "");
}

#[test]
fn bind_identity_sets_steam_id() {
    let (mut h, _rx) = handle();
    h.bind_identity(42);
    assert_eq!(h.steam_id(), 42);
    assert_eq!(h.name().as_str(), "");
}

#[test]
fn insert_then_lookup() {
    let mut reg = Registry::new();
    assert_eq!(reg.len(), 0);
    let (mut h, _rx) = handle();
    h.bind_identity(7);
    assert!(reg.insert(id(1), h).is_ok());
    assert_eq!(reg.len(), 1);
    assert!(reg.contains(id(1)));
    assert!(!reg.contains(id(2)));
    let found = reg.lookup(id(1)).expect("entry is live");
    assert_eq!(found.steam_id(), 7);
    assert!(reg.lookup(id(2)).is_none());
}

#[test]
fn duplicate_insert_fails_and_changes_nothing() {
    let mut reg = Registry::new();
    let (mut h1, _rx1) = handle();
    h1.bind_identity(7);
    let (mut h2, _rx2) = handle();
    h2.bind_identity(8);
    assert!(reg.insert(id(1), h1).is_ok());
    let rejected = reg.insert(id(1), h2).expect_err("identity already live");
    assert_eq!(rejected.steam_id(), 8, "the clashing handle comes back");
    assert_eq!(reg.len(), 1);
    assert_eq!(reg.lookup(id(1)).unwrap().steam_id(), 7);
}

#[test]
fn remove_is_idempotent() {
    let mut reg = Registry::new();
    let (h, _rx) = handle();
    assert!(reg.insert(id(1), h).is_ok());
    assert!(reg.remove(id(1)), "first removal finds the entry");
    assert_eq!(reg.len(), 0);
    assert!(!reg.remove(id(1)), "second removal is a no-op");
    assert_eq!(reg.len(), 0);
}

#[test]
fn remove_leaves_other_entries() {
    let mut reg = Registry::new();
    let (mut ha, _rxa) = handle();
    ha.bind_identity(10);
    let (mut hb, _rxb) = handle();
    hb.bind_identity(20);
    assert!(reg.insert(id(1), ha).is_ok());
    assert!(reg.insert(id(2), hb).is_ok());
    assert!(reg.remove(id(1)));
    assert_eq!(reg.len(), 1);
    assert_eq!(reg.lookup(id(2)).unwrap().steam_id(), 20);
}

#[test]
fn set_name_updates_a_live_entry() {
    let mut reg = Registry::new();
    let (mut h, _rx) = handle();
    h.bind_identity(7);
    assert!(reg.insert(id(1), h).is_ok());
    assert!(reg.set_name(id(1), String::from("alice")));
    let found = reg.lookup(id(1)).unwrap();
    assert_eq!(found.name().as_str(), "alice");
    assert_eq!(found.steam_id(), 7, "identity is untouched");
}

#[test]
fn set_name_on_absent_identity_is_refused() {
    let mut reg = Registry::new();
    assert!(!reg.set_name(id(1), String::from("nobody")));
    assert_eq!(reg.len(), 0);
}

#[test]
fn enqueue_reaches_the_draining_end() {
    let (tx, mut rx) = tokio::sync::mpsc::unbounded_channel();
    let h = ClientHandle::new(tx);
    let m = Message::Application { payload: vec![5, 6] };
    assert!(h.enqueue(m.clone()).is_ok());
    assert_eq!(rx.try_recv().unwrap(), m);
}

#[test]
fn enqueue_preserves_fifo_order() {
    let (tx, mut rx) = tokio::sync::mpsc::unbounded_channel();
    let h = ClientHandle::new(tx);
    let a = Message::Application { payload: vec![1] };
    let b = Message::HandshakeResponse;
    let c = Message::Application { payload: vec![3] };
    assert!(h.enqueue(a.clone()).is_ok());
    assert!(h.enqueue(b.clone()).is_ok());
    assert!(h.enqueue(c.clone()).is_ok());
    assert_eq!(rx.try_recv().unwrap(), a);
    assert_eq!(rx.try_recv().unwrap(), b);
    assert_eq!(rx.try_recv().unwrap(), c);
}

#[test]
fn enqueue_after_the_drain_end_is_gone_hands_the_message_back() {
    let (tx, rx) = tokio::sync::mpsc::unbounded_channel();
    let h = ClientHandle::new(tx);
    drop(rx);
    let m = Message::Application { payload: vec![9] };
    assert_eq!(h.enqueue(m.clone()), Err(m));
}
