use zhur_core::host::{route, HostCallError, HostOp, HostReply, HostState};

fn bytes(r: Result<HostReply, HostCallError>) -> Vec<u8> {
    match r {
        Ok(HostReply::Bytes(b)) => b,
        other => panic!("expected bytes, got {:?}", other),
    }
}

#[test]
fn route_knows_the_table() {
    assert_eq!(route("internals", "panic"), Some(HostOp::Panic));
    assert_eq!(route("datetime", "now"), Some(HostOp::Now));
    assert_eq!(route("db", "get"), Some(HostOp::DbGet));
    assert_eq!(route("db", "set"), Some(HostOp::DbSet));
    assert_eq!(route("db", "del"), Some(HostOp::DbDel));
    assert_eq!(route("db", "get_prefix"), Some(HostOp::DbGetPrefix));
    assert_eq!(route("db", "set_many"), Some(HostOp::DbSetMany));
    assert_eq!(route("db", "del_prefix"), Some(HostOp::DbDelPrefix));
}

#[test]
fn unknown_calls_are_refused() {
    let mut st = HostState::new();
    for (ns, op) in [("fs", "read"), ("internals", "exit"), ("datetime", "later"), ("db", "drop"), ("", ""), ("DB", "get")] {
        assert_eq!(route(ns, op), None);
        let r = st.handle_host_call(ns, op, &[1, 2, 3]);
        assert!(matches!(r, Err(HostCallError::UnsupportedHostCall)));
    }
    assert!(st.panic.is_none());
    assert_eq!(st.store.len(), 0);
}

#[test]
fn guest_set_then_get_round_trips() {
    let mut st = HostState::new();
    let stored: Vec<u8> = vec![10, 20, 30];
    let set = bincode::serialize(&("users", "1", stored.clone())).unwrap();
    assert!(bytes(st.handle_host_call("db", "set", &set)).is_empty());
    let get = bincode::serialize(&("users", "1")).unwrap();
    let answer = bytes(st.handle_host_call("db", "get", &get));
    let got: Option<Vec<u8>> = bincode::deserialize(&answer).unwrap();
    assert_eq!(got, Some(stored));
}

#[test]
fn guest_get_of_missing_key_succeeds_empty() {
    let mut st = HostState::new();
    let get = bincode::serialize(&("users", "404")).unwrap();
    let answer = bytes(st.handle_host_call("db", "get", &get));
    let got: Option<Vec<u8>> = bincode::deserialize(&answer).unwrap();
    assert_eq!(got, None);
}

#[test]
fn guest_del_removes() {
    let mut st = HostState::new();
    let set = bincode::serialize(&("t", "k", vec![1u8])).unwrap();
    bytes(st.handle_host_call("db", "set", &set));
    let key = bincode::serialize(&("t", "k")).unwrap();
    assert!(bytes(st.handle_host_call("db", "del", &key)).is_empty());
    let got: Option<Vec<u8>> = bincode::deserialize(&bytes(st.handle_host_call("db", "get", &key))).unwrap();
    assert_eq!(got, None);
}

#[test]
fn guest_set_many_and_prefix_calls() {
    let mut st = HostState::new();
    let items: Vec<(String, Vec<u8>)> = vec![("k1".to_string(), vec![1]), ("k2".to_string(), vec![2]), ("x".to_string(), vec![3])];
    let many = bincode::serialize(&("t", items)).unwrap();
    assert!(bytes(st.handle_host_call("db", "set_many", &many)).is_empty());
    let q = bincode::serialize(&("t", "k")).unwrap();
    let found: Vec<(String, Vec<u8>)> = bincode::deserialize(&bytes(st.handle_host_call("db", "get_prefix", &q))).unwrap();
    assert_eq!(found, vec![("k1".to_string(), vec![1]), ("k2".to_string(), vec![2])]);
    let later = bincode::serialize(&("t", vec![("k0".to_string(), vec![0u8])])).unwrap();
    bytes(st.handle_host_call("db", "set_many", &later));
    let found: Vec<(String, Vec<u8>)> = bincode::deserialize(&bytes(st.handle_host_call("db", "get_prefix", &q))).unwrap();
    assert_eq!(found, vec![("k0".to_string(), vec![0]), ("k1".to_string(), vec![1]), ("k2".to_string(), vec![2])]);
    let k0 = bincode::serialize(&("t", "k0")).unwrap();
    assert!(bytes(st.handle_host_call("db", "del", &k0)).is_empty());
    let gone: u64 = bincode::deserialize(&bytes(st.handle_host_call("db", "del_prefix", &q))).unwrap();
    assert_eq!(gone, 2);
    assert_eq!(st.store.len(), 1);
}

#[test]
fn del_prefix_count_is_eight_bytes_little_endian() {
    let mut st = HostState::new();
    for k in ["a", "b", "c"] {
        let set = bincode::serialize(&("t", k, vec![0u8])).unwrap();
        bytes(st.handle_host_call("db", "set", &set));
    }
    let q = bincode::serialize(&("t", "")).unwrap();
    assert_eq!(bytes(st.handle_host_call("db", "del_prefix", &q)), vec![3, 0, 0, 0, 0, 0, 0, 0]);
}

#[test]
fn bad_payload_is_refused() {
    let mut st = HostState::new();
    let r = st.handle_host_call("db", "get", &[1, 2]);
    assert!(matches!(r, Err(HostCallError::InvalidPayload)));
    let r = st.handle_host_call("db", "set", &[]);
    assert!(matches!(r, Err(HostCallError::InvalidPayload)));
    let r = st.handle_host_call("db", "set_many", &[0xff]);
    assert!(matches!(r, Err(HostCallError::InvalidPayload)));
}

#[test]
fn panic_call_records_message() {
    let mut st = HostState::new();
    assert!(bytes(st.handle_host_call("internals", "panic", b"boom")).is_empty());
    assert_eq!(st.panic_info(), Some("boom".to_string()));
    st.begin_invocation();
    assert_eq!(st.panic_info(), None);
}

#[test]
fn panic_call_with_bad_utf8_still_records() {
    let mut st = HostState::new();
    assert!(st.handle_host_call("internals", "panic", &[b'o', 0xff, b'k']).is_ok());
    assert_eq!(st.panic_info(), Some("o\u{FFFD}k".to_string()));
}

#[test]
fn now_asks_for_the_clock() {
    let mut st = HostState::new();
    assert!(matches!(st.handle_host_call("datetime", "now", &[]), Ok(HostReply::CurrentTime)));
}
