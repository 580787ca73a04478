use zhur_core::host::HostState;
use zhur_core::invoke::{decode_text_output, encode_text_payload, guest_outcome, text_output, InvocationError};
use zhur_core::ipc::{received_len, sent_len, IpcError};

fn enc(s: &str) -> Vec<u8> {
    bincode::serialize(s).unwrap()
}

#[test]
fn payload_is_bincode_text() {
    let b = encode_text_payload("hello");
    assert_eq!(b, enc("hello"));
    assert_eq!(b.len(), 8 + 5);
    assert_ne!(b, b"hello".to_vec());
}

#[test]
fn start_text_clears_a_stale_panic() {
    let mut st = HostState::new();
    st.handle_host_call("internals", "panic", b"boom").unwrap();
    let b = st.start_text("héllo");
    assert_eq!(b, enc("héllo"));
    assert_eq!(st.panic_info(), None);
    assert_eq!(st.finish_text(Ok(enc("HÉLLO"))).unwrap(), "HÉLLO");
}

#[test]
fn uppercased_output_is_returned() {
    let mut st = HostState::new();
    st.begin_invocation();
    let r = st.finish_text(Ok(enc("HELLO")));
    assert_eq!(r.unwrap(), "HELLO");
}

#[test]
fn panic_fails_the_call_then_next_call_succeeds() {
    let mut st = HostState::new();
    st.begin_invocation();
    st.handle_host_call("internals", "panic", b"boom").unwrap();
    let r = st.finish_text(Ok(enc("ignored")));
    match r {
        Err(InvocationError::ExecutionError(m)) => assert!(m.contains("boom")),
        other => panic!("expected an execution error, got {:?}", other),
    }
    st.begin_invocation();
    let r = st.finish_text(Ok(enc("fine")));
    assert_eq!(r.unwrap(), "fine");
}

#[test]
fn runtime_error_becomes_execution_error() {
    let st = HostState::new();
    let r = st.finish_text(Err("trap".to_string()));
    assert!(matches!(r, Err(InvocationError::ExecutionError(m)) if m == "trap"));
}

#[test]
fn panic_wins_over_runtime_error() {
    let r = guest_outcome(Err("trap".to_string()), Some("boom".to_string()));
    assert!(matches!(r, Err(InvocationError::ExecutionError(m)) if m == "boom"));
    let r = guest_outcome(Ok(vec![1, 2]), None);
    assert_eq!(r.unwrap(), vec![1, 2]);
}

#[test]
fn undecodable_output_is_its_own_error() {
    let st = HostState::new();
    let r = st.finish_text(Ok(vec![1, 2, 3]));
    assert!(matches!(r, Err(InvocationError::InvalidTextOutput)));
    assert!(matches!(decode_text_output(&[200]), Err(InvocationError::InvalidTextOutput)));
    assert_eq!(decode_text_output(&enc("ok")).unwrap(), "ok");
    assert!(matches!(text_output(None), Err(InvocationError::InvalidTextOutput)));
    assert_eq!(text_output(Some("x".to_string())).unwrap(), "x");
}

#[test]
fn zero_length_exchange_means_disconnect() {
    assert!(matches!(received_len(0), Err(IpcError::ClientDisconnected)));
    assert!(matches!(received_len(17), Ok(17)));
    assert!(matches!(sent_len(0), Err(IpcError::ClientDisconnected)));
    assert!(sent_len(4).is_ok());
}
