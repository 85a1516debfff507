use cdp_unix::client::{page_title, CdpClient, ClientError, Numbers, Received, RESPONSE_TIMEOUT_SECS};
use cdp_unix::protocol::{ClientMsg, DaemonMsg};
use serde_json::Value;

fn value(text: &str) -> Value {
    serde_json::from_str(text).unwrap()
}

fn error(id: u64, message: &str) -> DaemonMsg {
    DaemonMsg::Error { id, message: message.to_string() }
}

#[test]
fn numbers_count_from_one() {
    let mut n = Numbers::new();
    assert!(n.has_next());
    assert_eq!(n.alloc_id(), 1);
    assert_eq!(n.alloc_id(), 2);
    assert_eq!(n.alloc_id(), 3);
}

#[test]
fn requests_are_numbered() {
    let mut c = CdpClient::new();
    assert!(c.can_ask());
    assert!(matches!(c.acquire_page(), ClientMsg::Acquire { id: 1 }));
    match c.cdp("Page.navigate", value(r#"{"url":"u"}"#), Some("S")) {
        ClientMsg::Cdp { id, method, params, session_id } => {
            assert_eq!(id, 2);
            assert_eq!(method, "Page.navigate");
            assert_eq!(params, value(r#"{"url":"u"}"#));
            assert_eq!(session_id, Some("S".to_string()));
        }
        _ => panic!("another request"),
    }
    match c.cdp("Browser.getVersion", Value::Null, None) {
        ClientMsg::Cdp { id, session_id, .. } => {
            assert_eq!(id, 3);
            assert_eq!(session_id, None);
        }
        _ => panic!("another request"),
    }
    match c.warmup(10, "https://example.com") {
        ClientMsg::Warmup { id, count, url } => {
            assert_eq!((id, count), (4, 10));
            assert_eq!(url, "https://example.com");
        }
        _ => panic!("another request"),
    }
    match c.release_page("T") {
        ClientMsg::Release { id, target_id } => {
            assert_eq!(id, 5);
            assert_eq!(target_id, "T");
        }
        _ => panic!("another request"),
    }
    let status = c.status();
    assert!(matches!(status, ClientMsg::Status { id: 6 }));
    assert_eq!(status.id(), 6);
    assert_eq!(c.release_page("T").id(), 7);
    assert_eq!(c.cdp("m", Value::Null, None).id(), 8);
    assert_eq!(c.warmup(1, "u").id(), 9);
    assert_eq!(c.acquire_page().id(), 10);
}

#[test]
fn first_answer_ends_the_waiting() {
    let event = DaemonMsg::CdpEvent {
        method: "m".to_string(),
        params: Value::Null,
        session_id: None,
    };
    assert!(CdpClient::recv_response(5, Received::Message(event)).is_none());
    assert!(CdpClient::recv_response(5, Received::Message(DaemonMsg::Released { id: 4 })).is_none());
    let answers = vec![
        DaemonMsg::CdpResponse { id: 5, payload: Value::Null },
        DaemonMsg::Acquired { id: 5, target_id: "T".to_string(), session_id: "S".to_string() },
        DaemonMsg::Released { id: 5 },
        DaemonMsg::WarmupDone { id: 5, count: 1 },
        DaemonMsg::StatusResponse {
            id: 5,
            pool_available: 0,
            active_sessions: 0,
            chrome_pid: 1,
            uptime_secs: 2,
        },
        error(5, "x"),
    ];
    for m in answers {
        let text = format!("{m:?}");
        let r = CdpClient::recv_response(5, Received::Message(m)).unwrap().unwrap();
        assert_eq!(format!("{r:?}"), text);
    }
}

#[test]
fn waiting_ends_without_an_answer() {
    let e = CdpClient::recv_response(1, Received::Closed).unwrap().unwrap_err();
    assert!(matches!(e, ClientError::Closed));
    assert_eq!(e.message().unwrap(), "daemon connection closed");
    let e = CdpClient::recv_response(1, Received::Nothing).unwrap().unwrap_err();
    assert!(matches!(e, ClientError::TimedOut));
    assert_eq!(e.message().unwrap(), "response timeout (30s)");
    assert_eq!(RESPONSE_TIMEOUT_SECS, 30);
}

#[test]
fn acquired_page() {
    let m = DaemonMsg::Acquired { id: 1, target_id: "T".to_string(), session_id: "S".to_string() };
    let (target_id, session_id) = CdpClient::acquire_page_result(m).unwrap();
    assert_eq!(target_id, "T");
    assert_eq!(session_id, "S");
    let e = CdpClient::acquire_page_result(error(1, "attach: missing sessionId")).unwrap_err();
    assert_eq!(e.message().unwrap(), "acquire failed: attach: missing sessionId");
    let e = CdpClient::acquire_page_result(DaemonMsg::Released { id: 1 }).unwrap_err();
    assert!(matches!(e, ClientError::Unexpected(DaemonMsg::Released { id: 1 })));
    assert!(e.message().is_none());
}

#[test]
fn result_of_a_command() {
    let m = DaemonMsg::CdpResponse { id: 1, payload: value(r#"{"id":9,"result":{"frameId":"F"}}"#) };
    assert_eq!(CdpClient::cdp_result(m).unwrap(), value(r#"{"frameId":"F"}"#));
    let m = DaemonMsg::CdpResponse { id: 1, payload: value(r#"{"id":9}"#) };
    assert_eq!(CdpClient::cdp_result(m).unwrap(), Value::Null);
    let m = DaemonMsg::CdpResponse { id: 1, payload: value(r#"{"error":{"code":1}}"#) };
    let e = CdpClient::cdp_result(m).unwrap_err();
    assert_eq!(e.message().unwrap(), r#"CDP error: {"code":1}"#);
    let e = CdpClient::cdp_result(error(1, "Chrome pipe closed")).unwrap_err();
    assert_eq!(e.message().unwrap(), "Chrome pipe closed");
    let e = CdpClient::cdp_result(DaemonMsg::WarmupDone { id: 1, count: 2 }).unwrap_err();
    assert!(matches!(e, ClientError::Unexpected(DaemonMsg::WarmupDone { .. })));
}

#[test]
fn result_of_warming_up() {
    assert_eq!(CdpClient::warmup_result(DaemonMsg::WarmupDone { id: 1, count: 3 }).unwrap(), 3);
    let e = CdpClient::warmup_result(error(1, "no")).unwrap_err();
    assert_eq!(e.message().unwrap(), "no");
    let e = CdpClient::warmup_result(DaemonMsg::Released { id: 1 }).unwrap_err();
    assert!(matches!(e, ClientError::Unexpected(_)));
}

#[test]
fn title_of_a_page() {
    let r = value(r#"{"result":{"type":"string","value":"Example Domain"}}"#);
    assert_eq!(page_title(&r), "Example Domain");
    assert_eq!(page_title(&value(r#"{"result":{"value":5}}"#)), "<no title>");
    assert_eq!(page_title(&value("{}")), "<no title>");
    assert_eq!(page_title(&Value::Null), "<no title>");
}
