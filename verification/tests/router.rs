use cdp_unix::browser::{parse_chrome_msg, ChromeMsg};
use cdp_unix::daemon::{Action, DaemonConfig, Router, RouterEvent};
use cdp_unix::jobs::{warmup_progress, Asker, Goal, Job, Reply};
use cdp_unix::pool::{CdpError, CloseStage, PageStage, WarmPage};
use cdp_unix::protocol::{ClientMsg, DaemonMsg};
use cdp_unix::socket::DEFAULT_SOCKET_NAME;
use serde_json::Value;

fn value(text: &str) -> Value {
    serde_json::from_str(text).unwrap()
}

/// A router whose pool is not filled by itself.
fn router(clients: &[u64]) -> Router {
    filling(clients, 0)
}

/// A router whose pool is filled with `count` pages.
fn filling(clients: &[u64], count: usize) -> Router {
    let mut r = Router::new(4242, count, "about:blank".to_string());
    for c in clients {
        assert!(r.step(RouterEvent::ClientConnected { client_id: *c }).is_empty());
    }
    r
}

fn ask(r: &mut Router, client_id: u64, msg: ClientMsg) -> Vec<Action> {
    r.step(RouterEvent::FromClient { client_id, msg, uptime_secs: 17 })
}

fn chrome(r: &mut Router, text: &str) -> Vec<Action> {
    r.step(RouterEvent::FromChrome { msg: parse_chrome_msg(value(text)) })
}

/// The one command among the actions, with its number.
fn command(actions: Vec<Action>) -> (u64, Value) {
    assert_eq!(actions.len(), 1);
    match actions.into_iter().next().unwrap() {
        Action::ToChrome { chrome_id, bytes, .. } => {
            let v: Value = serde_json::from_slice(&bytes).unwrap();
            assert_eq!(v.get("id").unwrap().as_u64().unwrap(), chrome_id);
            (chrome_id, v)
        }
        _ => panic!("no command"),
    }
}

fn method(v: &Value) -> &str {
    v.get("method").unwrap().as_str().unwrap()
}

fn params(v: &Value) -> &Value {
    v.get("params").unwrap()
}

/// The one reply among the actions, as text.
fn reply(actions: Vec<Action>) -> (u64, String) {
    assert_eq!(actions.len(), 1);
    match actions.into_iter().next().unwrap() {
        Action::Reply { reply: Reply { client_id, msg } } => (client_id, format!("{msg:?}")),
        _ => panic!("no reply"),
    }
}

fn text(msg: DaemonMsg) -> String {
    format!("{msg:?}")
}

/// Has `count` pages warmed up: T0 in the context C0, T1 in C1 and so on.
fn warm(r: &mut Router, count: usize) {
    let actions = r.step(RouterEvent::Warm { count, url: "about:blank".to_string() });
    create(r, actions, count);
}

/// Has the pages created that a warm-up asks for.
fn create(r: &mut Router, mut actions: Vec<Action>, count: usize) {
    for n in 0..count {
        let (id, v) = command(actions);
        assert_eq!(method(&v), "Target.createBrowserContext");
        let (id, v) =
            command(chrome(r, &format!(r#"{{"id":{id},"result":{{"browserContextId":"C{n}"}}}}"#)));
        assert_eq!(method(&v), "Target.createTarget");
        actions = chrome(r, &format!(r#"{{"id":{id},"result":{{"targetId":"T{n}"}}}}"#));
    }
    assert!(actions.is_empty());
}

/// Has a client take a page of the pool, with the given name for the session.
fn acquire_warm(r: &mut Router, client_id: u64, id: u64, session: &str) -> String {
    let (k, v) = command(ask(r, client_id, ClientMsg::Acquire { id }));
    assert_eq!(method(&v), "Target.attachToTarget");
    let target = params(&v).get("targetId").unwrap().as_str().unwrap().to_string();
    let told = reply(chrome(r, &format!(r#"{{"id":{k},"result":{{"sessionId":"{session}"}}}}"#)));
    assert_eq!(
        told,
        (
            client_id,
            text(DaemonMsg::Acquired {
                id,
                target_id: target.clone(),
                session_id: session.to_string()
            })
        )
    );
    target
}

fn status(r: &mut Router, client_id: u64) -> (usize, usize) {
    let actions = ask(r, client_id, ClientMsg::Status { id: 99 });
    assert_eq!(actions.len(), 1);
    match &actions[0] {
        Action::Reply {
            reply:
                Reply {
                    msg:
                        DaemonMsg::StatusResponse {
                            id,
                            pool_available,
                            active_sessions,
                            chrome_pid,
                            uptime_secs,
                        },
                    ..
                },
        } => {
            assert_eq!((*id, *chrome_pid, *uptime_secs), (99, 4242, 17));
            (*pool_available, *active_sessions)
        }
        _ => panic!("no status"),
    }
}

#[test]
fn default_config() {
    let c = DaemonConfig::default();
    assert_eq!(c.socket_name, "cdp-unix");
    assert_eq!(DEFAULT_SOCKET_NAME, "cdp-unix");
    assert!(c.chrome_path.is_none());
    assert!(c.chrome_args.is_empty());
    assert_eq!(c.warmup_count, 4);
    assert_eq!(c.warmup_url, "about:blank");
}

#[test]
fn command_and_its_response() {
    let mut r = router(&[1, 2]);
    let actions = ask(
        &mut r,
        2,
        ClientMsg::Cdp {
            id: 7,
            method: "Page.navigate".to_string(),
            params: value(r#"{"url":"https://example.com"}"#),
            session_id: Some("S".to_string()),
        },
    );
    assert!(matches!(&actions[0], Action::ToChrome { chrome_id: 1, timed: false, .. }));
    let (k, v) = command(actions);
    assert_eq!(
        v,
        value(
            r#"{"id":1,"method":"Page.navigate","params":{"url":"https://example.com"},"sessionId":"S"}"#
        )
    );
    // Another client's command in between does not matter.
    let (other, _) = command(ask(
        &mut r,
        1,
        ClientMsg::Cdp {
            id: 7,
            method: "x".to_string(),
            params: Value::Null,
            session_id: None,
        },
    ));
    assert_eq!(other, 2);
    let response = format!(r#"{{"id":{k},"result":{{"frameId":"F"}}}}"#);
    let told = reply(chrome(&mut r, &response));
    assert_eq!(
        told,
        (2, text(DaemonMsg::CdpResponse { id: 7, payload: value(&response) }))
    );
    // A second response with the same number goes nowhere.
    assert!(chrome(&mut r, &response).is_empty());
    let told = reply(chrome(&mut r, r#"{"id":2,"error":{"code":1}}"#));
    assert_eq!(
        told,
        (1, text(DaemonMsg::CdpResponse { id: 7, payload: value(r#"{"id":2,"error":{"code":1}}"#) }))
    );
}

#[test]
fn response_that_nobody_awaits() {
    let mut r = router(&[1]);
    assert!(chrome(&mut r, r#"{"id":1,"result":{}}"#).is_empty());
}

#[test]
fn response_for_a_client_that_has_gone() {
    let mut r = router(&[1]);
    let msg = ClientMsg::Cdp {
        id: 1,
        method: "m".to_string(),
        params: Value::Null,
        session_id: None,
    };
    let (k, _) = command(ask(&mut r, 1, msg));
    assert!(r.step(RouterEvent::ClientDisconnected { client_id: 1 }).is_empty());
    assert!(chrome(&mut r, &format!(r#"{{"id":{k}}}"#)).is_empty());
}

#[test]
fn pipe_closed_under_a_command() {
    let mut r = router(&[1]);
    let msg = ClientMsg::Cdp {
        id: 3,
        method: "m".to_string(),
        params: Value::Null,
        session_id: None,
    };
    let (k, _) = command(ask(&mut r, 1, msg));
    let told = reply(r.step(RouterEvent::PipeClosed { chrome_id: k }));
    assert_eq!(
        told,
        (1, text(DaemonMsg::Error { id: 3, message: "Chrome pipe closed".to_string() }))
    );
    assert!(r.step(RouterEvent::PipeClosed { chrome_id: k + 1 }).is_empty());
}

#[test]
fn commands_of_clients_do_not_time_out() {
    let mut r = router(&[1]);
    let msg = ClientMsg::Cdp {
        id: 3,
        method: "m".to_string(),
        params: Value::Null,
        session_id: None,
    };
    let (k, _) = command(ask(&mut r, 1, msg));
    assert!(r.step(RouterEvent::CallTimedOut { chrome_id: k }).is_empty());
    assert!(r.call_failed(k, CdpError::PipeClosed).is_empty());
    assert_eq!(reply(chrome(&mut r, &format!(r#"{{"id":{k}}}"#))).0, 1);
}

#[test]
fn warm_pages_enter_the_pool() {
    let mut r = router(&[1]);
    assert_eq!(status(&mut r, 1), (0, 0));
    warm(&mut r, 3);
    assert_eq!(status(&mut r, 1), (3, 0));
    assert!(r.step(RouterEvent::Warm { count: 0, url: "u".to_string() }).is_empty());
    let msg = ClientMsg::Acquire { id: 1 };
    assert!(r.has_room_for(&RouterEvent::FromClient { client_id: 1, msg, uptime_secs: 0 }));
}

#[test]
fn warming_up_on_request() {
    let mut r = router(&[1]);
    let actions = ask(
        &mut r,
        1,
        ClientMsg::Warmup { id: 5, count: 2, url: "https://example.com".to_string() },
    );
    assert!(matches!(&actions[0], Action::ToChrome { timed: true, .. }));
    let (k, v) = command(actions);
    assert_eq!(params(&v), &value(r#"{"disposeOnDetach":false}"#));
    let (k, v) =
        command(chrome(&mut r, &format!(r#"{{"id":{k},"result":{{"browserContextId":"C"}}}}"#)));
    assert_eq!(params(&v), &value(r#"{"url":"https://example.com","browserContextId":"C"}"#));
    let (k, _) = command(chrome(&mut r, &format!(r#"{{"id":{k},"result":{{"targetId":"T"}}}}"#)));
    // The second page fails, and is not counted.
    let told = reply(chrome(&mut r, &format!(r#"{{"id":{k},"error":"no"}}"#)));
    assert_eq!(told, (1, text(DaemonMsg::WarmupDone { id: 5, count: 1 })));
    assert_eq!(status(&mut r, 1), (1, 0));
}

#[test]
fn warming_up_all_pages() {
    let mut r = router(&[1]);
    let mut actions = ask(&mut r, 1, ClientMsg::Warmup { id: 5, count: 3, url: "u".to_string() });
    for n in 0..3 {
        let (k, _) = command(actions);
        let context = format!(r#"{{"id":{k},"result":{{"browserContextId":"C{n}"}}}}"#);
        let (k, _) = command(chrome(&mut r, &context));
        actions = chrome(&mut r, &format!(r#"{{"id":{k},"result":{{"targetId":"T{n}"}}}}"#));
    }
    assert_eq!(reply(actions), (1, text(DaemonMsg::WarmupDone { id: 5, count: 3 })));
    assert_eq!(status(&mut r, 1), (3, 0));
    assert_eq!(acquire_warm(&mut r, 1, 6, "S"), "T0");
}

#[test]
fn end_of_a_job_is_told_to_a_client_that_has_gone() {
    let mut r = router(&[1, 2]);
    let msg = ClientMsg::Warmup { id: 5, count: 1, url: "u".to_string() };
    let (k, _) = command(ask(&mut r, 1, msg));
    assert!(r.owes(1) && !r.owes(2));
    assert!(r.step(RouterEvent::ClientDisconnected { client_id: 1 }).is_empty());
    assert!(r.owes(1));
    let context = format!(r#"{{"id":{k},"result":{{"browserContextId":"C"}}}}"#);
    let (k, _) = command(chrome(&mut r, &context));
    let told = reply(chrome(&mut r, &format!(r#"{{"id":{k},"result":{{"targetId":"T"}}}}"#)));
    assert_eq!(told, (1, text(DaemonMsg::WarmupDone { id: 5, count: 1 })));
    assert!(!r.owes(1));
    assert_eq!(status(&mut r, 2), (1, 0));

    let msg = ClientMsg::Release { id: 6, target_id: "X".to_string() };
    let (k, _) = command(ask(&mut r, 2, msg));
    assert!(r.owes(2));
    assert!(r.step(RouterEvent::ClientDisconnected { client_id: 2 }).is_empty());
    let told = reply(chrome(&mut r, &format!(r#"{{"id":{k}}}"#)));
    assert_eq!(told, (2, text(DaemonMsg::Released { id: 6 })));
}

#[test]
fn client_that_never_connected_is_not_told() {
    let mut r = router(&[1]);
    warm(&mut r, 1);
    let (k, v) = command(ask(&mut r, 9, ClientMsg::Acquire { id: 1 }));
    assert_eq!(method(&v), "Target.attachToTarget");
    assert!(!r.owes(9));
    assert_eq!(status(&mut r, 1), (0, 1));
    assert!(chrome(&mut r, &format!(r#"{{"id":{k},"result":{{"sessionId":"S"}}}}"#)).is_empty());
    assert_eq!(status(&mut r, 1), (0, 0));
    let msg = ClientMsg::Warmup { id: 2, count: 0, url: "u".to_string() };
    assert!(ask(&mut r, 9, msg).is_empty());
}

#[test]
fn page_that_another_client_holds_is_released() {
    let mut r = router(&[3, 4]);
    warm(&mut r, 2);
    let target = acquire_warm(&mut r, 3, 1, "A");
    acquire_warm(&mut r, 3, 2, "B");
    assert_eq!(status(&mut r, 4), (0, 2));
    let (k, v) = command(ask(&mut r, 4, ClientMsg::Release { id: 9, target_id: target }));
    assert_eq!(method(&v), "Target.closeTarget");
    assert_eq!(params(&v), &value(r#"{"targetId":"T0"}"#));
    assert_eq!(status(&mut r, 4), (0, 1));
    assert!(chrome(&mut r, r#"{"method":"m","sessionId":"A"}"#).is_empty());
    assert_eq!(reply(chrome(&mut r, r#"{"method":"m","sessionId":"B"}"#)).0, 3);
    let told = reply(chrome(&mut r, &format!(r#"{{"id":{k}}}"#)));
    assert_eq!(told, (4, text(DaemonMsg::Released { id: 9 })));
    // The client that held the page has only the other one left.
    let (_, v) = command(r.step(RouterEvent::ClientDisconnected { client_id: 3 }));
    assert_eq!(params(&v), &value(r#"{"targetId":"T1"}"#));
    assert_eq!(status(&mut r, 4), (0, 0));
}

#[test]
fn pool_is_filled_after_warming_up_failed() {
    let mut r = filling(&[1], 1);
    let (k, _) = command(r.step(RouterEvent::Warm { count: 1, url: "u".to_string() }));
    assert!(chrome(&mut r, &format!(r#"{{"id":{k},"error":"no"}}"#)).is_empty());
    assert_eq!(status(&mut r, 1), (0, 0));
    let mut actions = ask(&mut r, 1, ClientMsg::Acquire { id: 1 });
    assert_eq!(actions.len(), 2);
    let refill = vec![actions.pop().unwrap()];
    let (_, v) = command(actions);
    assert_eq!(method(&v), "Target.createBrowserContext");
    create(&mut r, refill, 1);
    assert_eq!(status(&mut r, 1), (1, 0));
}

#[test]
fn warming_up_no_pages() {
    let mut r = router(&[1]);
    let msg = ClientMsg::Warmup { id: 5, count: 0, url: "u".to_string() };
    assert_eq!(reply(ask(&mut r, 1, msg)), (1, text(DaemonMsg::WarmupDone { id: 5, count: 0 })));
}

#[test]
fn oldest_warm_page_is_acquired() {
    let mut r = router(&[1]);
    warm(&mut r, 2);
    assert_eq!(acquire_warm(&mut r, 1, 1, "S0"), "T0");
    assert_eq!(status(&mut r, 1), (1, 1));
    assert_eq!(acquire_warm(&mut r, 1, 2, "S1"), "T1");
    assert_eq!(status(&mut r, 1), (0, 2));
}

#[test]
fn page_is_created_where_none_waits() {
    let mut r = router(&[1]);
    let (k, v) = command(ask(&mut r, 1, ClientMsg::Acquire { id: 8 }));
    assert_eq!(method(&v), "Target.createBrowserContext");
    let (k, v) =
        command(chrome(&mut r, &format!(r#"{{"id":{k},"result":{{"browserContextId":"C"}}}}"#)));
    assert_eq!(params(&v), &value(r#"{"url":"about:blank","browserContextId":"C"}"#));
    let (k, v) = command(chrome(&mut r, &format!(r#"{{"id":{k},"result":{{"targetId":"T"}}}}"#)));
    assert_eq!(params(&v), &value(r#"{"targetId":"T","flatten":true}"#));
    let told = reply(chrome(&mut r, &format!(r#"{{"id":{k},"result":{{"sessionId":"S"}}}}"#)));
    assert_eq!(
        told,
        (
            1,
            text(DaemonMsg::Acquired {
                id: 8,
                target_id: "T".to_string(),
                session_id: "S".to_string()
            })
        )
    );
    // A page is in use, wherever it came from.
    assert_eq!(status(&mut r, 1), (0, 1));
    let (k, v) = command(ask(&mut r, 1, ClientMsg::Release { id: 9, target_id: "T".to_string() }));
    assert_eq!(params(&v), &value(r#"{"targetId":"T"}"#));
    let (_, v) = command(chrome(&mut r, &format!(r#"{{"id":{k}}}"#)));
    assert_eq!(params(&v), &value(r#"{"browserContextId":"C"}"#));
    assert_eq!(status(&mut r, 1), (0, 0));
}

#[test]
fn page_cannot_be_created() {
    let mut r = router(&[1]);
    let (k, _) = command(ask(&mut r, 1, ClientMsg::Acquire { id: 8 }));
    let told = reply(chrome(&mut r, &format!(r#"{{"id":{k},"result":{{}}}}"#)));
    let message = "create page: missing browserContextId".to_string();
    assert_eq!(told, (1, text(DaemonMsg::Error { id: 8, message })));

    let (k, _) = command(ask(&mut r, 1, ClientMsg::Acquire { id: 9 }));
    let told = reply(r.step(RouterEvent::PipeClosed { chrome_id: k }));
    let message = "create page: chrome pipe channel closed".to_string();
    assert_eq!(told, (1, text(DaemonMsg::Error { id: 9, message })));
}

#[test]
fn page_cannot_be_attached_to() {
    let mut r = router(&[1]);
    warm(&mut r, 1);
    let (k, _) = command(ask(&mut r, 1, ClientMsg::Acquire { id: 8 }));
    let told = reply(r.step(RouterEvent::CallTimedOut { chrome_id: k }));
    let message = "attach: CDP call 'Target.attachToTarget' timed out (30s)".to_string();
    assert_eq!(told, (1, text(DaemonMsg::Error { id: 8, message })));
    assert_eq!(status(&mut r, 1), (0, 0));
    // The answer that comes too late goes nowhere.
    assert!(chrome(&mut r, &format!(r#"{{"id":{k},"result":{{"sessionId":"S"}}}}"#)).is_empty());
    assert!(r.step(RouterEvent::CallTimedOut { chrome_id: k }).is_empty());
}

#[test]
fn failed_call_is_reported() {
    let mut r = router(&[1]);
    let (k, _) = command(ask(&mut r, 1, ClientMsg::Acquire { id: 8 }));
    let error = CdpError::Serialize("key must be a string".to_string());
    let told = reply(r.step(RouterEvent::CallFailed { chrome_id: k, error }));
    let message = "create page: key must be a string".to_string();
    assert_eq!(told, (1, text(DaemonMsg::Error { id: 8, message })));
}

#[test]
fn release_closes_target_and_context() {
    let mut r = router(&[1]);
    warm(&mut r, 1);
    let target = acquire_warm(&mut r, 1, 1, "S0");
    let (k, v) = command(ask(&mut r, 1, ClientMsg::Release { id: 2, target_id: target }));
    assert_eq!(method(&v), "Target.closeTarget");
    assert_eq!(params(&v), &value(r#"{"targetId":"T0"}"#));
    assert_eq!(status(&mut r, 1), (0, 0));
    // An error makes no difference.
    let (k, v) = command(chrome(&mut r, &format!(r#"{{"id":{k},"error":"gone"}}"#)));
    assert_eq!(method(&v), "Target.disposeBrowserContext");
    assert_eq!(params(&v), &value(r#"{"browserContextId":"C0"}"#));
    let told = reply(chrome(&mut r, &format!(r#"{{"id":{k},"result":{{}}}}"#)));
    assert_eq!(told, (1, text(DaemonMsg::Released { id: 2 })));
    // The session is gone with the page.
    assert!(chrome(&mut r, r#"{"method":"m","sessionId":"S0"}"#).is_empty());
    assert!(r.step(RouterEvent::ClientDisconnected { client_id: 1 }).is_empty());
}

#[test]
fn release_of_an_unknown_page() {
    let mut r = router(&[1]);
    warm(&mut r, 1);
    acquire_warm(&mut r, 1, 1, "S0");
    let msg = ClientMsg::Release { id: 2, target_id: "X".to_string() };
    let (k, v) = command(ask(&mut r, 1, msg));
    assert_eq!(params(&v), &value(r#"{"targetId":"X"}"#));
    assert_eq!(status(&mut r, 1), (0, 1));
    let told = reply(chrome(&mut r, &format!(r#"{{"id":{k},"result":{{}}}}"#)));
    assert_eq!(told, (1, text(DaemonMsg::Released { id: 2 })));
}

#[test]
fn release_without_a_client() {
    let mut r = router(&[1]);
    warm(&mut r, 1);
    acquire_warm(&mut r, 1, 1, "S0");
    let msg = ClientMsg::Release { id: 2, target_id: "T0".to_string() };
    assert!(ask(&mut r, 9, msg).is_empty());
    assert_eq!(status(&mut r, 1), (0, 1));
}

#[test]
fn events_go_to_the_session_owner() {
    let mut r = router(&[1, 2]);
    warm(&mut r, 2);
    acquire_warm(&mut r, 1, 1, "S-one");
    acquire_warm(&mut r, 2, 1, "S-two");
    let told = reply(chrome(
        &mut r,
        r#"{"method":"Page.loadEventFired","params":{"t":1},"sessionId":"S-two"}"#,
    ));
    assert_eq!(
        told,
        (
            2,
            text(DaemonMsg::CdpEvent {
                method: "Page.loadEventFired".to_string(),
                params: value(r#"{"t":1}"#),
                session_id: Some("S-two".to_string())
            })
        )
    );
    assert_eq!(reply(chrome(&mut r, r#"{"method":"m","sessionId":"S-one"}"#)).0, 1);
    assert!(chrome(&mut r, r#"{"method":"m","sessionId":"S-three"}"#).is_empty());
    assert!(chrome(&mut r, r#"{"method":"m"}"#).is_empty());
}

#[test]
fn disconnect_closes_the_pages() {
    let mut r = router(&[1, 2]);
    warm(&mut r, 4);
    acquire_warm(&mut r, 1, 1, "A");
    acquire_warm(&mut r, 2, 1, "B");
    acquire_warm(&mut r, 1, 2, "C");
    assert_eq!(status(&mut r, 2), (1, 3));
    let actions = r.step(RouterEvent::ClientDisconnected { client_id: 1 });
    assert_eq!(actions.len(), 2);
    let mut closed = Vec::new();
    for a in actions {
        let (k, v) = command(vec![a]);
        assert_eq!(method(&v), "Target.closeTarget");
        closed.push((k, params(&v).get("targetId").unwrap().as_str().unwrap().to_string()));
    }
    assert_eq!(closed[0].1, "T0");
    assert_eq!(closed[1].1, "T2");
    // The other client and the page in the pool stay.
    assert_eq!(status(&mut r, 2), (1, 1));
    assert!(chrome(&mut r, r#"{"method":"m","sessionId":"A"}"#).is_empty());
    assert_eq!(reply(chrome(&mut r, r#"{"method":"m","sessionId":"B"}"#)).0, 2);
    // The contexts follow, and nobody is told.
    let (k, v) = command(chrome(&mut r, &format!(r#"{{"id":{},"result":{{}}}}"#, closed[1].0)));
    assert_eq!(params(&v), &value(r#"{"browserContextId":"C2"}"#));
    assert!(chrome(&mut r, &format!(r#"{{"id":{k},"result":{{}}}}"#)).is_empty());
    assert!(r.step(RouterEvent::ClientDisconnected { client_id: 1 }).is_empty());
}

#[test]
fn session_of_a_client_that_has_gone_is_not_kept() {
    let mut r = router(&[1]);
    warm(&mut r, 1);
    let (k, _) = command(ask(&mut r, 1, ClientMsg::Acquire { id: 1 }));
    assert!(r.step(RouterEvent::ClientDisconnected { client_id: 1 }).is_empty());
    let told = reply(chrome(&mut r, &format!(r#"{{"id":{k},"result":{{"sessionId":"S"}}}}"#)));
    assert_eq!(
        told,
        (
            1,
            text(DaemonMsg::Acquired {
                id: 1,
                target_id: "T0".to_string(),
                session_id: "S".to_string()
            })
        )
    );
    r.client_connected(1);
    assert!(chrome(&mut r, r#"{"method":"m","sessionId":"S"}"#).is_empty());
    assert_eq!(status(&mut r, 1), (0, 0));
}

#[test]
fn session_of_the_same_name_is_replaced() {
    let mut r = router(&[1]);
    warm(&mut r, 2);
    acquire_warm(&mut r, 1, 1, "S");
    acquire_warm(&mut r, 1, 2, "S");
    assert_eq!(status(&mut r, 1), (0, 1));
    let actions = r.client_disconnected(1);
    assert_eq!(actions.len(), 1);
    let (_, v) = command(actions);
    assert_eq!(params(&v), &value(r#"{"targetId":"T1"}"#));
}

#[test]
fn calls_are_numbered_in_order() {
    let mut r = router(&[1]);
    for n in 1..6u64 {
        let msg = ClientMsg::Cdp {
            id: 1,
            method: "m".to_string(),
            params: Value::Null,
            session_id: None,
        };
        assert_eq!(command(r.handle_client_msg(1, msg, 0)).0, n);
    }
    let response = ChromeMsg::Response { id: 3, payload: Value::Null };
    assert_eq!(
        reply(r.handle_chrome_msg(response)),
        (1, text(DaemonMsg::CdpResponse { id: 1, payload: Value::Null }))
    );
    assert!(r.call_timed_out(4).is_empty());
    assert_eq!(reply(r.pipe_closed(4)).0, 1);
    assert_eq!(command(r.warm(1, "u".to_string())).0, 6);
}

#[test]
fn job_calls() {
    let asker = Asker { client_id: 1, id: 2 };
    let page = WarmPage { browser_context_id: "C".to_string(), target_id: "T".to_string() };
    let job = Job::Attach { page, asker: Some(asker) };
    assert_eq!(job.call().method, "Target.attachToTarget");
    let p = job.progress(Ok(value(r#"{"sessionId":"S"}"#)));
    assert!(p.stored.is_none() && p.next.is_none() && !p.taken && !p.given_back);
    let a = p.attached.unwrap();
    assert_eq!((a.client_id, a.session_id.as_str(), a.page.target_id.as_str()), (1, "S", "T"));
    assert_eq!(p.reply.unwrap().client_id, 1);

    let job = Job::Close {
        target_id: "T".to_string(),
        context_id: "".to_string(),
        stage: CloseStage::Target,
        asker: None,
    };
    assert_eq!(job.call().method, "Target.closeTarget");
    let p = job.progress(Err(CdpError::PipeClosed));
    assert!(p.next.is_none() && p.reply.is_none());

    let job = Job::CreatePage {
        url: "u".to_string(),
        stage: PageStage::Target { context_id: "C".to_string() },
        goal: Goal::Warmup { asker: Some(asker), left: 0, created: 3 },
    };
    assert_eq!(job.call().method, "Target.createTarget");
    let p = job.progress(Ok(value(r#"{"targetId":"T"}"#)));
    assert_eq!(p.stored.unwrap().browser_context_id, "C");
    assert_eq!(text(p.reply.unwrap().msg), text(DaemonMsg::WarmupDone { id: 2, count: 4 }));
}

#[test]
fn jobs_count_pages() {
    let asker = Asker { client_id: 1, id: 2 };
    let goal = Goal::Acquire { asker: Some(asker) };
    let job = Job::CreatePage { url: "u".to_string(), stage: PageStage::Context, goal };
    assert!(!job.can_take() && !job.warms());
    let stage = PageStage::Target { context_id: "C".to_string() };
    let job = Job::CreatePage { url: "u".to_string(), stage, goal };
    assert!(job.can_take() && !job.warms());
    assert!(job.asker() == Some(asker));
    let p = job.progress(Ok(value(r#"{"targetId":"T"}"#)));
    assert!(p.taken && !p.given_back);
    let job = p.next.unwrap();
    assert!(matches!(&job, Job::Attach { .. }));
    let p = job.progress(Err(CdpError::PipeClosed));
    assert!(!p.taken && p.given_back);

    let goal = Goal::Warmup { asker: None, left: 0, created: 0 };
    let job = Job::CreatePage { url: "u".to_string(), stage: PageStage::Context, goal };
    assert!(job.warms() && !job.can_take());
}

#[test]
fn pool_is_filled_again() {
    let mut r = filling(&[1], 2);
    warm(&mut r, 2);
    assert_eq!(acquire_warm(&mut r, 1, 1, "A"), "T0");
    assert_eq!(status(&mut r, 1), (1, 1));
    // Taking the last page starts a warm-up that nobody asked for.
    let mut actions = ask(&mut r, 1, ClientMsg::Acquire { id: 2 });
    assert_eq!(actions.len(), 2);
    let refill = vec![actions.pop().unwrap()];
    let (k, v) = command(actions);
    assert_eq!(params(&v), &value(r#"{"targetId":"T1","flatten":true}"#));
    assert_eq!(reply(chrome(&mut r, &format!(r#"{{"id":{k},"result":{{"sessionId":"B"}}}}"#))).0, 1);
    assert_eq!(status(&mut r, 1), (0, 2));
    create(&mut r, refill, 2);
    assert_eq!(status(&mut r, 1), (2, 2));
}

#[test]
fn pool_is_not_filled_twice_at_once() {
    let mut r = filling(&[1], 2);
    // Two pages are being warmed up; the first is taken as soon as it is there.
    let actions = r.step(RouterEvent::Warm { count: 2, url: "u".to_string() });
    let (k, _) = command(actions);
    let (k, _) =
        command(chrome(&mut r, &format!(r#"{{"id":{k},"result":{{"browserContextId":"C"}}}}"#)));
    let second = chrome(&mut r, &format!(r#"{{"id":{k},"result":{{"targetId":"T"}}}}"#));
    assert_eq!(acquire_warm(&mut r, 1, 1, "A"), "T");
    create(&mut r, second, 1);
    assert_eq!(status(&mut r, 1), (1, 1));
}

#[test]
fn session_is_kept_meanwhile() {
    let mut r = router(&[1, 2]);
    warm(&mut r, 3);
    let target = acquire_warm(&mut r, 1, 1, "A");
    acquire_warm(&mut r, 2, 1, "B");
    acquire_warm(&mut r, 1, 2, "C");
    for id in 3..6 {
        let msg = ClientMsg::Cdp {
            id,
            method: "m".to_string(),
            params: Value::Null,
            session_id: Some("A".to_string()),
        };
        let (k, _) = command(ask(&mut r, 1, msg));
        assert_eq!(reply(chrome(&mut r, &format!(r#"{{"id":{k}}}"#))).0, 1);
    }
    r.step(RouterEvent::ClientDisconnected { client_id: 2 });
    ask(&mut r, 1, ClientMsg::Release { id: 6, target_id: "T2".to_string() });
    assert_eq!(reply(chrome(&mut r, r#"{"method":"m","sessionId":"A"}"#)).0, 1);
    let (k, v) = command(ask(&mut r, 1, ClientMsg::Release { id: 7, target_id: target }));
    assert_eq!(params(&v), &value(r#"{"targetId":"T0"}"#));
    let (k, v) = command(chrome(&mut r, &format!(r#"{{"id":{k}}}"#)));
    assert_eq!(params(&v), &value(r#"{"browserContextId":"C0"}"#));
    let told = reply(chrome(&mut r, &format!(r#"{{"id":{k}}}"#)));
    assert_eq!(told, (1, text(DaemonMsg::Released { id: 7 })));
}

#[test]
fn client_takes_the_place_of_an_earlier_one() {
    let mut r = router(&[1]);
    warm(&mut r, 1);
    acquire_warm(&mut r, 1, 1, "A");
    r.client_connected(1);
    assert_eq!(status(&mut r, 1), (0, 0));
    assert!(chrome(&mut r, r#"{"method":"m","sessionId":"A"}"#).is_empty());
}

#[test]
fn rest_of_warming_up() {
    let asker = Asker { client_id: 1, id: 2 };
    let p = warmup_progress("u".to_string(), Some(asker), 2, 5);
    assert!(matches!(
        p.next,
        Some(Job::CreatePage { goal: Goal::Warmup { left: 1, created: 5, .. }, .. })
    ));
    let p = warmup_progress("u".to_string(), None, 0, 5);
    assert!(p.next.is_none() && p.reply.is_none());
}
