use cdp_unix::pool::{
    attach_target, attach_target_result, cdp_call, cdp_call_result, close_page, close_page_next,
    create_warm_page, create_warm_page_step, Call, CdpError, CloseStage, PagePool, PageStage,
    PageStep, WarmPage, CALL_TIMEOUT_SECS,
};
use serde_json::Value;

fn value(text: &str) -> Value {
    serde_json::from_str(text).unwrap()
}

fn page(n: usize) -> WarmPage {
    WarmPage { browser_context_id: format!("ctx-{n}"), target_id: format!("target-{n}") }
}

#[test]
fn test_pool_basic() {
    let mut pool = PagePool::new();
    assert_eq!(pool.available(), 0);
    assert_eq!(pool.active_count, 0);

    for i in 0..3 {
        pool.push(WarmPage {
            browser_context_id: format!("ctx-{i}"),
            target_id: format!("target-{i}"),
        });
    }
    assert_eq!(pool.available(), 3);

    let p1 = pool.acquire().unwrap();
    assert_eq!(p1.target_id, "target-0");
    assert_eq!(pool.available(), 2);
    assert_eq!(pool.active_count, 1);

    let p2 = pool.acquire().unwrap();
    assert_eq!(p2.target_id, "target-1");
    assert_eq!(pool.available(), 1);
    assert_eq!(pool.active_count, 2);

    pool.released();
    assert_eq!(pool.active_count, 1);

    let p3 = pool.acquire().unwrap();
    assert_eq!(p3.target_id, "target-2");

    assert!(pool.acquire().is_none());
    assert_eq!(pool.available(), 0);
}

#[test]
fn count_does_not_go_below_zero() {
    let mut pool = PagePool::new();
    pool.released();
    assert_eq!(pool.active_count, 0);
    pool.push(page(1));
    pool.acquire();
    pool.released();
    pool.released();
    assert_eq!(pool.active_count, 0);
}

#[test]
fn empty_pool_counts_nothing() {
    let mut pool = PagePool::new();
    assert!(pool.acquire().is_none());
    assert_eq!(pool.active_count, 0);
}

#[test]
fn page_from_elsewhere_counts() {
    let mut pool = PagePool::new();
    pool.taken();
    assert_eq!(pool.active_count, 1);
    assert_eq!(pool.active(), 1);
    assert_eq!(pool.available(), 0);
    pool.released();
    assert_eq!(pool.active_count, 0);
}

#[test]
fn pushes_and_takes_take_turns() {
    let mut pool = PagePool::new();
    pool.push(page(1));
    pool.push(page(2));
    assert_eq!(pool.acquire().unwrap().target_id, "target-1");
    pool.push(page(3));
    pool.released();
    assert_eq!(pool.acquire().unwrap().target_id, "target-2");
    assert_eq!(pool.acquire().unwrap().target_id, "target-3");
    assert!(pool.acquire().is_none());
    pool.push(page(4));
    assert_eq!(pool.acquire().unwrap().target_id, "target-4");
}

#[test]
fn page_keeps_its_context() {
    let mut pool = PagePool::new();
    pool.push(page(1).clone());
    pool.push(page(2));
    let p = pool.acquire().unwrap();
    assert_eq!(p.browser_context_id, "ctx-1");
    let p = pool.acquire().unwrap();
    assert_eq!(p.browser_context_id, "ctx-2");
}

#[test]
fn command_text() {
    let call = Call {
        method: "Page.navigate".to_string(),
        params: value(r#"{"url":"https://example.com"}"#),
        session_id: None,
    };
    let bytes = cdp_call(7, &call).unwrap();
    assert_eq!(
        String::from_utf8(bytes).unwrap(),
        r#"{"id":7,"method":"Page.navigate","params":{"url":"https://example.com"}}"#
    );
    let call = Call { session_id: Some("sess-123".to_string()), ..call };
    let bytes = cdp_call(8, &call).unwrap();
    assert_eq!(
        String::from_utf8(bytes).unwrap(),
        r#"{"id":8,"method":"Page.navigate","params":{"url":"https://example.com"},"sessionId":"sess-123"}"#
    );
}

#[test]
fn command_has_no_zero_byte() {
    let call = Call {
        method: "a\0b".to_string(),
        params: Value::Null,
        session_id: Some("\0".to_string()),
    };
    let bytes = cdp_call(0, &call).unwrap();
    assert!(!bytes.contains(&0));
    assert_eq!(
        String::from_utf8(bytes).unwrap(),
        r#"{"id":0,"method":"a\u0000b","params":null,"sessionId":"\u0000"}"#
    );
}

#[test]
fn response_with_result() {
    let r = cdp_call_result(&value(r#"{"id":1,"result":{"x":true}}"#)).unwrap();
    assert_eq!(r, value(r#"{"x":true}"#));
    let r = cdp_call_result(&value(r#"{"id":1}"#)).unwrap();
    assert_eq!(r, Value::Null);
    let r = cdp_call_result(&value("[1]")).unwrap();
    assert_eq!(r, Value::Null);
}

#[test]
fn response_with_error() {
    let e = cdp_call_result(&value(r#"{"id":1,"error":{"code":-32000,"message":"no"}}"#)).unwrap_err();
    assert!(matches!(e, CdpError::Cdp(_)));
    assert_eq!(e.message(), r#"CDP error: {"code":-32000,"message":"no"}"#);
    let e = cdp_call_result(&value(r#"{"error":null,"result":1}"#)).unwrap_err();
    assert_eq!(e.message(), "CDP error: null");
}

#[test]
fn error_texts() {
    assert_eq!(CdpError::PipeClosed.message(), "chrome pipe channel closed");
    assert_eq!(CdpError::Serialize("bad".to_string()).message(), "bad");
    assert_eq!(
        CdpError::TimedOut { method: "Target.closeTarget".to_string() }.message(),
        "CDP call 'Target.closeTarget' timed out (30s)"
    );
    assert_eq!(CdpError::Missing { field: "targetId".to_string() }.message(), "missing targetId");
    assert_eq!(CALL_TIMEOUT_SECS, 30);
}

#[test]
fn page_is_created_in_its_own_context() {
    let call = create_warm_page("https://example.com", &PageStage::Context);
    assert_eq!(call.method, "Target.createBrowserContext");
    assert_eq!(call.params, value(r#"{"disposeOnDetach":false}"#));
    assert!(call.session_id.is_none());

    let step = create_warm_page_step(PageStage::Context, Ok(value(r#"{"browserContextId":"C"}"#)));
    let stage = match step {
        PageStep::Next(stage) => stage,
        _ => panic!("no context"),
    };
    let call = create_warm_page("https://example.com", &stage);
    assert_eq!(call.method, "Target.createTarget");
    assert_eq!(call.params, value(r#"{"url":"https://example.com","browserContextId":"C"}"#));
    assert!(call.session_id.is_none());

    match create_warm_page_step(stage, Ok(value(r#"{"targetId":"T"}"#))) {
        PageStep::Done(p) => {
            assert_eq!(p.browser_context_id, "C");
            assert_eq!(p.target_id, "T");
        }
        _ => panic!("no page"),
    }
}

#[test]
fn page_creation_fails() {
    let cases = vec![
        (PageStage::Context, Ok(value("{}")), "missing browserContextId"),
        (PageStage::Context, Ok(value(r#"{"browserContextId":5}"#)), "missing browserContextId"),
        (PageStage::Context, Ok(Value::Null), "missing browserContextId"),
        (PageStage::Context, Err(CdpError::PipeClosed), "chrome pipe channel closed"),
        (
            PageStage::Target { context_id: "C".to_string() },
            Ok(value(r#"{"browserContextId":"C"}"#)),
            "missing targetId",
        ),
    ];
    for (stage, answer, text) in cases {
        match create_warm_page_step(stage, answer) {
            PageStep::Failed(e) => assert_eq!(e.message(), text),
            _ => panic!("did not fail"),
        }
    }
}

#[test]
fn attaching() {
    let call = attach_target("T-1");
    assert_eq!(call.method, "Target.attachToTarget");
    assert_eq!(call.params, value(r#"{"targetId":"T-1","flatten":true}"#));
    assert!(call.session_id.is_none());
    assert_eq!(attach_target_result(Ok(value(r#"{"sessionId":"S-1"}"#))).unwrap(), "S-1");
    let e = attach_target_result(Ok(value("{}"))).unwrap_err();
    assert_eq!(e.message(), "missing sessionId");
    let e = attach_target_result(Err(CdpError::PipeClosed)).unwrap_err();
    assert_eq!(e.message(), "chrome pipe channel closed");
}

#[test]
fn closing() {
    let call = close_page("T", "C", CloseStage::Target);
    assert_eq!(call.method, "Target.closeTarget");
    assert_eq!(call.params, value(r#"{"targetId":"T"}"#));
    let call = close_page("T", "C", CloseStage::Context);
    assert_eq!(call.method, "Target.disposeBrowserContext");
    assert_eq!(call.params, value(r#"{"browserContextId":"C"}"#));
    assert!(close_page_next("C", CloseStage::Target) == Some(CloseStage::Context));
    assert!(close_page_next("", CloseStage::Target) == None);
    assert!(close_page_next("C", CloseStage::Context) == None);
}
