use cdp_unix::browser::{
    chrome_args, chrome_candidates, find_chrome, parse_chrome_msg, parse_record, pipe_record, trim,
    ChromeMsg, Lookup, PipeReader,
};
use serde_json::Value;

fn value(text: &str) -> Value {
    serde_json::from_str(text).unwrap()
}

fn ids(msgs: &[ChromeMsg]) -> Vec<u64> {
    msgs.iter()
        .map(|m| match m {
            ChromeMsg::Response { id, .. } => *id,
            ChromeMsg::Event { .. } => 0,
        })
        .collect()
}

#[test]
fn value_with_number_is_a_response() {
    match parse_chrome_msg(value(r#"{"id":5,"result":{"a":1}}"#)) {
        ChromeMsg::Response { id, payload } => {
            assert_eq!(id, 5);
            assert_eq!(payload, value(r#"{"id":5,"result":{"a":1}}"#));
        }
        ChromeMsg::Event { .. } => panic!("an event"),
    }
}

#[test]
fn other_values_are_events() {
    match parse_chrome_msg(value(
        r#"{"method":"Page.loadEventFired","params":{"t":1},"sessionId":"S"}"#,
    )) {
        ChromeMsg::Event { method, params, session_id } => {
            assert_eq!(method, "Page.loadEventFired");
            assert_eq!(params, value(r#"{"t":1}"#));
            assert_eq!(session_id, Some("S".to_string()));
        }
        ChromeMsg::Response { .. } => panic!("a response"),
    }
    for text in [r#"{"id":-1}"#, r#"{"id":"1"}"#, r#"{"id":1.5}"#, "[]", "null", "7"] {
        match parse_chrome_msg(value(text)) {
            ChromeMsg::Event { method, params, session_id } => {
                assert_eq!(method, "__unknown__");
                assert_eq!(params, Value::Null);
                assert_eq!(session_id, None);
            }
            ChromeMsg::Response { .. } => panic!("a response"),
        }
    }
}

#[test]
fn largest_number_of_a_response() {
    match parse_chrome_msg(value(r#"{"id":18446744073709551615}"#)) {
        ChromeMsg::Response { id, .. } => assert_eq!(id, u64::MAX),
        ChromeMsg::Event { .. } => panic!("an event"),
    }
}

#[test]
fn records_without_a_message() {
    assert!(parse_record(b"").is_none());
    assert!(parse_record(b"{").is_none());
    assert!(parse_record(b"{} {}").is_none());
    assert!(parse_record(b"{}").is_some());
}

#[test]
fn pipe_is_cut_at_zero_bytes() {
    let mut reader = PipeReader::new();
    let msgs = reader.feed(b"{\"id\":1}\0\0nonsense\0{\"id\":2}\0{\"id\":3");
    assert_eq!(ids(&msgs), vec![1, 2]);
    let msgs = reader.feed(b"4}");
    assert!(msgs.is_empty());
    let msgs = reader.feed(b"\0");
    assert_eq!(ids(&msgs), vec![34]);
    assert!(reader.finish().is_none());
}

#[test]
fn pieces_of_the_pipe_do_not_matter() {
    let bytes = b"{\"id\":1}\0{\"id\":22}\0{\"method\":\"x\"}\0";
    let whole = ids(&PipeReader::new().feed(bytes));
    assert_eq!(whole, vec![1, 22, 0]);
    for at in 0..bytes.len() {
        let mut reader = PipeReader::new();
        let mut got = ids(&reader.feed(&bytes[..at]));
        got.extend(ids(&reader.feed(&bytes[at..])));
        assert_eq!(got, whole);
    }
}

#[test]
fn last_record_needs_no_zero_byte() {
    let mut reader = PipeReader::new();
    assert!(reader.feed(b"{\"id\":9}").is_empty());
    match reader.finish() {
        Some(ChromeMsg::Response { id, .. }) => assert_eq!(id, 9),
        _ => panic!("no response"),
    }
    assert!(reader.finish().is_none());
}

#[test]
fn record_ends_in_zero() {
    assert_eq!(pipe_record(b"{}".to_vec()), b"{}\0".to_vec());
    let mut reader = PipeReader::new();
    let mut bytes = pipe_record(b"{\"id\":1}".to_vec());
    bytes.extend(pipe_record(b"{\"id\":2}".to_vec()));
    assert_eq!(ids(&reader.feed(&bytes)), vec![1, 2]);
}

#[test]
fn arguments_of_chrome() {
    let args = chrome_args(&["--proxy-server=socks5://127.0.0.1:1080".to_string()]);
    assert_eq!(
        args,
        vec![
            "--headless",
            "--remote-debugging-pipe",
            "--disable-gpu",
            "--disable-software-rasterizer",
            "--no-first-run",
            "--no-default-browser-check",
            "--disable-extensions",
            "--disable-background-networking",
            "--disable-sync",
            "--disable-translate",
            "--mute-audio",
            "--hide-scrollbars",
            "--disable-dev-shm-usage",
            "--disable-setuid-sandbox",
            "--no-sandbox",
            "--proxy-server=socks5://127.0.0.1:1080",
        ]
    );
    assert_eq!(chrome_args(&[]).len(), 15);
}

#[test]
fn white_space_is_trimmed() {
    assert_eq!(trim(" \t/usr/bin/chrome\r\n"), "/usr/bin/chrome");
    assert_eq!(trim("a b"), "a b");
    assert_eq!(trim("\u{3000}\u{a0}x\u{2028}\u{85}"), "x");
    assert_eq!(trim("\u{200b}x"), "\u{200b}x");
    assert_eq!(trim(" \n"), "");
    assert_eq!(trim(""), "");
    for n in 0..0x3100u32 {
        if let Some(c) = char::from_u32(n) {
            let s = format!("{c}x{c}");
            assert_eq!(trim(&s), s.trim());
        }
    }
}

#[test]
fn given_path_is_taken() {
    let r = find_chrome(Some("/opt/chrome"), &[]);
    assert_eq!(r.unwrap(), "/opt/chrome");
    let found = Lookup::Ended { success: true, stdout: b"/usr/bin/x\n".to_vec() };
    assert_eq!(find_chrome(Some(" "), &[found]).unwrap(), " ");
}

#[test]
fn first_path_found_is_taken() {
    assert_eq!(chrome_candidates(), vec!["google-chrome-stable"]);
    let lookups = vec![
        Lookup::NotRun,
        Lookup::Ended { success: false, stdout: b"/no\n".to_vec() },
        Lookup::Ended { success: true, stdout: b" \n".to_vec() },
        Lookup::Ended { success: true, stdout: b"/usr/bin/google-chrome-stable\n".to_vec() },
        Lookup::Ended { success: true, stdout: b"/later\n".to_vec() },
    ];
    assert_eq!(find_chrome(None, &lookups).unwrap(), "/usr/bin/google-chrome-stable");
}

#[test]
fn path_need_not_be_utf8() {
    let lookups = vec![Lookup::Ended { success: true, stdout: b"/\xffx\n".to_vec() }];
    assert_eq!(find_chrome(None, &lookups).unwrap(), "/\u{fffd}x");
}

#[test]
fn no_chrome_found() {
    let e = find_chrome(None, &[Lookup::NotRun]).unwrap_err();
    assert_eq!(
        e.message(),
        "Chrome/Chromium not found. Set --chrome-path or install Chrome.\nSearched: [\"google-chrome-stable\"]"
    );
    assert!(find_chrome(None, &[]).is_err());
}
