//! Chrome's side: its command line, and the records on its pipe.
//!
//! Each JSON text on the pipe, in either direction, is followed by a zero byte.
use crate::json::{
    field_or_null, json, json_decoded, opt_text, text_field, unsigned_field, value_from_slice, Json,
};
use vstd::prelude::*;
use vstd::string::StrSliceExecFns;
use vstd::utf8::{decode_utf8, valid_utf8};

verus! {

/// A message from Chrome.
#[derive(Debug)]
pub enum ChromeMsg {
    /// The response to a command.
    Response { id: u64, payload: serde_json::Value },
    /// Something that happened.
    Event { method: String, params: serde_json::Value, session_id: Option<String> },
}

/// A [`ChromeMsg`] with texts and JSON values in place of what holds them.
pub enum ChromeMsgView {
    Response { id: u64, payload: Json },
    Event { method: Seq<char>, params: Json, session_id: Option<Seq<char>> },
}

impl View for ChromeMsg {
    type V = ChromeMsgView;

    open spec fn view(&self) -> ChromeMsgView {
        match *self {
            ChromeMsg::Response { id, payload } => ChromeMsgView::Response {
                id,
                payload: json(payload),
            },
            ChromeMsg::Event { method, params, session_id } => ChromeMsgView::Event {
                method: method@,
                params: json(params),
                session_id: opt_text(session_id),
            },
        }
    }
}

/// The message that a JSON value stands for. A value with a member `id` that is a
/// `u64` is a response, whole; any other is an event.
pub open spec fn chrome_msg(j: Json) -> ChromeMsgView {
    match j.unsigned_field("id"@) {
        Some(id) => ChromeMsgView::Response { id, payload: j },
        None => ChromeMsgView::Event {
            method: match j.text_field("method"@) {
                Some(m) => m,
                None => "__unknown__"@,
            },
            params: j.field_or_null("params"@),
            session_id: j.text_field("sessionId"@),
        },
    }
}

/// The message that a JSON value stands for.
pub fn parse_chrome_msg(val: serde_json::Value) -> (r: ChromeMsg)
    ensures
        r@ == chrome_msg(json(val)),
{
    match unsigned_field(&val, "id") {
        Some(id) => ChromeMsg::Response { id, payload: val },
        None => ChromeMsg::Event {
            method: match text_field(&val, "method") {
                Some(m) => m,
                None => "__unknown__".to_owned(),
            },
            params: field_or_null(&val, "params"),
            session_id: text_field(&val, "sessionId"),
        },
    }
}

/// The message in one record of the pipe. There is none in an empty record, nor in
/// one that is no JSON text.
pub open spec fn record_msg(record: Seq<u8>) -> Option<ChromeMsgView> {
    if record.len() == 0 {
        None
    } else {
        match json_decoded(record) {
            Ok(j) => Some(chrome_msg(j)),
            Err(_) => None,
        }
    }
}

/// The view of an optional message.
pub open spec fn opt_msg(m: Option<ChromeMsg>) -> Option<ChromeMsgView> {
    match m {
        Some(x) => Some(x@),
        None => None,
    }
}

/// The message in one record of the pipe, where there is one.
pub fn parse_record(record: &[u8]) -> (r: Option<ChromeMsg>)
    ensures
        opt_msg(r) == record_msg(record@),
{
    if record.len() == 0 {
        None
    } else {
        match value_from_slice(record) {
            Ok(val) => Some(parse_chrome_msg(val)),
            Err(_) => None,
        }
    }
}

/// The messages in the given records, in order.
pub open spec fn record_msgs(records: Seq<Seq<u8>>) -> Seq<ChromeMsgView>
    decreases records.len(),
{
    if records.len() == 0 {
        Seq::empty()
    } else {
        let before = record_msgs(records.drop_last());
        match record_msg(records.last()) {
            Some(m) => before.push(m),
            None => before,
        }
    }
}

/// The records that end in `bytes`, where `begun` came before, and the record that
/// is begun after them.
pub open spec fn split_records(begun: Seq<u8>, bytes: Seq<u8>) -> (Seq<Seq<u8>>, Seq<u8>)
    decreases bytes.len(),
{
    if bytes.len() == 0 {
        (Seq::empty(), begun)
    } else {
        let (records, rest) = split_records(begun, bytes.drop_last());
        if bytes.last() == 0 {
            (records.push(rest), Seq::empty())
        } else {
            (records, rest.push(bytes.last()))
        }
    }
}

/// The views of a list of messages.
pub open spec fn msg_views(msgs: Seq<ChromeMsg>) -> Seq<ChromeMsgView> {
    msgs.map_values(|m: ChromeMsg| m@)
}

/// Cuts the bytes from the pipe into records and reads their messages.
pub struct PipeReader {
    begun: Vec<u8>,
}

impl View for PipeReader {
    type V = Seq<u8>;

    /// The bytes of the record that has not ended yet.
    closed spec fn view(&self) -> Seq<u8> {
        self.begun@
    }
}

impl PipeReader {
    /// A reader at the start of the pipe.
    pub fn new() -> (r: Self)
        ensures
            r@ == Seq::<u8>::empty(),
    {
        PipeReader { begun: Vec::new() }
    }

    /// Takes the next bytes from the pipe and gives the messages in the records that
    /// end in them.
    pub fn feed(&mut self, bytes: &[u8]) -> (r: Vec<ChromeMsg>)
        ensures
            msg_views(r@) == record_msgs(split_records(old(self)@, bytes@).0),
            final(self)@ == split_records(old(self)@, bytes@).1,
    {
        let ghost begun = self@;
        let mut r: Vec<ChromeMsg> = Vec::new();
        assert(msg_views(r@) =~= Seq::<ChromeMsgView>::empty());
        let mut i: usize = 0;
        while i < bytes.len()
            invariant
                i <= bytes@.len(),
                msg_views(r@) == record_msgs(split_records(begun, bytes@.take(i as int)).0),
                self@ == split_records(begun, bytes@.take(i as int)).1,
            decreases bytes@.len() - i,
        {
            let b: u8 = bytes[i];
            let ghost before = split_records(begun, bytes@.take(i as int));
            assert(bytes@.take(i + 1).drop_last() =~= bytes@.take(i as int));
            if b == 0 {
                assert(before.0.push(before.1).drop_last() =~= before.0);
                match parse_record(self.begun.as_slice()) {
                    Some(m) => {
                        let ghost msgs = r@;
                        r.push(m);
                        assert(msg_views(r@) =~= msg_views(msgs).push(m@));
                    },
                    None => {},
                }
                self.begun = Vec::new();
            } else {
                self.begun.push(b);
            }
            i = i + 1;
        }
        assert(bytes@.take(bytes@.len() as int) =~= bytes@);
        r
    }

    /// Takes the end of the pipe and gives the message in the record that was begun.
    pub fn finish(&mut self) -> (r: Option<ChromeMsg>)
        ensures
            opt_msg(r) == record_msg(old(self)@),
            final(self)@ == Seq::<u8>::empty(),
    {
        let r = parse_record(self.begun.as_slice());
        self.begun = Vec::new();
        r
    }
}

/// The record that carries a JSON text on the pipe.
pub open spec fn record(text: Seq<u8>) -> Seq<u8> {
    text.push(0)
}

/// The record that carries a JSON text on the pipe.
pub fn pipe_record(text: Vec<u8>) -> (r: Vec<u8>)
    ensures
        r@ == record(text@),
{
    let mut r = text;
    r.push(0);
    r
}

proof fn split_records_in_pieces(begun: Seq<u8>, first: Seq<u8>, second: Seq<u8>)
    ensures
        split_records(begun, first + second) == ({
            let (records, rest) = split_records(begun, first);
            let (more, rest2) = split_records(rest, second);
            (records + more, rest2)
        }),
    decreases second.len(),
{
    let (records, rest) = split_records(begun, first);
    if second.len() == 0 {
        assert(first + second =~= first);
        assert(records + Seq::<Seq<u8>>::empty() =~= records);
    } else {
        split_records_in_pieces(begun, first, second.drop_last());
        assert((first + second).drop_last() =~= first + second.drop_last());
        assert((first + second).last() == second.last());
        let (more, rest2) = split_records(rest, second.drop_last());
        assert((records + more).push(rest2) =~= records + more.push(rest2));
    }
}

proof fn record_msgs_in_pieces(first: Seq<Seq<u8>>, second: Seq<Seq<u8>>)
    ensures
        record_msgs(first + second) == record_msgs(first) + record_msgs(second),
    decreases second.len(),
{
    if second.len() == 0 {
        assert(first + second =~= first);
        assert(record_msgs(first) + record_msgs(second) =~= record_msgs(first));
    } else {
        record_msgs_in_pieces(first, second.drop_last());
        assert((first + second).drop_last() =~= first + second.drop_last());
        let before = record_msgs(second.drop_last());
        match record_msg(second.last()) {
            Some(m) => {
                assert((record_msgs(first) + before).push(m) =~= record_msgs(first) + before.push(
                    m,
                ));
            },
            None => {},
        }
    }
}

/// How the pipe is cut up does not matter: two pieces, fed one after the other, give
/// the messages that they give as one, and leave the same record begun.
pub proof fn pieces_give_what_the_whole_gives(begun: Seq<u8>, first: Seq<u8>, second: Seq<u8>)
    ensures
        ({
            let (records, rest) = split_records(begun, first);
            let (more, rest2) = split_records(rest, second);
            let (all, end) = split_records(begun, first + second);
            &&& record_msgs(all) == record_msgs(records) + record_msgs(more)
            &&& end == rest2
        }),
{
    split_records_in_pieces(begun, first, second);
    let (records, rest) = split_records(begun, first);
    record_msgs_in_pieces(records, split_records(rest, second).0);
}

/// A text without a zero byte does not end the record that is begun.
proof fn split_text(begun: Seq<u8>, text: Seq<u8>)
    requires
        !text.contains(0u8),
    ensures
        split_records(begun, text) == (Seq::<Seq<u8>>::empty(), begun + text),
    decreases text.len(),
{
    if text.len() == 0 {
        assert(begun + text =~= begun);
    } else {
        assert forall|i: int| 0 <= i < text.drop_last().len() implies text.drop_last()[i]
            != 0u8 by {
            assert(text.contains(text[i]));
        }
        assert(text.contains(text.last()));
        split_text(begun, text.drop_last());
        assert((begun + text.drop_last()).push(text.last()) =~= begun + text);
    }
}

/// The bytes that carry the given texts, one record after another.
pub open spec fn records(texts: Seq<Seq<u8>>) -> Seq<u8>
    decreases texts.len(),
{
    if texts.len() == 0 {
        Seq::empty()
    } else {
        records(texts.drop_last()) + record(texts.last())
    }
}

/// What is read back of texts without a zero byte, each sent as a record, is those
/// texts, and no record is left begun.
pub proof fn records_round_trip(texts: Seq<Seq<u8>>)
    requires
        forall|i: int| 0 <= i < texts.len() ==> !(#[trigger] texts[i]).contains(0u8),
    ensures
        split_records(Seq::empty(), records(texts)) == (texts, Seq::<u8>::empty()),
    decreases texts.len(),
{
    let none = Seq::<u8>::empty();
    if texts.len() == 0 {
        assert(texts =~= Seq::empty());
    } else {
        let text = texts.last();
        records_round_trip(texts.drop_last());
        split_records_in_pieces(none, records(texts.drop_last()), record(text));
        split_text(none, text);
        assert(none + text =~= text);
        assert(record(text).drop_last() =~= text);
        assert(split_records(none, record(text)).0 =~= seq![text]);
        assert(texts.drop_last() + seq![text] =~= texts);
    }
}

/// The views of a list of strings.
pub open spec fn texts(s: Seq<String>) -> Seq<Seq<char>> {
    s.map_values(|x: String| x@)
}

/// The flags that Chrome is always started with: it shows no window, and is spoken
/// to over a pipe.
pub open spec fn chrome_flags() -> Seq<Seq<char>> {
    seq![
        "--headless"@,
        "--remote-debugging-pipe"@,
        "--disable-gpu"@,
        "--disable-software-rasterizer"@,
        "--no-first-run"@,
        "--no-default-browser-check"@,
        "--disable-extensions"@,
        "--disable-background-networking"@,
        "--disable-sync"@,
        "--disable-translate"@,
        "--mute-audio"@,
        "--hide-scrollbars"@,
        "--disable-dev-shm-usage"@,
        "--disable-setuid-sandbox"@,
        "--no-sandbox"@,
    ]
}

/// The arguments that Chrome is started with: the flags it always gets, and then
/// the given ones.
pub fn chrome_args(extra: &[String]) -> (r: Vec<String>)
    ensures
        texts(r@) == chrome_flags() + texts(extra@),
{
    let mut r: Vec<String> = Vec::new();
    r.push("--headless".to_owned());
    r.push("--remote-debugging-pipe".to_owned());
    r.push("--disable-gpu".to_owned());
    r.push("--disable-software-rasterizer".to_owned());
    r.push("--no-first-run".to_owned());
    r.push("--no-default-browser-check".to_owned());
    r.push("--disable-extensions".to_owned());
    r.push("--disable-background-networking".to_owned());
    r.push("--disable-sync".to_owned());
    r.push("--disable-translate".to_owned());
    r.push("--mute-audio".to_owned());
    r.push("--hide-scrollbars".to_owned());
    r.push("--disable-dev-shm-usage".to_owned());
    r.push("--disable-setuid-sandbox".to_owned());
    r.push("--no-sandbox".to_owned());
    assert(texts(r@) =~= chrome_flags() + texts(extra@.take(0)));
    let mut i: usize = 0;
    while i < extra.len()
        invariant
            i <= extra@.len(),
            texts(r@) == chrome_flags() + texts(extra@.take(i as int)),
        decreases extra@.len() - i,
    {
        let ghost before = r@;
        r.push(extra[i].clone());
        assert(texts(r@) =~= texts(before).push(extra@[i as int]@));
        assert(texts(extra@.take(i + 1)) =~= texts(extra@.take(i as int)).push(
            extra@[i as int]@,
        ));
        assert((chrome_flags() + texts(extra@.take(i as int))).push(extra@[i as int]@)
            =~= chrome_flags() + texts(extra@.take(i + 1)));
        i = i + 1;
    }
    assert(extra@.take(extra@.len() as int) =~= extra@);
    r
}

/// The characters that Unicode counts as white space.
pub open spec fn white_space(c: char) -> bool {
    let n = c as u32;
    ||| 0x09 <= n <= 0x0d
    ||| n == 0x20
    ||| n == 0x85
    ||| n == 0xa0
    ||| n == 0x1680
    ||| 0x2000 <= n <= 0x200a
    ||| n == 0x2028
    ||| n == 0x2029
    ||| n == 0x202f
    ||| n == 0x205f
    ||| n == 0x3000
}

fn is_white_space(c: char) -> (r: bool)
    ensures
        r == white_space(c),
{
    let n: u32 = c as u32;
    (0x09 <= n && n <= 0x0d) || n == 0x20 || n == 0x85 || n == 0xa0 || n == 0x1680 || (0x2000 <= n
        && n <= 0x200a) || n == 0x2028 || n == 0x2029 || n == 0x202f || n == 0x205f || n == 0x3000
}

/// `s` without the white space at its ends.
pub open spec fn trimmed(s: Seq<char>) -> Seq<char>
    decreases s.len(),
{
    if s.len() == 0 {
        s
    } else if white_space(s[0]) {
        trimmed(s.drop_first())
    } else if white_space(s.last()) {
        trimmed(s.drop_last())
    } else {
        s
    }
}

/// Where the text without the white space at its front begins.
fn trimmed_front(s: &str) -> (from: usize)
    ensures
        from <= s@.len(),
        from < s@.len() ==> !white_space(s@[from as int]),
        trimmed(s@.skip(from as int)) == trimmed(s@),
{
    let len: usize = s.unicode_len();
    let mut from: usize = 0;
    assert(s@.skip(0) =~= s@);
    while from < len && is_white_space(s.get_char(from))
        invariant
            from <= len == s@.len(),
            trimmed(s@.skip(from as int)) == trimmed(s@),
        decreases len - from,
    {
        assert(s@.skip(from as int).drop_first() =~= s@.skip(from + 1));
        from = from + 1;
    }
    from
}

/// Where the text from `from` on, which does not begin with white space, ends without
/// the white space at its end.
fn trimmed_end(s: &str, from: usize) -> (to: usize)
    requires
        from <= s@.len(),
        from < s@.len() ==> !white_space(s@[from as int]),
    ensures
        from <= to <= s@.len(),
        s@.subrange(from as int, to as int) == trimmed(s@.skip(from as int)),
{
    let mut to: usize = s.unicode_len();
    assert(s@.subrange(from as int, to as int) =~= s@.skip(from as int));
    while from < to && is_white_space(s.get_char(to - 1))
        invariant
            from <= to <= s@.len(),
            from < s@.len() ==> !white_space(s@[from as int]),
            trimmed(s@.subrange(from as int, to as int)) == trimmed(s@.skip(from as int)),
        decreases to - from,
    {
        let ghost now = s@.subrange(from as int, to as int);
        assert(now.drop_last() =~= s@.subrange(from as int, to - 1));
        assert(now[0] == s@[from as int]);
        to = to - 1;
    }
    to
}

/// `s` without the white space at its ends.
pub fn trim(s: &str) -> (r: String)
    ensures
        r@ == trimmed(s@),
{
    let from: usize = trimmed_front(s);
    let to: usize = trimmed_end(s, from);
    s.substring_char(from, to).to_owned()
}

/// The text that `String::from_utf8_lossy` makes of the given bytes.
pub uninterp spec fn lossy_text(bytes: Seq<u8>) -> Seq<char>;

/// `String::from_utf8_lossy`: the text that the bytes encode, where they are UTF-8;
/// otherwise a text with replacement characters, of which nothing more is stated.
#[verifier::external_body]
fn from_utf8_lossy(bytes: &[u8]) -> (r: String)
    ensures
        r@ == lossy_text(bytes@),
        valid_utf8(bytes@) ==> r@ == decode_utf8(bytes@),
{
    String::from_utf8_lossy(bytes).into_owned()
}

/// What came of looking a program up.
pub enum Lookup {
    /// The lookup could not be run.
    NotRun,
    /// The lookup ended, with or without success, and printed this.
    Ended { success: bool, stdout: Vec<u8> },
}

impl Lookup {
    /// The path that the lookup found.
    pub open spec fn path(self) -> Option<Seq<char>> {
        match self {
            Lookup::NotRun => None,
            Lookup::Ended { success, stdout } => {
                let path = trimmed(lossy_text(stdout@));
                if success && path.len() > 0 {
                    Some(path)
                } else {
                    None
                }
            },
        }
    }
}

/// The first path that one of the lookups found.
pub open spec fn first_path(lookups: Seq<Lookup>) -> Option<Seq<char>>
    decreases lookups.len(),
{
    if lookups.len() == 0 {
        None
    } else {
        match lookups[0].path() {
            Some(p) => Some(p),
            None => first_path(lookups.drop_first()),
        }
    }
}

/// There is no Chrome to start.
#[derive(Debug)]
pub struct ChromeNotFound;

impl ChromeNotFound {
    /// The text that the error is reported with.
    pub fn message(&self) -> (r: String)
        ensures
            r@ == "Chrome/Chromium not found. Set --chrome-path or install Chrome.\nSearched: [\"google-chrome-stable\"]"@,
    {
        "Chrome/Chromium not found. Set --chrome-path or install Chrome.\nSearched: [\"google-chrome-stable\"]".to_owned()
    }
}

/// The programs that are looked up, in order, where no path is given.
pub fn chrome_candidates() -> (r: Vec<String>)
    ensures
        texts(r@) == seq!["google-chrome-stable"@],
{
    let mut r: Vec<String> = Vec::new();
    r.push("google-chrome-stable".to_owned());
    assert(texts(r@) =~= seq!["google-chrome-stable"@]);
    r
}

/// The path of the program to start: the given one, or else the first that looking
/// up the [`chrome_candidates`] found.
pub fn find_chrome(explicit: Option<&str>, lookups: &[Lookup]) -> (r: Result<
    String,
    ChromeNotFound,
>)
    ensures
        match explicit {
            Some(p) => r matches Ok(s) && s@ == p@,
            None => match first_path(lookups@) {
                Some(p) => r matches Ok(s) && s@ == p,
                None => r is Err,
            },
        },
{
    if let Some(p) = explicit {
        return Ok(p.to_owned());
    }
    let mut i: usize = 0;
    assert(lookups@.skip(0) =~= lookups@);
    while i < lookups.len()
        invariant
            i <= lookups@.len(),
            explicit is None,
            first_path(lookups@.skip(i as int)) == first_path(lookups@),
        decreases lookups@.len() - i,
    {
        assert(lookups@.skip(i as int).drop_first() =~= lookups@.skip(i + 1));
        match &lookups[i] {
            Lookup::NotRun => {},
            Lookup::Ended { success, stdout } => {
                let path = trim(from_utf8_lossy(stdout.as_slice()).as_str());
                if *success && !path.as_str().is_empty() {
                    return Ok(path);
                }
            },
        }
        i = i + 1;
    }
    Err(ChromeNotFound)
}

/// A value with a member `id` that is a `u64` is the response with that number, and
/// comes whole, whatever other members it has.
pub proof fn value_with_number_is_a_response(others: Map<Seq<char>, Json>, id: u64)
    ensures
        ({
            let value = Json::Object(others.insert("id"@, Json::Unsigned(id)));
            chrome_msg(value) == (ChromeMsgView::Response { id, payload: value })
        }),
{
}

/// Any other value is an event. Its method, parameters and session are its members of
/// these names, whatever else it holds; where there is no such member, or one of another
/// type, the method is unknown, the parameters are null and there is no session.
pub proof fn other_value_is_an_event(value: Json)
    requires
        value matches Json::Object(m) ==> (m.dom().contains("id"@) ==> !(m["id"@] is Unsigned)),
    ensures
        ({
            let members = match value {
                Json::Object(m) => m,
                _ => Map::empty(),
            };
            &&& chrome_msg(value) matches ChromeMsgView::Event { method, params, session_id }
            &&& method == if members.dom().contains("method"@) && members["method"@] is Text {
                members["method"@]->Text_0
            } else {
                "__unknown__"@
            }
            &&& params == if members.dom().contains("params"@) {
                members["params"@]
            } else {
                Json::Null
            }
            &&& session_id == if members.dom().contains("sessionId"@) && members[
                "sessionId"@
            ] is Text {
                Some(members["sessionId"@]->Text_0)
            } else {
                None
            }
        }),
{
}

/// A text and a zero byte end the record that is begun, which then is all that came
/// since the last zero byte, however long that is.
pub proof fn zero_byte_ends_record(begun: Seq<u8>, text: Seq<u8>)
    requires
        !text.contains(0u8),
    ensures
        split_records(begun, text.push(0u8)) == (seq![begun + text], Seq::<u8>::empty()),
        split_records(begun, text) == (Seq::<Seq<u8>>::empty(), begun + text),
        record(text) == text.push(0u8),
{
    split_text(begun, text);
    assert(text.push(0u8).drop_last() =~= text);
    assert(split_records(begun, text.push(0u8)).0 =~= seq![begun + text]);
}

/// A record that is a JSON text gives the message that the text stands for, however long
/// it is; one that is empty or no JSON text gives none. The messages of a record come
/// after those of the records before it, of which none is lost.
pub proof fn every_record_is_read(before: Seq<Seq<u8>>, last: Seq<u8>)
    ensures
        record_msgs(before.push(last)) == match json_decoded(last) {
            Ok(value) => if last.len() > 0 {
                record_msgs(before).push(chrome_msg(value))
            } else {
                record_msgs(before)
            },
            Err(_) => record_msgs(before),
        },
        record_msgs(Seq::empty()) == Seq::<ChromeMsgView>::empty(),
        record_msg(last) == match json_decoded(last) {
            Ok(value) => if last.len() > 0 {
                Some(chrome_msg(value))
            } else {
                None
            },
            Err(_) => None,
        },
{
    assert(before.push(last).drop_last() =~= before);
}

/// Whatever came before, a JSON text and a zero byte, at the start of a record, give
/// exactly one message: the one that the text stands for.
pub proof fn text_on_pipe_gives_one_message(text: Seq<u8>, value: Json)
    requires
        text.len() > 0,
        !text.contains(0u8),
        json_decoded(text) == Ok::<Json, Seq<char>>(value),
    ensures
        ({
            let (records, begun) = split_records(Seq::empty(), text.push(0u8));
            &&& begun == Seq::<u8>::empty()
            &&& record_msgs(records) == seq![chrome_msg(value)]
        }),
{
    zero_byte_ends_record(Seq::empty(), text);
    assert(Seq::<u8>::empty() + text =~= text);
    every_record_is_read(Seq::empty(), text);
    assert(Seq::<Seq<u8>>::empty().push(text) =~= seq![text]);
    assert(Seq::<ChromeMsgView>::empty().push(chrome_msg(value)) =~= seq![chrome_msg(value)]);
}

/// A message of Chrome's is seen with all that it holds, and so is each of a list.
pub proof fn chrome_message_is_seen_whole(
    id: u64,
    value: serde_json::Value,
    method: String,
    session_id: Option<String>,
    msgs: Seq<ChromeMsg>,
)
    ensures
        (ChromeMsg::Response { id, payload: value })@ == (ChromeMsgView::Response {
            id,
            payload: json(value),
        }),
        (ChromeMsg::Event { method, params: value, session_id })@ == (ChromeMsgView::Event {
            method: method@,
            params: json(value),
            session_id: match session_id {
                Some(s) => Some(s@),
                None => None,
            },
        }),
        opt_msg(None) is None,
        forall|m: ChromeMsg| #[trigger] opt_msg(Some(m)) == Some(m@),
        msg_views(msgs).len() == msgs.len(),
        forall|i: int| 0 <= i < msgs.len() ==> (#[trigger] msg_views(msgs)[i]) == msgs[i]@,
{
}

/// Chrome is started with all the arguments that are given, as they are and in their
/// order, behind fifteen flags, the first two of which make it headless and have it
/// talk over the pipe.
pub proof fn given_arguments_follow_flags(args: Seq<String>, extra: Seq<String>)
    requires
        texts(args) == chrome_flags() + texts(extra),
    ensures
        args.len() == 15 + extra.len(),
        args[0]@ == "--headless"@,
        args[1]@ == "--remote-debugging-pipe"@,
        forall|i: int| 0 <= i < extra.len() ==> (#[trigger] extra[i])@ == args[15 + i]@,
{
    assert(texts(args).len() == args.len());
    assert(texts(args)[0] == args[0]@);
    assert(texts(args)[1] == args[1]@);
    assert forall|i: int| 0 <= i < extra.len() implies (#[trigger] extra[i])@ == args[15 + i]@ by {
        assert(texts(args)[15 + i] == args[15 + i]@);
        assert(texts(extra)[i] == extra[i]@);
    }
}

/// The white space that is trimmed off the ends of a text.
pub open spec fn all_white(s: Seq<char>) -> bool {
    forall|i: int| 0 <= i < s.len() ==> white_space(#[trigger] s[i])
}

/// Trimming takes white space off the ends, and all of it: what is left neither begins
/// nor ends with white space, and what was taken off is white space and nothing else.
#[verifier::spinoff_prover]
pub proof fn trimming_takes_white_space_off_ends(s: Seq<char>) -> (ends: (Seq<char>, Seq<char>))
    ensures
        s == ends.0 + trimmed(s) + ends.1,
        all_white(ends.0),
        all_white(ends.1),
        trimmed(s).len() > 0 ==> !white_space(trimmed(s)[0]) && !white_space(trimmed(s).last()),
    decreases s.len(),
{
    let none = Seq::<char>::empty();
    if s.len() > 0 && white_space(s[0]) {
        let (a, b) = trimming_takes_white_space_off_ends(s.drop_first());
        let front = seq![s[0]] + a;
        let left = trimmed(s.drop_first());
        assert(trimmed(s) == left);
        assert(s =~= seq![s[0]] + (a + left + b)) by {
            assert(s =~= seq![s[0]] + s.drop_first());
        }
        assert(seq![s[0]] + (a + left + b) =~= front + left + b);
        assert forall|i: int| 0 <= i < front.len() implies white_space(#[trigger] front[i]) by {
            if i > 0 {
                assert(front[i] == a[i - 1]);
            }
        }
        (front, b)
    } else if s.len() > 0 && white_space(s.last()) {
        let (a, b) = trimming_takes_white_space_off_ends(s.drop_last());
        let back = b.push(s.last());
        let left = trimmed(s.drop_last());
        assert(trimmed(s) == left);
        assert(s =~= (a + left + b).push(s.last())) by {
            assert(s =~= s.drop_last().push(s.last()));
        }
        assert((a + left + b).push(s.last()) =~= a + left + back);
        assert forall|i: int| 0 <= i < back.len() implies white_space(#[trigger] back[i]) by {
            if i < b.len() {
                assert(back[i] == b[i]);
            }
        }
        (a, back)
    } else {
        assert(s =~= none + s + none);
        (none, none)
    }
}

/// The characters that count as white space are these and no others.
pub proof fn white_space_is_unicode_white_space(c: char)
    ensures
        white_space(c) <==> {
            ||| c == '\t'
            ||| c == '\n'
            ||| c == '\u{b}'
            ||| c == '\u{c}'
            ||| c == '\r'
            ||| c == ' '
            ||| c == '\u{85}'
            ||| c == '\u{a0}'
            ||| c == '\u{1680}'
            ||| '\u{2000}' as u32 <= c as u32 <= '\u{200a}' as u32
            ||| c == '\u{2028}'
            ||| c == '\u{2029}'
            ||| c == '\u{202f}'
            ||| c == '\u{205f}'
            ||| c == '\u{3000}'
        },
{
}

/// A lookup finds the path that it printed, without the white space at its ends, where it
/// ended with success and printed a path; otherwise it finds none.
pub proof fn lookup_finds_printed_path(success: bool, stdout: Vec<u8>)
    ensures
        Lookup::NotRun.path() is None,
        !success ==> (Lookup::Ended { success, stdout }).path() is None,
        success && trimmed(lossy_text(stdout@)).len() == 0 ==> (Lookup::Ended {
            success,
            stdout,
        }).path() is None,
        success && trimmed(lossy_text(stdout@)).len() > 0 ==> (Lookup::Ended {
            success,
            stdout,
        }).path() == Some(trimmed(lossy_text(stdout@))),
{
}

/// The path that is taken is that of the first lookup that found one.
pub proof fn first_lookup_that_finds_counts(lookups: Seq<Lookup>, at: int)
    requires
        0 <= at <= lookups.len(),
        forall|i: int| 0 <= i < at ==> (#[trigger] lookups[i]).path() is None,
        at < lookups.len() ==> lookups[at].path() is Some,
    ensures
        at < lookups.len() ==> first_path(lookups) == lookups[at].path(),
        at == lookups.len() ==> first_path(lookups) is None,
    decreases lookups.len(),
{
    if lookups.len() > 0 && at > 0 {
        let rest = lookups.drop_first();
        assert(lookups[0].path() is None);
        assert forall|i: int| 0 <= i < at - 1 implies (#[trigger] rest[i]).path() is None by {
            assert(rest[i] == lookups[i + 1]);
        }
        first_lookup_that_finds_counts(rest, at - 1);
    }
}

} // verus!
