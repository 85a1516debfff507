//! A client of the daemon: what it asks, and what it makes of the answers.
//!
//! Every request has a number of its own, and the answer bears the same number.
use crate::json::{
    field_or_null, json, json_display, opt_text, text_field, value_display, value_get, Json,
};
use crate::pool::cdp_error_text;
use crate::protocol::{ClientMsg, ClientMsgView, DaemonMsg, DaemonMsgView};
use crate::text::{decimal, joined};
use vstd::prelude::*;

verus! {

/// Why a request has no result.
#[derive(Debug)]
pub enum ClientError {
    /// The daemon has closed the connection.
    Closed,
    /// No answer came in time.
    TimedOut,
    /// No page could be taken.
    AcquireFailed(String),
    /// Chrome answered with this error.
    Cdp(String),
    /// The daemon answered with this error.
    Daemon(String),
    /// The answer belongs to another kind of request.
    Unexpected(DaemonMsg),
}

/// A [`ClientError`] with texts and JSON values in place of what holds them.
pub enum ClientErrorView {
    Closed,
    TimedOut,
    AcquireFailed(Seq<char>),
    Cdp(Seq<char>),
    Daemon(Seq<char>),
    Unexpected(DaemonMsgView),
}

impl View for ClientError {
    type V = ClientErrorView;

    open spec fn view(&self) -> ClientErrorView {
        match *self {
            ClientError::Closed => ClientErrorView::Closed,
            ClientError::TimedOut => ClientErrorView::TimedOut,
            ClientError::AcquireFailed(m) => ClientErrorView::AcquireFailed(m@),
            ClientError::Cdp(m) => ClientErrorView::Cdp(m@),
            ClientError::Daemon(m) => ClientErrorView::Daemon(m@),
            ClientError::Unexpected(msg) => ClientErrorView::Unexpected(msg@),
        }
    }
}

impl ClientErrorView {
    /// The text that the error is reported with; an unexpected answer is reported
    /// with itself.
    pub open spec fn text(self) -> Option<Seq<char>> {
        match self {
            ClientErrorView::Closed => Some("daemon connection closed"@),
            ClientErrorView::TimedOut => Some("response timeout (30s)"@),
            ClientErrorView::AcquireFailed(m) => Some("acquire failed: "@ + m),
            ClientErrorView::Cdp(m) => Some(cdp_error_text(m)),
            ClientErrorView::Daemon(m) => Some(m),
            ClientErrorView::Unexpected(_) => None,
        }
    }
}

impl ClientError {
    /// The text that the error is reported with; an unexpected answer is reported
    /// with itself.
    pub fn message(&self) -> (r: Option<String>)
        ensures
            opt_text(r) == self@.text(),
    {
        match self {
            ClientError::Closed => Some("daemon connection closed".to_owned()),
            ClientError::TimedOut => Some("response timeout (30s)".to_owned()),
            ClientError::AcquireFailed(m) => Some(joined("acquire failed: ", m.as_str())),
            ClientError::Cdp(m) => Some(joined("CDP error: ", m.as_str())),
            ClientError::Daemon(m) => Some(m.clone()),
            ClientError::Unexpected(_) => None,
        }
    }
}

/// Hands out numbers, each one more than the last, from one.
pub struct Numbers {
    next: u64,
}

impl View for Numbers {
    type V = u64;

    /// The next number.
    closed spec fn view(&self) -> u64 {
        self.next
    }
}

impl Numbers {
    /// No number has been handed out.
    pub fn new() -> (r: Self)
        ensures
            r@ == 1,
    {
        Numbers { next: 1 }
    }

    /// Whether a number is left to hand out.
    pub fn has_next(&self) -> (r: bool)
        ensures
            r == (self@ < u64::MAX),
    {
        self.next < u64::MAX
    }

    /// Hands out the next number.
    pub fn alloc_id(&mut self) -> (r: u64)
        requires
            old(self)@ < u64::MAX,
        ensures
            r == old(self)@,
            final(self)@ == old(self)@ + 1,
    {
        let id: u64 = self.next;
        self.next = self.next + 1;
        id
    }
}

/// The client's part in the conversation with the daemon.
pub struct CdpClient {
    numbers: Numbers,
}

impl View for CdpClient {
    type V = u64;

    /// The number of the next request.
    closed spec fn view(&self) -> u64 {
        self.numbers@
    }
}

/// What came while an answer was awaited.
pub enum Received {
    /// A message.
    Message(DaemonMsg),
    /// The end of the connection.
    Closed,
    /// Nothing, for as long as is waited.
    Nothing,
}

/// A [`Received`] with texts and JSON values in place of what holds them.
pub enum ReceivedView {
    Message(DaemonMsgView),
    Closed,
    Nothing,
}

impl View for Received {
    type V = ReceivedView;

    open spec fn view(&self) -> ReceivedView {
        match *self {
            Received::Message(m) => ReceivedView::Message(m@),
            Received::Closed => ReceivedView::Closed,
            Received::Nothing => ReceivedView::Nothing,
        }
    }
}

/// What an answer is, or why there is none.
pub type Answer = Result<DaemonMsgView, ClientErrorView>;

/// The end of waiting for the answer to the request `id` that comes with `got`, if
/// it is the end. Messages that answer other requests, or none, are not.
pub open spec fn response_to(id: u64, got: ReceivedView) -> Option<Answer> {
    match got {
        ReceivedView::Message(m) => if m.answers() == Some(id) {
            Some(Ok(m))
        } else {
            None
        },
        ReceivedView::Closed => Some(Err(ClientErrorView::Closed)),
        ReceivedView::Nothing => Some(Err(ClientErrorView::TimedOut)),
    }
}

/// How long an answer is awaited after each message, in seconds.
pub const RESPONSE_TIMEOUT_SECS: u64 = 30;

fn answers(msg: &DaemonMsg) -> (r: Option<u64>)
    ensures
        r == msg@.answers(),
{
    match msg {
        DaemonMsg::CdpResponse { id, .. } => Some(*id),
        DaemonMsg::Acquired { id, .. } => Some(*id),
        DaemonMsg::Released { id } => Some(*id),
        DaemonMsg::WarmupDone { id, .. } => Some(*id),
        DaemonMsg::StatusResponse { id, .. } => Some(*id),
        DaemonMsg::Error { id, .. } => Some(*id),
        DaemonMsg::CdpEvent { .. } => None,
    }
}

/// The view of the end of waiting for an answer.
pub open spec fn answer_view(r: Option<Result<DaemonMsg, ClientError>>) -> Option<Answer> {
    match r {
        Some(Ok(m)) => Some(Ok(m@)),
        Some(Err(e)) => Some(Err(e@)),
        None => None,
    }
}

/// The view of the result of a command.
pub open spec fn value_view(r: Result<serde_json::Value, ClientError>) -> Result<
    Json,
    ClientErrorView,
> {
    match r {
        Ok(v) => Ok(json(v)),
        Err(e) => Err(e@),
    }
}

/// What an answer to [`CdpClient::acquire_page`] says: the page and the session, in
/// this order.
pub open spec fn acquired(msg: DaemonMsgView) -> Result<(Seq<char>, Seq<char>), ClientErrorView> {
    match msg {
        DaemonMsgView::Acquired { target_id, session_id, .. } => Ok((target_id, session_id)),
        DaemonMsgView::Error { message, .. } => Err(ClientErrorView::AcquireFailed(message)),
        other => Err(ClientErrorView::Unexpected(other)),
    }
}

/// The view of the result of taking a page.
pub open spec fn acquired_view(r: Result<(String, String), ClientError>) -> Result<
    (Seq<char>, Seq<char>),
    ClientErrorView,
> {
    match r {
        Ok((t, s)) => Ok((t@, s@)),
        Err(e) => Err(e@),
    }
}

/// What an answer to [`CdpClient::cdp`] says.
pub open spec fn command_result(msg: DaemonMsgView) -> Result<Json, ClientErrorView> {
    match msg {
        DaemonMsgView::CdpResponse { payload, .. } => match payload.field("error"@) {
            Some(e) => Err(ClientErrorView::Cdp(json_display(e))),
            None => Ok(payload.field_or_null("result"@)),
        },
        DaemonMsgView::Error { message, .. } => Err(ClientErrorView::Daemon(message)),
        other => Err(ClientErrorView::Unexpected(other)),
    }
}

/// What an answer to [`CdpClient::warmup`] says.
pub open spec fn warmed(msg: DaemonMsgView) -> Result<usize, ClientErrorView> {
    match msg {
        DaemonMsgView::WarmupDone { count, .. } => Ok(count),
        DaemonMsgView::Error { message, .. } => Err(ClientErrorView::Daemon(message)),
        other => Err(ClientErrorView::Unexpected(other)),
    }
}

/// The view of the result of warming up.
pub open spec fn warmed_view(r: Result<usize, ClientError>) -> Result<usize, ClientErrorView> {
    match r {
        Ok(n) => Ok(n),
        Err(e) => Err(e@),
    }
}

impl CdpClient {
    /// A client that has asked for nothing. Requests are numbered from one.
    pub fn new() -> (r: Self)
        ensures
            r@ == 1,
    {
        CdpClient { numbers: Numbers::new() }
    }

    /// Whether one more request can be numbered.
    pub fn can_ask(&self) -> (r: bool)
        ensures
            r == (self@ < u64::MAX),
    {
        self.numbers.has_next()
    }

    /// The request for a page.
    pub fn acquire_page(&mut self) -> (r: ClientMsg)
        requires
            old(self)@ < u64::MAX,
        ensures
            r@ == (ClientMsgView::Acquire { id: old(self)@ }),
            final(self)@ == old(self)@ + 1,
    {
        let id: u64 = self.numbers.alloc_id();
        ClientMsg::Acquire { id }
    }

    /// The request to close a page.
    pub fn release_page(&mut self, target_id: &str) -> (r: ClientMsg)
        requires
            old(self)@ < u64::MAX,
        ensures
            r@ == (ClientMsgView::Release { id: old(self)@, target_id: target_id@ }),
            final(self)@ == old(self)@ + 1,
    {
        let id: u64 = self.numbers.alloc_id();
        ClientMsg::Release { id, target_id: target_id.to_owned() }
    }

    /// The request to send a command to Chrome.
    pub fn cdp(
        &mut self,
        method: &str,
        params: serde_json::Value,
        session_id: Option<&str>,
    ) -> (r: ClientMsg)
        requires
            old(self)@ < u64::MAX,
        ensures
            r@ == (ClientMsgView::Cdp {
                id: old(self)@,
                method: method@,
                params: json(params),
                session_id: match session_id {
                    Some(s) => Some(s@),
                    None => None,
                },
            }),
            final(self)@ == old(self)@ + 1,
    {
        let id: u64 = self.numbers.alloc_id();
        ClientMsg::Cdp {
            id,
            method: method.to_owned(),
            params,
            session_id: match session_id {
                Some(s) => Some(s.to_owned()),
                None => None,
            },
        }
    }

    /// The request to warm up pages.
    pub fn warmup(&mut self, count: usize, url: &str) -> (r: ClientMsg)
        requires
            old(self)@ < u64::MAX,
        ensures
            r@ == (ClientMsgView::Warmup { id: old(self)@, count, url: url@ }),
            final(self)@ == old(self)@ + 1,
    {
        let id: u64 = self.numbers.alloc_id();
        ClientMsg::Warmup { id, count, url: url.to_owned() }
    }

    /// The request to tell how the daemon is doing.
    pub fn status(&mut self) -> (r: ClientMsg)
        requires
            old(self)@ < u64::MAX,
        ensures
            r@ == (ClientMsgView::Status { id: old(self)@ }),
            final(self)@ == old(self)@ + 1,
    {
        let id: u64 = self.numbers.alloc_id();
        ClientMsg::Status { id }
    }

    /// Takes what came while the answer to the given request was awaited, and gives
    /// the end of the waiting, if this is it. Messages that answer other requests, or
    /// none, are dropped.
    pub fn recv_response(expected_id: u64, got: Received) -> (r: Option<
        Result<DaemonMsg, ClientError>,
    >)
        ensures
            answer_view(r) == response_to(expected_id, got@),
    {
        match got {
            Received::Message(m) => match answers(&m) {
                Some(id) => if id == expected_id {
                    Some(Ok(m))
                } else {
                    None
                },
                None => None,
            },
            Received::Closed => Some(Err(ClientError::Closed)),
            Received::Nothing => Some(Err(ClientError::TimedOut)),
        }
    }

    /// What an answer to [`CdpClient::acquire_page`] says: the page and the session.
    pub fn acquire_page_result(msg: DaemonMsg) -> (r: Result<(String, String), ClientError>)
        ensures
            acquired_view(r) == acquired(msg@),
    {
        match msg {
            DaemonMsg::Acquired { target_id, session_id, .. } => Ok((target_id, session_id)),
            DaemonMsg::Error { message, .. } => Err(ClientError::AcquireFailed(message)),
            other => Err(ClientError::Unexpected(other)),
        }
    }

    /// What an answer to [`CdpClient::cdp`] says.
    pub fn cdp_result(msg: DaemonMsg) -> (r: Result<serde_json::Value, ClientError>)
        ensures
            value_view(r) == command_result(msg@),
    {
        match msg {
            DaemonMsg::CdpResponse { payload, .. } => match value_get(&payload, "error") {
                Some(e) => Err(ClientError::Cdp(value_display(e))),
                None => Ok(field_or_null(&payload, "result")),
            },
            DaemonMsg::Error { message, .. } => Err(ClientError::Daemon(message)),
            other => Err(ClientError::Unexpected(other)),
        }
    }

    /// What an answer to [`CdpClient::warmup`] says: how many pages were added.
    pub fn warmup_result(msg: DaemonMsg) -> (r: Result<usize, ClientError>)
        ensures
            warmed_view(r) == warmed(msg@),
    {
        match msg {
            DaemonMsg::WarmupDone { count, .. } => Ok(count),
            DaemonMsg::Error { message, .. } => Err(ClientError::Daemon(message)),
            other => Err(ClientError::Unexpected(other)),
        }
    }
}

/// The title that evaluating `document.title` gave.
pub open spec fn evaluated_title(result: Json) -> Seq<char> {
    match result.field_or_null("result"@).text_field("value"@) {
        Some(t) => t,
        None => "<no title>"@,
    }
}

/// The title that evaluating `document.title` gave.
pub fn page_title(result: &serde_json::Value) -> (r: String)
    ensures
        r@ == evaluated_title(json(*result)),
{
    let title = match value_get(result, "result") {
        Some(v) => text_field(v, "value"),
        None => None,
    };
    match title {
        Some(t) => t,
        None => "<no title>".to_owned(),
    }
}

/// How waiting for the answer to the request `id` ends, when this comes one after
/// another.
pub open spec fn awaited(got: Seq<ReceivedView>, id: u64) -> Option<Answer>
    decreases got.len(),
{
    if got.len() == 0 {
        None
    } else {
        match response_to(id, got[0]) {
            Some(r) => Some(r),
            None => awaited(got.drop_first(), id),
        }
    }
}

/// Messages that do not answer a request, events among them, are dropped: waiting
/// ends with the first message that does, or with the connection or the time if
/// these end before.
pub proof fn first_answer_is_taken(got: Seq<ReceivedView>, id: u64, at: int)
    requires
        0 <= at < got.len(),
        response_to(id, got[at]) is Some,
        forall|i: int|
            0 <= i < at ==> ((#[trigger] got[i]) matches ReceivedView::Message(m) && m.answers()
                != Some(id)),
    ensures
        awaited(got, id) == response_to(id, got[at]),
    decreases got.len(),
{
    if at > 0 {
        let rest = got.drop_first();
        assert(rest[at - 1] == got[at]);
        assert forall|i: int| 0 <= i < at - 1 implies ((#[trigger] rest[i]) matches
            ReceivedView::Message(m) && m.answers() != Some(id)) by {
            assert(rest[i] == got[i + 1]);
        }
        first_answer_is_taken(rest, id, at - 1);
    }
}

/// What comes does not answer the given request.
pub open spec fn passes(got: ReceivedView, id: u64) -> bool {
    got matches ReceivedView::Message(m) ==> m.answers() != Some(id)
}

/// What is taken for the answer to a request bears its number, and the answers to
/// another request make no difference to it.
pub proof fn answers_do_not_mix(got: Seq<ReceivedView>, id: u64, other: u64)
    requires
        id != other,
    ensures
        awaited(got, id) matches Some(Ok(m)) ==> m.answers() == Some(id),
        awaited(got.filter(|g: ReceivedView| passes(g, other)), id) == awaited(got, id),
    decreases got.len(),
{
    let keep = |g: ReceivedView| passes(g, other);
    if got.len() == 0 {
        reveal(Seq::filter);
    } else {
        let rest = got.drop_first();
        let one = seq![got[0]];
        answers_do_not_mix(rest, id, other);
        assert(got =~= one + rest);
        Seq::filter_distributes_over_add(one, rest, keep);
        reveal(Seq::filter);
        assert(one.drop_last() =~= Seq::empty());
        assert(one.drop_last().filter(keep) =~= Seq::empty());
        if keep(got[0]) {
            assert(one.filter(keep) =~= one);
            assert((one + rest.filter(keep)).drop_first() =~= rest.filter(keep));
        } else {
            assert(one.filter(keep) =~= Seq::empty());
            assert(Seq::<ReceivedView>::empty() + rest.filter(keep) =~= rest.filter(keep));
        }
    }
}

/// A command gives the member `result` of Chrome's response exactly, whatever that holds
/// and whatever other members the response has, as long as none of them is an error.
pub proof fn command_gives_result(id: u64, others: Map<Seq<char>, Json>, result: Json)
    requires
        !others.dom().contains("error"@),
    ensures
        command_result(
            DaemonMsgView::CdpResponse {
                id,
                payload: Json::Object(others.insert("result"@, result)),
            },
        ) == Ok::<Json, ClientErrorView>(result),
{
    reveal_strlit("error");
    reveal_strlit("result");
    assert("error"@.len() != "result"@.len());
}

/// A response without a result gives null, and one with an error gives that error,
/// displayed, whatever else it has.
pub proof fn command_gives_error(
    id: u64,
    others: Map<Seq<char>, Json>,
    error: Json,
    empty: Json,
    message: Seq<char>,
)
    requires
        empty matches Json::Object(m) ==> !m.dom().contains("error"@) && !m.dom().contains(
            "result"@,
        ),
    ensures
        command_result(
            DaemonMsgView::CdpResponse {
                id,
                payload: Json::Object(others.insert("error"@, error)),
            },
        ) == Err::<Json, ClientErrorView>(ClientErrorView::Cdp(json_display(error))),
        command_result(DaemonMsgView::CdpResponse { id, payload: empty }) == Ok::<
            Json,
            ClientErrorView,
        >(Json::Null),
        command_result(DaemonMsgView::Error { id, message }) == Err::<Json, ClientErrorView>(
            ClientErrorView::Daemon(message),
        ),
{
}

/// A page that was taken is given with its session, in this order; a request for one that
/// failed gives the reason.
pub proof fn acquire_gives_page_and_session(
    id: u64,
    target_id: Seq<char>,
    session_id: Seq<char>,
    message: Seq<char>,
)
    ensures
        acquired(DaemonMsgView::Acquired { id, target_id, session_id }) == Ok::<
            (Seq<char>, Seq<char>),
            ClientErrorView,
        >((target_id, session_id)),
        acquired(DaemonMsgView::Error { id, message }) == Err::<
            (Seq<char>, Seq<char>),
            ClientErrorView,
        >(ClientErrorView::AcquireFailed(message)),
{
}

/// Warming up gives the count that the daemon tells, and a failure its reason.
pub proof fn warm_up_gives_count(id: u64, count: usize, message: Seq<char>)
    ensures
        warmed(DaemonMsgView::WarmupDone { id, count }) == Ok::<usize, ClientErrorView>(count),
        warmed(DaemonMsgView::Error { id, message }) == Err::<usize, ClientErrorView>(
            ClientErrorView::Daemon(message),
        ),
{
}

/// An answer of another kind than was asked for is an error that holds the answer.
pub proof fn other_answers_are_unexpected(msg: DaemonMsgView)
    requires
        !(msg is Error),
    ensures
        !(msg is CdpResponse) ==> command_result(msg) == Err::<Json, ClientErrorView>(
            ClientErrorView::Unexpected(msg),
        ),
        !(msg is Acquired) ==> acquired(msg) == Err::<(Seq<char>, Seq<char>), ClientErrorView>(
            ClientErrorView::Unexpected(msg),
        ),
        !(msg is WarmupDone) ==> warmed(msg) == Err::<usize, ClientErrorView>(
            ClientErrorView::Unexpected(msg),
        ),
{
}

/// A message ends the waiting for a request exactly where it bears the number of that
/// request, and comes unchanged; the end of the connection, or of the patience, ends any
/// waiting with its own error.
pub proof fn waiting_ends_with_own_number(id: u64, msg: DaemonMsgView)
    ensures
        msg.answers() == Some(id) ==> response_to(id, ReceivedView::Message(msg)) == Some(
            Ok::<DaemonMsgView, ClientErrorView>(msg),
        ),
        msg.answers() != Some(id) ==> response_to(id, ReceivedView::Message(msg)) is None,
        response_to(id, ReceivedView::Closed) == Some(
            Err::<DaemonMsgView, ClientErrorView>(ClientErrorView::Closed),
        ),
        response_to(id, ReceivedView::Nothing) == Some(
            Err::<DaemonMsgView, ClientErrorView>(ClientErrorView::TimedOut),
        ),
{
}

/// An error is reported with its cause, whatever that says.
pub proof fn client_error_names_cause(why: Seq<char>, msg: DaemonMsgView)
    ensures
        ClientErrorView::Closed.text() == Some("daemon connection closed"@),
        ClientErrorView::TimedOut.text() == Some("response timeout (30s)"@),
        ClientErrorView::AcquireFailed(why).text() == Some("acquire failed: "@ + why),
        ClientErrorView::Cdp(why).text() == Some("CDP error: "@ + why),
        ClientErrorView::Daemon(why).text() == Some(why),
        ClientErrorView::Unexpected(msg).text() is None,
{
}

/// The title of a page is the text that evaluating gave, be it empty or not and whatever
/// else comes with it; where that is no text, there is no title.
pub proof fn title_is_evaluated_text(
    others: Map<Seq<char>, Json>,
    more: Map<Seq<char>, Json>,
    value: Json,
    without: Json,
)
    requires
        without matches Json::Object(m) ==> !m.dom().contains("value"@),
    ensures
        evaluated_title(
            Json::Object(
                others.insert("result"@, Json::Object(more.insert("value"@, value))),
            ),
        ) == match value {
            Json::Text(t) => t,
            _ => "<no title>"@,
        },
        evaluated_title(Json::Object(others.insert("result"@, without))) == "<no title>"@,
        !others.dom().contains("result"@) ==> evaluated_title(Json::Object(others))
            == "<no title>"@,
{
}

/// What came, what is made of it and why it failed are seen with all that they hold.
pub proof fn answer_is_seen_whole(
    msg: DaemonMsg,
    error: ClientError,
    value: serde_json::Value,
    text: String,
    other: String,
    count: usize,
)
    ensures
        Received::Message(msg)@ == ReceivedView::Message(msg@),
        Received::Closed@ == ReceivedView::Closed,
        Received::Nothing@ == ReceivedView::Nothing,
        ClientError::Closed@ == ClientErrorView::Closed,
        ClientError::TimedOut@ == ClientErrorView::TimedOut,
        ClientError::AcquireFailed(text)@ == ClientErrorView::AcquireFailed(text@),
        ClientError::Cdp(text)@ == ClientErrorView::Cdp(text@),
        ClientError::Daemon(text)@ == ClientErrorView::Daemon(text@),
        ClientError::Unexpected(msg)@ == ClientErrorView::Unexpected(msg@),
        answer_view(Some(Ok(msg))) == Some(Ok::<DaemonMsgView, ClientErrorView>(msg@)),
        answer_view(Some(Err(error))) == Some(Err::<DaemonMsgView, ClientErrorView>(error@)),
        answer_view(None) is None,
        value_view(Ok(value)) == Ok::<Json, ClientErrorView>(json(value)),
        value_view(Err(error)) == Err::<Json, ClientErrorView>(error@),
        acquired_view(Ok((text, other))) == Ok::<(Seq<char>, Seq<char>), ClientErrorView>(
            (text@, other@),
        ),
        acquired_view(Err(error)) == Err::<(Seq<char>, Seq<char>), ClientErrorView>(error@),
        warmed_view(Ok(count)) == Ok::<usize, ClientErrorView>(count),
        warmed_view(Err(error)) == Err::<usize, ClientErrorView>(error@),
{
}

/// Waiting in vain is reported with the seconds that were waited.
pub proof fn time_waited_is_named()
    ensures
        ClientErrorView::TimedOut.text() == Some(
            "response timeout ("@ + decimal(RESPONSE_TIMEOUT_SECS as nat) + "s)"@,
        ),
{
    reveal_strlit("response timeout (30s)");
    reveal_strlit("response timeout (");
    reveal_strlit("s)");
    reveal_strlit("3");
    reveal_strlit("0");
    reveal_with_fuel(decimal, 2);
    assert(decimal(30) =~= seq!['3', '0']);
    assert("response timeout (30s)"@ =~= "response timeout ("@ + decimal(30) + "s)"@);
}

} // verus!
