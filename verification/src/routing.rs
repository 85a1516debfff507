//! What holds of the router, whatever happens.
use crate::browser::ChromeMsgView;
use crate::daemon::{
    call_action, dropping_counts, has_session, names_split, without_target, ActionView, EventView,
    Outcome, OwnerView, RouterView, SessionView,
};
use crate::jobs::{
    job_progress, request_is_answered_once, warmup_rest, Asker, Goal, JobView, ProgressView,
    ReplyView,
};
use crate::json::{json_encoded, Json};
use crate::pool::{
    close_call, command, response_result, timeout_text, CallResult, CallView, CloseStage,
    PageStageView,
};
use crate::protocol::{ClientMsgView, DaemonMsgView};
use vstd::prelude::*;

verus! {

/// A message can be sent to the client: it is connected, or the event is about a job
/// whose end it is to be told.
pub open spec fn can_tell(s: RouterView, event: EventView, client_id: u64) -> bool {
    s.clients.dom().contains(client_id) || exists|k: u64| #[trigger]
        s.pending.dom().contains(k) && concerns(event, k) && s.pending[k].owes(client_id)
}

/// The replies among the actions go to clients that a message can be sent to.
pub open spec fn replies_reach(s: RouterView, event: EventView, actions: Seq<ActionView>) -> bool {
    forall|i: int|
        0 <= i < actions.len() ==> ((#[trigger] actions[i]) matches ActionView::Reply { reply }
            ==> can_tell(s, event, reply.client_id))
}

/// No two of the actions are replies.
pub open spec fn at_most_one_reply(actions: Seq<ActionView>) -> bool {
    forall|i: int, j: int|
        0 <= i < actions.len() && 0 <= j < actions.len() && (#[trigger] actions[i]) is Reply && (
        #[trigger] actions[j]) is Reply ==> i == j
}

/// Closing pages leaves everything alone but the count of pages in use, the sessions
/// that are closed and the calls that are made for it: one for each page.
pub(crate) proof fn closing_all_calls(s: RouterView, sessions: Seq<SessionView>)
    ensures
        ({
            let (after, actions) = s.closing_all(sessions);
            &&& after.clients == s.clients
            &&& after.pool.pages == s.pool.pages
            &&& after.pool.active == if s.pool.active < sessions.len() {
                0
            } else {
                s.pool.active - sessions.len()
            }
            &&& after.chrome_pid == s.chrome_pid
            &&& actions.len() == sessions.len()
            &&& forall|i: int| 0 <= i < actions.len() ==> !((#[trigger] actions[i]) is Reply)
            &&& forall|k: Seq<char>| #[trigger]
                after.owners.dom().contains(k) <==> s.owners.dom().contains(k) && !has_session(
                    sessions,
                    k,
                )
            &&& forall|k: Seq<char>| #[trigger]
                after.owners.dom().contains(k) ==> after.owners[k] == s.owners[k]
        }),
    decreases sessions.len(),
{
    if sessions.len() > 0 {
        let before = sessions.drop_last();
        closing_all_calls(s, before);
        names_split(sessions);
    }
}

proof fn progress_replies(s: RouterView, event: EventView, chrome_id: u64, job: JobView)
    requires
        concerns(event, chrome_id),
        s.pending.dom().contains(chrome_id),
        s.pending[chrome_id] == (OwnerView::Internal { job }),
    ensures
        ({
            let p = job_progress(job, outcome_for(event, job));
            let actions = s.answered(chrome_id).progressing(p).1;
            replies_reach(s, event, actions) && at_most_one_reply(actions)
        }),
{
    let p = job_progress(job, outcome_for(event, job));
    request_is_answered_once(job, outcome_for(event, job));
    if let Some(reply) = p.reply {
        assert(s.pending[chrome_id].owes(reply.client_id));
        assert(can_tell(s, event, reply.client_id));
    }
}

/// Nothing is sent to a client that is not connected but the end of a job that it asked
/// for while it was, and one event makes for one message to a client at most.
pub proof fn replies_go_to_clients_that_wait(s: RouterView, event: EventView)
    ensures
        replies_reach(s, event, s.on(event).1),
        at_most_one_reply(s.on(event).1),
{
    match event {
        EventView::FromChrome { msg: ChromeMsgView::Response { id, .. } } => {
            if s.pending.dom().contains(id) {
                if let OwnerView::Internal { job } = s.pending[id] {
                    progress_replies(s, event, id, job);
                }
            }
        },
        EventView::PipeClosed { chrome_id } => {
            if s.pending.dom().contains(chrome_id) {
                if let OwnerView::Internal { job } = s.pending[chrome_id] {
                    progress_replies(s, event, chrome_id, job);
                }
            }
        },
        EventView::CallFailed { chrome_id, .. } => {
            if s.pending.dom().contains(chrome_id) {
                if let OwnerView::Internal { job } = s.pending[chrome_id] {
                    progress_replies(s, event, chrome_id, job);
                }
            }
        },
        EventView::CallTimedOut { chrome_id } => {
            if s.pending.dom().contains(chrome_id) {
                if let OwnerView::Internal { job } = s.pending[chrome_id] {
                    progress_replies(s, event, chrome_id, job);
                }
            }
        },
        EventView::ClientDisconnected { client_id } => {
            if s.clients.dom().contains(client_id) {
                let gone = RouterView { clients: s.clients.remove(client_id), ..s };
                closing_all_calls(gone, s.clients[client_id]);
            }
        },
        _ => {},
    }
}

/// Only a client that is connected as it asks is to be told the end of a job.
pub proof fn only_connected_clients_are_heard(s: RouterView, event: EventView, client_id: u64)
    requires
        !s.owes(client_id),
        s.on(event).0.owes(client_id),
    ensures
        s.clients.dom().contains(client_id),
{
    let after = s.on(event).0;
    let k = choose|k: u64| #[trigger]
        after.pending.dom().contains(k) && after.pending[k].owes(client_id);
    assert(s.pending.dom().contains(k) ==> !s.pending[k].owes(client_id));
    match event {
        EventView::ClientConnected { client_id: c } => {
            if s.clients.dom().contains(c) {
                dropping_counts(s, s.clients[c]);
            }
        },
        EventView::ClientDisconnected { client_id: c } => {
            if s.clients.dom().contains(c) {
                let gone = RouterView { clients: s.clients.remove(c), ..s };
                closing_all_owes_nothing(gone, s.clients[c], client_id);
            }
        },
        EventView::FromChrome { msg: ChromeMsgView::Response { id, .. } } => {
            if let OwnerView::Internal { job } = s.pending[id] {
                request_is_answered_once(job, outcome_for(event, job));
            }
        },
        EventView::PipeClosed { chrome_id } => {
            if let OwnerView::Internal { job } = s.pending[chrome_id] {
                request_is_answered_once(job, outcome_for(event, job));
            }
        },
        EventView::CallFailed { chrome_id, .. } => {
            if let OwnerView::Internal { job } = s.pending[chrome_id] {
                request_is_answered_once(job, outcome_for(event, job));
            }
        },
        EventView::CallTimedOut { chrome_id } => {
            if let OwnerView::Internal { job } = s.pending[chrome_id] {
                request_is_answered_once(job, outcome_for(event, job));
            }
        },
        _ => {},
    }
}

proof fn closing_all_owes_nothing(s: RouterView, sessions: Seq<SessionView>, client_id: u64)
    requires
        forall|k: u64| #[trigger]
            s.pending.dom().contains(k) ==> !s.pending[k].owes(client_id),
    ensures
        forall|k: u64| #[trigger]
            s.closing_all(sessions).0.pending.dom().contains(k) ==> !s.closing_all(
                sessions,
            ).0.pending[k].owes(client_id),
    decreases sessions.len(),
{
    if sessions.len() > 0 {
        closing_all_owes_nothing(s, sessions.drop_last(), client_id);
        let mid = s.closing_all(sessions.drop_last()).0;
        let after = s.closing_all(sessions).0;
        assert forall|k: u64| #[trigger] after.pending.dom().contains(k) implies !after.pending[
            k
        ].owes(client_id) by {
            if k != mid.next_id {
                assert(mid.pending.dom().contains(k));
            }
        }
    }
}

/// A client that has gone leaves nothing behind: it is known no more, none of its
/// sessions belongs to anybody, each of its pages is closed by a call and counts as
/// given back, and the warm pages and the other clients are as before.
pub proof fn disconnect_closes_pages(s: RouterView, client_id: u64)
    requires
        s.clients.dom().contains(client_id),
    ensures
        ({
            let (after, actions) = s.on(EventView::ClientDisconnected { client_id });
            let sessions = s.clients[client_id];
            &&& after.clients == s.clients.remove(client_id)
            &&& forall|i: int|
                0 <= i < sessions.len() ==> !after.owners.dom().contains(
                    (#[trigger] sessions[i]).session_id,
                )
            &&& actions.len() == sessions.len()
            &&& after.pool.pages == s.pool.pages
            &&& after.pool.active == if s.pool.active < sessions.len() {
                0
            } else {
                s.pool.active - sessions.len()
            }
        }),
{
    let gone = RouterView { clients: s.clients.remove(client_id), ..s };
    let sessions = s.clients[client_id];
    closing_all_calls(gone, sessions);
    assert forall|i: int| 0 <= i < sessions.len() implies has_session(
        sessions,
        (#[trigger] sessions[i]).session_id,
    ) by {}
}

/// The job that closes the page of a session whose client has gone.
pub open spec fn closing(session: SessionView) -> JobView {
    JobView::Close {
        target_id: session.target_id,
        context_id: session.context_id,
        stage: CloseStage::Target,
        asker: None,
    }
}

proof fn closing_all_closes(s: RouterView, sessions: Seq<SessionView>, i: int)
    requires
        0 <= i < sessions.len(),
        s.next_id + sessions.len() <= u64::MAX,
    ensures
        ({
            let (after, actions) = s.closing_all(sessions);
            let chrome_id = (s.next_id + i) as u64;
            &&& after.pending.dom().contains(chrome_id)
            &&& after.pending[chrome_id] == (OwnerView::Internal { job: closing(sessions[i]) })
            &&& actions[i] == call_action(chrome_id, closing(sessions[i]))
        }),
    decreases sessions.len(),
{
    let before = sessions.drop_last();
    closing_all_calls(s, before);
    closing_all_next(s, before);
    if i < before.len() {
        closing_all_closes(s, before, i);
        assert(before[i] == sessions[i]);
    }
}

proof fn closing_all_next(s: RouterView, sessions: Seq<SessionView>)
    requires
        s.next_id + sessions.len() <= u64::MAX,
    ensures
        s.closing_all(sessions).0.next_id == s.next_id + sessions.len(),
    decreases sessions.len(),
{
    if sessions.len() > 0 {
        closing_all_next(s, sessions.drop_last());
    }
}

/// When a client has gone, each of its pages is closed by a call of its own, in the
/// order of the sessions. Whatever Chrome makes of it, the context of the page is
/// then disposed of, and nobody is told.
pub proof fn disconnect_closes_each_page(
    s: RouterView,
    client_id: u64,
    i: int,
    first: CallResult,
    second: CallResult,
)
    requires
        s.clients.dom().contains(client_id),
        0 <= i < s.clients[client_id].len(),
        s.clients[client_id][i].context_id.len() > 0,
        s.next_id + s.clients[client_id].len() <= u64::MAX,
    ensures
        ({
            let (after, actions) = s.on(EventView::ClientDisconnected { client_id });
            let session = s.clients[client_id][i];
            let chrome_id = (s.next_id + i) as u64;
            let close = closing(session);
            let dispose = JobView::Close {
                target_id: session.target_id,
                context_id: session.context_id,
                stage: CloseStage::Context,
                asker: None,
            };
            &&& after.pending.dom().contains(chrome_id)
            &&& after.pending[chrome_id] == (OwnerView::Internal { job: close })
            &&& actions[i] == call_action(chrome_id, close)
            &&& close.call() == close_call(
                session.target_id,
                session.context_id,
                CloseStage::Target,
            )
            &&& job_progress(close, first) == ProgressView::goes_on(dispose)
            &&& dispose.call() == close_call(
                session.target_id,
                session.context_id,
                CloseStage::Context,
            )
            &&& job_progress(dispose, second) == ProgressView::nothing()
        }),
{
    let gone = RouterView { clients: s.clients.remove(client_id), ..s };
    closing_all_closes(gone, s.clients[client_id], i);
}

/// The calls that are made are numbered in order: every call that waits for its
/// answer has a smaller number than the next one.
pub open spec fn in_order(s: RouterView) -> bool {
    forall|k: u64| #[trigger] s.pending.dom().contains(k) ==> k < s.next_id
}

/// How many calls the event can lead to.
pub open spec fn calls_of(s: RouterView, event: EventView) -> nat {
    match event {
        EventView::ClientDisconnected { client_id } => if s.clients.dom().contains(client_id) {
            s.clients[client_id].len()
        } else {
            0
        },
        EventView::FromClient { msg: ClientMsgView::Acquire { .. }, .. } => 2,
        _ => 1,
    }
}

/// There are numbers left for the calls that the event can lead to.
pub open spec fn has_numbers(s: RouterView, event: EventView) -> bool {
    s.next_id + calls_of(s, event) <= u64::MAX
}

/// The event is about the call with the given number.
pub open spec fn concerns(event: EventView, chrome_id: u64) -> bool {
    match event {
        EventView::FromChrome { msg: ChromeMsgView::Response { id, .. } } => id == chrome_id,
        EventView::PipeClosed { chrome_id: id } => id == chrome_id,
        EventView::CallFailed { chrome_id: id, .. } => id == chrome_id,
        EventView::CallTimedOut { chrome_id: id } => id == chrome_id,
        _ => false,
    }
}

proof fn closing_all_numbers(s: RouterView, sessions: Seq<SessionView>)
    requires
        in_order(s),
        s.next_id + sessions.len() <= u64::MAX,
    ensures
        ({
            let after = s.closing_all(sessions).0;
            &&& in_order(after)
            &&& after.next_id == s.next_id + sessions.len()
            &&& forall|k: u64| #[trigger]
                s.pending.dom().contains(k) ==> after.pending.dom().contains(k) && after.pending[k]
                    == s.pending[k]
        }),
    decreases sessions.len(),
{
    if sessions.len() > 0 {
        closing_all_numbers(s, sessions.drop_last());
    }
}

/// The calls of `s` wait in `after` too, and the calls there are numbered in order, of
/// which at most `count` are new.
pub open spec fn goes_on_from(s: RouterView, after: RouterView, count: nat) -> bool {
    &&& in_order(after)
    &&& s.next_id <= after.next_id <= s.next_id + count
    &&& forall|k: u64| #[trigger]
        s.pending.dom().contains(k) ==> after.pending.dom().contains(k) && after.pending[k]
            == s.pending[k]
}

proof fn call_goes_on(s: RouterView, job: JobView)
    requires
        in_order(s),
        s.next_id < u64::MAX,
    ensures
        goes_on_from(s, s.calling(job).0, 1),
{
}

proof fn progress_goes_on(s: RouterView, p: ProgressView)
    requires
        in_order(s),
        s.next_id < u64::MAX,
    ensures
        goes_on_from(s, s.progressing(p).0, 1),
{
    if let Some(job) = p.next {
        call_goes_on(s.kept(p), job);
    }
}

proof fn answer_goes_on(s: RouterView, event: EventView, chrome_id: u64)
    requires
        in_order(s),
        s.next_id < u64::MAX,
        concerns(event, chrome_id),
    ensures
        s.pending.dom().contains(chrome_id) ==> goes_on_from(
            s.answered(chrome_id),
            s.on(event).0,
            1,
        ),
        !s.pending.dom().contains(chrome_id) ==> s.on(event).0 == s,
{
    if s.pending.dom().contains(chrome_id) {
        if let OwnerView::Internal { job } = s.pending[chrome_id] {
            let p = job_progress(job, outcome_for(event, job));
            assert(s.on(event).0 == s.answered(chrome_id).progressing(p).0);
            progress_goes_on(s.answered(chrome_id), p);
        }
    }
}

proof fn request_goes_on(s: RouterView, client_id: u64, msg: ClientMsgView, uptime_secs: u64)
    requires
        in_order(s),
        has_numbers(s, EventView::FromClient { client_id, msg, uptime_secs }),
    ensures
        goes_on_from(s, s.from_client(client_id, msg, uptime_secs).0, 2),
        !(msg is Acquire) ==> goes_on_from(s, s.from_client(client_id, msg, uptime_secs).0, 1),
{
    match msg {
        ClientMsgView::Acquire { id } => {
            let asker = Asker { client_id, id };
            let asked = RouterView { pool: s.pool.acquire().0, ..s };
            call_goes_on(asked, page_job(s, asker));
            let mid = asking_for_page(s, asker).0;
            progress_goes_on(mid, warmup_rest(mid.warmup_url, None, mid.warmup_count, 0));
        },
        ClientMsgView::Warmup { id, count, url } => {
            progress_goes_on(s, warmup_rest(url, s.heard(Asker { client_id, id }), count, 0));
        },
        _ => {},
    }
}

/// An event leaves the calls alone that it does not concern, and gives the next
/// numbers to the calls that it leads to.
proof fn event_calls(s: RouterView, event: EventView)
    requires
        in_order(s),
        has_numbers(s, event),
    ensures
        in_order(s.on(event).0),
        s.next_id <= s.on(event).0.next_id <= s.next_id + calls_of(s, event),
        forall|k: u64| #[trigger]
            s.pending.dom().contains(k) && !concerns(event, k) ==> s.on(
                event,
            ).0.pending.dom().contains(k) && s.on(event).0.pending[k] == s.pending[k],
{
    match event {
        EventView::ClientConnected { client_id } => {
            if s.clients.dom().contains(client_id) {
                dropping_counts(s, s.clients[client_id]);
            }
        },
        EventView::ClientDisconnected { client_id } => {
            if s.clients.dom().contains(client_id) {
                let gone = RouterView { clients: s.clients.remove(client_id), ..s };
                closing_all_numbers(gone, s.clients[client_id]);
                assert(forall|k: u64| #[trigger]
                    s.pending.dom().contains(k) ==> gone.pending.dom().contains(k));
            }
        },
        EventView::FromClient { client_id, msg, uptime_secs } => {
            request_goes_on(s, client_id, msg, uptime_secs);
        },
        EventView::Warm { count, url } => {
            progress_goes_on(s, warmup_rest(url, None, count, 0));
        },
        EventView::FromChrome { msg: ChromeMsgView::Response { id, .. } } => {
            answer_goes_on(s, event, id);
            assert(forall|k: u64| #[trigger]
                s.pending.dom().contains(k) && k != id ==> s.answered(id).pending.dom().contains(k));
        },
        EventView::FromChrome { .. } => {},
        EventView::PipeClosed { chrome_id } => {
            answer_goes_on(s, event, chrome_id);
            assert(forall|k: u64| #[trigger]
                s.pending.dom().contains(k) && k != chrome_id ==> s.answered(
                    chrome_id,
                ).pending.dom().contains(k));
        },
        EventView::CallFailed { chrome_id, .. } => {
            answer_goes_on(s, event, chrome_id);
            assert(forall|k: u64| #[trigger]
                s.pending.dom().contains(k) && k != chrome_id ==> s.answered(
                    chrome_id,
                ).pending.dom().contains(k));
        },
        EventView::CallTimedOut { chrome_id } => {
            answer_goes_on(s, event, chrome_id);
            assert(forall|k: u64| #[trigger]
                s.pending.dom().contains(k) && k != chrome_id ==> s.answered(
                    chrome_id,
                ).pending.dom().contains(k));
        },
    }
}

/// Calls go on being numbered in order, and so no number is given to a call while
/// another call with it waits for its answer.
pub proof fn calls_stay_in_order(s: RouterView, event: EventView)
    requires
        in_order(s),
        has_numbers(s, event),
    ensures
        in_order(s.on(event).0),
        s.next_id <= s.on(event).0.next_id <= s.next_id + calls_of(s, event),
{
    event_calls(s, event);
}

/// Whoever waits for an answer goes on waiting for it, whatever else happens.
pub proof fn others_keep_waiting(s: RouterView, event: EventView, chrome_id: u64)
    requires
        in_order(s),
        has_numbers(s, event),
        s.pending.dom().contains(chrome_id),
        !concerns(event, chrome_id),
    ensures
        s.on(event).0.pending.dom().contains(chrome_id),
        s.on(event).0.pending[chrome_id] == s.pending[chrome_id],
{
    event_calls(s, event);
}

/// The router after the given events, one after another.
pub open spec fn run(s: RouterView, events: Seq<EventView>) -> RouterView
    decreases events.len(),
{
    if events.len() == 0 {
        s
    } else {
        run(s.on(events[0]).0, events.drop_first())
    }
}

/// There are numbers left for all calls that the events can lead to, and none of the
/// events is about the call with the given number.
pub open spec fn passes_by(s: RouterView, events: Seq<EventView>, chrome_id: u64) -> bool
    decreases events.len(),
{
    events.len() > 0 ==> {
        &&& has_numbers(s, events[0])
        &&& !concerns(events[0], chrome_id)
        &&& passes_by(s.on(events[0]).0, events.drop_first(), chrome_id)
    }
}

pub(crate) proof fn owner_is_kept(s: RouterView, events: Seq<EventView>, chrome_id: u64)
    requires
        in_order(s),
        s.pending.dom().contains(chrome_id),
        passes_by(s, events, chrome_id),
    ensures
        run(s, events).pending.dom().contains(chrome_id),
        run(s, events).pending[chrome_id] == s.pending[chrome_id],
    decreases events.len(),
{
    if events.len() > 0 {
        calls_stay_in_order(s, events[0]);
        others_keep_waiting(s, events[0], chrome_id);
        owner_is_kept(s.on(events[0]).0, events.drop_first(), chrome_id);
    }
}

/// Chrome's response to a client's command reaches that client, whole and under the
/// number that the client gave, whatever happens before it comes, as long as the
/// client stays.
pub proof fn response_reaches_asker(
    s: RouterView,
    client_id: u64,
    id: u64,
    call: CallView,
    uptime_secs: u64,
    events: Seq<EventView>,
    payload: Json,
)
    requires
        in_order(s),
        s.next_id < u64::MAX,
        ({
            let msg = ClientMsgView::Cdp {
                id,
                method: call.method,
                params: call.params,
                session_id: call.session_id,
            };
            let asked = s.on(EventView::FromClient { client_id, msg, uptime_secs }).0;
            &&& passes_by(asked, events, s.next_id)
            &&& run(asked, events).clients.dom().contains(client_id)
        }),
    ensures
        ({
            let msg = ClientMsgView::Cdp {
                id,
                method: call.method,
                params: call.params,
                session_id: call.session_id,
            };
            let asked = s.on(EventView::FromClient { client_id, msg, uptime_secs }).0;
            let response = ChromeMsgView::Response { id: s.next_id, payload };
            run(asked, events).on(EventView::FromChrome { msg: response }).1 == seq![
                ActionView::Reply {
                    reply: ReplyView {
                        client_id,
                        msg: DaemonMsgView::CdpResponse { id, payload },
                    },
                },
            ]
        }),
{
    let msg = ClientMsgView::Cdp {
        id,
        method: call.method,
        params: call.params,
        session_id: call.session_id,
    };
    let event = EventView::FromClient { client_id, msg, uptime_secs };
    calls_stay_in_order(s, event);
    owner_is_kept(s.on(event).0, events, s.next_id);
}

/// A call is answered once: another response with its number is dropped.
pub proof fn second_response_is_dropped(s: RouterView, chrome_id: u64, first: Json, second: Json)
    requires
        in_order(s),
        s.next_id < u64::MAX,
        s.pending.dom().contains(chrome_id),
    ensures
        ({
            let after = s.on(
                EventView::FromChrome {
                    msg: ChromeMsgView::Response { id: chrome_id, payload: first },
                },
            ).0;
            after.on(
                EventView::FromChrome {
                    msg: ChromeMsgView::Response { id: chrome_id, payload: second },
                },
            ) == (after, Seq::<ActionView>::empty())
        }),
{
}

/// The request that waits for an answer.
pub open spec fn asker_of(owner: OwnerView) -> Option<Asker> {
    match owner {
        OwnerView::Client { asker } => Some(asker),
        OwnerView::Internal { job } => job.asker(),
    }
}

/// What an event that is about a call of the daemon's own makes of that call.
pub open spec fn outcome_for(event: EventView, job: JobView) -> CallResult {
    match event {
        EventView::FromChrome {
            msg: ChromeMsgView::Response { payload, .. },
        } => response_result(payload),
        EventView::PipeClosed { .. } => Err("chrome pipe channel closed"@),
        EventView::CallFailed { error, .. } => Err(error),
        _ => Err(timeout_text(job.call().method)),
    }
}

/// What comes of a call is told to nobody but the client whose request it was made
/// for, as the answer to that request.
pub proof fn answers_go_to_asker(s: RouterView, event: EventView, chrome_id: u64, i: int)
    requires
        concerns(event, chrome_id),
        0 <= i < s.on(event).1.len(),
        s.on(event).1[i] is Reply,
    ensures
        s.pending.dom().contains(chrome_id),
        asker_of(s.pending[chrome_id]) matches Some(a) && s.on(event).1[i]->reply.client_id
            == a.client_id && s.on(event).1[i]->reply.msg.answers() == Some(a.id),
{
    if s.pending.dom().contains(chrome_id) {
        if let OwnerView::Internal { job } = s.pending[chrome_id] {
            let result = outcome_for(event, job);
            request_is_answered_once(job, result);
        }
    }
}

/// A request that takes several calls is not lost: whatever comes of a call that was
/// made for it, either the next call for it is made, or the client is answered, and
/// then only once, also where the client has been reported gone meanwhile.
pub proof fn request_goes_on_or_is_answered(
    s: RouterView,
    event: EventView,
    chrome_id: u64,
    job: JobView,
    asker: Asker,
)
    requires
        concerns(event, chrome_id),
        s.pending.dom().contains(chrome_id),
        s.pending[chrome_id] == (OwnerView::Internal { job }),
        job.asker() == Some(asker),
    ensures
        ({
            let (after, actions) = s.on(event);
            &&& actions.len() == 1
            &&& match actions[0] {
                ActionView::Reply { reply } => reply.client_id == asker.client_id
                    && reply.msg.answers() == Some(asker.id) && after.pending
                    == s.pending.remove(chrome_id),
                ActionView::ToChrome { chrome_id: next, .. } | ActionView::Fail {
                    chrome_id: next,
                    ..
                } => {
                    &&& next == s.next_id
                    &&& after.pending.dom().contains(next)
                    &&& after.pending[next] matches OwnerView::Internal { job: later }
                        && later.asker() == Some(asker)
                },
            }
        }),
{
    let result = outcome_for(event, job);
    request_is_answered_once(job, result);
    let p = job_progress(job, result);
    let kept = s.answered(chrome_id).kept(p);
    assert(s.on(event) == s.answered(chrome_id).progressing(p));
    match p.next {
        Some(next) => {
            assert(Seq::<ActionView>::empty() + kept.calling(next).1 =~= kept.calling(next).1);
        },
        None => {},
    }
}

/// An event from Chrome changes nothing, and is told to nobody but the client that
/// its session was opened for.
pub proof fn event_goes_to_session_owner(
    s: RouterView,
    method: Seq<char>,
    params: Json,
    session_id: Option<Seq<char>>,
)
    ensures
        ({
            let msg = ChromeMsgView::Event { method, params, session_id };
            let told = DaemonMsgView::CdpEvent { method, params, session_id };
            let (after, actions) = s.on(EventView::FromChrome { msg });
            &&& after == s
            &&& actions == match session_id {
                Some(x) => if s.owners.dom().contains(x) && s.clients.dom().contains(s.owners[x]) {
                    seq![
                        ActionView::Reply {
                            reply: ReplyView { client_id: s.owners[x], msg: told },
                        },
                    ]
                } else {
                    Seq::empty()
                },
                None => Seq::empty(),
            }
        }),
{
}

/// The names of the sessions of each client are all different.
pub open spec fn sessions_differ(s: RouterView) -> bool {
    forall|c: u64| #[trigger] s.clients.dom().contains(c) ==> names_differ(s.clients[c])
}

/// The names of the sessions are all different.
pub open spec fn names_differ(sessions: Seq<SessionView>) -> bool {
    forall|i: int, j: int|
        0 <= i < j < sessions.len() ==> (#[trigger] sessions[i]).session_id != (
        #[trigger] sessions[j]).session_id
}

proof fn filter_keeps_names_different(sessions: Seq<SessionView>, target_id: Seq<char>)
    requires
        names_differ(sessions),
    ensures
        names_differ(without_target(sessions, target_id)),
        forall|k: Seq<char>| #[trigger]
            has_session(without_target(sessions, target_id), k) ==> has_session(sessions, k),
    decreases sessions.len(),
{
    reveal(Seq::filter);
    if sessions.len() > 0 {
        let before = sessions.drop_last();
        filter_keeps_names_different(before, target_id);
        let kept = without_target(before, target_id);
        let now = without_target(sessions, target_id);
        let last = sessions.last();
        assert(sessions[sessions.len() - 1] == last);
        assert forall|k: Seq<char>| has_session(before, k) implies has_session(sessions, k) && k
            != last.session_id by {
            let i = choose|i: int| 0 <= i < before.len() && (#[trigger] before[i]).session_id == k;
            assert(sessions[i].session_id == k);
        }
        assert forall|i: int| 0 <= i < kept.len() implies (#[trigger] kept[i]).session_id
            != last.session_id by {
            assert(has_session(kept, kept[i].session_id));
            assert(has_session(before, kept[i].session_id));
        }
        assert forall|k: Seq<char>| #[trigger] has_session(now, k) implies has_session(
            sessions,
            k,
        ) by {
            let i = choose|i: int| 0 <= i < now.len() && (#[trigger] now[i]).session_id == k;
            if i < kept.len() {
                assert(kept[i].session_id == k);
                assert(has_session(kept, k));
                assert(has_session(before, k));
            } else {
                assert(now[i] == last);
            }
        }
    }
}

/// There are numbers left for all calls that the events can lead to.
pub open spec fn numbers_last(s: RouterView, events: Seq<EventView>) -> bool
    decreases events.len(),
{
    events.len() > 0 ==> has_numbers(s, events[0]) && numbers_last(
        s.on(events[0]).0,
        events.drop_first(),
    )
}

proof fn run_keeps(s: RouterView, events: Seq<EventView>)
    requires
        sessions_differ(s),
        in_order(s),
        numbers_last(s, events),
    ensures
        sessions_differ(run(s, events)),
        in_order(run(s, events)),
    decreases events.len(),
{
    if events.len() > 0 {
        sessions_stay_different(s, events[0]);
        calls_stay_in_order(s, events[0]);
        run_keeps(s.on(events[0]).0, events.drop_first());
    }
}

/// Whatever happens from the start on, as long as numbers last: no number is given to
/// two calls that wait at once, and no client has two sessions of one name.
pub proof fn reached_states_are_sound(
    chrome_pid: u32,
    warmup_count: usize,
    warmup_url: Seq<char>,
    events: Seq<EventView>,
)
    requires
        numbers_last(RouterView::start(chrome_pid, warmup_count, warmup_url), events),
    ensures
        ({
            let s = run(RouterView::start(chrome_pid, warmup_count, warmup_url), events);
            in_order(s) && sessions_differ(s)
        }),
{
    run_keeps(RouterView::start(chrome_pid, warmup_count, warmup_url), events);
}

/// The number of the call that an action makes.
pub open spec fn call_number(action: ActionView) -> Option<u64> {
    match action {
        ActionView::ToChrome { chrome_id, .. } => Some(chrome_id),
        ActionView::Fail { chrome_id, .. } => Some(chrome_id),
        ActionView::Reply { .. } => None,
    }
}

/// The numbers of the calls that the actions make, in order.
pub open spec fn call_numbers(actions: Seq<ActionView>) -> Seq<u64>
    decreases actions.len(),
{
    if actions.len() == 0 {
        Seq::empty()
    } else {
        let before = call_numbers(actions.drop_last());
        match call_number(actions.last()) {
            Some(k) => before.push(k),
            None => before,
        }
    }
}

/// The `count` numbers from `first` on.
pub open spec fn numbers_from(first: u64, count: nat) -> Seq<u64> {
    Seq::new(count, |i: int| (first + i) as u64)
}

/// The event is a command of a client's that has no JSON text, and so is not sent.
pub open spec fn has_no_text(s: RouterView, event: EventView) -> bool {
    event matches EventView::FromClient { msg, .. } && msg matches ClientMsgView::Cdp {
        method,
        params,
        session_id,
        ..
    } && json_encoded(command(s.next_id, CallView { method, params, session_id })) is Err
}

/// The numbers of the calls that an event leads to, in order. A command that cannot be
/// sent has a number too.
pub open spec fn numbers_used(s: RouterView, event: EventView) -> Seq<u64> {
    if has_no_text(s, event) {
        seq![s.next_id]
    } else {
        call_numbers(s.on(event).1)
    }
}

/// The numbers of the calls that the events lead to, in order.
pub open spec fn all_numbers_used(s: RouterView, events: Seq<EventView>) -> Seq<u64>
    decreases events.len(),
{
    if events.len() == 0 {
        Seq::empty()
    } else {
        numbers_used(s, events[0]) + all_numbers_used(s.on(events[0]).0, events.drop_first())
    }
}

proof fn call_numbers_of_one(action: ActionView)
    ensures
        call_numbers(seq![action]) == match call_number(action) {
            Some(k) => seq![k],
            None => Seq::<u64>::empty(),
        },
{
    assert(seq![action].drop_last() =~= Seq::empty());
    assert(call_numbers(seq![action].drop_last()) =~= Seq::empty());
    if let Some(k) = call_number(action) {
        assert(Seq::<u64>::empty().push(k) =~= seq![k]);
    }
}

proof fn call_numbers_of_more(actions: Seq<ActionView>, action: ActionView)
    ensures
        call_numbers(actions + seq![action]) == match call_number(action) {
            Some(k) => call_numbers(actions).push(k),
            None => call_numbers(actions),
        },
{
    assert((actions + seq![action]).drop_last() =~= actions);
    assert((actions + seq![action]).last() == action);
}

proof fn closing_all_uses(s: RouterView, sessions: Seq<SessionView>)
    requires
        s.next_id + sessions.len() <= u64::MAX,
    ensures
        call_numbers(s.closing_all(sessions).1) == numbers_from(s.next_id, sessions.len()),
        forall|i: int|
            0 <= i < sessions.len() ==> s.closing_all(sessions).0.pending.dom().contains(
                #[trigger] numbers_from(s.next_id, sessions.len())[i],
            ),
    decreases sessions.len(),
{
    if sessions.len() == 0 {
        assert(numbers_from(s.next_id, 0) =~= Seq::empty());
    } else {
        let before = sessions.drop_last();
        let all = numbers_from(s.next_id, sessions.len());
        closing_all_uses(s, before);
        closing_all_next(s, before);
        let (mid, actions) = s.closing_all(before);
        call_numbers_of_more(actions, call_action(mid.next_id, closing(sessions.last())));
        assert(numbers_from(s.next_id, before.len()).push(mid.next_id) =~= all);
        assert(s.closing_all(sessions).1 == actions + seq![
            call_action(mid.next_id, closing(sessions.last())),
        ]);
        assert forall|i: int| 0 <= i < sessions.len() implies s.closing_all(
            sessions,
        ).0.pending.dom().contains(#[trigger] all[i]) by {
            if i < before.len() {
                assert(numbers_from(s.next_id, before.len())[i] == all[i]);
            }
        }
    }
}

/// The job that a request for a page starts with.
pub open spec fn page_job(s: RouterView, asker: Asker) -> JobView {
    match s.pool.acquire().1 {
        Some(page) => JobView::Attach { page, asker: s.heard(asker) },
        None => JobView::CreatePage {
            url: "about:blank"@,
            stage: PageStageView::Context,
            goal: Goal::Acquire { asker: s.heard(asker) },
        },
    }
}

/// What is known, and done, once a page has been asked for and before the pool is
/// filled again.
pub open spec fn asking_for_page(s: RouterView, asker: Asker) -> Outcome {
    RouterView { pool: s.pool.acquire().0, ..s }.calling(page_job(s, asker))
}

proof fn progress_uses(s: RouterView, p: ProgressView)
    requires
        s.next_id < u64::MAX,
    ensures
        call_numbers(s.progressing(p).1) == match p.next {
            Some(_) => seq![s.next_id],
            None => Seq::<u64>::empty(),
        },
        p.next is Some ==> s.progressing(p).0.next_id == s.next_id + 1 && s.progressing(
            p,
        ).0.pending == s.pending.insert(s.next_id, OwnerView::Internal { job: p.next->0 }),
        p.next is None ==> s.progressing(p).0.next_id == s.next_id,
{
    let kept = s.kept(p);
    let told = match p.reply {
        Some(reply) => seq![ActionView::Reply { reply }],
        None => Seq::empty(),
    };
    if told.len() > 0 {
        call_numbers_of_one(told[0]);
        assert(told =~= seq![told[0]]);
    }
    assert(call_numbers(told) =~= Seq::empty());
    if let Some(job) = p.next {
        call_numbers_of_more(told, call_action(kept.next_id, job));
        assert(Seq::<u64>::empty().push(s.next_id) =~= seq![s.next_id]);
    }
}

/// The calls that an event leads to are given the next numbers, without a gap, also
/// where a call cannot be sent, and each is remembered under its own number until it
/// is answered.
pub proof fn event_uses_next_numbers(s: RouterView, event: EventView)
    requires
        has_numbers(s, event),
    ensures
        ({
            let used = numbers_used(s, event);
            let after = s.on(event).0;
            &&& used == numbers_from(s.next_id, used.len())
            &&& after.next_id == s.next_id + used.len()
            &&& forall|i: int|
                0 <= i < used.len() ==> after.pending.dom().contains(#[trigger] used[i])
        }),
{
    let (after, actions) = s.on(event);
    assert(numbers_from(s.next_id, 0) =~= Seq::empty());
    assert(numbers_from(s.next_id, 1) =~= seq![s.next_id]);
    if actions.len() == 1 {
        call_numbers_of_one(actions[0]);
        assert(actions =~= seq![actions[0]]);
    }
    match event {
        EventView::ClientConnected { client_id } => {
            if s.clients.dom().contains(client_id) {
                dropping_counts(s, s.clients[client_id]);
            }
        },
        EventView::ClientDisconnected { client_id } => {
            if s.clients.dom().contains(client_id) {
                let gone = RouterView { clients: s.clients.remove(client_id), ..s };
                closing_all_uses(gone, s.clients[client_id]);
                closing_all_next(gone, s.clients[client_id]);
            }
        },
        EventView::FromClient { client_id, msg, .. } => {
            match msg {
                ClientMsgView::Acquire { id } => {
                    let (mid, called) = asking_for_page(s, Asker { client_id, id });
                    let p = warmup_rest(mid.warmup_url, None, mid.warmup_count, 0);
                    call_numbers_of_one(called[0]);
                    if mid.refilling().1.len() > 0 {
                        progress_uses(mid, p);
                        let more = mid.refilling().1;
                        assert(more =~= seq![call_action(mid.next_id, p.next->0)]);
                        call_numbers_of_more(called, more[0]);
                        assert(numbers_from(s.next_id, 2) =~= seq![s.next_id].push(mid.next_id));
                    } else {
                        assert(called + mid.refilling().1 =~= called);
                    }
                },
                ClientMsgView::Warmup { id, count, url } => {
                    let asker = s.heard(Asker { client_id, id });
                    progress_uses(s, warmup_rest(url, asker, count, 0));
                },
                _ => {},
            }
        },
        EventView::Warm { count, url } => {
            progress_uses(s, warmup_rest(url, None, count, 0));
        },
        EventView::FromChrome { msg: ChromeMsgView::Response { id, .. } } => {
            if let OwnerView::Internal { job } = s.pending[id] {
                progress_uses(s.answered(id), job_progress(job, outcome_for(event, job)));
            }
        },
        EventView::PipeClosed { chrome_id } => {
            if let OwnerView::Internal { job } = s.pending[chrome_id] {
                progress_uses(s.answered(chrome_id), job_progress(job, outcome_for(event, job)));
            }
        },
        EventView::CallFailed { chrome_id, .. } => {
            if let OwnerView::Internal { job } = s.pending[chrome_id] {
                progress_uses(s.answered(chrome_id), job_progress(job, outcome_for(event, job)));
            }
        },
        EventView::CallTimedOut { chrome_id } => {
            if let OwnerView::Internal { job } = s.pending[chrome_id] {
                progress_uses(s.answered(chrome_id), job_progress(job, outcome_for(event, job)));
            }
        },
        _ => {},
    }
}

/// Over any run, as long as numbers last, the calls use up the numbers from the next
/// one on, one after another: no number is left out, none is used twice, and a call
/// that fails uses up its number like any other.
pub proof fn calls_use_up_numbers(s: RouterView, events: Seq<EventView>)
    requires
        numbers_last(s, events),
    ensures
        ({
            let used = all_numbers_used(s, events);
            &&& used == numbers_from(s.next_id, used.len())
            &&& run(s, events).next_id == s.next_id + used.len()
            &&& used.no_duplicates()
        }),
    decreases events.len(),
{
    if events.len() == 0 {
        assert(numbers_from(s.next_id, 0) =~= Seq::empty());
    } else {
        let next = s.on(events[0]).0;
        let rest = events.drop_first();
        event_uses_next_numbers(s, events[0]);
        calls_use_up_numbers(next, rest);
        let used = all_numbers_used(s, events);
        assert(used =~= numbers_from(s.next_id, used.len()));
    }
}

/// No event gives a client two sessions of one name.
pub proof fn sessions_stay_different(s: RouterView, event: EventView)
    requires
        sessions_differ(s),
    ensures
        sessions_differ(s.on(event).0),
{
    match event {
        EventView::ClientDisconnected { client_id } => {
            if s.clients.dom().contains(client_id) {
                let gone = RouterView { clients: s.clients.remove(client_id), ..s };
                closing_all_calls(gone, s.clients[client_id]);
            }
        },
        EventView::FromClient { msg: ClientMsgView::Release { target_id, .. }, .. } => {
            let after = s.on(event).0;
            assert forall|c: u64| #[trigger] after.clients.dom().contains(c) implies names_differ(
                after.clients[c],
            ) by {
                assert(s.clients.dom().contains(c));
                filter_keeps_names_different(s.clients[c], target_id);
            }
        },
        _ => {},
    }
}

} // verus!
