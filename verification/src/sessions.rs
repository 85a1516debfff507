//! What holds of the sessions in which clients have pages, whatever happens.
use crate::browser::ChromeMsgView;
use crate::daemon::{
    call_action, context_of, dropping_counts, has_session, names_page, page_counts, with_session,
    with_target, without_page, without_target, ActionView, EventView, OwnerView, RouterView,
    SessionView,
};
use crate::jobs::{job_progress, Asker, JobView, ProgressView, ReplyView};
use crate::json::Json;
use crate::pool::{attached_session, close_call, response_result, CloseStage, PageView};
use crate::protocol::{ClientMsgView, DaemonMsgView};
use crate::routing::{
    calls_stay_in_order, closing_all_calls, in_order, names_differ, owner_is_kept, passes_by, run,
    sessions_differ, sessions_stay_different,
};
use crate::sums::total;
use vstd::prelude::*;

verus! {

/// The response that Chrome gives to a call.
pub open spec fn response(chrome_id: u64, payload: Json) -> EventView {
    EventView::FromChrome { msg: ChromeMsgView::Response { id: chrome_id, payload } }
}

/// The event is the answer to attaching to a page for a client, and opens a session.
pub open spec fn attached(s: RouterView, event: EventView) -> Option<(PageView, Asker, Seq<char>)> {
    match event {
        EventView::FromChrome { msg: ChromeMsgView::Response { id, payload } } =>
        if s.pending.dom().contains(id) {
            match (s.pending[id], attached_session(response_result(payload))) {
                (
                    OwnerView::Internal { job: JobView::Attach { page, asker: Some(a) } },
                    Ok(session_id),
                ) => Some((page, a, session_id)),
                _ => None,
            }
        } else {
            None
        },
        _ => None,
    }
}

/// The event opens a session of the given name.
pub open spec fn opens(s: RouterView, event: EventView, session_id: Seq<char>) -> bool {
    attached(s, event) matches Some((_, _, name)) && name == session_id
}

/// The event opens a session with the given page for the given client.
pub open spec fn hands_out(
    s: RouterView,
    event: EventView,
    client_id: u64,
    target_id: Seq<char>,
) -> bool {
    attached(s, event) matches Some((page, asker, _)) && asker.client_id == client_id
        && page.target_id == target_id
}

/// The event is that the page of the session is given back, by this client or another,
/// or that the client has gone, or has connected anew.
pub open spec fn lets_go(
    s: RouterView,
    event: EventView,
    client_id: u64,
    session: SessionView,
) -> bool {
    match event {
        EventView::ClientConnected { client_id: c } => c == client_id,
        EventView::ClientDisconnected { client_id: c } => c == client_id,
        EventView::FromClient {
            client_id: c,
            msg: ClientMsgView::Release { target_id, .. },
            ..
        } => s.clients.dom().contains(c) && target_id == session.target_id,
        _ => false,
    }
}

/// What the clients have after an event, other than one that has gone.
proof fn clients_after(s: RouterView, event: EventView)
    ensures
        ({
            let after = s.on(event).0;
            match event {
                EventView::ClientConnected { client_id } => after.clients == s.clients.insert(
                    client_id,
                    Seq::empty(),
                ),
                EventView::ClientDisconnected { client_id } => after.clients == s.clients.remove(
                    client_id,
                ),
                EventView::FromClient {
                    client_id,
                    msg: ClientMsgView::Release { target_id, .. },
                    ..
                } => if s.clients.dom().contains(client_id) {
                    after.clients == without_page(s.clients, target_id)
                } else {
                    after.clients == s.clients
                },
                _ => match attached(s, event) {
                    Some((page, asker, session_id)) => if s.clients.dom().contains(
                        asker.client_id,
                    ) {
                        after.clients == s.clients.insert(
                            asker.client_id,
                            with_session(
                                s.clients[asker.client_id],
                                SessionView {
                                    session_id,
                                    target_id: page.target_id,
                                    context_id: page.browser_context_id,
                                },
                            ),
                        )
                    } else {
                        after.clients == s.clients
                    },
                    None => after.clients == s.clients,
                },
            }
        }),
{
    match event {
        EventView::ClientDisconnected { client_id } => {
            if s.clients.dom().contains(client_id) {
                let gone = RouterView { clients: s.clients.remove(client_id), ..s };
                closing_all_calls(gone, s.clients[client_id]);
            } else {
                assert(s.clients.remove(client_id) =~= s.clients);
            }
        },
        _ => {},
    }
}

proof fn filter_keeps(sessions: Seq<SessionView>, target_id: Seq<char>, session: SessionView)
    requires
        sessions.contains(session),
        session.target_id != target_id,
    ensures
        without_target(sessions, target_id).contains(session),
    decreases sessions.len(),
{
    reveal(Seq::filter);
    let kept = without_target(sessions, target_id);
    if sessions.last() == session {
        assert(kept.last() == session);
        assert(kept[kept.len() - 1] == session);
    } else {
        let i = choose|i: int| 0 <= i < sessions.len() && sessions[i] == session;
        assert(sessions.drop_last()[i] == session);
        filter_keeps(sessions.drop_last(), target_id, session);
        let before = without_target(sessions.drop_last(), target_id);
        let j = choose|j: int| 0 <= j < before.len() && before[j] == session;
        assert(kept[j] == session);
    }
}

proof fn filter_brings_nothing(sessions: Seq<SessionView>, target_id: Seq<char>)
    ensures
        forall|i: int|
            0 <= i < without_target(sessions, target_id).len() ==> sessions.contains(
                #[trigger] without_target(sessions, target_id)[i],
            ),
        forall|i: int|
            0 <= i < with_target(sessions, target_id).len() ==> sessions.contains(
                #[trigger] with_target(sessions, target_id)[i],
            ) && with_target(sessions, target_id)[i].target_id == target_id,
    decreases sessions.len(),
{
    reveal(Seq::filter);
    if sessions.len() > 0 {
        let before = sessions.drop_last();
        filter_brings_nothing(before, target_id);
        assert(sessions.contains(sessions[sessions.len() - 1]));
        assert forall|x: SessionView| before.contains(x) implies sessions.contains(x) by {
            let i = choose|i: int| 0 <= i < before.len() && before[i] == x;
            assert(sessions[i] == x);
        }
        let kept = without_target(before, target_id);
        let now = without_target(sessions, target_id);
        assert forall|i: int| 0 <= i < now.len() implies sessions.contains(#[trigger] now[i]) by {
            if i < kept.len() {
                assert(now[i] == kept[i]);
            }
        }
        let gone = with_target(before, target_id);
        let all = with_target(sessions, target_id);
        assert forall|i: int| 0 <= i < all.len() implies sessions.contains(#[trigger] all[i])
            && all[i].target_id == target_id by {
            if i < gone.len() {
                assert(all[i] == gone[i]);
            }
        }
    }
}

proof fn put_keeps(sessions: Seq<SessionView>, new: SessionView, session: SessionView)
    requires
        sessions.contains(session),
        session.session_id != new.session_id,
    ensures
        with_session(sessions, new).contains(session),
{
    let i = choose|i: int| 0 <= i < sessions.len() && sessions[i] == session;
    assert(with_session(sessions, new)[i] == session);
}

proof fn put_brings_one(sessions: Seq<SessionView>, new: SessionView)
    ensures
        with_session(sessions, new).contains(new),
        forall|i: int|
            0 <= i < with_session(sessions, new).len() ==> (#[trigger] with_session(
                sessions,
                new,
            )[i] == new || sessions.contains(with_session(sessions, new)[i])),
{
    let now = with_session(sessions, new);
    if has_session(sessions, new.session_id) {
        let i = choose|i: int|
            0 <= i < sessions.len() && (#[trigger] sessions[i]).session_id == new.session_id;
        assert(now[i] == new);
    } else {
        assert(now[sessions.len() as int] == new);
    }
    assert forall|i: int| 0 <= i < now.len() implies (#[trigger] now[i] == new
        || sessions.contains(now[i])) by {
        if i < sessions.len() {
            assert(sessions.contains(sessions[i]));
        }
    }
}

/// A session, with its page and its context, stays as it is until the page is given back
/// or its client has gone, or until Chrome opens another session of its name.
pub proof fn session_is_kept(
    s: RouterView,
    event: EventView,
    client_id: u64,
    session: SessionView,
)
    requires
        s.clients.dom().contains(client_id),
        s.clients[client_id].contains(session),
        !lets_go(s, event, client_id, session),
        !opens(s, event, session.session_id),
    ensures
        s.on(event).0.clients.dom().contains(client_id),
        s.on(event).0.clients[client_id].contains(session),
{
    clients_after(s, event);
    match event {
        EventView::FromClient {
            client_id: c,
            msg: ClientMsgView::Release { target_id, .. },
            ..
        } => {
            if s.clients.dom().contains(c) {
                filter_keeps(s.clients[client_id], target_id, session);
            }
        },
        _ => {
            if let Some((page, asker, session_id)) = attached(s, event) {
                if asker.client_id == client_id {
                    let new = SessionView {
                        session_id,
                        target_id: page.target_id,
                        context_id: page.browser_context_id,
                    };
                    put_keeps(s.clients[client_id], new, session);
                }
            }
        },
    }
}

/// None of the events makes the client lose the session.
pub open spec fn keep_session(
    s: RouterView,
    events: Seq<EventView>,
    client_id: u64,
    session: SessionView,
) -> bool
    decreases events.len(),
{
    events.len() > 0 ==> {
        &&& !lets_go(s, events[0], client_id, session)
        &&& !opens(s, events[0], session.session_id)
        &&& keep_session(s.on(events[0]).0, events.drop_first(), client_id, session)
    }
}

/// A session stays as it is through any run in which its page is not given back and its
/// client does not go, and in which Chrome opens no other session of its name.
pub proof fn session_is_kept_through(
    s: RouterView,
    events: Seq<EventView>,
    client_id: u64,
    session: SessionView,
)
    requires
        s.clients.dom().contains(client_id),
        s.clients[client_id].contains(session),
        keep_session(s, events, client_id, session),
    ensures
        run(s, events).clients.dom().contains(client_id),
        run(s, events).clients[client_id].contains(session),
    decreases events.len(),
{
    if events.len() > 0 {
        session_is_kept(s, events[0], client_id, session);
        session_is_kept_through(s.on(events[0]).0, events.drop_first(), client_id, session);
    }
}

/// The client has the page of the session in no other session.
pub open spec fn only_session(s: RouterView, client_id: u64, session: SessionView) -> bool {
    forall|i: int|
        0 <= i < s.clients[client_id].len() && (#[trigger] s.clients[client_id][i]).target_id
            == session.target_id ==> s.clients[client_id][i] == session
}

/// None of the events hands the page to the client again.
pub open spec fn hand_out_once(
    s: RouterView,
    events: Seq<EventView>,
    client_id: u64,
    target_id: Seq<char>,
) -> bool
    decreases events.len(),
{
    events.len() > 0 ==> !hands_out(s, events[0], client_id, target_id) && hand_out_once(
        s.on(events[0]).0,
        events.drop_first(),
        client_id,
        target_id,
    )
}

proof fn only_session_is_kept(
    s: RouterView,
    event: EventView,
    client_id: u64,
    session: SessionView,
)
    requires
        s.clients.dom().contains(client_id),
        only_session(s, client_id, session),
        !lets_go(s, event, client_id, session),
        !hands_out(s, event, client_id, session.target_id),
    ensures
        only_session(s.on(event).0, client_id, session),
{
    clients_after(s, event);
    let sessions = s.clients[client_id];
    let after = s.on(event).0;
    match event {
        EventView::FromClient {
            client_id: c,
            msg: ClientMsgView::Release { target_id, .. },
            ..
        } => {
            if s.clients.dom().contains(c) {
                filter_brings_nothing(sessions, target_id);
            }
        },
        _ => {
            if let Some((page, asker, session_id)) = attached(s, event) {
                if asker.client_id == client_id {
                    let new = SessionView {
                        session_id,
                        target_id: page.target_id,
                        context_id: page.browser_context_id,
                    };
                    put_brings_one(sessions, new);
                }
            }
        },
    }
    assert forall|i: int|
        0 <= i < after.clients[client_id].len() && (#[trigger] after.clients[client_id][i]).target_id
            == session.target_id implies after.clients[client_id][i] == session by {
        let x = after.clients[client_id][i];
        assert(sessions.contains(x));
        let j = choose|j: int| 0 <= j < sessions.len() && sessions[j] == x;
        assert(s.clients[client_id][j] == x);
    }
}

proof fn only_session_is_kept_through(
    s: RouterView,
    events: Seq<EventView>,
    client_id: u64,
    session: SessionView,
)
    requires
        s.clients.dom().contains(client_id),
        s.clients[client_id].contains(session),
        only_session(s, client_id, session),
        keep_session(s, events, client_id, session),
        hand_out_once(s, events, client_id, session.target_id),
    ensures
        only_session(run(s, events), client_id, session),
    decreases events.len(),
{
    if events.len() > 0 {
        session_is_kept(s, events[0], client_id, session);
        only_session_is_kept(s, events[0], client_id, session);
        only_session_is_kept_through(s.on(events[0]).0, events.drop_first(), client_id, session);
    }
}

proof fn context_is_found(sessions: Seq<SessionView>, target_id: Seq<char>, at: int)
    requires
        0 <= at < sessions.len(),
        sessions[at].target_id == target_id,
        forall|i: int|
            0 <= i < sessions.len() && (#[trigger] sessions[i]).target_id == target_id
                ==> sessions[i].context_id == sessions[at].context_id,
    ensures
        context_of(sessions, target_id) == sessions[at].context_id,
    decreases sessions.len(),
{
    if sessions[0].target_id != target_id {
        let rest = sessions.drop_first();
        assert(rest[at - 1] == sessions[at]);
        assert forall|i: int| 0 <= i < rest.len() && (#[trigger] rest[i]).target_id
            == target_id implies rest[i].context_id == rest[at - 1].context_id by {
            assert(rest[i] == sessions[i + 1]);
        }
        context_is_found(rest, target_id, at - 1);
    }
}

/// The job that closes the page of a session for a client that gives it back.
pub open spec fn release_job(session: SessionView, stage: CloseStage, asker: Asker) -> JobView {
    JobView::Close {
        target_id: session.target_id,
        context_id: session.context_id,
        stage,
        asker: Some(asker),
    }
}

/// A client gives back a page that it has in a session: the page is closed by a call, no
/// client has the page any more, and the events of the session come to nobody.
pub proof fn release_closes_page(
    s: RouterView,
    client_id: u64,
    session: SessionView,
    id: u64,
    uptime_secs: u64,
)
    requires
        s.clients.dom().contains(client_id),
        s.clients[client_id].contains(session),
        only_session(s, client_id, session),
    ensures
        ({
            let msg = ClientMsgView::Release { id, target_id: session.target_id };
            let (after, actions) = s.on(EventView::FromClient { client_id, msg, uptime_secs });
            let close = release_job(session, CloseStage::Target, Asker { client_id, id });
            &&& actions == seq![call_action(s.next_id, close)]
            &&& close.call() == close_call(
                session.target_id,
                session.context_id,
                CloseStage::Target,
            )
            &&& after.pending.dom().contains(s.next_id)
            &&& after.pending[s.next_id] == (OwnerView::Internal { job: close })
            &&& after.clients.dom() == s.clients.dom()
            &&& nobody_has(after, session.target_id)
            &&& !after.owners.dom().contains(session.session_id)
        }),
{
    let sessions = s.clients[client_id];
    let target_id = session.target_id;
    let at = choose|i: int| 0 <= i < sessions.len() && sessions[i] == session;
    assert(s.clients[client_id][at] == session);
    context_is_found(sessions, target_id, at);
    let gone = with_target(sessions, target_id);
    assert(gone.contains(session)) by {
        picked(sessions, target_id, session);
    }
    let j = choose|j: int| 0 <= j < gone.len() && gone[j] == session;
    assert(gone[j].session_id == session.session_id);
    assert(has_session(gone, session.session_id));
    assert(names_page(s.clients, target_id, session.session_id));
    page_is_gone(s, target_id);
}

/// No client has the page in a session.
pub open spec fn nobody_has(s: RouterView, target_id: Seq<char>) -> bool {
    forall|c: u64, i: int|
        s.clients.dom().contains(c) && 0 <= i < s.clients[c].len() ==> (
        #[trigger] s.clients[c][i]).target_id != target_id
}

proof fn page_is_gone(s: RouterView, target_id: Seq<char>)
    ensures
        nobody_has(s.forgetting_page(target_id), target_id),
        s.forgetting_page(target_id).clients.dom() == s.clients.dom(),
{
    let after = s.forgetting_page(target_id);
    assert(after.clients.dom() =~= s.clients.dom());
    assert forall|c: u64, i: int|
        after.clients.dom().contains(c) && 0 <= i < after.clients[c].len() implies (
    #[trigger] after.clients[c][i]).target_id != target_id by {
        let keep = |x: SessionView| x.target_id != target_id;
        let now = s.clients[c].filter(keep);
        broadcast use vstd::seq_lib::group_filter_ensures;

        assert(after.clients[c] == now);
        assert(keep(now[i]));
    }
}

/// A page that one client gives back, while another has it, is closed for both: no
/// client has it any more, and as many pages less are active as there were sessions
/// with it.
pub proof fn release_is_for_all_clients(
    s: RouterView,
    client_id: u64,
    id: u64,
    target_id: Seq<char>,
    uptime_secs: u64,
)
    requires
        s.clients.dom().contains(client_id),
    ensures
        ({
            let msg = ClientMsgView::Release { id, target_id };
            let (after, actions) = s.on(EventView::FromClient { client_id, msg, uptime_secs });
            let close = JobView::Close {
                target_id,
                context_id: context_of(s.clients[client_id], target_id),
                stage: CloseStage::Target,
                asker: Some(Asker { client_id, id }),
            };
            &&& actions == seq![call_action(s.next_id, close)]
            &&& nobody_has(after, target_id)
            &&& after.pool == s.pool.given_back(total(page_counts(s.clients, target_id)))
            &&& forall|n: Seq<char>| #[trigger]
                after.owners.dom().contains(n) <==> s.owners.dom().contains(n) && !names_page(
                    s.clients,
                    target_id,
                    n,
                )
        }),
{
    page_is_gone(s, target_id);
}

proof fn picked(sessions: Seq<SessionView>, target_id: Seq<char>, session: SessionView)
    requires
        sessions.contains(session),
        session.target_id == target_id,
    ensures
        with_target(sessions, target_id).contains(session),
    decreases sessions.len(),
{
    reveal(Seq::filter);
    let kept = with_target(sessions, target_id);
    if sessions.last() == session {
        assert(kept.last() == session);
        assert(kept[kept.len() - 1] == session);
    } else {
        let i = choose|i: int| 0 <= i < sessions.len() && sessions[i] == session;
        assert(sessions.drop_last()[i] == session);
        picked(sessions.drop_last(), target_id, session);
        let before = with_target(sessions.drop_last(), target_id);
        let j = choose|j: int| 0 <= j < before.len() && before[j] == session;
        assert(kept[j] == session);
    }
}

/// A page that is given back is closed, then its context is disposed of, and only then
/// is the client told; whatever Chrome answers, and whatever else happens between, even
/// that the client is reported gone.
pub proof fn release_closes_page_and_context(
    s: RouterView,
    client_id: u64,
    session: SessionView,
    id: u64,
    uptime_secs: u64,
    during_close: Seq<EventView>,
    closed: Json,
    during_dispose: Seq<EventView>,
    disposed: Json,
)
    requires
        in_order(s),
        s.next_id < u64::MAX,
        s.clients.dom().contains(client_id),
        s.clients[client_id].contains(session),
        only_session(s, client_id, session),
        session.context_id.len() > 0,
        ({
            let msg = ClientMsgView::Release { id, target_id: session.target_id };
            let asked = s.on(EventView::FromClient { client_id, msg, uptime_secs }).0;
            let closing = run(asked, during_close);
            let next = closing.on(response(s.next_id, closed)).0;
            &&& passes_by(asked, during_close, s.next_id)
            &&& closing.next_id < u64::MAX
            &&& passes_by(next, during_dispose, closing.next_id)
        }),
    ensures
        ({
            let msg = ClientMsgView::Release { id, target_id: session.target_id };
            let asker = Asker { client_id, id };
            let (asked, first) = s.on(EventView::FromClient { client_id, msg, uptime_secs });
            let closing = run(asked, during_close);
            let (next, second) = closing.on(response(s.next_id, closed));
            let disposing = run(next, during_dispose);
            let third = disposing.on(response(closing.next_id, disposed)).1;
            let close = release_job(session, CloseStage::Target, asker);
            let dispose = release_job(session, CloseStage::Context, asker);
            &&& close.call() == close_call(
                session.target_id,
                session.context_id,
                CloseStage::Target,
            )
            &&& dispose.call() == close_call(
                session.target_id,
                session.context_id,
                CloseStage::Context,
            )
            &&& first == seq![call_action(s.next_id, close)]
            &&& second == seq![call_action(closing.next_id, dispose)]
            &&& third == seq![
                ActionView::Reply {
                    reply: ReplyView { client_id, msg: DaemonMsgView::Released { id } },
                },
            ]
        }),
{
    let msg = ClientMsgView::Release { id, target_id: session.target_id };
    let event = EventView::FromClient { client_id, msg, uptime_secs };
    let asker = Asker { client_id, id };
    let asked = s.on(event).0;
    release_closes_page(s, client_id, session, id, uptime_secs);
    calls_stay_in_order(s, event);
    owner_is_kept(asked, during_close, s.next_id);
    let closing = run(asked, during_close);
    let answer = response(s.next_id, closed);
    let next = closing.on(answer).0;
    run_stays_in_order(asked, during_close, s.next_id);
    calls_stay_in_order(closing, answer);
    let dispose = release_job(session, CloseStage::Context, asker);
    let p = job_progress(
        release_job(session, CloseStage::Target, asker),
        response_result(closed),
    );
    assert(p == ProgressView::goes_on(dispose));
    assert(Seq::<ActionView>::empty() + seq![call_action(closing.next_id, dispose)] =~= seq![
        call_action(closing.next_id, dispose),
    ]);
    owner_is_kept(next, during_dispose, closing.next_id);
}

pub(crate) proof fn run_stays_in_order(s: RouterView, events: Seq<EventView>, chrome_id: u64)
    requires
        in_order(s),
        passes_by(s, events, chrome_id),
    ensures
        in_order(run(s, events)),
    decreases events.len(),
{
    if events.len() > 0 {
        calls_stay_in_order(s, events[0]);
        run_stays_in_order(s.on(events[0]).0, events.drop_first(), chrome_id);
    }
}

/// The session that the answer to attaching to a page opens.
pub open spec fn opened(page: PageView, session_id: Seq<char>) -> SessionView {
    SessionView {
        session_id,
        target_id: page.target_id,
        context_id: page.browser_context_id,
    }
}

/// No other client has a session of the given name.
pub open spec fn no_other_has(s: RouterView, client_id: u64, session_id: Seq<char>) -> bool {
    forall|c: u64| #[trigger]
        s.clients.dom().contains(c) && c != client_id ==> !has_session(s.clients[c], session_id)
}

/// The client has the session, and gets its events.
pub open spec fn owns(s: RouterView, client_id: u64, session: SessionView) -> bool {
    &&& s.clients.dom().contains(client_id)
    &&& s.clients[client_id].contains(session)
    &&& s.owners.dom().contains(session.session_id)
    &&& s.owners[session.session_id] == client_id
    &&& no_other_has(s, client_id, session.session_id)
}

/// Once Chrome has opened a session with a page, the client that asked is told of the
/// page and the session, has the page in the context that it was created in, and gets
/// the events of the session.
pub proof fn acquired_page_is_owned(
    s: RouterView,
    chrome_id: u64,
    page: PageView,
    asker: Asker,
    payload: Json,
    session_id: Seq<char>,
)
    requires
        attached(s, response(chrome_id, payload)) == Some((page, asker, session_id)),
        s.clients.dom().contains(asker.client_id),
    ensures
        ({
            let (after, actions) = s.on(response(chrome_id, payload));
            let session = opened(page, session_id);
            &&& actions == seq![
                ActionView::Reply {
                    reply: ReplyView {
                        client_id: asker.client_id,
                        msg: DaemonMsgView::Acquired {
                            id: asker.id,
                            target_id: page.target_id,
                            session_id,
                        },
                    },
                },
            ]
            &&& after.clients.dom() == s.clients.dom()
            &&& after.clients[asker.client_id].contains(session)
            &&& no_other_has(s, asker.client_id, session_id) ==> owns(
                after,
                asker.client_id,
                session,
            )
            &&& (forall|i: int|
                0 <= i < s.clients[asker.client_id].len() ==> (
                #[trigger] s.clients[asker.client_id][i]).target_id != page.target_id)
                ==> only_session(after, asker.client_id, session)
        }),
{
    let event = response(chrome_id, payload);
    let (after, actions) = s.on(event);
    let session = opened(page, session_id);
    let c = asker.client_id;
    clients_after(s, event);
    put_brings_one(s.clients[c], session);
    assert(after.clients.dom() =~= s.clients.dom());
    if (forall|i: int|
        0 <= i < s.clients[c].len() ==> (#[trigger] s.clients[c][i]).target_id != page.target_id) {
        assert forall|i: int|
            0 <= i < after.clients[c].len() && (#[trigger] after.clients[c][i]).target_id
                == session.target_id implies after.clients[c][i] == session by {
            let x = after.clients[c][i];
            if x != session {
                assert(s.clients[c].contains(x));
                let j = choose|j: int| 0 <= j < s.clients[c].len() && s.clients[c][j] == x;
                assert(s.clients[c][j].target_id != page.target_id);
            }
        }
    }
}

/// A page that a client got is still its own, with the context that it was created in,
/// after any run in which it is not given back and the client does not go: giving it
/// back then closes that page, and disposes of that context.
pub proof fn acquired_page_is_closed_on_release(
    s: RouterView,
    chrome_id: u64,
    page: PageView,
    asker: Asker,
    payload: Json,
    session_id: Seq<char>,
    events: Seq<EventView>,
    id: u64,
    uptime_secs: u64,
)
    requires
        attached(s, response(chrome_id, payload)) == Some((page, asker, session_id)),
        s.clients.dom().contains(asker.client_id),
        forall|i: int|
            0 <= i < s.clients[asker.client_id].len() ==> (
            #[trigger] s.clients[asker.client_id][i]).target_id != page.target_id,
        keep_session(
            s.on(response(chrome_id, payload)).0,
            events,
            asker.client_id,
            opened(page, session_id),
        ),
        hand_out_once(
            s.on(response(chrome_id, payload)).0,
            events,
            asker.client_id,
            page.target_id,
        ),
    ensures
        ({
            let client_id = asker.client_id;
            let reached = run(s.on(response(chrome_id, payload)).0, events);
            let session = opened(page, session_id);
            let msg = ClientMsgView::Release { id, target_id: page.target_id };
            let close = release_job(session, CloseStage::Target, Asker { client_id, id });
            &&& reached.clients.dom().contains(client_id)
            &&& reached.clients[client_id].contains(session)
            &&& only_session(reached, client_id, session)
            &&& reached.on(EventView::FromClient { client_id, msg, uptime_secs }).1 == seq![
                call_action(reached.next_id, close),
            ]
        }),
{
    let client_id = asker.client_id;
    let after = s.on(response(chrome_id, payload)).0;
    let session = opened(page, session_id);
    acquired_page_is_owned(s, chrome_id, page, asker, payload, session_id);
    session_is_kept_through(after, events, client_id, session);
    only_session_is_kept_through(after, events, client_id, session);
    release_closes_page(run(after, events), client_id, session, id, uptime_secs);
}

proof fn dropped_names(
    sessions: Seq<SessionView>,
    target_id: Seq<char>,
    session: SessionView,
)
    requires
        names_differ(sessions),
        sessions.contains(session),
        session.target_id != target_id,
    ensures
        !has_session(with_target(sessions, target_id), session.session_id),
{
    let gone = with_target(sessions, target_id);
    filter_brings_nothing(sessions, target_id);
    if has_session(gone, session.session_id) {
        let i = choose|i: int|
            0 <= i < gone.len() && (#[trigger] gone[i]).session_id == session.session_id;
        assert(sessions.contains(gone[i]));
        let j = choose|j: int| 0 <= j < sessions.len() && sessions[j] == gone[i];
        let k = choose|k: int| 0 <= k < sessions.len() && sessions[k] == session;
        assert(sessions[j].target_id == target_id);
        assert(j != k);
    }
}

proof fn names_come_from(sessions: Seq<SessionView>, kept: Seq<SessionView>, name: Seq<char>)
    requires
        has_session(kept, name),
        forall|i: int| 0 <= i < kept.len() ==> sessions.contains(#[trigger] kept[i]),
    ensures
        has_session(sessions, name),
{
    let i = choose|i: int| 0 <= i < kept.len() && (#[trigger] kept[i]).session_id == name;
    assert(sessions.contains(kept[i]));
    let j = choose|j: int| 0 <= j < sessions.len() && sessions[j] == kept[i];
    assert(sessions[j].session_id == name);
}

/// A client that gets the events of a session goes on getting them, until the page is
/// given back or the client goes, or until Chrome opens another session of the same name.
pub proof fn session_keeps_owner(
    s: RouterView,
    event: EventView,
    client_id: u64,
    session: SessionView,
)
    requires
        sessions_differ(s),
        owns(s, client_id, session),
        !lets_go(s, event, client_id, session),
        !opens(s, event, session.session_id),
    ensures
        owns(s.on(event).0, client_id, session),
{
    let name = session.session_id;
    let after = s.on(event).0;
    clients_after(s, event);
    session_is_kept(s, event, client_id, session);
    match event {
        EventView::ClientConnected { client_id: c } => {
            if s.clients.dom().contains(c) {
                dropping_counts(s, s.clients[c]);
                assert(s.dropping(s.clients[c]).owners.dom().contains(name));
            }
        },
        EventView::ClientDisconnected { client_id: c } => {
            if s.clients.dom().contains(c) {
                let gone = RouterView { clients: s.clients.remove(c), ..s };
                closing_all_calls(gone, s.clients[c]);
                assert(gone.closing_all(s.clients[c]).0.owners.dom().contains(name));
            }
        },
        EventView::FromClient {
            client_id: c,
            msg: ClientMsgView::Release { target_id, .. },
            ..
        } => {
            if s.clients.dom().contains(c) {
                if names_page(s.clients, target_id, name) {
                    let d = choose|d: u64| #[trigger]
                        s.clients.dom().contains(d) && has_session(
                            with_target(s.clients[d], target_id),
                            name,
                        );
                    filter_brings_nothing(s.clients[d], target_id);
                    if d == client_id {
                        dropped_names(s.clients[d], target_id, session);
                    } else {
                        names_come_from(
                            s.clients[d],
                            with_target(s.clients[d], target_id),
                            name,
                        );
                    }
                }
            }
        },
        _ => {},
    }
    assert(after.owners.dom().contains(name));
    assert(after.owners[name] == client_id);
    assert forall|c: u64| #[trigger]
        after.clients.dom().contains(c) && c != client_id implies !has_session(
        after.clients[c],
        name,
    ) by {
        if has_session(after.clients[c], name) {
            match event {
                EventView::FromClient {
                    msg: ClientMsgView::Release { target_id, .. },
                    ..
                } => {
                    assert(s.clients.dom().contains(c));
                    filter_brings_nothing(s.clients[c], target_id);
                    if after.clients[c] != s.clients[c] {
                        names_come_from(s.clients[c], after.clients[c], name);
                    }
                },
                _ => {
                    if let Some((page, asker, session_id)) = attached(s, event) {
                        assert(s.clients.dom().contains(c));
                        if asker.client_id == c {
                            let new = opened(page, session_id);
                            put_brings_one(s.clients[c], new);
                            let i = choose|i: int|
                                0 <= i < after.clients[c].len() && (
                                #[trigger] after.clients[c][i]).session_id == name;
                            let x = with_session(s.clients[c], new)[i];
                            assert(s.clients[c].contains(x));
                            let j = choose|j: int|
                                0 <= j < s.clients[c].len() && s.clients[c][j] == x;
                            assert(s.clients[c][j].session_id == name);
                        }
                    }
                },
            }
        }
    }
}

proof fn session_keeps_owner_through(
    s: RouterView,
    events: Seq<EventView>,
    client_id: u64,
    session: SessionView,
)
    requires
        sessions_differ(s),
        owns(s, client_id, session),
        keep_session(s, events, client_id, session),
    ensures
        owns(run(s, events), client_id, session),
    decreases events.len(),
{
    if events.len() > 0 {
        session_keeps_owner(s, events[0], client_id, session);
        sessions_stay_different(s, events[0]);
        session_keeps_owner_through(s.on(events[0]).0, events.drop_first(), client_id, session);
    }
}

/// The events of a session come to the client that got it, and to nobody else, from the
/// moment that the client got it and through any run in which the page is not given back
/// and the client does not go.
pub proof fn session_events_reach_client(
    s: RouterView,
    chrome_id: u64,
    page: PageView,
    asker: Asker,
    payload: Json,
    session_id: Seq<char>,
    events: Seq<EventView>,
    method: Seq<char>,
    params: Json,
)
    requires
        sessions_differ(s),
        attached(s, response(chrome_id, payload)) == Some((page, asker, session_id)),
        s.clients.dom().contains(asker.client_id),
        no_other_has(s, asker.client_id, session_id),
        keep_session(
            s.on(response(chrome_id, payload)).0,
            events,
            asker.client_id,
            opened(page, session_id),
        ),
    ensures
        ({
            let reached = run(s.on(response(chrome_id, payload)).0, events);
            let msg = ChromeMsgView::Event { method, params, session_id: Some(session_id) };
            reached.on(EventView::FromChrome { msg }) == (
                reached,
                seq![
                    ActionView::Reply {
                        reply: ReplyView {
                            client_id: asker.client_id,
                            msg: DaemonMsgView::CdpEvent {
                                method,
                                params,
                                session_id: Some(session_id),
                            },
                        },
                    },
                ],
            )
        }),
{
    let after = s.on(response(chrome_id, payload)).0;
    let session = opened(page, session_id);
    acquired_page_is_owned(s, chrome_id, page, asker, payload, session_id);
    sessions_stay_different(s, response(chrome_id, payload));
    session_keeps_owner_through(after, events, asker.client_id, session);
}

} // verus!
