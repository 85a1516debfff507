//! What each request, and each thing that Chrome says, is met with.
use crate::browser::{
    record_msgs, split_records, text_on_pipe_gives_one_message, value_with_number_is_a_response,
    zero_byte_ends_record, ChromeMsg, ChromeMsgView,
};
use crate::daemon::{
    action_views, call_action, commands_fit_records, context_of, dropping_counts, has_session,
    names_page, page_counts, session_views, with_target, without_target, Action, ActionView,
    EventView, Owner, OwnerView, RouterEvent, RouterView, Session, SessionView,
};
use crate::jobs::{
    job_progress, request_is_answered_once, Asker, Goal, Job, JobView, Reply, ReplyView,
};
use crate::json::{json_decoded, json_display, json_encoded, Json};
use crate::pages::{active_is_pages_in_use, pages_in_use};
use crate::pool::{
    command, response_gives_its_error, response_gives_its_result, CallResult, CallView, CdpError,
    CloseStage, PageStageView,
};
use crate::protocol::{ClientMsg, ClientMsgView, DaemonMsgView};
use crate::routing::{
    asking_for_page, closing_all_calls, concerns, numbers_last, page_job, run,
};
use crate::sums::total;
use vstd::prelude::*;

verus! {

/// A connected client that asks for the status is told it, and only once, under the
/// number of its request: how many pages wait, how many are active, the process of Chrome
/// and the uptime, all as they are. Nothing changes, and nobody else is told.
pub proof fn status_is_told_as_it_is(s: RouterView, client_id: u64, id: u64, uptime_secs: u64)
    ensures
        ({
            let msg = ClientMsgView::Status { id };
            let (after, actions) = s.on(EventView::FromClient { client_id, msg, uptime_secs });
            &&& after == s
            &&& s.clients.dom().contains(client_id) ==> actions == seq![
                ActionView::Reply {
                    reply: ReplyView {
                        client_id,
                        msg: DaemonMsgView::StatusResponse {
                            id,
                            pool_available: s.pool.pages.len() as usize,
                            active_sessions: s.pool.active as usize,
                            chrome_pid: s.chrome_pid,
                            uptime_secs,
                        },
                    },
                },
            ]
            &&& !s.clients.dom().contains(client_id) ==> actions.len() == 0
        }),
{
}

/// No event changes the process that Chrome is, nor what the pool is filled with.
pub proof fn settings_stay(s: RouterView, event: EventView)
    ensures
        s.on(event).0.chrome_pid == s.chrome_pid,
        s.on(event).0.warmup_count == s.warmup_count,
        s.on(event).0.warmup_url == s.warmup_url,
{
    match event {
        EventView::ClientConnected { client_id } => {
            if s.clients.dom().contains(client_id) {
                dropping_counts(s, s.clients[client_id]);
            }
        },
        EventView::ClientDisconnected { client_id } => {
            if s.clients.dom().contains(client_id) {
                let gone = RouterView { clients: s.clients.remove(client_id), ..s };
                closing_all_settings(gone, s.clients[client_id]);
            }
        },
        _ => {},
    }
}

proof fn closing_all_settings(s: RouterView, sessions: Seq<SessionView>)
    ensures
        s.closing_all(sessions).0.chrome_pid == s.chrome_pid,
        s.closing_all(sessions).0.warmup_count == s.warmup_count,
        s.closing_all(sessions).0.warmup_url == s.warmup_url,
    decreases sessions.len(),
{
    if sessions.len() > 0 {
        closing_all_settings(s, sessions.drop_last());
    }
}

proof fn settings_stay_through(s: RouterView, events: Seq<EventView>)
    ensures
        run(s, events).chrome_pid == s.chrome_pid,
        run(s, events).warmup_count == s.warmup_count,
        run(s, events).warmup_url == s.warmup_url,
    decreases events.len(),
{
    if events.len() > 0 {
        settings_stay(s, events[0]);
        settings_stay_through(s.on(events[0]).0, events.drop_first());
    }
}

/// Whatever has happened since the start, as long as numbers last, the status tells the
/// process of Chrome that the router was started with, the number of pages that wait, the
/// number of pages in use, and the uptime.
pub proof fn status_is_true_in_reached_states(
    chrome_pid: u32,
    warmup_count: usize,
    warmup_url: Seq<char>,
    events: Seq<EventView>,
    client_id: u64,
    id: u64,
    uptime_secs: u64,
)
    requires
        numbers_last(RouterView::start(chrome_pid, warmup_count, warmup_url), events),
        run(
            RouterView::start(chrome_pid, warmup_count, warmup_url),
            events,
        ).clients.dom().contains(client_id),
    ensures
        ({
            let s = run(RouterView::start(chrome_pid, warmup_count, warmup_url), events);
            let msg = ClientMsgView::Status { id };
            s.on(EventView::FromClient { client_id, msg, uptime_secs }).1 == seq![
                ActionView::Reply {
                    reply: ReplyView {
                        client_id,
                        msg: DaemonMsgView::StatusResponse {
                            id,
                            pool_available: s.pool.pages.len() as usize,
                            active_sessions: pages_in_use(s) as usize,
                            chrome_pid,
                            uptime_secs,
                        },
                    },
                },
            ]
        }),
{
    active_is_pages_in_use(chrome_pid, warmup_count, warmup_url, events);
    settings_stay_through(RouterView::start(chrome_pid, warmup_count, warmup_url), events);
}

/// At the start nothing waits, nobody is connected, no page is taken, and the next call is
/// the first.
pub proof fn start_is_empty(chrome_pid: u32, warmup_count: usize, warmup_url: Seq<char>)
    ensures
        ({
            let s = RouterView::start(chrome_pid, warmup_count, warmup_url);
            &&& s.next_id == 1 && s.clients == Map::<u64, Seq<SessionView>>::empty()
            &&& s.pending == Map::<u64, OwnerView>::empty()
            &&& s.owners == Map::<Seq<char>, u64>::empty()
            &&& s.pool.pages.len() == 0 && s.pool.active == 0
            &&& s.chrome_pid == chrome_pid && s.warmup_count == warmup_count
            &&& s.warmup_url == warmup_url
        }),
{
}

/// A client's command goes to Chrome as it is, under the next number, for the response to
/// which the client waits. Nothing else changes.
pub proof fn command_goes_to_chrome(
    s: RouterView,
    client_id: u64,
    id: u64,
    method: Seq<char>,
    params: Json,
    session_id: Option<Seq<char>>,
    uptime_secs: u64,
)
    ensures
        ({
            let msg = ClientMsgView::Cdp { id, method, params, session_id };
            let (after, actions) = s.on(EventView::FromClient { client_id, msg, uptime_secs });
            let text = json_encoded(
                command(s.next_id, CallView { method, params, session_id }),
            );
            let asker = Asker { client_id, id };
            &&& after == (RouterView {
                next_id: after.next_id,
                pending: s.pending.insert(s.next_id, OwnerView::Client { asker }),
                ..s
            })
            &&& s.next_id < u64::MAX ==> after.next_id == s.next_id + 1
            &&& s.next_id == u64::MAX ==> after.next_id == 0
            &&& text matches Ok(bytes) ==> actions == seq![
                ActionView::ToChrome { chrome_id: s.next_id, bytes, timed: false },
            ]
            &&& text matches Err(why) ==> (if s.clients.dom().contains(client_id) {
                actions == seq![
                    ActionView::Reply {
                        reply: ReplyView {
                            client_id,
                            msg: DaemonMsgView::Error { id, message: "serialize: "@ + why },
                        },
                    },
                ]
            } else {
                actions.len() == 0
            })
        }),
{
}

/// A call of the daemon's own goes to Chrome under its number, and is timed; where it has
/// no text, it fails with that reason.
pub proof fn own_call_goes_to_chrome(chrome_id: u64, job: JobView)
    ensures
        json_encoded(command(chrome_id, job.call())) matches Ok(bytes) ==> call_action(
            chrome_id,
            job,
        ) == (ActionView::ToChrome { chrome_id, bytes, timed: true }),
        json_encoded(command(chrome_id, job.call())) matches Err(error) ==> call_action(
            chrome_id,
            job,
        ) == (ActionView::Fail { chrome_id, error }),
{
}

/// Pages are being warmed up: a call is awaited for it.
pub open spec fn warm_up_waits(s: RouterView) -> bool {
    exists|k: u64| #[trigger]
        s.pending.dom().contains(k) && (s.pending[k] matches OwnerView::Internal { job }
            && job matches JobView::CreatePage { goal, .. } && goal is Warmup)
}

/// A request for a page starts exactly one job for it: attaching to the page that waited
/// longest, which waits no more and counts as taken, or creating one where none waits.
/// Only where the pool is then empty, is to be filled and is not being filled, a warm-up
/// starts too. Nothing else changes, and nobody is told anything yet.
pub proof fn page_request_starts_job(s: RouterView, client_id: u64, id: u64, uptime_secs: u64)
    requires
        s.next_id + 2 <= u64::MAX,
    ensures
        ({
            let msg = ClientMsgView::Acquire { id };
            let (after, actions) = s.on(EventView::FromClient { client_id, msg, uptime_secs });
            let asker = if s.clients.dom().contains(client_id) {
                Some(Asker { client_id, id })
            } else {
                None
            };
            let job = if s.pool.pages.len() > 0 {
                JobView::Attach { page: s.pool.pages[0], asker }
            } else {
                JobView::CreatePage {
                    url: "about:blank"@,
                    stage: PageStageView::Context,
                    goal: Goal::Acquire { asker },
                }
            };
            let refill = JobView::CreatePage {
                url: s.warmup_url,
                stage: PageStageView::Context,
                goal: Goal::Warmup { asker: None, left: (s.warmup_count - 1) as usize, created: 0 },
            };
            let second = (s.next_id + 1) as u64;
            let refills = s.pool.pages.len() <= 1 && s.warmup_count > 0 && !warm_up_waits(s)
                && !s.pending.dom().contains(s.next_id);
            let asked = s.pending.insert(s.next_id, OwnerView::Internal { job });
            &&& after.clients == s.clients && after.owners == s.owners
            &&& s.pool.pages.len() > 0 ==> seq![s.pool.pages[0]] + after.pool.pages
                == s.pool.pages && after.pool.active == s.pool.active + 1
            &&& s.pool.pages.len() == 0 ==> after.pool == s.pool
            &&& refills ==> {
                &&& actions == seq![call_action(s.next_id, job), call_action(second, refill)]
                &&& after.next_id == s.next_id + 2
                &&& after.pending == asked.insert(second, OwnerView::Internal { job: refill })
            }
            &&& s.pool.pages.len() > 1 || s.warmup_count == 0 || (warm_up_waits(s)
                && !s.pending.dom().contains(s.next_id)) ==> {
                &&& actions == seq![call_action(s.next_id, job)]
                &&& after.next_id == second
                &&& after.pending == asked
            }
        }),
{
    let msg = ClientMsgView::Acquire { id };
    let (after, actions) = s.on(EventView::FromClient { client_id, msg, uptime_secs });
    let asker = Asker { client_id, id };
    let (mid, called) = asking_for_page(s, asker);
    let job = page_job(s, asker);
    assert(called =~= seq![call_action(s.next_id, job)]);
    if s.pool.pages.len() > 0 {
        assert(seq![s.pool.pages[0]] + after.pool.pages =~= s.pool.pages);
    }
    if !s.pending.dom().contains(s.next_id) {
        if mid.warming() {
            let k = choose|k: u64| #[trigger]
                mid.pending.dom().contains(k) && mid.pending[k].warms();
            assert(s.pending.dom().contains(k));
            assert(warm_up_waits(s));
        }
        if warm_up_waits(s) {
            let k = choose|k: u64| #[trigger]
                s.pending.dom().contains(k) && (s.pending[k] matches OwnerView::Internal { job }
                    && job matches JobView::CreatePage { goal, .. } && goal is Warmup);
            assert(mid.pending.dom().contains(k) && mid.pending[k].warms());
        }
    }
    let (_, more) = mid.refilling();
    if more.len() == 0 {
        assert(called + more =~= called);
    } else {
        assert(more.len() == 1);
        assert(called + more =~= seq![called[0], more[0]]);
    }
}

/// The first of a client's sessions with the given page, or the end of the sessions where
/// there is none, is at `at`.
pub open spec fn first_with(sessions: Seq<SessionView>, target_id: Seq<char>, at: int) -> bool {
    &&& 0 <= at <= sessions.len()
    &&& forall|i: int| 0 <= i < at ==> (#[trigger] sessions[i]).target_id != target_id
    &&& at < sessions.len() ==> sessions[at].target_id == target_id
}

proof fn context_is_that_of_first(sessions: Seq<SessionView>, target_id: Seq<char>, at: int)
    requires
        first_with(sessions, target_id, at),
    ensures
        at < sessions.len() ==> context_of(sessions, target_id) == sessions[at].context_id,
        at == sessions.len() ==> context_of(sessions, target_id).len() == 0,
    decreases sessions.len(),
{
    if at > 0 {
        let rest = sessions.drop_first();
        assert(sessions[0].target_id != target_id);
        assert forall|i: int| 0 <= i < at - 1 implies (#[trigger] rest[i]).target_id
            != target_id by {
            assert(rest[i] == sessions[i + 1]);
        }
        context_is_that_of_first(rest, target_id, at - 1);
    }
}

/// Some client has a session of the given name with the given page.
pub open spec fn some_session_has(s: RouterView, target_id: Seq<char>, name: Seq<char>) -> bool {
    exists|c: u64, i: int|
        s.clients.dom().contains(c) && 0 <= i < s.clients[c].len() && (
        #[trigger] s.clients[c][i]).target_id == target_id && s.clients[c][i].session_id == name
}

proof fn named_among_those_with_page(
    sessions: Seq<SessionView>,
    target_id: Seq<char>,
    name: Seq<char>,
)
    ensures
        has_session(with_target(sessions, target_id), name) <==> exists|i: int|
            0 <= i < sessions.len() && (#[trigger] sessions[i]).target_id == target_id
                && sessions[i].session_id == name,
    decreases sessions.len(),
{
    reveal(Seq::filter);
    if sessions.len() > 0 {
        let before = sessions.drop_last();
        let last = sessions.last();
        named_among_those_with_page(before, target_id, name);
        let kept = with_target(before, target_id);
        let all = with_target(sessions, target_id);
        assert(last == sessions[sessions.len() - 1]);
        assert forall|i: int| 0 <= i < before.len() implies sessions[i] == #[trigger] before[i] by {
        }
        if last.target_id == target_id {
            assert(all == kept.push(last));
            assert(all[kept.len() as int] == last);
            if has_session(kept, name) {
                let i = choose|i: int|
                    0 <= i < kept.len() && (#[trigger] kept[i]).session_id == name;
                assert(all[i] == kept[i]);
            }
            if has_session(all, name) {
                let i = choose|i: int| 0 <= i < all.len() && (#[trigger] all[i]).session_id == name;
                if i < kept.len() {
                    assert(kept[i] == all[i]);
                }
            }
        } else {
            assert(all == kept);
        }
        let found = exists|i: int|
            0 <= i < sessions.len() && (#[trigger] sessions[i]).target_id == target_id
                && sessions[i].session_id == name;
        if found {
            let i = choose|i: int|
                0 <= i < sessions.len() && (#[trigger] sessions[i]).target_id == target_id
                    && sessions[i].session_id == name;
            if i < before.len() {
                assert(before[i] == sessions[i]);
            }
        }
        if exists|i: int|
            0 <= i < before.len() && (#[trigger] before[i]).target_id == target_id
                && before[i].session_id == name {
            let i = choose|i: int|
                0 <= i < before.len() && (#[trigger] before[i]).target_id == target_id
                    && before[i].session_id == name;
            assert(sessions[i] == before[i]);
        }
    }
}

proof fn page_is_named_by_some_session(s: RouterView, target_id: Seq<char>, name: Seq<char>)
    ensures
        names_page(s.clients, target_id, name) <==> some_session_has(s, target_id, name),
{
    if names_page(s.clients, target_id, name) {
        let c = choose|c: u64| #[trigger]
            s.clients.dom().contains(c) && has_session(with_target(s.clients[c], target_id), name);
        let sessions = s.clients[c];
        named_among_those_with_page(sessions, target_id, name);
        let i = choose|i: int|
            0 <= i < sessions.len() && (#[trigger] sessions[i]).target_id == target_id
                && sessions[i].session_id == name;
        assert(s.clients[c][i].target_id == target_id);
    }
    if some_session_has(s, target_id, name) {
        let (c, i) = choose|c: u64, i: int|
            s.clients.dom().contains(c) && 0 <= i < s.clients[c].len() && (
            #[trigger] s.clients[c][i]).target_id == target_id && s.clients[c][i].session_id
                == name;
        let sessions = s.clients[c];
        assert(sessions[i].target_id == target_id && sessions[i].session_id == name);
        named_among_those_with_page(sessions, target_id, name);
    }
}

/// A connected client that gives back a page has it closed, by exactly one call, after
/// which the context that the client had it in is to be disposed of. No client has the
/// page any more, and all other sessions stay, in their order; so many pages less are
/// active as sessions had it; the pages that wait stay. Where the client is not connected,
/// nothing happens.
pub proof fn release_closes_exactly_the_page(
    s: RouterView,
    client_id: u64,
    id: u64,
    target_id: Seq<char>,
    uptime_secs: u64,
    at: int,
)
    requires
        s.next_id < u64::MAX,
        s.clients.dom().contains(client_id) ==> first_with(s.clients[client_id], target_id, at),
    ensures
        ({
            let msg = ClientMsgView::Release { id, target_id };
            let (after, actions) = s.on(EventView::FromClient { client_id, msg, uptime_secs });
            let sessions = s.clients[client_id];
            let close = JobView::Close {
                target_id,
                context_id: if at < sessions.len() {
                    sessions[at].context_id
                } else {
                    Seq::empty()
                },
                stage: CloseStage::Target,
                asker: Some(Asker { client_id, id }),
            };
            let had = total(
                s.clients.map_values(
                    |v: Seq<SessionView>|
                        v.filter(|x: SessionView| x.target_id == target_id).len(),
                ),
            );
            &&& s.clients.dom().contains(client_id) ==> {
                &&& actions == seq![call_action(s.next_id, close)]
                &&& after.next_id == s.next_id + 1
                &&& after.pending == s.pending.insert(
                    s.next_id,
                    OwnerView::Internal { job: close },
                )
                &&& after.clients.dom() == s.clients.dom()
                &&& forall|c: u64| #[trigger]
                    s.clients.dom().contains(c) ==> after.clients[c] == s.clients[c].filter(
                        |x: SessionView| x.target_id != target_id,
                    )
                &&& after.pool.pages == s.pool.pages
                &&& s.pool.active >= had ==> after.pool.active + had == s.pool.active
                &&& s.pool.active < had ==> after.pool.active == 0
                &&& forall|n: Seq<char>| #[trigger]
                    after.owners.dom().contains(n) <==> s.owners.dom().contains(n)
                        && !some_session_has(s, target_id, n)
                &&& forall|n: Seq<char>|
                    after.owners.dom().contains(n) ==> #[trigger] after.owners[n] == s.owners[n]
            }
            &&& !s.clients.dom().contains(client_id) ==> after == s && actions.len() == 0
        }),
{
    if s.clients.dom().contains(client_id) {
        context_is_that_of_first(s.clients[client_id], target_id, at);
        assert(s.forgetting_page(target_id).clients.dom() =~= s.clients.dom());
        if at == s.clients[client_id].len() {
            assert(context_of(s.clients[client_id], target_id) =~= Seq::empty());
        }
        let other = |x: SessionView| x.target_id != target_id;
        let same = |x: SessionView| x.target_id == target_id;
        assert forall|v: Seq<SessionView>| #[trigger]
            without_target(v, target_id) == v.filter(other) by {
            assert((|x: SessionView| x.target_id != target_id) =~= other);
        }
        assert forall|v: Seq<SessionView>| #[trigger]
            with_target(v, target_id) == v.filter(same) by {
            assert((|x: SessionView| x.target_id == target_id) =~= same);
        }
        assert(page_counts(s.clients, target_id) =~= s.clients.map_values(
            |v: Seq<SessionView>| v.filter(|x: SessionView| x.target_id == target_id).len(),
        ));
        assert forall|n: Seq<char>|
            names_page(s.clients, target_id, n) <==> #[trigger] some_session_has(
                s,
                target_id,
                n,
            ) by {
            page_is_named_by_some_session(s, target_id, n);
        }
    }
}

/// Asking for warm pages starts to create the first of them, with the given address; the
/// client that asked, if it is connected, is the one to be told in the end. Where no page
/// is asked for, it is told at once. Nothing else changes.
pub proof fn warm_up_request_starts_job(
    s: RouterView,
    client_id: u64,
    id: u64,
    count: usize,
    url: Seq<char>,
    uptime_secs: u64,
)
    requires
        s.next_id < u64::MAX,
    ensures
        ({
            let msg = ClientMsgView::Warmup { id, count, url };
            let (after, actions) = s.on(EventView::FromClient { client_id, msg, uptime_secs });
            let asker = if s.clients.dom().contains(client_id) {
                Some(Asker { client_id, id })
            } else {
                None
            };
            let job = JobView::CreatePage {
                url,
                stage: PageStageView::Context,
                goal: Goal::Warmup { asker, left: (count - 1) as usize, created: 0 },
            };
            &&& count > 0 ==> after == (RouterView {
                next_id: (s.next_id + 1) as u64,
                pending: s.pending.insert(s.next_id, OwnerView::Internal { job }),
                ..s
            }) && actions == seq![call_action(s.next_id, job)]
            &&& count == 0 ==> after == s && actions == match asker {
                Some(a) => seq![
                    ActionView::Reply {
                        reply: ReplyView {
                            client_id,
                            msg: DaemonMsgView::WarmupDone { id, count: 0 },
                        },
                    },
                ],
                None => Seq::empty(),
            }
        }),
{
}

/// A warm-up that nobody asked for starts in the same way, for the given count and
/// address, and nobody is to be told.
pub proof fn own_warm_up_starts_job(s: RouterView, count: usize, url: Seq<char>)
    requires
        s.next_id < u64::MAX,
    ensures
        ({
            let (after, actions) = s.on(EventView::Warm { count, url });
            let job = JobView::CreatePage {
                url,
                stage: PageStageView::Context,
                goal: Goal::Warmup { asker: None, left: (count - 1) as usize, created: 0 },
            };
            &&& count > 0 ==> after == (RouterView {
                next_id: (s.next_id + 1) as u64,
                pending: s.pending.insert(s.next_id, OwnerView::Internal { job }),
                ..s
            }) && actions == seq![call_action(s.next_id, job)]
            &&& count == 0 ==> after == s && actions.len() == 0
        }),
{
}

/// A client that connects has no sessions, and makes no difference to the others; nobody
/// is told.
pub proof fn client_connects_with_nothing(s: RouterView, client_id: u64)
    requires
        !s.clients.dom().contains(client_id),
    ensures
        s.on(EventView::ClientConnected { client_id }) == (
            RouterView { clients: s.clients.insert(client_id, Seq::empty()), ..s },
            Seq::<ActionView>::empty(),
        ),
{
}

/// A client that was not connected makes no difference when it goes; one that goes takes
/// its own sessions with it, and leaves those of the others, and who gets their events.
pub proof fn client_goes_alone(s: RouterView, client_id: u64, other: u64, name: Seq<char>)
    ensures
        ({
            let (after, actions) = s.on(EventView::ClientDisconnected { client_id });
            &&& !s.clients.dom().contains(client_id) ==> after == s && actions.len() == 0
            &&& s.clients.dom().contains(client_id) ==> {
                &&& !after.clients.dom().contains(client_id)
                &&& after.pool.pages == s.pool.pages
                &&& s.pool.active >= s.clients[client_id].len() ==> after.pool.active
                    + s.clients[client_id].len() == s.pool.active
                &&& s.pool.active < s.clients[client_id].len() ==> after.pool.active == 0
                &&& other != client_id && s.clients.dom().contains(other)
                    ==> after.clients.dom().contains(other) && after.clients[other]
                    == s.clients[other]
                &&& s.owners.dom().contains(name) && !has_session(s.clients[client_id], name)
                    ==> after.owners.dom().contains(name) && after.owners[name] == s.owners[name]
            }
        }),
{
    if s.clients.dom().contains(client_id) {
        let gone = RouterView { clients: s.clients.remove(client_id), ..s };
        closing_all_calls(gone, s.clients[client_id]);
        assert(gone.closing_all(s.clients[client_id]).0.owners.dom().contains(name)
            <==> gone.owners.dom().contains(name) && !has_session(s.clients[client_id], name));
    }
}

/// A session is known by its name, whichever place it has among the others, and by no other
/// name.
pub proof fn session_is_known_by_name(sessions: Seq<SessionView>, i: int, name: Seq<char>)
    ensures
        0 <= i < sessions.len() ==> has_session(sessions, sessions[i].session_id),
        (forall|j: int| 0 <= j < sessions.len() ==> (#[trigger] sessions[j]).session_id != name)
            ==> !has_session(sessions, name),
{
}

/// A client that connects under the number of an earlier one has none of its sessions:
/// nobody gets their events, and as many pages less are active. The sessions of the others
/// stay, and so do the pages that wait and the calls that are awaited.
pub proof fn client_takes_place_of_earlier_one(s: RouterView, client_id: u64, name: Seq<char>)
    requires
        s.clients.dom().contains(client_id),
    ensures
        ({
            let (after, actions) = s.on(EventView::ClientConnected { client_id });
            let had = s.clients[client_id];
            &&& actions.len() == 0
            &&& after.clients == s.clients.insert(client_id, Seq::empty())
            &&& after.pending == s.pending && after.next_id == s.next_id
            &&& after.pool.pages == s.pool.pages
            &&& s.pool.active >= had.len() ==> after.pool.active + had.len() == s.pool.active
            &&& s.pool.active < had.len() ==> after.pool.active == 0
            &&& s.owners.dom().contains(name) && !has_session(had, name)
                ==> after.owners.dom().contains(name) && after.owners[name] == s.owners[name]
            &&& has_session(had, name) ==> !after.owners.dom().contains(name)
        }),
{
    dropping_counts(s, s.clients[client_id]);
}

/// Chrome's response to a client's own command is passed on whole, under the number of the
/// client's request, where the client is connected; the call waits no more, and nothing
/// else changes.
pub proof fn response_is_passed_on(s: RouterView, chrome_id: u64, asker: Asker, payload: Json)
    requires
        s.pending.dom().contains(chrome_id),
        s.pending[chrome_id] == (OwnerView::Client { asker }),
    ensures
        ({
            let msg = ChromeMsgView::Response { id: chrome_id, payload };
            let (after, actions) = s.on(EventView::FromChrome { msg });
            &&& after == (RouterView { pending: s.pending.remove(chrome_id), ..s })
            &&& s.clients.dom().contains(asker.client_id) ==> actions == seq![
                ActionView::Reply {
                    reply: ReplyView {
                        client_id: asker.client_id,
                        msg: DaemonMsgView::CdpResponse { id: asker.id, payload },
                    },
                },
            ]
            &&& !s.clients.dom().contains(asker.client_id) ==> actions.len() == 0
        }),
{
}

/// A record on the pipe with the number of a client's call makes for exactly one message,
/// which the client is told whole, whatever other members the record has and however long
/// it is.
pub proof fn record_reaches_client(
    s: RouterView,
    chrome_id: u64,
    asker: Asker,
    text: Seq<u8>,
    others: Map<Seq<char>, Json>,
)
    requires
        s.pending.dom().contains(chrome_id),
        s.pending[chrome_id] == (OwnerView::Client { asker }),
        s.clients.dom().contains(asker.client_id),
        text.len() > 0,
        !text.contains(0u8),
        json_decoded(text) == Ok::<Json, Seq<char>>(
            Json::Object(others.insert("id"@, Json::Unsigned(chrome_id))),
        ),
    ensures
        ({
            let msgs = record_msgs(split_records(Seq::empty(), text.push(0u8)).0);
            &&& msgs.len() == 1
            &&& s.on(EventView::FromChrome { msg: msgs[0] }).1 == seq![
                ActionView::Reply {
                    reply: ReplyView {
                        client_id: asker.client_id,
                        msg: DaemonMsgView::CdpResponse {
                            id: asker.id,
                            payload: Json::Object(
                                others.insert("id"@, Json::Unsigned(chrome_id)),
                            ),
                        },
                    },
                },
            ]
        }),
{
    let value = Json::Object(others.insert("id"@, Json::Unsigned(chrome_id)));
    text_on_pipe_gives_one_message(text, value);
    value_with_number_is_a_response(others, chrome_id);
    response_is_passed_on(s, chrome_id, asker, value);
}

/// An event on the pipe makes for exactly one message, with its method, its parameters and
/// its session, which the client that has the session is told.
pub proof fn event_record_reaches_client(
    s: RouterView,
    client_id: u64,
    text: Seq<u8>,
    members: Map<Seq<char>, Json>,
    method: Seq<char>,
    params: Json,
    session_id: Seq<char>,
)
    requires
        s.owners.dom().contains(session_id),
        s.owners[session_id] == client_id,
        s.clients.dom().contains(client_id),
        text.len() > 0,
        !text.contains(0u8),
        json_decoded(text) == Ok::<Json, Seq<char>>(Json::Object(members)),
        members.dom().contains("id"@) ==> !(members["id"@] is Unsigned),
        members.dom().contains("method"@) && members["method"@] == Json::Text(method),
        members.dom().contains("params"@) && members["params"@] == params,
        members.dom().contains("sessionId"@) && members["sessionId"@] == Json::Text(session_id),
    ensures
        ({
            let msgs = record_msgs(split_records(Seq::empty(), text.push(0u8)).0);
            &&& msgs.len() == 1
            &&& s.on(EventView::FromChrome { msg: msgs[0] }) == (
                s,
                seq![
                    ActionView::Reply {
                        reply: ReplyView {
                            client_id,
                            msg: DaemonMsgView::CdpEvent {
                                method,
                                params,
                                session_id: Some(session_id),
                            },
                        },
                    },
                ],
            )
        }),
{
    text_on_pipe_gives_one_message(text, Json::Object(members));
}

/// An event of Chrome's without a session, of a session that nobody has, or of one whose
/// client is not connected, is told nobody; no event of Chrome's changes anything.
pub proof fn other_events_are_dropped(
    s: RouterView,
    method: Seq<char>,
    params: Json,
    session_id: Option<Seq<char>>,
)
    ensures
        ({
            let msg = ChromeMsgView::Event { method, params, session_id };
            let (after, actions) = s.on(EventView::FromChrome { msg });
            &&& after == s
            &&& session_id is None ==> actions.len() == 0
            &&& session_id matches Some(name) ==> (!s.owners.dom().contains(name)
                || !s.clients.dom().contains(s.owners[name]) ==> actions.len() == 0)
        }),
{
}

/// What is about a call that nobody waits for makes no difference.
pub proof fn unknown_calls_are_ignored(s: RouterView, event: EventView, chrome_id: u64)
    requires
        concerns(event, chrome_id),
        !s.pending.dom().contains(chrome_id),
    ensures
        s.on(event) == (s, Seq::<ActionView>::empty()),
{
}

/// A client's own command does not time out, and fails only where the pipe is closed; the
/// client is then told so.
pub proof fn commands_fail_with_pipe_only(
    s: RouterView,
    chrome_id: u64,
    asker: Asker,
    error: Seq<char>,
)
    requires
        s.pending.dom().contains(chrome_id),
        s.pending[chrome_id] == (OwnerView::Client { asker }),
    ensures
        s.on(EventView::CallTimedOut { chrome_id }) == (s, Seq::<ActionView>::empty()),
        s.on(EventView::CallFailed { chrome_id, error }) == (s, Seq::<ActionView>::empty()),
        s.on(EventView::PipeClosed { chrome_id }).0 == s,
        s.clients.dom().contains(asker.client_id) ==> s.on(EventView::PipeClosed { chrome_id }).1
            == seq![
            ActionView::Reply {
                reply: ReplyView {
                    client_id: asker.client_id,
                    msg: DaemonMsgView::Error { id: asker.id, message: "Chrome pipe closed"@ },
                },
            },
        ],
        !s.clients.dom().contains(asker.client_id) ==> s.on(
            EventView::PipeClosed { chrome_id },
        ).1.len() == 0,
{
}

/// For a call of the daemon's own it is all one in which way it fails, but for the reason:
/// a closed pipe, no answer in time, and an answer with an error are failures with these
/// reasons. An answer without a result is one whose result is null.
pub proof fn own_calls_fail_alike(
    s: RouterView,
    chrome_id: u64,
    job: JobView,
    others: Map<Seq<char>, Json>,
    error: Json,
    empty: Json,
)
    requires
        s.pending.dom().contains(chrome_id),
        s.pending[chrome_id] == (OwnerView::Internal { job }),
        empty matches Json::Object(m) ==> !m.dom().contains("error"@) && !m.dom().contains(
            "result"@,
        ),
    ensures
        s.on(EventView::PipeClosed { chrome_id }) == s.on(
            EventView::CallFailed { chrome_id, error: "chrome pipe channel closed"@ },
        ),
        s.on(EventView::CallTimedOut { chrome_id }) == s.on(
            EventView::CallFailed {
                chrome_id,
                error: "CDP call '"@ + job.call().method + "' timed out (30s)"@,
            },
        ),
        s.on(
            EventView::FromChrome {
                msg: ChromeMsgView::Response {
                    id: chrome_id,
                    payload: Json::Object(others.insert("error"@, error)),
                },
            },
        ) == s.on(
            EventView::CallFailed { chrome_id, error: "CDP error: "@ + json_display(error) },
        ),
        s.on(
            EventView::FromChrome {
                msg: ChromeMsgView::Response { id: chrome_id, payload: empty },
            },
        ) == s.on(
            EventView::FromChrome {
                msg: ChromeMsgView::Response {
                    id: chrome_id,
                    payload: Json::Object(map!["result"@ => Json::Null]),
                },
            },
        ),
{
    response_gives_its_error(others, error, empty);
    reveal_strlit("error");
    reveal_strlit("result");
    assert("error"@.len() != "result"@.len());
    response_gives_its_result(Map::empty(), Json::Null);
}

/// The event gives the result of a call: a failure with its reason, or a response with a
/// result and no error, whatever other members it has.
pub open spec fn gives_result(
    event: EventView,
    chrome_id: u64,
    others: Map<Seq<char>, Json>,
    result: CallResult,
) -> bool {
    match result {
        Err(why) => event == (EventView::CallFailed { chrome_id, error: why }),
        Ok(value) => !others.dom().contains("error"@) && event == (EventView::FromChrome {
            msg: ChromeMsgView::Response {
                id: chrome_id,
                payload: Json::Object(others.insert("result"@, value)),
            },
        }),
    }
}

/// What the result of a call of the daemon's own brings about is done, all of it and
/// nothing else: the call waits no more, a page for the pool waits behind the others, the
/// count of active pages follows, a session is kept for a client that is connected, whoever
/// is to be told is told, and the next call is made.
pub proof fn result_is_acted_on(
    s: RouterView,
    event: EventView,
    chrome_id: u64,
    job: JobView,
    others: Map<Seq<char>, Json>,
    result: CallResult,
)
    requires
        s.next_id < u64::MAX,
        s.pending.dom().contains(chrome_id),
        s.pending[chrome_id] == (OwnerView::Internal { job }),
        gives_result(event, chrome_id, others, result),
    ensures
        ({
            let p = job_progress(job, result);
            let (after, actions) = s.on(event);
            let told: Seq<ActionView> = match p.reply {
                Some(reply) => seq![ActionView::Reply { reply }],
                None => Seq::empty(),
            };
            let counted: int = if p.taken {
                s.pool.active as int + 1
            } else if p.given_back && s.pool.active > 0 {
                s.pool.active - 1
            } else {
                s.pool.active as int
            };
            &&& after.pool.pages == s.pool.pages + match p.stored {
                Some(page) => seq![page],
                None => Seq::empty(),
            }
            &&& p.next is None ==> actions == told && after.next_id == s.next_id && after.pending
                == s.pending.remove(chrome_id)
            &&& p.next matches Some(next) ==> actions == told + seq![call_action(s.next_id, next)]
                && after.next_id == s.next_id + 1 && after.pending == s.pending.remove(
                chrome_id,
            ).insert(s.next_id, OwnerView::Internal { job: next })
            &&& p.attached is None ==> after.clients == s.clients && after.owners == s.owners
                && after.pool.active == counted
            &&& p.attached matches Some(a) ==> {
                let session = SessionView {
                    session_id: a.session_id,
                    target_id: a.page.target_id,
                    context_id: a.page.browser_context_id,
                };
                let had = s.clients[a.client_id];
                &&& !s.clients.dom().contains(a.client_id) ==> after.clients == s.clients
                    && after.owners == s.owners && after.pool.active == (if counted > 0 {
                    counted - 1
                } else {
                    0
                })
                &&& s.clients.dom().contains(a.client_id) ==> {
                    &&& after.owners == s.owners.insert(a.session_id, a.client_id)
                    &&& !has_session(had, a.session_id) ==> after.clients == s.clients.insert(
                        a.client_id,
                        had.push(session),
                    ) && after.pool.active == counted
                    &&& has_session(had, a.session_id) ==> {
                        &&& after.clients.dom() == s.clients.dom()
                        &&& after.clients.remove(a.client_id) == s.clients.remove(a.client_id)
                        &&& after.clients[a.client_id].len() == had.len()
                        &&& forall|i: int|
                            0 <= i < had.len() ==> #[trigger] after.clients[a.client_id][i] == (
                            if had[i].session_id == a.session_id {
                                session
                            } else {
                                had[i]
                            })
                        &&& after.pool.active == (if counted > 0 {
                            counted - 1
                        } else {
                            0
                        })
                    }
                }
            }
        }),
{
    if let Ok(value) = result {
        response_gives_its_result(others, value);
    }
}

/// Each kind of event has its own way of being handled, with all that it holds.
pub proof fn event_is_handled_in_its_way(
    s: RouterView,
    number: u64,
    request: ClientMsgView,
    uptime_secs: u64,
    msg: ChromeMsgView,
    error: Seq<char>,
)
    ensures
        s.on(EventView::FromClient { client_id: number, msg: request, uptime_secs })
            == s.from_client(number, request, uptime_secs),
        s.on(EventView::FromChrome { msg }) == s.from_chrome(msg),
        s.on(EventView::ClientConnected { client_id: number }).0 == s.connecting(number),
        s.on(EventView::ClientDisconnected { client_id: number }) == s.disconnecting(number),
        s.on(EventView::PipeClosed { chrome_id: number }) == s.pipe_closed(number),
        s.on(EventView::CallFailed { chrome_id: number, error }) == s.failing(number, error),
        s.on(EventView::CallTimedOut { chrome_id: number }) == s.timing_out(number),
{
}

/// Only a request for a page, where one waits, and an answer that a client's page can come
/// of, make one page more active; there is always room for any other event, and for every
/// event as long as one more page can be counted.
pub proof fn room_is_needed_for_pages_only(s: RouterView, event: EventView)
    ensures
        s.on(event).0.pool.active <= s.pool.active + 1,
        !s.can_take(event) ==> s.on(event).0.pool.active <= s.pool.active && s.has_room(event),
        s.pool.active < usize::MAX ==> s.has_room(event),
        s.can_take(event) && s.pool.active >= usize::MAX ==> !s.has_room(event),
        s.can_take(event) ==> match event {
            EventView::FromClient { msg, .. } => msg is Acquire && s.pool.pages.len() > 0,
            EventView::FromChrome { msg: ChromeMsgView::Response { id, .. } } => {
                &&& s.pending.dom().contains(id)
                &&& s.pending[id] matches OwnerView::Internal { job }
                &&& job matches JobView::CreatePage { goal, .. }
                &&& goal is Acquire
            },
            _ => false,
        },
{
    match event {
        EventView::ClientConnected { client_id } => {
            if s.clients.dom().contains(client_id) {
                dropping_counts(s, s.clients[client_id]);
            }
        },
        EventView::ClientDisconnected { client_id } => {
            if s.clients.dom().contains(client_id) {
                let gone = RouterView { clients: s.clients.remove(client_id), ..s };
                closing_all_calls(gone, s.clients[client_id]);
            }
        },
        _ => {},
    }
}

/// A client that is connected is owed an answer from when it asks for a page, gives one
/// back or asks for warm pages; at the start nobody is owed any.
pub proof fn asking_makes_owed(
    s: RouterView,
    client_id: u64,
    msg: ClientMsgView,
    uptime_secs: u64,
    chrome_pid: u32,
    warmup_count: usize,
    warmup_url: Seq<char>,
)
    requires
        s.next_id < u64::MAX,
        s.clients.dom().contains(client_id),
        msg is Acquire || msg is Release || (msg matches ClientMsgView::Warmup { count, .. }
            && count > 0),
    ensures
        s.on(EventView::FromClient { client_id, msg, uptime_secs }).0.owes(client_id),
        !RouterView::start(chrome_pid, warmup_count, warmup_url).owes(client_id),
{
    let after = s.on(EventView::FromClient { client_id, msg, uptime_secs }).0;
    assert(after.pending.dom().contains(s.next_id));
    assert(after.pending[s.next_id].owes(client_id));
}

/// The answer that ends the only job for a client leaves nothing owed to it, and that of a
/// job that goes on leaves it owed.
pub proof fn answer_ends_what_is_owed(
    s: RouterView,
    chrome_id: u64,
    job: JobView,
    error: Seq<char>,
    client_id: u64,
)
    requires
        s.next_id < u64::MAX,
        s.next_id != chrome_id,
        s.pending.dom().contains(chrome_id),
        s.pending[chrome_id] == (OwnerView::Internal { job }),
        job.asker() matches Some(a) && a.client_id == client_id,
        forall|k: u64| #[trigger]
            s.pending.dom().contains(k) && k != chrome_id ==> (
            s.pending[k] matches OwnerView::Internal { job } ==> (job.asker() matches Some(a)
                ==> a.client_id != client_id)),
    ensures
        s.owes(client_id),
        s.on(EventView::CallFailed { chrome_id, error }).0.owes(client_id) <==> job_progress(
            job,
            Err(error),
        ).next is Some,
{
    let after = s.on(EventView::CallFailed { chrome_id, error }).0;
    let p = job_progress(job, Err(error));
    assert(s.pending[chrome_id].owes(client_id));
    request_is_answered_once(job, Err(error));
    if let Some(next) = p.next {
        assert(after.pending.dom().contains(s.next_id));
        assert(after.pending[s.next_id].owes(client_id));
    }
}

/// The commands among actions that fit are not empty and hold no zero byte, so that each is
/// one record of the pipe.
pub proof fn fitting_commands_are_records(actions: Seq<Action>, i: int)
    requires
        commands_fit_records(actions),
        0 <= i < actions.len(),
    ensures
        actions[i]@ matches ActionView::ToChrome { bytes, .. } ==> bytes.len() > 0
            && split_records(Seq::empty(), bytes.push(0u8)) == (seq![bytes], Seq::<u8>::empty()),
{
    if let Action::ToChrome { bytes, .. } = actions[i] {
        zero_byte_ends_record(Seq::empty(), bytes@);
        assert(Seq::<u8>::empty() + bytes@ =~= bytes@);
    }
}

/// Sessions and those who wait are seen with all that they hold.
pub proof fn session_is_seen_whole(
    session_id: String,
    target_id: String,
    context_id: String,
    sessions: Seq<Session>,
    asker: Asker,
    job: Job,
)
    ensures
        (Session { session_id, target_id, context_id })@ == (SessionView {
            session_id: session_id@,
            target_id: target_id@,
            context_id: context_id@,
        }),
        session_views(sessions).len() == sessions.len(),
        forall|i: int|
            0 <= i < sessions.len() ==> (#[trigger] session_views(sessions)[i]) == sessions[i]@,
        (Owner::Client { asker })@ == (OwnerView::Client { asker }),
        (Owner::Internal { job })@ == (OwnerView::Internal { job: job@ }),
{
}

/// Events are seen with all that they hold.
pub proof fn event_is_seen_whole(
    number: u64,
    request: ClientMsg,
    uptime_secs: u64,
    msg: ChromeMsg,
    count: usize,
    url: String,
    error: CdpError,
)
    ensures
        (RouterEvent::ClientConnected { client_id: number })@ == (EventView::ClientConnected {
            client_id: number,
        }),
        (RouterEvent::ClientDisconnected { client_id: number })@
            == (EventView::ClientDisconnected { client_id: number }),
        (RouterEvent::FromClient { client_id: number, msg: request, uptime_secs })@
            == (EventView::FromClient { client_id: number, msg: request@, uptime_secs }),
        (RouterEvent::FromChrome { msg })@ == (EventView::FromChrome { msg: msg@ }),
        (RouterEvent::Warm { count, url })@ == (EventView::Warm { count, url: url@ }),
        (RouterEvent::PipeClosed { chrome_id: number })@ == (EventView::PipeClosed {
            chrome_id: number,
        }),
        (RouterEvent::CallFailed { chrome_id: number, error })@ == (EventView::CallFailed {
            chrome_id: number,
            error: error.text(),
        }),
        (RouterEvent::CallTimedOut { chrome_id: number })@ == (EventView::CallTimedOut {
            chrome_id: number,
        }),
{
}

/// Actions are seen with all that they hold, and in their order.
pub proof fn action_is_seen_whole(
    reply: Reply,
    chrome_id: u64,
    bytes: Vec<u8>,
    timed: bool,
    error: CdpError,
    actions: Seq<Action>,
)
    ensures
        (Action::Reply { reply })@ == (ActionView::Reply { reply: reply@ }),
        (Action::ToChrome { chrome_id, bytes, timed })@ == (ActionView::ToChrome {
            chrome_id,
            bytes: bytes@,
            timed,
        }),
        (Action::Fail { chrome_id, error })@ == (ActionView::Fail {
            chrome_id,
            error: error.text(),
        }),
        action_views(actions).len() == actions.len(),
        forall|i: int|
            0 <= i < actions.len() ==> (#[trigger] action_views(actions)[i]) == actions[i]@,
{
}

} // verus!
