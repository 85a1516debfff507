//! What holds of the pages that the router keeps and hands out, whatever happens.
use crate::browser::ChromeMsgView;
use crate::daemon::{
    call_action, context_of, dropping_counts, has_session, page_counts, with_session, with_target,
    without_page, without_target, ActionView, EventView, OwnerView, RouterView, SessionView,
};
use crate::jobs::{job_progress, warmup_rest, Asker, Goal, JobView, ProgressView};
use crate::json::Json;
use crate::pool::{
    attached_session, page_step, response_result, CallResult, CloseStage, PageStageView,
};
use crate::protocol::ClientMsgView;
use crate::routing::{
    asking_for_page, calls_stay_in_order, closing, closing_all_calls, has_numbers, in_order,
    numbers_last, outcome_for, owner_is_kept, page_job, passes_by, run,
};
use crate::sessions::{response, run_stays_in_order};
use crate::sums::{total, total_of_sums, total_with, total_without};
use vstd::prelude::*;

verus! {

/// How many sessions each client has.
pub open spec fn session_counts(clients: Map<u64, Seq<SessionView>>) -> Map<u64, nat> {
    clients.map_values(|v: Seq<SessionView>| v.len())
}

/// How many pages each call attaches to: one or none.
pub open spec fn attach_counts(pending: Map<u64, OwnerView>) -> Map<u64, nat> {
    pending.map_values(
        |o: OwnerView|
            if attaches(o) {
                1nat
            } else {
                0nat
            },
    )
}

/// The answer is awaited to attach to a page for a client.
pub open spec fn attaches(owner: OwnerView) -> bool {
    owner matches OwnerView::Internal { job } && job is Attach
}

/// The number of pages in use: those that clients hold in a session, and those that
/// are being attached to for a client.
pub open spec fn pages_in_use(s: RouterView) -> nat {
    total(session_counts(s.clients)) + total(attach_counts(s.pending))
}

/// There are finitely many clients and calls, and the count of active pages is the
/// number of pages in use.
pub open spec fn counts_pages(s: RouterView) -> bool {
    &&& s.clients.dom().finite()
    &&& s.pending.dom().finite()
    &&& s.pool.active == pages_in_use(s)
}

proof fn clients_with(m: Map<u64, Seq<SessionView>>, k: u64, v: Seq<SessionView>)
    requires
        m.dom().finite(),
    ensures
        total(session_counts(m.insert(k, v))) + (if m.dom().contains(k) {
            m[k].len()
        } else {
            0
        }) == total(session_counts(m)) + v.len(),
{
    assert(session_counts(m).dom() =~= m.dom());
    assert(session_counts(m.insert(k, v)) =~= session_counts(m).insert(k, v.len()));
    total_with(session_counts(m), k, v.len());
}

proof fn clients_without(m: Map<u64, Seq<SessionView>>, k: u64)
    requires
        m.dom().finite(),
        m.dom().contains(k),
    ensures
        total(session_counts(m)) == m[k].len() + total(session_counts(m.remove(k))),
{
    assert(session_counts(m).dom() =~= m.dom());
    assert(session_counts(m.remove(k)) =~= session_counts(m).remove(k));
    total_without(session_counts(m), k);
}

proof fn pending_with(m: Map<u64, OwnerView>, k: u64, o: OwnerView)
    requires
        m.dom().finite(),
        !m.dom().contains(k),
    ensures
        total(attach_counts(m.insert(k, o))) == total(attach_counts(m)) + (if attaches(o) {
            1nat
        } else {
            0nat
        }),
{
    let n: nat = if attaches(o) {
        1
    } else {
        0
    };
    assert(attach_counts(m).dom() =~= m.dom());
    assert(attach_counts(m.insert(k, o)) =~= attach_counts(m).insert(k, n));
    total_with(attach_counts(m), k, n);
}

proof fn pending_without(m: Map<u64, OwnerView>, k: u64)
    requires
        m.dom().finite(),
        m.dom().contains(k),
    ensures
        total(attach_counts(m)) == total(attach_counts(m.remove(k))) + (if attaches(m[k]) {
            1nat
        } else {
            0nat
        }),
{
    assert(attach_counts(m).dom() =~= m.dom());
    assert(attach_counts(m.remove(k)) =~= attach_counts(m).remove(k));
    total_without(attach_counts(m), k);
}

/// Making the call of a job: the page that it attaches to, if any, is one more.
proof fn calling_counts(s: RouterView, job: JobView)
    requires
        in_order(s),
        s.next_id < u64::MAX,
        s.clients.dom().finite(),
        s.pending.dom().finite(),
    ensures
        ({
            let after = s.calling(job).0;
            &&& after.clients == s.clients
            &&& after.pending.dom().finite()
            &&& after.pool == s.pool
            &&& pages_in_use(after) == pages_in_use(s) + (if job is Attach {
                1nat
            } else {
                0nat
            })
        }),
{
    pending_with(s.pending, s.next_id, OwnerView::Internal { job });
}

proof fn with_session_counts(sessions: Seq<SessionView>, session: SessionView)
    ensures
        with_session(sessions, session).len() == sessions.len() + (if has_session(
            sessions,
            session.session_id,
        ) {
            0nat
        } else {
            1nat
        }),
{
}

/// Whatever the answer to a call of a job is, the count stays right.
proof fn answer_counts(s: RouterView, chrome_id: u64, job: JobView, result: CallResult)
    requires
        counts_pages(s),
        in_order(s),
        s.next_id < u64::MAX,
        s.pending.dom().contains(chrome_id),
        s.pending[chrome_id] == (OwnerView::Internal { job }),
    ensures
        counts_pages(s.answered(chrome_id).progressing(job_progress(job, result)).0),
{
    let p = job_progress(job, result);
    let answered = s.answered(chrome_id);
    let kept = answered.kept(p);
    pending_without(s.pending, chrome_id);
    if let Some(a) = p.attached {
        if s.clients.dom().contains(a.client_id) {
            let session = SessionView {
                session_id: a.session_id,
                target_id: a.page.target_id,
                context_id: a.page.browser_context_id,
            };
            with_session_counts(s.clients[a.client_id], session);
            clients_with(
                s.clients,
                a.client_id,
                with_session(s.clients[a.client_id], session),
            );
        }
    }
    if let Some(next) = p.next {
        assert(in_order(kept));
        calling_counts(kept, next);
    }
}

proof fn split_by_target(sessions: Seq<SessionView>, target_id: Seq<char>)
    ensures
        with_target(sessions, target_id).len() + without_target(sessions, target_id).len()
            == sessions.len(),
    decreases sessions.len(),
{
    reveal(Seq::filter);
    if sessions.len() > 0 {
        split_by_target(sessions.drop_last(), target_id);
    }
}

/// The sessions of all clients are those with a page and those without it.
proof fn forgetting_counts(clients: Map<u64, Seq<SessionView>>, target_id: Seq<char>)
    requires
        clients.dom().finite(),
    ensures
        without_page(clients, target_id).dom().finite(),
        total(session_counts(without_page(clients, target_id))) + total(
            page_counts(clients, target_id),
        ) == total(session_counts(clients)),
{
    let kept = session_counts(without_page(clients, target_id));
    let gone = page_counts(clients, target_id);
    let all = session_counts(clients);
    assert(all.dom() =~= clients.dom());
    assert(without_page(clients, target_id).dom() =~= clients.dom());
    assert(kept.dom() =~= all.dom());
    assert(gone.dom() =~= all.dom());
    assert forall|k: u64| #[trigger] all.dom().contains(k) implies kept[k] + gone[k] == all[k] by {
        split_by_target(clients[k], target_id);
    }
    total_of_sums(kept, gone, all);
}

proof fn closing_all_keeps_attaching(s: RouterView, sessions: Seq<SessionView>)
    requires
        in_order(s),
        s.next_id + sessions.len() <= u64::MAX,
        s.pending.dom().finite(),
    ensures
        ({
            let after = s.closing_all(sessions).0;
            &&& in_order(after)
            &&& after.next_id == s.next_id + sessions.len()
            &&& after.pending.dom().finite()
            &&& total(attach_counts(after.pending)) == total(attach_counts(s.pending))
        }),
    decreases sessions.len(),
{
    if sessions.len() > 0 {
        closing_all_keeps_attaching(s, sessions.drop_last());
        let mid = s.closing_all(sessions.drop_last()).0;
        let job = closing(sessions.last());
        pending_with(mid.pending, mid.next_id, OwnerView::Internal { job });
    }
}

/// No event makes the count of active pages wrong.
pub proof fn event_counts_pages(s: RouterView, event: EventView)
    requires
        counts_pages(s),
        in_order(s),
        has_numbers(s, event),
    ensures
        counts_pages(s.on(event).0),
{
    match event {
        EventView::ClientConnected { client_id } => {
            clients_with(s.clients, client_id, Seq::empty());
            if s.clients.dom().contains(client_id) {
                dropping_counts(s, s.clients[client_id]);
            }
        },
        EventView::ClientDisconnected { client_id } => {
            if s.clients.dom().contains(client_id) {
                let sessions = s.clients[client_id];
                let gone = RouterView { clients: s.clients.remove(client_id), ..s };
                clients_without(s.clients, client_id);
                closing_all_calls(gone, sessions);
                closing_all_keeps_attaching(gone, sessions);
            }
        },
        EventView::FromClient { client_id, msg, .. } => {
            match msg {
                ClientMsgView::Cdp { id, .. } => {
                    let asker = Asker { client_id, id };
                    pending_with(s.pending, s.next_id, OwnerView::Client { asker });
                },
                ClientMsgView::Acquire { id } => {
                    let asker = Asker { client_id, id };
                    let taken = RouterView { pool: s.pool.acquire().0, ..s };
                    calling_counts(taken, page_job(s, asker));
                    let mid = asking_for_page(s, asker).0;
                    let p = warmup_rest(mid.warmup_url, None, mid.warmup_count, 0);
                    if let Some(next) = p.next {
                        calling_counts(mid.kept(p), next);
                    }
                },
                ClientMsgView::Release { id, target_id } => {
                    if s.clients.dom().contains(client_id) {
                        let free = s.forgetting_page(target_id);
                        forgetting_counts(s.clients, target_id);
                        let job = JobView::Close {
                            target_id,
                            context_id: context_of(s.clients[client_id], target_id),
                            stage: CloseStage::Target,
                            asker: Some(Asker { client_id, id }),
                        };
                        calling_counts(free, job);
                    }
                },
                ClientMsgView::Warmup { id, count, url } => {
                    let p = warmup_rest(url, s.heard(Asker { client_id, id }), count, 0);
                    if let Some(next) = p.next {
                        calling_counts(s.kept(p), next);
                    }
                },
                ClientMsgView::Status { .. } => {},
            }
        },
        EventView::Warm { count, url } => {
            let p = warmup_rest(url, None, count, 0);
            if let Some(next) = p.next {
                calling_counts(s.kept(p), next);
            }
        },
        EventView::FromChrome { msg: ChromeMsgView::Response { id, .. } } => {
            if s.pending.dom().contains(id) {
                match s.pending[id] {
                    OwnerView::Internal { job } => {
                        answer_counts(s, id, job, outcome_for(event, job));
                    },
                    OwnerView::Client { .. } => {
                        pending_without(s.pending, id);
                    },
                }
            }
        },
        EventView::FromChrome { .. } => {},
        EventView::PipeClosed { chrome_id } => {
            if s.pending.dom().contains(chrome_id) {
                if let OwnerView::Internal { job } = s.pending[chrome_id] {
                    answer_counts(s, chrome_id, job, outcome_for(event, job));
                }
            }
        },
        EventView::CallFailed { chrome_id, .. } => {
            if s.pending.dom().contains(chrome_id) {
                if let OwnerView::Internal { job } = s.pending[chrome_id] {
                    answer_counts(s, chrome_id, job, outcome_for(event, job));
                }
            }
        },
        EventView::CallTimedOut { chrome_id } => {
            if s.pending.dom().contains(chrome_id) {
                if let OwnerView::Internal { job } = s.pending[chrome_id] {
                    answer_counts(s, chrome_id, job, outcome_for(event, job));
                }
            }
        },
    }
}

proof fn run_counts_pages(s: RouterView, events: Seq<EventView>)
    requires
        counts_pages(s),
        in_order(s),
        numbers_last(s, events),
    ensures
        counts_pages(run(s, events)),
    decreases events.len(),
{
    if events.len() > 0 {
        event_counts_pages(s, events[0]);
        calls_stay_in_order(s, events[0]);
        run_counts_pages(s.on(events[0]).0, events.drop_first());
    }
}

/// Whatever happens from the start on, as long as numbers last, the count of active
/// pages is the number of pages in use: those that clients hold, wherever they came
/// from, and those that are being attached to.
pub proof fn active_is_pages_in_use(
    chrome_pid: u32,
    warmup_count: usize,
    warmup_url: Seq<char>,
    events: Seq<EventView>,
)
    requires
        numbers_last(RouterView::start(chrome_pid, warmup_count, warmup_url), events),
    ensures
        ({
            let s = run(RouterView::start(chrome_pid, warmup_count, warmup_url), events);
            s.pool.active == pages_in_use(s)
        }),
{
    let s = RouterView::start(chrome_pid, warmup_count, warmup_url);
    assert(session_counts(s.clients).dom() =~= Set::empty());
    assert(attach_counts(s.pending).dom() =~= Set::empty());
    run_counts_pages(s, events);
}

/// A page that is asked for is the warm page that waited longest, where there is one:
/// all it takes is to attach to it. Otherwise a page is created, in a context of its
/// own.
pub proof fn acquire_prefers_warm_pages(s: RouterView, client_id: u64, id: u64, uptime_secs: u64)
    requires
        s.next_id < u64::MAX,
    ensures
        ({
            let asker = s.heard(Asker { client_id, id });
            let msg = ClientMsgView::Acquire { id };
            let (after, actions) = s.on(EventView::FromClient { client_id, msg, uptime_secs });
            let job = if s.pool.pages.len() > 0 {
                JobView::Attach { page: s.pool.pages[0], asker }
            } else {
                JobView::CreatePage {
                    url: "about:blank"@,
                    stage: PageStageView::Context,
                    goal: Goal::Acquire { asker },
                }
            };
            &&& actions.len() > 0
            &&& actions[0] == call_action(s.next_id, job)
            &&& after.pending.dom().contains(s.next_id)
            &&& after.pending[s.next_id] == OwnerView::Internal { job }
            &&& after.pool == s.pool.acquire().0
        }),
{
}

/// The event is that a client asks for a page.
pub open spec fn asks_for_page(event: EventView) -> bool {
    event matches EventView::FromClient { msg, .. } && msg is Acquire
}

/// Nobody asks for a page.
pub open spec fn nobody_asks(events: Seq<EventView>) -> bool {
    forall|i: int| 0 <= i < events.len() ==> !asks_for_page(#[trigger] events[i])
}

/// Pages leave the pool only when clients ask for them.
pub proof fn pages_wait_until_asked_for(s: RouterView, event: EventView)
    requires
        !asks_for_page(event),
    ensures
        s.on(event).0.pool.pages.len() >= s.pool.pages.len(),
{
    match event {
        EventView::ClientConnected { client_id } => {
            if s.clients.dom().contains(client_id) {
                dropping_counts(s, s.clients[client_id]);
            }
        },
        EventView::ClientDisconnected { client_id } => {
            if s.clients.dom().contains(client_id) {
                let gone = RouterView { clients: s.clients.remove(client_id), ..s };
                closing_all_calls(gone, s.clients[client_id]);
            }
        },
        _ => {},
    }
}

proof fn pages_wait_through(s: RouterView, events: Seq<EventView>)
    requires
        nobody_asks(events),
    ensures
        run(s, events).pool.pages.len() >= s.pool.pages.len(),
    decreases events.len(),
{
    if events.len() > 0 {
        let rest = events.drop_first();
        assert forall|i: int| 0 <= i < rest.len() implies !asks_for_page(#[trigger] rest[i]) by {
            assert(rest[i] == events[i + 1]);
        }
        pages_wait_until_asked_for(s, events[0]);
        pages_wait_through(s.on(events[0]).0, rest);
    }
}

/// The answer to a call for a page is good: it has what was asked for.
pub open spec fn good_answer(owner: OwnerView, payload: Json) -> bool {
    owner matches OwnerView::Internal { job } && job matches JobView::CreatePage { stage, .. }
        && !(page_step(stage, response_result(payload)) is Failed)
}

/// A job makes one call after another, the first of which is `chrome_id`. Before each
/// answer other things happen; the answers are good, and nobody asks for a page.
pub open spec fn goes_well(
    s: RouterView,
    chrome_id: u64,
    steps: Seq<(Seq<EventView>, Json)>,
) -> bool
    decreases steps.len(),
{
    steps.len() > 0 ==> {
        let (between, payload) = steps[0];
        let waiting = run(s, between);
        &&& passes_by(s, between, chrome_id)
        &&& nobody_asks(between)
        &&& waiting.next_id < u64::MAX
        &&& good_answer(waiting.pending[chrome_id], payload)
        &&& goes_well(
            waiting.on(response(chrome_id, payload)).0,
            waiting.next_id,
            steps.drop_first(),
        )
    }
}

/// The router after all these steps.
pub open spec fn after_steps(
    s: RouterView,
    chrome_id: u64,
    steps: Seq<(Seq<EventView>, Json)>,
) -> RouterView
    decreases steps.len(),
{
    if steps.len() == 0 {
        s
    } else {
        let waiting = run(s, steps[0].0);
        after_steps(
            waiting.on(response(chrome_id, steps[0].1)).0,
            waiting.next_id,
            steps.drop_first(),
        )
    }
}

/// Warming up adds the pages that are left to be created to the pool, with or without
/// somebody who asked, and whatever else happens meanwhile.
pub proof fn warm_up_fills_pool(
    s: RouterView,
    chrome_id: u64,
    url: Seq<char>,
    stage: PageStageView,
    goal: Goal,
    steps: Seq<(Seq<EventView>, Json)>,
)
    requires
        in_order(s),
        s.pending.dom().contains(chrome_id),
        goal is Warmup,
        s.pending[chrome_id] == (OwnerView::Internal {
            job: JobView::CreatePage { url, stage, goal },
        }),
        steps.len() == (JobView::CreatePage { url, stage, goal }).calls(),
        goes_well(s, chrome_id, steps),
    ensures
        after_steps(s, chrome_id, steps).pool.pages.len() >= s.pool.pages.len() + goal->left + 1,
    decreases steps.len(),
{
    let job = JobView::CreatePage { url, stage, goal };
    let (between, payload) = steps[0];
    let waiting = run(s, between);
    let answer = response(chrome_id, payload);
    let next = waiting.on(answer).0;
    let rest = steps.drop_first();
    owner_is_kept(s, between, chrome_id);
    run_stays_in_order(s, between, chrome_id);
    calls_stay_in_order(waiting, answer);
    pages_wait_through(s, between);
    let p = job_progress(job, response_result(payload));
    assert(next == waiting.answered(chrome_id).progressing(p).0);
    match p.next {
        Some(JobView::CreatePage { stage: later, goal: aim, .. }) => {
            assert(next.pending.dom().contains(waiting.next_id));
            warm_up_fills_pool(next, waiting.next_id, url, later, aim, rest);
        },
        _ => {
            reveal_with_fuel(after_steps, 2);
            assert(rest.len() == 0);
        },
    }
}

/// The warm-up at the start, which nobody asked for, puts as many pages into the pool as
/// it is to.
pub proof fn warm_event_fills_pool(
    s: RouterView,
    count: usize,
    url: Seq<char>,
    steps: Seq<(Seq<EventView>, Json)>,
)
    requires
        in_order(s),
        s.next_id < u64::MAX,
        count > 0,
        steps.len() == 2 * count,
        goes_well(s.on(EventView::Warm { count, url }).0, s.next_id, steps),
    ensures
        after_steps(
            s.on(EventView::Warm { count, url }).0,
            s.next_id,
            steps,
        ).pool.pages.len() >= s.pool.pages.len() + count,
{
    let event = EventView::Warm { count, url };
    let goal = Goal::Warmup { asker: None, left: (count - 1) as usize, created: 0 };
    calls_stay_in_order(s, event);
    warm_up_fills_pool(s.on(event).0, s.next_id, url, PageStageView::Context, goal, steps);
}

/// The job that fills the pool again.
pub open spec fn refill_job(s: RouterView) -> JobView {
    JobView::CreatePage {
        url: s.warmup_url,
        stage: PageStageView::Context,
        goal: Goal::Warmup { asker: None, left: (s.warmup_count - 1) as usize, created: 0 },
    }
}

/// Asking for a page never leaves the pool empty with nothing under way to fill it,
/// unless it is to be filled with no pages. This is so also where the pool was empty
/// before, because warming up had failed.
pub proof fn emptied_pool_is_refilled(s: RouterView, client_id: u64, id: u64, uptime_secs: u64)
    requires
        s.next_id < u64::MAX,
        s.warmup_count > 0,
    ensures
        ({
            let msg = ClientMsgView::Acquire { id };
            let after = s.on(EventView::FromClient { client_id, msg, uptime_secs }).0;
            after.pool.pages.len() > 0 || after.warming()
        }),
{
    let msg = ClientMsgView::Acquire { id };
    let after = s.on(EventView::FromClient { client_id, msg, uptime_secs }).0;
    let mid = asking_for_page(s, Asker { client_id, id }).0;
    if mid.pool.pages.len() == 0 && !mid.warming() {
        assert(after.pending.dom().contains(mid.next_id) && after.pending[mid.next_id].warms());
    }
}

/// When a page is asked for and none waits any more, and no pages are being warmed up,
/// the pool is filled again without anybody having asked: good answers put as many pages
/// into it as it is to be filled with, whatever else happens meanwhile.
pub proof fn pool_refills(
    s: RouterView,
    client_id: u64,
    id: u64,
    uptime_secs: u64,
    steps: Seq<(Seq<EventView>, Json)>,
)
    requires
        in_order(s),
        s.next_id + 2 <= u64::MAX,
        s.pool.pages.len() <= 1,
        !s.warming(),
        s.warmup_count > 0,
        steps.len() == 2 * s.warmup_count,
        ({
            let msg = ClientMsgView::Acquire { id };
            let after = s.on(EventView::FromClient { client_id, msg, uptime_secs }).0;
            goes_well(after, (s.next_id + 1) as u64, steps)
        }),
    ensures
        ({
            let msg = ClientMsgView::Acquire { id };
            let (after, actions) = s.on(EventView::FromClient { client_id, msg, uptime_secs });
            let refill = (s.next_id + 1) as u64;
            &&& actions == seq![
                call_action(s.next_id, page_job(s, Asker { client_id, id })),
                call_action(refill, refill_job(s)),
            ]
            &&& after_steps(after, refill, steps).pool.pages.len() >= s.warmup_count
        }),
{
    let msg = ClientMsgView::Acquire { id };
    let event = EventView::FromClient { client_id, msg, uptime_secs };
    let (after, actions) = s.on(event);
    let first = page_job(s, Asker { client_id, id });
    let mid = asking_for_page(s, Asker { client_id, id }).0;
    if mid.warming() {
        let k = choose|k: u64| #[trigger]
            mid.pending.dom().contains(k) && mid.pending[k].warms();
        assert(s.pending.dom().contains(k) && s.pending[k].warms());
    }
    let p = warmup_rest(mid.warmup_url, None, mid.warmup_count, 0);
    assert(p == ProgressView::goes_on(refill_job(s)));
    assert(mid.refilling() == mid.progressing(p));
    assert(mid.progressing(p).1 =~= seq![call_action(mid.next_id, refill_job(s))]);
    assert(actions =~= seq![
        call_action(s.next_id, first),
        call_action(mid.next_id, refill_job(s)),
    ]);
    calls_stay_in_order(s, event);
    warm_up_fills_pool(
        after,
        mid.next_id,
        s.warmup_url,
        PageStageView::Context,
        Goal::Warmup { asker: None, left: (s.warmup_count - 1) as usize, created: 0 },
        steps,
    );
}

/// Nothing happens before the answers.
pub open spec fn quiet(steps: Seq<(Seq<EventView>, Json)>) -> bool {
    forall|i: int| 0 <= i < steps.len() ==> (#[trigger] steps[i]).0.len() == 0
}

proof fn quiet_warm_up(
    s: RouterView,
    chrome_id: u64,
    url: Seq<char>,
    stage: PageStageView,
    goal: Goal,
    steps: Seq<(Seq<EventView>, Json)>,
)
    requires
        in_order(s),
        s.pending.dom().contains(chrome_id),
        goal is Warmup,
        s.pending[chrome_id] == (OwnerView::Internal {
            job: JobView::CreatePage { url, stage, goal },
        }),
        steps.len() == (JobView::CreatePage { url, stage, goal }).calls(),
        goes_well(s, chrome_id, steps),
        quiet(steps),
    ensures
        ({
            let after = after_steps(s, chrome_id, steps);
            &&& after.pool.pages.len() == s.pool.pages.len() + goal->left + 1
            &&& after.pool.active == s.pool.active
            &&& after.next_id == s.next_id + steps.len() - 1
            &&& after.pending == s.pending.remove(chrome_id)
            &&& after.clients == s.clients
            &&& after.owners == s.owners
        }),
    decreases steps.len(),
{
    let job = JobView::CreatePage { url, stage, goal };
    let payload = steps[0].1;
    assert(steps[0].0.len() == 0);
    assert(run(s, steps[0].0) == s);
    let answer = response(chrome_id, payload);
    let next = s.on(answer).0;
    let rest = steps.drop_first();
    assert forall|i: int| 0 <= i < rest.len() implies (#[trigger] rest[i]).0.len() == 0 by {
        assert(rest[i] == steps[i + 1]);
    }
    calls_stay_in_order(s, answer);
    let p = job_progress(job, response_result(payload));
    assert(next == s.answered(chrome_id).progressing(p).0);
    match p.next {
        Some(JobView::CreatePage { stage: later, goal: aim, .. }) => {
            assert(next.pending.dom().contains(s.next_id));
            quiet_warm_up(next, s.next_id, url, later, aim, rest);
            assert(next.pending.remove(s.next_id) =~= s.pending.remove(chrome_id));
        },
        _ => {
            reveal_with_fuel(after_steps, 2);
            assert(rest.len() == 0);
        },
    }
}

/// Where nothing else happens, the warm-up at the start puts exactly as many pages into
/// the pool as it is to, with two calls for each, and leaves no call waiting and no page
/// active.
pub proof fn start_fills_pool_exactly(
    chrome_pid: u32,
    warmup_count: usize,
    warmup_url: Seq<char>,
    steps: Seq<(Seq<EventView>, Json)>,
)
    requires
        warmup_count > 0,
        2 * warmup_count < u64::MAX,
        steps.len() == 2 * warmup_count,
        quiet(steps),
        ({
            let event = EventView::Warm { count: warmup_count, url: warmup_url };
            let start = RouterView::start(chrome_pid, warmup_count, warmup_url);
            goes_well(start.on(event).0, start.next_id, steps)
        }),
    ensures
        ({
            let event = EventView::Warm { count: warmup_count, url: warmup_url };
            let start = RouterView::start(chrome_pid, warmup_count, warmup_url);
            let after = after_steps(start.on(event).0, start.next_id, steps);
            &&& after.pool.pages.len() == warmup_count
            &&& after.pool.active == 0
            &&& after.next_id == start.next_id + 2 * warmup_count
            &&& after.pending == Map::<u64, OwnerView>::empty()
            &&& after.clients == Map::<u64, Seq<SessionView>>::empty()
        }),
{
    let event = EventView::Warm { count: warmup_count, url: warmup_url };
    let start = RouterView::start(chrome_pid, warmup_count, warmup_url);
    let goal = Goal::Warmup { asker: None, left: (warmup_count - 1) as usize, created: 0 };
    calls_stay_in_order(start, event);
    let began = start.on(event).0;
    quiet_warm_up(began, start.next_id, warmup_url, PageStageView::Context, goal, steps);
    assert(began.pending.remove(start.next_id) =~= Map::empty());
}

/// A client that gets a page makes one more active, wherever the page came from: from
/// the request to the answer that hands out the page, with nothing else between, the
/// count goes up by one.
pub proof fn acquire_makes_one_more_active(
    s: RouterView,
    client_id: u64,
    id: u64,
    uptime_secs: u64,
    context: Json,
    target: Json,
    session: Json,
    session_id: Seq<char>,
)
    requires
        in_order(s),
        s.next_id + 4 <= u64::MAX,
        s.clients.dom().contains(client_id),
        !has_session(s.clients[client_id], session_id),
        !(page_step(PageStageView::Context, response_result(context)) is Failed),
        response_result(target) matches Ok(j) && j.text_field("targetId"@) is Some,
        attached_session(response_result(session)) == Ok::<Seq<char>, Seq<char>>(session_id),
    ensures
        ({
            let msg = ClientMsgView::Acquire { id };
            let asked = s.on(EventView::FromClient { client_id, msg, uptime_secs }).0;
            let creating = asked.on(response(s.next_id, context)).0;
            let attaching = creating.on(response(asked.next_id, target)).0;
            let (got, told) = if s.pool.pages.len() > 0 {
                asked.on(response(s.next_id, session))
            } else {
                attaching.on(response(creating.next_id, session))
            };
            &&& got.pool.active == s.pool.active + 1
            &&& told.len() == 1
            &&& told[0] matches ActionView::Reply { reply } && reply.client_id == client_id
                && reply.msg is Acquired && reply.msg.answers() == Some(id)
        }),
{
    let msg = ClientMsgView::Acquire { id };
    let event = EventView::FromClient { client_id, msg, uptime_secs };
    let asked = s.on(event).0;
    let asker = Asker { client_id, id };
    calls_stay_in_order(s, event);
    assert(asked.clients == s.clients);
    if s.pool.pages.len() > 0 {
        assert(asked.pending[s.next_id] == (OwnerView::Internal {
            job: JobView::Attach { page: s.pool.pages[0], asker: Some(asker) },
        }));
        assert(asked.pool.active == s.pool.active + 1);
    } else {
        assert(asked.pending[s.next_id] == (OwnerView::Internal { job: page_job(s, asker) }));
        assert(asked.pool.active == s.pool.active);
        let creating = asked.on(response(s.next_id, context)).0;
        assert(creating.next_id == asked.next_id + 1);
        assert(creating.pending[asked.next_id] matches OwnerView::Internal { job } && job matches
            JobView::CreatePage { stage, goal, .. } && stage is Target && goal == (Goal::Acquire {
            asker: Some(asker),
        }));
        let attaching = creating.on(response(asked.next_id, target)).0;
        assert(attaching.pool.active == s.pool.active + 1);
        assert(attaching.clients == s.clients);
        assert(attaching.pending[creating.next_id] matches OwnerView::Internal { job }
            && job matches JobView::Attach { asker: a, .. } && a == Some(asker));
    }
}

} // verus!
