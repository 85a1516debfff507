//! The daemon: which message goes where.
//!
//! The router knows the connected clients, the calls that Chrome has not answered,
//! the sessions that clients use and the pool of warm pages. It takes one event
//! after another and says what is to be done about each; it performs no input or
//! output itself.
use crate::browser::{ChromeMsg, ChromeMsgView};
use crate::jobs::{
    job_progress, progress_fits, warmup_progress, warmup_rest, Asker, Attached, AttachedView, Goal,
    Job, JobView, Progress, ProgressView, Reply, ReplyView,
};
use crate::json::json_encoded;
use crate::pool::{
    call_result, cdp_call, cdp_call_result, command, response_result, timeout_text, Call, CallView,
    CdpError, CloseStage, PagePool, PageStage, PageStageView, PageView, PoolView,
};
use crate::protocol::{ClientMsg, ClientMsgView, DaemonMsg, DaemonMsgView};
use crate::socket::DEFAULT_SOCKET_NAME;
use crate::sums::{total, total_of_zeros, total_with};
use crate::text::joined;
use std::collections::HashMap;
use vstd::hash_map::StringHashMap;
use vstd::prelude::*;

verus! {

broadcast use vstd::std_specs::hash::group_hash_axioms;

/// How the daemon is run.
pub struct DaemonConfig {
    /// The name of the socket that clients reach the daemon on.
    pub socket_name: String,
    pub chrome_path: Option<String>,
    pub chrome_args: Vec<String>,
    /// How many pages are warmed up at the start, and what they show.
    pub warmup_count: usize,
    pub warmup_url: String,
}

impl Default for DaemonConfig {
    fn default() -> (r: Self)
        ensures
            r.socket_name@ == "cdp-unix"@,
            r.chrome_path is None,
            r.chrome_args@.len() == 0,
            r.warmup_count == 4,
            r.warmup_url@ == "about:blank"@,
    {
        DaemonConfig {
            socket_name: DEFAULT_SOCKET_NAME.to_owned(),
            chrome_path: None,
            chrome_args: Vec::new(),
            warmup_count: 4,
            warmup_url: "about:blank".to_owned(),
        }
    }
}

/// A session through which a client uses a page.
pub struct Session {
    pub session_id: String,
    pub target_id: String,
    pub context_id: String,
}

/// A [`Session`] with texts in place of what holds them.
pub struct SessionView {
    pub session_id: Seq<char>,
    pub target_id: Seq<char>,
    pub context_id: Seq<char>,
}

impl View for Session {
    type V = SessionView;

    open spec fn view(&self) -> SessionView {
        SessionView {
            session_id: self.session_id@,
            target_id: self.target_id@,
            context_id: self.context_id@,
        }
    }
}

/// The views of a list of sessions.
pub open spec fn session_views(s: Seq<Session>) -> Seq<SessionView> {
    s.map_values(|x: Session| x@)
}

/// The context of the first session with the given page; no text where there is
/// none.
pub open spec fn context_of(sessions: Seq<SessionView>, target_id: Seq<char>) -> Seq<char>
    decreases sessions.len(),
{
    if sessions.len() == 0 {
        Seq::empty()
    } else if sessions[0].target_id == target_id {
        sessions[0].context_id
    } else {
        context_of(sessions.drop_first(), target_id)
    }
}

/// The sessions that do not have the given page.
pub open spec fn without_target(sessions: Seq<SessionView>, target_id: Seq<char>) -> Seq<
    SessionView,
> {
    sessions.filter(|s: SessionView| s.target_id != target_id)
}

/// The sessions that have the given page.
pub open spec fn with_target(sessions: Seq<SessionView>, target_id: Seq<char>) -> Seq<SessionView> {
    sessions.filter(|s: SessionView| s.target_id == target_id)
}

/// Whether one of the sessions has the given name.
pub open spec fn has_session(sessions: Seq<SessionView>, session_id: Seq<char>) -> bool {
    exists|i: int| 0 <= i < sessions.len() && (#[trigger] sessions[i]).session_id == session_id
}

/// The sessions with the given one among them, in the place of an earlier one of
/// the same name, or else behind the others.
pub open spec fn with_session(sessions: Seq<SessionView>, session: SessionView) -> Seq<
    SessionView,
> {
    if has_session(sessions, session.session_id) {
        sessions.map_values(
            |s: SessionView|
                if s.session_id == session.session_id {
                    session
                } else {
                    s
                },
        )
    } else {
        sessions.push(session)
    }
}

/// The sessions of each client that do not have the given page.
pub open spec fn without_page(
    clients: Map<u64, Seq<SessionView>>,
    target_id: Seq<char>,
) -> Map<u64, Seq<SessionView>> {
    clients.map_values(|v: Seq<SessionView>| without_target(v, target_id))
}

/// How many sessions of each client have the given page.
pub open spec fn page_counts(
    clients: Map<u64, Seq<SessionView>>,
    target_id: Seq<char>,
) -> Map<u64, nat> {
    clients.map_values(|v: Seq<SessionView>| with_target(v, target_id).len())
}

/// Whether a session of some client with the given page has the given name.
pub open spec fn names_page(
    clients: Map<u64, Seq<SessionView>>,
    target_id: Seq<char>,
    session_id: Seq<char>,
) -> bool {
    exists|c: u64| #[trigger]
        clients.dom().contains(c) && has_session(with_target(clients[c], target_id), session_id)
}

spec fn counts_among(
    clients: Map<u64, Seq<SessionView>>,
    target_id: Seq<char>,
    done: Set<u64>,
) -> Map<u64, nat> {
    Map::new(
        |c: u64| clients.dom().contains(c),
        |c: u64|
            if done.contains(c) {
                with_target(clients[c], target_id).len()
            } else {
                0
            },
    )
}

spec fn names_page_among(
    clients: Map<u64, Seq<SessionView>>,
    target_id: Seq<char>,
    done: Set<u64>,
    session_id: Seq<char>,
) -> bool {
    exists|c: u64| #[trigger]
        clients.dom().contains(c) && done.contains(c) && has_session(
            with_target(clients[c], target_id),
            session_id,
        )
}

fn find_context(sessions: &Vec<Session>, target_id: &String) -> (r: String)
    ensures
        r@ == context_of(session_views(sessions@), target_id@),
{
    let ghost all = session_views(sessions@);
    let mut i: usize = 0;
    assert(all.skip(0) =~= all);
    while i < sessions.len()
        invariant
            i <= sessions@.len(),
            all == session_views(sessions@),
            context_of(all.skip(i as int), target_id@) == context_of(all, target_id@),
        decreases sessions@.len() - i,
    {
        assert(all.skip(i as int).drop_first() =~= all.skip(i + 1));
        if sessions[i].target_id == *target_id {
            return sessions[i].context_id.clone();
        }
        i = i + 1;
    }
    String::new()
}

fn copy_session(s: &Session) -> (r: Session)
    ensures
        r == *s,
{
    Session {
        session_id: s.session_id.clone(),
        target_id: s.target_id.clone(),
        context_id: s.context_id.clone(),
    }
}

fn drop_target(sessions: &Vec<Session>, target_id: &String) -> (r: Vec<Session>)
    ensures
        session_views(r@) == without_target(session_views(sessions@), target_id@),
{
    let ghost all = session_views(sessions@);
    let mut r: Vec<Session> = Vec::new();
    let mut i: usize = 0;
    reveal(Seq::filter);
    assert(session_views(r@) =~= Seq::<SessionView>::empty());
    while i < sessions.len()
        invariant
            i <= sessions@.len(),
            all == session_views(sessions@),
            session_views(r@) == without_target(all.take(i as int), target_id@),
        decreases sessions@.len() - i,
    {
        reveal(Seq::filter);
        assert(all.take(i + 1).drop_last() =~= all.take(i as int));
        if sessions[i].target_id == *target_id {
        } else {
            let ghost before = r@;
            r.push(copy_session(&sessions[i]));
            assert(session_views(r@) =~= session_views(before).push(sessions@[i as int]@));
        }
        i = i + 1;
    }
    assert(all.take(all.len() as int) =~= all);
    r
}

fn pick_target(sessions: &Vec<Session>, target_id: &String) -> (r: Vec<Session>)
    ensures
        session_views(r@) == with_target(session_views(sessions@), target_id@),
{
    let ghost all = session_views(sessions@);
    let mut r: Vec<Session> = Vec::new();
    let mut i: usize = 0;
    reveal(Seq::filter);
    assert(session_views(r@) =~= Seq::<SessionView>::empty());
    while i < sessions.len()
        invariant
            i <= sessions@.len(),
            all == session_views(sessions@),
            session_views(r@) == with_target(all.take(i as int), target_id@),
        decreases sessions@.len() - i,
    {
        reveal(Seq::filter);
        assert(all.take(i + 1).drop_last() =~= all.take(i as int));
        if sessions[i].target_id == *target_id {
            let ghost before = r@;
            r.push(copy_session(&sessions[i]));
            assert(session_views(r@) =~= session_views(before).push(sessions@[i as int]@));
        }
        i = i + 1;
    }
    assert(all.take(all.len() as int) =~= all);
    r
}

/// Puts a session among the others, and tells whether it takes the place of one.
fn put_session(sessions: Vec<Session>, session: Session) -> (r: (Vec<Session>, bool))
    ensures
        session_views(r.0@) == with_session(session_views(sessions@), session@),
        r.1 == has_session(session_views(sessions@), session.session_id@),
{
    let ghost all = session_views(sessions@);
    let mut r = sessions;
    let mut found: bool = false;
    let mut i: usize = 0;
    while i < r.len()
        invariant
            i <= r@.len() == all.len(),
            found == has_session(all.take(i as int), session.session_id@),
            forall|j: int|
                0 <= j < all.len() ==> (#[trigger] r@[j])@ == if j < i && all[j].session_id
                    == session.session_id@ {
                    session@
                } else {
                    all[j]
                },
        decreases r@.len() - i,
    {
        assert(all.take(i + 1)[i as int] == all[i as int]);
        assert(forall|j: int| 0 <= j < i ==> all.take(i + 1)[j] == #[trigger] all.take(i as int)[j]);
        assert(r@[i as int]@ == all[i as int]);
        if r[i].session_id == session.session_id {
            r.set(i, copy_session(&session));
            found = true;
        }
        i = i + 1;
    }
    assert(all.take(all.len() as int) =~= all);
    if found {
        assert(session_views(r@) =~= with_session(all, session@));
    } else {
        assert(forall|j: int| 0 <= j < all.len() ==> (#[trigger] r@[j])@ == all[j]);
        r.push(session);
        assert(session_views(r@) =~= all.push(session@));
    }
    (r, found)
}

/// Who waits for an answer of Chrome's.
pub enum Owner {
    /// A client, for the answer to its own command.
    Client { asker: Asker },
    /// The daemon, for a job.
    Internal { job: Job },
}

/// An [`Owner`] with texts in place of what holds them.
pub enum OwnerView {
    Client { asker: Asker },
    Internal { job: JobView },
}

impl OwnerView {
    /// The client will be told the end of the job that the answer is awaited for.
    pub open spec fn owes(self, client_id: u64) -> bool {
        self matches OwnerView::Internal { job } && job.asker() matches Some(a) && a.client_id
            == client_id
    }

    /// The answer is awaited to warm up pages.
    pub open spec fn warms(self) -> bool {
        self matches OwnerView::Internal { job } && job.warms()
    }
}

impl View for Owner {
    type V = OwnerView;

    open spec fn view(&self) -> OwnerView {
        match *self {
            Owner::Client { asker } => OwnerView::Client { asker },
            Owner::Internal { job } => OwnerView::Internal { job: job@ },
        }
    }
}

/// Something that the router is told.
#[allow(inconsistent_fields)]
pub enum RouterEvent {
    /// A client has connected. Every client has a number of its own.
    ClientConnected { client_id: u64 },
    /// A client has gone.
    ClientDisconnected { client_id: u64 },
    /// A client asks for something, this long after the daemon was started.
    FromClient { client_id: u64, msg: ClientMsg, uptime_secs: u64 },
    /// Chrome says something.
    FromChrome { msg: ChromeMsg },
    /// Pages are to be warmed up, without anybody having asked.
    Warm { count: usize, url: String },
    /// A command could not be sent, because the pipe to Chrome is closed.
    PipeClosed { chrome_id: u64 },
    /// A call of the daemon's own failed otherwise.
    CallFailed { chrome_id: u64, error: CdpError },
    /// A call of the daemon's own has not been answered in time.
    CallTimedOut { chrome_id: u64 },
}

/// A [`RouterEvent`] with texts and JSON values in place of what holds them.
#[allow(inconsistent_fields)]
pub enum EventView {
    ClientConnected { client_id: u64 },
    ClientDisconnected { client_id: u64 },
    FromClient { client_id: u64, msg: ClientMsgView, uptime_secs: u64 },
    FromChrome { msg: ChromeMsgView },
    Warm { count: usize, url: Seq<char> },
    PipeClosed { chrome_id: u64 },
    CallFailed { chrome_id: u64, error: Seq<char> },
    CallTimedOut { chrome_id: u64 },
}

impl View for RouterEvent {
    type V = EventView;

    open spec fn view(&self) -> EventView {
        match *self {
            RouterEvent::ClientConnected { client_id } => EventView::ClientConnected { client_id },
            RouterEvent::ClientDisconnected { client_id } => EventView::ClientDisconnected {
                client_id,
            },
            RouterEvent::FromClient { client_id, msg, uptime_secs } => EventView::FromClient {
                client_id,
                msg: msg@,
                uptime_secs,
            },
            RouterEvent::FromChrome { msg } => EventView::FromChrome { msg: msg@ },
            RouterEvent::Warm { count, url } => EventView::Warm { count, url: url@ },
            RouterEvent::PipeClosed { chrome_id } => EventView::PipeClosed { chrome_id },
            RouterEvent::CallFailed { chrome_id, error } => EventView::CallFailed {
                chrome_id,
                error: error.text(),
            },
            RouterEvent::CallTimedOut { chrome_id } => EventView::CallTimedOut { chrome_id },
        }
    }
}

/// Something that is to be done about an event.
pub enum Action {
    /// Send a message to a client.
    Reply { reply: Reply },
    /// Write a command to Chrome. Where that fails, the router is told so with
    /// [`RouterEvent::PipeClosed`]. Where the call is timed, the router is told with
    /// [`RouterEvent::CallTimedOut`] after [`crate::pool::CALL_TIMEOUT_SECS`] seconds.
    ToChrome { chrome_id: u64, bytes: Vec<u8>, timed: bool },
    /// Tell the router with [`RouterEvent::CallFailed`] that a call failed.
    Fail { chrome_id: u64, error: CdpError },
}

/// An [`Action`] with texts and JSON values in place of what holds them.
pub enum ActionView {
    Reply { reply: ReplyView },
    ToChrome { chrome_id: u64, bytes: Seq<u8>, timed: bool },
    Fail { chrome_id: u64, error: Seq<char> },
}

impl View for Action {
    type V = ActionView;

    open spec fn view(&self) -> ActionView {
        match *self {
            Action::Reply { reply } => ActionView::Reply { reply: reply@ },
            Action::ToChrome { chrome_id, bytes, timed } => ActionView::ToChrome {
                chrome_id,
                bytes: bytes@,
                timed,
            },
            Action::Fail { chrome_id, error } => ActionView::Fail {
                chrome_id,
                error: error.text(),
            },
        }
    }
}

/// The views of a list of actions.
pub open spec fn action_views(s: Seq<Action>) -> Seq<ActionView> {
    s.map_values(|a: Action| a@)
}

/// The commands among the actions are texts that fit into a record of the pipe.
pub open spec fn commands_fit_records(s: Seq<Action>) -> bool {
    forall|i: int|
        0 <= i < s.len() ==> ((#[trigger] s[i]) matches Action::ToChrome { bytes, .. }
            ==> bytes@.len() > 0 && !bytes@.contains(0u8))
}

/// The number after `id`; the largest is followed by zero.
pub open spec fn number_after(id: u64) -> u64 {
    if id == u64::MAX {
        0
    } else {
        (id + 1) as u64
    }
}

/// What making the call of a job under the given number takes.
pub open spec fn call_action(chrome_id: u64, job: JobView) -> ActionView {
    match json_encoded(command(chrome_id, job.call())) {
        Ok(bytes) => ActionView::ToChrome { chrome_id, bytes, timed: true },
        Err(error) => ActionView::Fail { chrome_id, error },
    }
}

/// What the router knows.
pub struct RouterView {
    /// The number of the next call to Chrome.
    pub next_id: u64,
    /// The connected clients and their sessions.
    pub clients: Map<u64, Seq<SessionView>>,
    /// The calls that Chrome has not answered, and who waits for the answers.
    pub pending: Map<u64, OwnerView>,
    /// The clients that the sessions were opened for.
    pub owners: Map<Seq<char>, u64>,
    /// The warm pages.
    pub pool: PoolView,
    /// The process that Chrome is.
    pub chrome_pid: u32,
    /// How many pages the pool is filled with, and what they show.
    pub warmup_count: usize,
    pub warmup_url: Seq<char>,
}

/// A state of the router, and what is to be done on the way to it.
pub type Outcome = (RouterView, Seq<ActionView>);

impl RouterView {
    /// What a router knows at the start, with Chrome in the given process and so many
    /// pages to fill the pool with. Calls are numbered from one.
    pub open spec fn start(
        chrome_pid: u32,
        warmup_count: usize,
        warmup_url: Seq<char>,
    ) -> RouterView {
        RouterView {
            next_id: 1,
            clients: Map::empty(),
            pending: Map::empty(),
            owners: Map::empty(),
            pool: PoolView::empty(),
            chrome_pid,
            warmup_count,
            warmup_url,
        }
    }

    /// The counts of all jobs add up to no more than a `usize` holds.
    pub open spec fn fits(self) -> bool {
        forall|k: u64| #[trigger]
            self.pending.dom().contains(k) ==> (self.pending[k] matches OwnerView::Internal { job }
                ==> job.fits())
    }

    /// The event can make a client get a page.
    pub open spec fn can_take(self, event: EventView) -> bool {
        match event {
            EventView::FromClient { msg: ClientMsgView::Acquire { .. }, .. } =>
            self.pool.pages.len() > 0,
            EventView::FromChrome { msg: ChromeMsgView::Response { id, .. } } =>
            self.pending.dom().contains(id) && (self.pending[id] matches OwnerView::Internal { job }
                && job.can_take()),
            _ => false,
        }
    }

    /// Where the event can make a client get a page, one more can be counted.
    pub open spec fn has_room(self, event: EventView) -> bool {
        self.can_take(event) ==> self.pool.active < usize::MAX
    }

    /// Pages are being warmed up.
    pub open spec fn warming(self) -> bool {
        exists|k: u64| #[trigger]
            self.pending.dom().contains(k) && self.pending[k].warms()
    }

    /// The request that is to be answered, where its client is connected as it asks.
    pub open spec fn heard(self, asker: Asker) -> Option<Asker> {
        if self.clients.dom().contains(asker.client_id) {
            Some(asker)
        } else {
            None
        }
    }

    /// A job is under way whose end the client will be told.
    pub open spec fn owes(self, client_id: u64) -> bool {
        exists|k: u64| #[trigger]
            self.pending.dom().contains(k) && self.pending[k].owes(client_id)
    }

    /// Sending a message to a client that is connected. This is for messages that do not
    /// end a job; they are not sent to a client that has been reported gone.
    pub open spec fn telling(self, reply: ReplyView) -> Seq<ActionView> {
        if self.clients.dom().contains(reply.client_id) {
            seq![ActionView::Reply { reply }]
        } else {
            Seq::empty()
        }
    }

    /// Giving the next number to a call, for whose answer `owner` waits.
    pub open spec fn numbered(self, owner: OwnerView) -> RouterView {
        RouterView {
            next_id: number_after(self.next_id),
            pending: self.pending.insert(self.next_id, owner),
            ..self
        }
    }

    /// Making the call that a job stands at.
    pub open spec fn calling(self, job: JobView) -> Outcome {
        (
            self.numbered(OwnerView::Internal { job }),
            seq![call_action(self.next_id, job)],
        )
    }

    /// Keeping a page in the pool.
    pub open spec fn storing(self, stored: Option<PageView>) -> RouterView {
        match stored {
            Some(page) => RouterView { pool: self.pool.push(page), ..self },
            None => self,
        }
    }

    /// Counting the pages that clients have.
    pub open spec fn counting(self, taken: bool, given_back: bool) -> RouterView {
        RouterView {
            pool: if taken {
                self.pool.taken()
            } else if given_back {
                self.pool.released()
            } else {
                self.pool
            },
            ..self
        }
    }

    /// Keeping a session, for as long as the client that it was opened for stays. Where
    /// that client has gone, or has a session of the same name already, one page less is
    /// in use.
    pub open spec fn attaching(self, attached: Option<AttachedView>) -> RouterView {
        match attached {
            Some(a) => if self.clients.dom().contains(a.client_id) {
                let session = SessionView {
                    session_id: a.session_id,
                    target_id: a.page.target_id,
                    context_id: a.page.browser_context_id,
                };
                RouterView {
                    clients: self.clients.insert(
                        a.client_id,
                        with_session(self.clients[a.client_id], session),
                    ),
                    owners: self.owners.insert(a.session_id, a.client_id),
                    pool: if has_session(self.clients[a.client_id], a.session_id) {
                        self.pool.released()
                    } else {
                        self.pool
                    },
                    ..self
                }
            } else {
                RouterView { pool: self.pool.released(), ..self }
            },
            None => self,
        }
    }

    /// Keeping the pages and sessions that the answer to a job brings.
    pub open spec fn kept(self, p: ProgressView) -> RouterView {
        self.storing(p.stored).counting(p.taken, p.given_back).attaching(p.attached)
    }

    /// Doing what the answer to a job brings about. The client that asked is told, also
    /// where it has been reported gone meanwhile: it may have closed one direction of
    /// the connection only.
    pub open spec fn progressing(self, p: ProgressView) -> Outcome {
        let kept = self.kept(p);
        let told = match p.reply {
            Some(reply) => seq![ActionView::Reply { reply }],
            None => Seq::empty(),
        };
        match p.next {
            Some(job) => {
                let (after, called) = kept.calling(job);
                (after, told + called)
            },
            None => (kept, told),
        }
    }

    /// Taking a call as answered.
    pub open spec fn answered(self, chrome_id: u64) -> RouterView {
        RouterView { pending: self.pending.remove(chrome_id), ..self }
    }

    /// Chrome has said something. A response goes to whoever waits for it, and an
    /// event to the client that its session was opened for; others are dropped.
    pub open spec fn from_chrome(self, msg: ChromeMsgView) -> Outcome {
        match msg {
            ChromeMsgView::Response { id, payload } => if self.pending.dom().contains(id) {
                let after = self.answered(id);
                match self.pending[id] {
                    OwnerView::Internal { job } => after.progressing(
                        job_progress(job, response_result(payload)),
                    ),
                    OwnerView::Client { asker } => (
                        after,
                        after.telling(
                            ReplyView {
                                client_id: asker.client_id,
                                msg: DaemonMsgView::CdpResponse { id: asker.id, payload },
                            },
                        ),
                    ),
                }
            } else {
                (self, Seq::empty())
            },
            ChromeMsgView::Event { method, params, session_id } => match session_id {
                Some(s) => if self.owners.dom().contains(s) {
                    (
                        self,
                        self.telling(
                            ReplyView {
                                client_id: self.owners[s],
                                msg: DaemonMsgView::CdpEvent { method, params, session_id },
                            },
                        ),
                    )
                } else {
                    (self, Seq::empty())
                },
                None => (self, Seq::empty()),
            },
        }
    }

    /// A call of the daemon's own has failed. Clients' commands fail in no other way
    /// than with the pipe.
    pub open spec fn failing(self, chrome_id: u64, error: Seq<char>) -> Outcome {
        if self.pending.dom().contains(chrome_id) {
            match self.pending[chrome_id] {
                OwnerView::Internal { job } => self.answered(chrome_id).progressing(
                    job_progress(job, Err(error)),
                ),
                OwnerView::Client { .. } => (self, Seq::empty()),
            }
        } else {
            (self, Seq::empty())
        }
    }

    /// A call of the daemon's own has not been answered in time.
    pub open spec fn timing_out(self, chrome_id: u64) -> Outcome {
        if self.pending.dom().contains(chrome_id) {
            match self.pending[chrome_id] {
                OwnerView::Internal { job } => self.failing(
                    chrome_id,
                    timeout_text(job.call().method),
                ),
                OwnerView::Client { .. } => (self, Seq::empty()),
            }
        } else {
            (self, Seq::empty())
        }
    }

    /// A command could not be sent.
    pub open spec fn pipe_closed(self, chrome_id: u64) -> Outcome {
        if self.pending.dom().contains(chrome_id) {
            match self.pending[chrome_id] {
                OwnerView::Internal { .. } => self.failing(
                    chrome_id,
                    "chrome pipe channel closed"@,
                ),
                OwnerView::Client { asker } => (
                    self,
                    self.telling(error_reply(asker, "Chrome pipe closed"@)),
                ),
            }
        } else {
            (self, Seq::empty())
        }
    }

    /// Filling the pool again where it is empty, unless pages are being warmed up.
    pub open spec fn refilling(self) -> Outcome {
        if self.pool.pages.len() == 0 && !self.warming() {
            self.progressing(warmup_rest(self.warmup_url, None, self.warmup_count, 0))
        } else {
            (self, Seq::empty())
        }
    }

    /// Forgetting sessions: nobody gets their events, and their pages are not in use.
    pub open spec fn dropping(self, sessions: Seq<SessionView>) -> RouterView
        decreases sessions.len(),
    {
        if sessions.len() == 0 {
            self
        } else {
            let before = self.dropping(sessions.drop_last());
            RouterView {
                owners: before.owners.remove(sessions.last().session_id),
                pool: before.pool.released(),
                ..before
            }
        }
    }

    /// Forgetting a page that is closed: no client has it any more, whichever had it, and
    /// nobody gets the events of its sessions.
    pub open spec fn forgetting_page(self, target_id: Seq<char>) -> RouterView {
        RouterView {
            clients: without_page(self.clients, target_id),
            owners: Map::new(
                |n: Seq<char>|
                    self.owners.dom().contains(n) && !names_page(self.clients, target_id, n),
                |n: Seq<char>| self.owners[n],
            ),
            pool: self.pool.given_back(total(page_counts(self.clients, target_id))),
            ..self
        }
    }

    /// Forgetting a page that is closed, as far as the given clients go.
    spec fn forgetting_among(self, target_id: Seq<char>, done: Set<u64>) -> RouterView {
        RouterView {
            clients: Map::new(
                |c: u64| self.clients.dom().contains(c),
                |c: u64|
                    if done.contains(c) {
                        without_target(self.clients[c], target_id)
                    } else {
                        self.clients[c]
                    },
            ),
            owners: Map::new(
                |n: Seq<char>|
                    self.owners.dom().contains(n) && !names_page_among(
                        self.clients,
                        target_id,
                        done,
                        n,
                    ),
                |n: Seq<char>| self.owners[n],
            ),
            pool: self.pool.given_back(total(counts_among(self.clients, target_id, done))),
            ..self
        }
    }

    /// A client has connected. It takes the place of an earlier one with its number.
    pub open spec fn connecting(self, client_id: u64) -> RouterView {
        let free = if self.clients.dom().contains(client_id) {
            self.dropping(self.clients[client_id])
        } else {
            self
        };
        RouterView { clients: self.clients.insert(client_id, Seq::empty()), ..free }
    }

    /// Closing the pages of a client that has gone, one after another.
    pub open spec fn closing_all(self, sessions: Seq<SessionView>) -> Outcome
        decreases sessions.len(),
    {
        if sessions.len() == 0 {
            (self, Seq::empty())
        } else {
            let (before, actions) = self.closing_all(sessions.drop_last());
            let session = sessions.last();
            let given_back = RouterView {
                owners: before.owners.remove(session.session_id),
                pool: before.pool.released(),
                ..before
            };
            let (after, called) = given_back.calling(
                JobView::Close {
                    target_id: session.target_id,
                    context_id: session.context_id,
                    stage: CloseStage::Target,
                    asker: None,
                },
            );
            (after, actions + called)
        }
    }

    /// A client has gone: its pages are closed.
    pub open spec fn disconnecting(self, client_id: u64) -> Outcome {
        if self.clients.dom().contains(client_id) {
            RouterView { clients: self.clients.remove(client_id), ..self }.closing_all(
                self.clients[client_id],
            )
        } else {
            (self, Seq::empty())
        }
    }

    /// A client asks for something.
    pub open spec fn from_client(
        self,
        client_id: u64,
        msg: ClientMsgView,
        uptime_secs: u64,
    ) -> Outcome {
        match msg {
            ClientMsgView::Cdp { id, method, params, session_id } => {
                let asker = Asker { client_id, id };
                let after = self.numbered(OwnerView::Client { asker });
                (
                    after,
                    match json_encoded(
                        command(self.next_id, CallView { method, params, session_id }),
                    ) {
                        Ok(bytes) => seq![
                            ActionView::ToChrome { chrome_id: self.next_id, bytes, timed: false },
                        ],
                        Err(e) => after.telling(error_reply(asker, "serialize: "@ + e)),
                    },
                )
            },
            ClientMsgView::Acquire { id } => {
                let asker = self.heard(Asker { client_id, id });
                let (asked, called) = match self.pool.acquire() {
                    (pool, Some(page)) => RouterView { pool, ..self }.calling(
                        JobView::Attach { page, asker },
                    ),
                    (_, None) => self.calling(
                        JobView::CreatePage {
                            url: "about:blank"@,
                            stage: PageStageView::Context,
                            goal: Goal::Acquire { asker },
                        },
                    ),
                };
                let (after, more) = asked.refilling();
                (after, called + more)
            },
            ClientMsgView::Release { id, target_id } => {
                if self.clients.dom().contains(client_id) {
                    self.forgetting_page(target_id).calling(
                        JobView::Close {
                            target_id,
                            context_id: context_of(self.clients[client_id], target_id),
                            stage: CloseStage::Target,
                            asker: Some(Asker { client_id, id }),
                        },
                    )
                } else {
                    (self, Seq::empty())
                }
            },
            ClientMsgView::Warmup { id, count, url } => self.progressing(
                warmup_rest(url, self.heard(Asker { client_id, id }), count, 0),
            ),
            ClientMsgView::Status { id } => (
                self,
                self.telling(
                    ReplyView {
                        client_id,
                        msg: DaemonMsgView::StatusResponse {
                            id,
                            pool_available: self.pool.pages.len() as usize,
                            active_sessions: self.pool.active as usize,
                            chrome_pid: self.chrome_pid,
                            uptime_secs,
                        },
                    },
                ),
            ),
        }
    }

    /// What the router comes to know by an event, and what is to be done about it.
    pub open spec fn on(self, event: EventView) -> Outcome {
        match event {
            EventView::ClientConnected { client_id } => (
                self.connecting(client_id),
                Seq::empty(),
            ),
            EventView::ClientDisconnected { client_id } => self.disconnecting(client_id),
            EventView::FromClient { client_id, msg, uptime_secs } => self.from_client(
                client_id,
                msg,
                uptime_secs,
            ),
            EventView::FromChrome { msg } => self.from_chrome(msg),
            EventView::Warm { count, url } => self.progressing(warmup_rest(url, None, count, 0)),
            EventView::PipeClosed { chrome_id } => self.pipe_closed(chrome_id),
            EventView::CallFailed { chrome_id, error } => self.failing(chrome_id, error),
            EventView::CallTimedOut { chrome_id } => self.timing_out(chrome_id),
        }
    }
}

/// Forgetting sessions changes nothing but who gets events and how many pages are in
/// use, and these depend on nothing else.
proof fn dropping_agrees(s: RouterView, t: RouterView, sessions: Seq<SessionView>)
    requires
        s.owners == t.owners,
        s.pool == t.pool,
    ensures
        s.dropping(sessions).owners == t.dropping(sessions).owners,
        s.dropping(sessions).pool == t.dropping(sessions).pool,
        s.dropping(sessions) == (RouterView {
            owners: s.dropping(sessions).owners,
            pool: s.dropping(sessions).pool,
            ..s
        }),
        t.dropping(sessions) == (RouterView {
            owners: t.dropping(sessions).owners,
            pool: t.dropping(sessions).pool,
            ..t
        }),
    decreases sessions.len(),
{
    if sessions.len() > 0 {
        dropping_agrees(s, t, sessions.drop_last());
    }
}

/// Forgetting sessions leaves everything alone but the count of pages in use and who
/// gets the events of these sessions.
pub(crate) proof fn dropping_counts(s: RouterView, sessions: Seq<SessionView>)
    ensures
        ({
            let after = s.dropping(sessions);
            &&& after == (RouterView { owners: after.owners, pool: after.pool, ..s })
            &&& after.pool.pages == s.pool.pages
            &&& after.pool.active == if s.pool.active < sessions.len() {
                0
            } else {
                s.pool.active - sessions.len()
            }
            &&& forall|k: Seq<char>| #[trigger]
                after.owners.dom().contains(k) <==> s.owners.dom().contains(k) && !has_session(
                    sessions,
                    k,
                )
            &&& forall|k: Seq<char>| #[trigger]
                after.owners.dom().contains(k) ==> after.owners[k] == s.owners[k]
        }),
    decreases sessions.len(),
{
    if sessions.len() > 0 {
        dropping_counts(s, sessions.drop_last());
        names_split(sessions);
    }
}

/// The names of sessions are those of all but the last, and that of the last.
pub(crate) proof fn names_split(sessions: Seq<SessionView>)
    requires
        sessions.len() > 0,
    ensures
        forall|k: Seq<char>| #[trigger]
            has_session(sessions, k) <==> has_session(sessions.drop_last(), k)
                || sessions.last().session_id == k,
{
    let before = sessions.drop_last();
    let last = sessions.last();
    assert forall|k: Seq<char>| #[trigger]
        has_session(sessions, k) <==> has_session(before, k) || last.session_id == k by {
        if has_session(before, k) {
            let i = choose|i: int| 0 <= i < before.len() && (#[trigger] before[i]).session_id == k;
            assert(sessions[i].session_id == k);
        }
        if last.session_id == k {
            assert(sessions[sessions.len() - 1].session_id == k);
        }
        if has_session(sessions, k) {
            let i = choose|i: int|
                0 <= i < sessions.len() && (#[trigger] sessions[i]).session_id == k;
            if i < before.len() {
                assert(before[i].session_id == k);
            }
        }
    }
}

/// Going on to forget a page with one more client.
proof fn forgetting_one_more(s: RouterView, target_id: Seq<char>, done: Set<u64>, c: u64)
    requires
        s.clients.dom().finite(),
        s.clients.dom().contains(c),
        !done.contains(c),
    ensures
        ({
            let so_far = s.forgetting_among(target_id, done);
            let sessions = s.clients[c];
            &&& so_far.clients.dom().contains(c)
            &&& so_far.clients[c] == sessions
            &&& s.forgetting_among(target_id, done.insert(c)) == (RouterView {
                clients: so_far.clients.insert(c, without_target(sessions, target_id)),
                ..so_far.dropping(with_target(sessions, target_id))
            })
        }),
{
    let so_far = s.forgetting_among(target_id, done);
    let sessions = s.clients[c];
    let gone = with_target(sessions, target_id);
    let next = s.forgetting_among(target_id, done.insert(c));
    dropping_counts(so_far, gone);
    let before = counts_among(s.clients, target_id, done);
    let after = counts_among(s.clients, target_id, done.insert(c));
    assert(before.dom() =~= s.clients.dom());
    assert(after =~= before.insert(c, gone.len()));
    total_with(before, c, gone.len());
    assert(next.clients =~= so_far.clients.insert(c, without_target(sessions, target_id)));
    assert forall|n: Seq<char>| #[trigger]
        next.owners.dom().contains(n) <==> so_far.dropping(gone).owners.dom().contains(n) by {
        assert(names_page_among(s.clients, target_id, done.insert(c), n) <==> names_page_among(
            s.clients,
            target_id,
            done,
            n,
        ) || has_session(gone, n)) by {
            if names_page_among(s.clients, target_id, done, n) {
                let d = choose|d: u64| #[trigger]
                    s.clients.dom().contains(d) && done.contains(d) && has_session(
                        with_target(s.clients[d], target_id),
                        n,
                    );
                assert(s.clients.dom().contains(d) && done.insert(c).contains(d));
            }
            if has_session(gone, n) {
                assert(s.clients.dom().contains(c) && done.insert(c).contains(c));
            }
        }
    }
    assert(next.owners =~= so_far.dropping(gone).owners);
}

/// With no client, nothing has been forgotten; with all, all has.
proof fn forgetting_ends(s: RouterView, target_id: Seq<char>)
    requires
        s.clients.dom().finite(),
    ensures
        s.forgetting_among(target_id, Set::empty()) == s,
        s.forgetting_among(target_id, s.clients.dom()) == s.forgetting_page(target_id),
{
    let none = s.forgetting_among(target_id, Set::empty());
    let zeros = counts_among(s.clients, target_id, Set::empty());
    assert(zeros.dom() =~= s.clients.dom());
    total_of_zeros(zeros);
    assert(none.clients =~= s.clients);
    assert(none.owners =~= s.owners);
    let all = s.forgetting_among(target_id, s.clients.dom());
    let page = s.forgetting_page(target_id);
    assert(counts_among(s.clients, target_id, s.clients.dom()) =~= page_counts(
        s.clients,
        target_id,
    ));
    assert(all.clients =~= page.clients);
    assert forall|n: Seq<char>|
        names_page_among(s.clients, target_id, s.clients.dom(), n) <==> #[trigger] names_page(
            s.clients,
            target_id,
            n,
        ) by {
        if names_page(s.clients, target_id, n) {
            let c = choose|c: u64| #[trigger]
                s.clients.dom().contains(c) && has_session(
                    with_target(s.clients[c], target_id),
                    n,
                );
            assert(s.clients.dom().contains(c));
        }
    }
    assert(all.owners =~= page.owners);
}

/// How a request is told that it failed.
pub open spec fn error_reply(asker: Asker, message: Seq<char>) -> ReplyView {
    ReplyView {
        client_id: asker.client_id,
        msg: DaemonMsgView::Error { id: asker.id, message },
    }
}

/// Routes messages between clients and Chrome.
pub struct Router {
    next_id: u64,
    clients: HashMap<u64, Vec<Session>>,
    pending: HashMap<u64, Owner>,
    owners: StringHashMap<u64>,
    pool: PagePool,
    chrome_pid: u32,
    warmup_count: usize,
    warmup_url: String,
}

spec fn client_views(m: Map<u64, Vec<Session>>) -> Map<u64, Seq<SessionView>> {
    m.map_values(|v: Vec<Session>| session_views(v@))
}

spec fn owner_views(m: Map<u64, Owner>) -> Map<u64, OwnerView> {
    m.map_values(|o: Owner| o@)
}

impl View for Router {
    type V = RouterView;

    closed spec fn view(&self) -> RouterView {
        RouterView {
            next_id: self.next_id,
            clients: client_views(self.clients@),
            pending: owner_views(self.pending@),
            owners: self.owners@,
            pool: self.pool@,
            chrome_pid: self.chrome_pid,
            warmup_count: self.warmup_count,
            warmup_url: self.warmup_url@,
        }
    }
}

impl Router {
    /// A router that knows no clients, for the Chrome of the given process, with so many
    /// pages to fill the pool with. Calls are numbered from one.
    pub fn new(chrome_pid: u32, warmup_count: usize, warmup_url: String) -> (r: Self)
        ensures
            r@ == RouterView::start(chrome_pid, warmup_count, warmup_url@),
            r@.fits(),
    {
        let r = Router {
            next_id: 1,
            clients: HashMap::new(),
            pending: HashMap::new(),
            owners: StringHashMap::new(),
            pool: PagePool::new(),
            chrome_pid,
            warmup_count,
            warmup_url,
        };
        assert(client_views(r.clients@) =~= Map::empty());
        assert(owner_views(r.pending@) =~= Map::empty());
        r
    }

    /// Whether a client is connected.
    fn connected(&self, client_id: u64) -> (r: bool)
        ensures
            r == self@.clients.dom().contains(client_id),
    {
        self.clients.contains_key(&client_id)
    }

    /// The request that is to be answered, where its client is connected as it asks.
    fn hear(&self, asker: Asker) -> (r: Option<Asker>)
        ensures
            r == self@.heard(asker),
    {
        if self.connected(asker.client_id) {
            Some(asker)
        } else {
            None
        }
    }

    /// Whether a job is under way whose end the client will be told.
    pub fn owes(&self, client_id: u64) -> (r: bool)
        ensures
            r == self@.owes(client_id),
    {
        let mut r: bool = false;
        for owner in iter: self.pending.values()
            invariant
                iter.seq().unref().to_set() == self.pending@.values(),
                r ==> self@.owes(client_id),
                !r ==> forall|i: int|
                    0 <= i < iter.index() ==> !(#[trigger] iter.seq()[i])@.owes(client_id),
                iter.index() == iter.seq().len() ==> r == self@.owes(client_id),
        {
            assert(iter.seq().unref()[iter.index()] == *owner);
            assert(iter.seq().unref().to_set().contains(*owner));
            assert(self.pending@.values().contains(*owner));
            let ghost k = choose|k: u64|
                self.pending@.dom().contains(k) && #[trigger] self.pending@[k] == *owner;
            if let Owner::Internal { job } = owner {
                if let Some(a) = job.asker() {
                    if a.client_id == client_id {
                        r = true;
                        assert(self@.pending.dom().contains(k) && self@.pending[k].owes(client_id));
                    }
                }
            }
            assert forall|k: u64|
                self.pending@.dom().contains(k) && iter.index() + 1 == iter.seq().len()
                    && !r implies !(#[trigger] self.pending@[k])@.owes(client_id) by {
                assert(self.pending@.values().contains(self.pending@[k]));
                assert(iter.seq().unref().to_set().contains(self.pending@[k]));
                assert(exists|i: int|
                    0 <= i < iter.seq().len() && #[trigger] iter.seq().unref()[i]
                        == self.pending@[k]);
            }
        }
        r
    }

    /// The numbers of the connected clients.
    fn client_ids(&self) -> (r: Vec<u64>)
        ensures
            r@.no_duplicates(),
            r@.to_set() == self@.clients.dom(),
    {
        let mut r: Vec<u64> = Vec::new();
        for id in iter: self.clients.keys()
            invariant
                iter.seq().unref().to_set() == self.clients@.dom(),
                iter.seq().no_duplicates(),
                r@ == iter.seq().unref().take(iter.index()),
                iter.index() == iter.seq().len() ==> r@.no_duplicates() && r@.to_set()
                    == self.clients@.dom(),
        {
            r.push(*id);
            assert(r@ =~= iter.seq().unref().take(iter.index() + 1));
            assert(iter.index() + 1 == iter.seq().len() ==> r@ =~= iter.seq().unref());
        }
        assert(self@.clients.dom() =~= self.clients@.dom());
        r
    }

    /// Forgets a page that is closed.
    fn forget_page(&mut self, target_id: &String)
        requires
            old(self)@.fits(),
        ensures
            final(self)@ == old(self)@.forgetting_page(target_id@),
            final(self)@.fits(),
    {
        let ids = self.client_ids();
        let ghost start = self@;
        assert(start.clients.dom() =~= self.clients@.dom());
        proof {
            forgetting_ends(start, target_id@);
        }
        assert(ids@.take(0).to_set() =~= Set::empty());
        let mut i: usize = 0;
        while i < ids.len()
            invariant
                i <= ids@.len(),
                ids@.no_duplicates(),
                ids@.to_set() == start.clients.dom(),
                start.clients.dom().finite(),
                self@.fits(),
                self@ == start.forgetting_among(target_id@, ids@.take(i as int).to_set()),
            decreases ids@.len() - i,
        {
            let c: u64 = ids[i];
            let ghost done = ids@.take(i as int).to_set();
            let ghost before = self@;
            assert(ids@.to_set().contains(c));
            assert(!done.contains(c));
            assert(ids@.take(i + 1).to_set() =~= done.insert(c)) by {
                assert(ids@.take(i + 1) =~= ids@.take(i as int).push(c));
                assert forall|x: u64|
                    ids@.take(i + 1).contains(x) <==> done.insert(c).contains(x) by {
                    if ids@.take(i as int).contains(x) {
                        let j = choose|j: int| 0 <= j < i && ids@.take(i as int)[j] == x;
                        assert(ids@.take(i + 1)[j] == x);
                    }
                    assert(ids@.take(i + 1)[i as int] == c);
                }
            }
            proof {
                forgetting_one_more(start, target_id@, done, c);
            }
            match self.clients.remove(&c) {
                Some(sessions) => {
                    let ghost without = self@;
                    let now = drop_target(&sessions, target_id);
                    let gone = pick_target(&sessions, target_id);
                    self.drop_sessions(&gone);
                    proof {
                        dropping_agrees(before, without, session_views(gone@));
                    }
                    let ghost others = self.clients@;
                    self.clients.insert(c, now);
                    assert(client_views(self.clients@) =~= client_views(others).insert(
                        c,
                        session_views(now@),
                    ));
                    assert(self@.clients =~= before.clients.insert(c, session_views(now@)));
                },
                None => {},
            }
            i = i + 1;
        }
        assert(ids@.take(ids@.len() as int) =~= ids@);
    }

    /// Adds the sending of a message to the actions.
    fn tell(&self, reply: Reply, actions: &mut Vec<Action>)
        requires
            commands_fit_records(old(actions)@),
        ensures
            commands_fit_records(final(actions)@),
            action_views(final(actions)@) == action_views(old(actions)@) + self@.telling(reply@),
    {
        if self.connected(reply.client_id) {
            let action = Action::Reply { reply };
            actions.push(action);
            assert(action_views(actions@) =~= action_views(old(actions)@) + seq![action@]);
        } else {
            assert(action_views(actions@) =~= action_views(old(actions)@) + Seq::empty());
        }
    }

    /// Gives the next number to a call.
    fn number(&mut self, owner: Owner) -> (r: u64)
        requires
            old(self)@.fits(),
            owner@ matches OwnerView::Internal { job } ==> job.fits(),
        ensures
            final(self)@ == old(self)@.numbered(owner@),
            r == old(self)@.next_id,
            final(self)@.fits(),
    {
        let chrome_id: u64 = self.next_id;
        self.next_id = chrome_id.wrapping_add(1);
        self.pending.insert(chrome_id, owner);
        assert(owner_views(self.pending@) =~= owner_views(old(self).pending@).insert(
            chrome_id,
            owner@,
        ));
        chrome_id
    }

    /// Makes the call that a job stands at.
    fn call(&mut self, job: Job, actions: &mut Vec<Action>)
        requires
            old(self)@.fits(),
            job@.fits(),
            commands_fit_records(old(actions)@),
        ensures
            final(self)@ == old(self)@.calling(job@).0,
            final(self)@.fits(),
            commands_fit_records(final(actions)@),
            action_views(final(actions)@) == action_views(old(actions)@) + old(self)@.calling(
                job@,
            ).1,
    {
        let call = job.call();
        let chrome_id = self.number(Owner::Internal { job });
        let action = match cdp_call(chrome_id, &call) {
            Ok(bytes) => Action::ToChrome { chrome_id, bytes, timed: true },
            Err(error) => Action::Fail { chrome_id, error },
        };
        actions.push(action);
        assert(action_views(actions@) =~= action_views(old(actions)@) + seq![action@]);
    }

    /// Keeps a session, for as long as the client that it was opened for stays.
    fn attach(&mut self, a: Attached)
        requires
            old(self)@.fits(),
        ensures
            final(self)@ == old(self)@.attaching(Some(a@)),
            final(self)@.fits(),
    {
        match self.clients.remove(&a.client_id) {
            Some(sessions) => {
                let session = Session {
                    session_id: a.session_id.clone(),
                    target_id: a.page.target_id,
                    context_id: a.page.browser_context_id,
                };
                let (now, replaced) = put_session(sessions, session);
                self.clients.insert(a.client_id, now);
                if replaced {
                    self.pool.released();
                }
                self.owners.insert(a.session_id, a.client_id);
                assert(client_views(self.clients@) =~= client_views(old(self).clients@).insert(
                    a.client_id,
                    session_views(now@),
                ));
            },
            None => {
                self.pool.released();
                assert(client_views(self.clients@) =~= client_views(old(self).clients@));
            },
        }
    }

    /// Forgets sessions.
    fn drop_sessions(&mut self, sessions: &Vec<Session>)
        requires
            old(self)@.fits(),
        ensures
            final(self)@ == old(self)@.dropping(session_views(sessions@)),
            final(self)@.fits(),
    {
        let ghost all = session_views(sessions@);
        let mut i: usize = 0;
        while i < sessions.len()
            invariant
                i <= sessions@.len(),
                all == session_views(sessions@),
                self@.fits(),
                self@ == old(self)@.dropping(all.take(i as int)),
            decreases sessions@.len() - i,
        {
            assert(all.take(i + 1).drop_last() =~= all.take(i as int));
            self.owners.remove(sessions[i].session_id.as_str());
            self.pool.released();
            i = i + 1;
        }
        assert(all.take(all.len() as int) =~= all);
    }

    /// Whether pages are being warmed up.
    fn warming(&self) -> (r: bool)
        ensures
            r == self@.warming(),
    {
        let mut r: bool = false;
        for owner in iter: self.pending.values()
            invariant
                iter.seq().unref().to_set() == self.pending@.values(),
                r ==> self@.warming(),
                !r ==> forall|i: int|
                    0 <= i < iter.index() ==> !(#[trigger] iter.seq()[i])@.warms(),
                iter.index() == iter.seq().len() ==> r == self@.warming(),
        {
            assert(iter.seq().unref()[iter.index()] == *owner);
            assert(iter.seq().unref().to_set().contains(*owner));
            assert(self.pending@.values().contains(*owner));
            let ghost k = choose|k: u64|
                self.pending@.dom().contains(k) && #[trigger] self.pending@[k] == *owner;
            if let Owner::Internal { job } = owner {
                if job.warms() {
                    r = true;
                    assert(self@.pending.dom().contains(k) && self@.pending[k].warms());
                }
            }
            assert forall|k: u64|
                self.pending@.dom().contains(k) && iter.index() + 1 == iter.seq().len()
                    && !r implies !(#[trigger] self.pending@[k])@.warms() by {
                assert(self.pending@.values().contains(self.pending@[k]));
                assert(iter.seq().unref().to_set().contains(self.pending@[k]));
                assert(exists|i: int|
                    0 <= i < iter.seq().len() && #[trigger] iter.seq().unref()[i]
                        == self.pending@[k]);
            }
        }
        r
    }

    /// Does what the answer to a job brings about.
    fn proceed(&mut self, p: Progress, actions: &mut Vec<Action>)
        requires
            old(self)@.fits(),
            p@.next matches Some(job) ==> job.fits(),
            p@.taken ==> old(self)@.pool.active < usize::MAX,
            commands_fit_records(old(actions)@),
        ensures
            final(self)@ == old(self)@.progressing(p@).0,
            final(self)@.fits(),
            commands_fit_records(final(actions)@),
            action_views(final(actions)@) == action_views(old(actions)@) + old(self)@.progressing(
                p@,
            ).1,
    {
        let ghost before = action_views(actions@);
        match p.stored {
            Some(page) => self.pool.push(page),
            None => {},
        }
        if p.taken {
            self.pool.taken();
        } else if p.given_back {
            self.pool.released();
        }
        match p.attached {
            Some(a) => self.attach(a),
            None => {},
        }
        let ghost kept = self@;
        match p.reply {
            Some(reply) => {
                let action = Action::Reply { reply };
                actions.push(action);
                assert(action_views(actions@) =~= before + seq![action@]);
            },
            None => {
                assert(before + Seq::<ActionView>::empty() =~= before);
            },
        }
        let ghost told = match p@.reply {
            Some(reply) => seq![ActionView::Reply { reply }],
            None => Seq::empty(),
        };
        assert(action_views(actions@) == before + told);
        match p.next {
            Some(job) => {
                self.call(job, actions);
                assert(before + told + kept.calling(job@).1 =~= before + (told + kept.calling(
                    job@,
                ).1));
            },
            None => {},
        }
    }

    /// Sends an error to the client that asked.
    fn send_error(&self, asker: Asker, message: String, actions: &mut Vec<Action>)
        requires
            commands_fit_records(old(actions)@),
        ensures
            commands_fit_records(final(actions)@),
            action_views(final(actions)@) == action_views(old(actions)@) + self@.telling(
                error_reply(asker, message@),
            ),
    {
        let reply = Reply {
            client_id: asker.client_id,
            msg: DaemonMsg::Error { id: asker.id, message },
        };
        self.tell(reply, actions);
    }

    /// Forgets who waits for an answer, and gives it.
    fn take_owner(&mut self, chrome_id: u64) -> (r: Option<Owner>)
        requires
            old(self)@.fits(),
        ensures
            final(self)@.fits(),
            match r {
                Some(owner) => old(self)@.pending.dom().contains(chrome_id)
                    && old(self)@.pending[chrome_id] == owner@ && final(self)@
                    == old(self)@.answered(chrome_id),
                None => !old(self)@.pending.dom().contains(chrome_id) && final(self)@
                    == old(self)@,
            },
    {
        let r = self.pending.remove(&chrome_id);
        match &r {
            Some(_) => {
                assert(owner_views(self.pending@) =~= owner_views(old(self).pending@).remove(
                    chrome_id,
                ));
            },
            None => {
                assert(owner_views(self.pending@) =~= owner_views(old(self).pending@));
            },
        }
        r
    }

    /// Serves a request of a client, this long after the daemon was started.
    pub fn handle_client_msg(&mut self, client_id: u64, msg: ClientMsg, uptime_secs: u64) -> (r:
        Vec<Action>)
        requires
            old(self)@.fits(),
            old(self)@.has_room(EventView::FromClient { client_id, msg: msg@, uptime_secs }),
        ensures
            (final(self)@, action_views(r@)) == old(self)@.from_client(
                client_id,
                msg@,
                uptime_secs,
            ),
            final(self)@.fits(),
            commands_fit_records(r@),
    {
        let mut actions: Vec<Action> = Vec::new();
        let ghost none = action_views(actions@);
        assert(none =~= Seq::<ActionView>::empty());
        match msg {
            ClientMsg::Cdp { id, method, params, session_id } => {
                let asker = Asker { client_id, id };
                let call = Call { method, params, session_id };
                let chrome_id = self.number(Owner::Client { asker });
                match cdp_call(chrome_id, &call) {
                    Ok(bytes) => {
                        let action = Action::ToChrome { chrome_id, bytes, timed: false };
                        actions.push(action);
                        assert(action_views(actions@) =~= seq![action@]);
                    },
                    Err(e) => {
                        let ghost reply = error_reply(asker, "serialize: "@ + e.text());
                        self.send_error(
                            asker,
                            joined("serialize: ", e.message().as_str()),
                            &mut actions,
                        );
                        assert(none + self@.telling(reply) =~= self@.telling(reply));
                    },
                }
            },
            ClientMsg::Acquire { id } => {
                let asker = self.hear(Asker { client_id, id });
                let job = match self.pool.acquire() {
                    Some(page) => Job::Attach { page, asker },
                    None => Job::CreatePage {
                        url: "about:blank".to_owned(),
                        stage: PageStage::Context,
                        goal: Goal::Acquire { asker },
                    },
                };
                let ghost before = self@;
                self.call(job, &mut actions);
                assert(none + before.calling(job@).1 =~= before.calling(job@).1);
                self.refill(&mut actions);
            },
            ClientMsg::Release { id, target_id } => {
                let context_id: Option<String> = match self.clients.get(&client_id) {
                    Some(sessions) => Some(find_context(sessions, &target_id)),
                    None => None,
                };
                match context_id {
                    Some(context_id) => {
                        self.forget_page(&target_id);
                        let job = Job::Close {
                            target_id,
                            context_id,
                            stage: CloseStage::Target,
                            asker: Some(Asker { client_id, id }),
                        };
                        let ghost before = self@;
                        self.call(job, &mut actions);
                        assert(none + before.calling(job@).1 =~= before.calling(job@).1);
                    },
                    None => {},
                }
            },
            ClientMsg::Warmup { id, count, url } => {
                let p = warmup_progress(url, self.hear(Asker { client_id, id }), count, 0);
                self.proceed(p, &mut actions);
                assert(none + old(self)@.progressing(p@).1 =~= old(self)@.progressing(p@).1);
            },
            ClientMsg::Status { id } => {
                let reply = Reply {
                    client_id,
                    msg: DaemonMsg::StatusResponse {
                        id,
                        pool_available: self.pool.available(),
                        active_sessions: self.pool.active(),
                        chrome_pid: self.chrome_pid,
                        uptime_secs,
                    },
                };
                self.tell(reply, &mut actions);
                assert(none + self@.telling(reply@) =~= self@.telling(reply@));
            },
        }
        actions
    }

    /// Passes on what Chrome says.
    pub fn handle_chrome_msg(&mut self, msg: ChromeMsg) -> (r: Vec<Action>)
        requires
            old(self)@.fits(),
            old(self)@.has_room(EventView::FromChrome { msg: msg@ }),
        ensures
            (final(self)@, action_views(r@)) == old(self)@.from_chrome(msg@),
            final(self)@.fits(),
            commands_fit_records(r@),
    {
        let mut actions: Vec<Action> = Vec::new();
        let ghost none = action_views(actions@);
        assert(none =~= Seq::<ActionView>::empty());
        match msg {
            ChromeMsg::Response { id, payload } => match self.take_owner(id) {
                Some(Owner::Internal { job }) => {
                    let ghost before = self@;
                    let result = cdp_call_result(&payload);
                    proof {
                        progress_fits(job@, call_result(result));
                    }
                    let p = job.progress(result);
                    self.proceed(p, &mut actions);
                    assert(none + before.progressing(p@).1 =~= before.progressing(p@).1);
                },
                Some(Owner::Client { asker }) => {
                    let reply = Reply {
                        client_id: asker.client_id,
                        msg: DaemonMsg::CdpResponse { id: asker.id, payload },
                    };
                    self.tell(reply, &mut actions);
                    assert(none + self@.telling(reply@) =~= self@.telling(reply@));
                },
                None => {},
            },
            ChromeMsg::Event { method, params, session_id } => match session_id {
                Some(s) => {
                    let client_id: Option<u64> = match self.owners.get(s.as_str()) {
                        Some(c) => Some(*c),
                        None => None,
                    };
                    match client_id {
                        Some(client_id) => {
                            let reply = Reply {
                                client_id,
                                msg: DaemonMsg::CdpEvent { method, params, session_id: Some(s) },
                            };
                            self.tell(reply, &mut actions);
                            assert(none + self@.telling(reply@) =~= self@.telling(reply@));
                        },
                        None => {},
                    }
                },
                None => {},
            },
        }
        actions
    }

    /// Takes note that a call of the daemon's own has failed.
    pub fn call_failed(&mut self, chrome_id: u64, error: CdpError) -> (r: Vec<Action>)
        requires
            old(self)@.fits(),
        ensures
            (final(self)@, action_views(r@)) == old(self)@.failing(chrome_id, error.text()),
            final(self)@.fits(),
            commands_fit_records(r@),
    {
        let mut actions: Vec<Action> = Vec::new();
        let ghost none = action_views(actions@);
        assert(none =~= Seq::<ActionView>::empty());
        if self.is_internal(chrome_id) {
            match self.take_owner(chrome_id) {
                Some(Owner::Internal { job }) => {
                    let ghost before = self@;
                    let result: Result<serde_json::Value, CdpError> = Err(error);
                    proof {
                        progress_fits(job@, call_result(result));
                    }
                    let p = job.progress(result);
                    self.proceed(p, &mut actions);
                    assert(none + before.progressing(p@).1 =~= before.progressing(p@).1);
                },
                _ => {},
            }
        }
        actions
    }

    /// Whether the daemon itself waits for the answer to a call.
    fn is_internal(&self, chrome_id: u64) -> (r: bool)
        ensures
            r == (self@.pending.dom().contains(chrome_id) && self@.pending[chrome_id] is Internal),
    {
        match self.pending.get(&chrome_id) {
            Some(Owner::Internal { .. }) => true,
            _ => false,
        }
    }

    /// Takes note that a call of the daemon's own has not been answered in time.
    pub fn call_timed_out(&mut self, chrome_id: u64) -> (r: Vec<Action>)
        requires
            old(self)@.fits(),
        ensures
            (final(self)@, action_views(r@)) == old(self)@.timing_out(chrome_id),
            final(self)@.fits(),
            commands_fit_records(r@),
    {
        let method: Option<String> = match self.pending.get(&chrome_id) {
            Some(Owner::Internal { job }) => Some(job.call().method),
            _ => None,
        };
        match method {
            Some(method) => self.call_failed(chrome_id, CdpError::TimedOut { method }),
            None => {
                let actions: Vec<Action> = Vec::new();
                assert(action_views(actions@) =~= Seq::<ActionView>::empty());
                actions
            },
        }
    }

    /// Takes note that a command could not be sent, because the pipe to Chrome is
    /// closed.
    pub fn pipe_closed(&mut self, chrome_id: u64) -> (r: Vec<Action>)
        requires
            old(self)@.fits(),
        ensures
            (final(self)@, action_views(r@)) == old(self)@.pipe_closed(chrome_id),
            final(self)@.fits(),
            commands_fit_records(r@),
    {
        if self.is_internal(chrome_id) {
            return self.call_failed(chrome_id, CdpError::PipeClosed);
        }
        let mut actions: Vec<Action> = Vec::new();
        let ghost none = action_views(actions@);
        assert(none =~= Seq::<ActionView>::empty());
        let asker: Option<Asker> = match self.pending.get(&chrome_id) {
            Some(Owner::Client { asker }) => Some(*asker),
            _ => None,
        };
        match asker {
            Some(asker) => {
                let ghost reply = error_reply(asker, "Chrome pipe closed"@);
                self.send_error(asker, "Chrome pipe closed".to_owned(), &mut actions);
                assert(none + self@.telling(reply) =~= self@.telling(reply));
            },
            None => {},
        }
        actions
    }

    /// Takes note of a client.
    pub fn client_connected(&mut self, client_id: u64)
        requires
            old(self)@.fits(),
        ensures
            final(self)@ == old(self)@.connecting(client_id),
            final(self)@.fits(),
    {
        match self.clients.remove(&client_id) {
            Some(sessions) => {
                let ghost without = self@;
                self.drop_sessions(&sessions);
                proof {
                    dropping_agrees(old(self)@, without, session_views(sessions@));
                }
            },
            None => {
                assert(self@.clients =~= old(self)@.clients);
            },
        }
        let none: Vec<Session> = Vec::new();
        assert(session_views(none@) =~= Seq::<SessionView>::empty());
        let ghost others = self.clients@;
        self.clients.insert(client_id, none);
        assert(client_views(self.clients@) =~= client_views(others).insert(client_id, Seq::empty()));
        assert(self@.clients =~= old(self)@.clients.insert(client_id, Seq::empty()));
    }

    /// Closes the pages of a client that has gone.
    pub fn client_disconnected(&mut self, client_id: u64) -> (r: Vec<Action>)
        requires
            old(self)@.fits(),
        ensures
            (final(self)@, action_views(r@)) == old(self)@.disconnecting(client_id),
            final(self)@.fits(),
            commands_fit_records(r@),
    {
        let mut actions: Vec<Action> = Vec::new();
        assert(action_views(actions@) =~= Seq::<ActionView>::empty());
        match self.clients.remove(&client_id) {
            Some(sessions) => {
                let ghost gone = self@;
                let ghost all = session_views(sessions@);
                assert(gone.clients =~= old(self)@.clients.remove(client_id));
                let mut i: usize = 0;
                while i < sessions.len()
                    invariant
                        i <= sessions@.len(),
                        all == session_views(sessions@),
                        self@.fits(),
                        commands_fit_records(actions@),
                        (self@, action_views(actions@)) == gone.closing_all(all.take(i as int)),
                    decreases sessions@.len() - i,
                {
                    assert(all.take(i + 1).drop_last() =~= all.take(i as int));
                    let session = &sessions[i];
                    self.owners.remove(session.session_id.as_str());
                    self.pool.released();
                    let job = Job::Close {
                        target_id: session.target_id.clone(),
                        context_id: session.context_id.clone(),
                        stage: CloseStage::Target,
                        asker: None,
                    };
                    self.call(job, &mut actions);
                    i = i + 1;
                }
                assert(all.take(all.len() as int) =~= all);
            },
            None => {
                assert(client_views(self.clients@) =~= client_views(old(self).clients@));
            },
        }
        actions
    }

    /// Fills the pool again where it is empty, unless pages are being warmed up.
    fn refill(&mut self, actions: &mut Vec<Action>)
        requires
            old(self)@.fits(),
            commands_fit_records(old(actions)@),
        ensures
            final(self)@ == old(self)@.refilling().0,
            final(self)@.fits(),
            commands_fit_records(final(actions)@),
            action_views(final(actions)@) == action_views(old(actions)@) + old(
                self,
            )@.refilling().1,
    {
        if self.pool.available() == 0 && !self.warming() {
            let p = warmup_progress(self.warmup_url.clone(), None, self.warmup_count, 0);
            self.proceed(p, actions);
        } else {
            assert(action_views(actions@) + Seq::<ActionView>::empty() =~= action_views(actions@));
        }
    }

    /// Starts to warm up pages.
    pub fn warm(&mut self, count: usize, url: String) -> (r: Vec<Action>)
        requires
            old(self)@.fits(),
        ensures
            (final(self)@, action_views(r@)) == old(self)@.progressing(
                warmup_rest(url@, None, count, 0),
            ),
            final(self)@.fits(),
            commands_fit_records(r@),
    {
        let mut actions: Vec<Action> = Vec::new();
        let ghost none = action_views(actions@);
        assert(none =~= Seq::<ActionView>::empty());
        let p = warmup_progress(url, None, count, 0);
        self.proceed(p, &mut actions);
        assert(none + old(self)@.progressing(p@).1 =~= old(self)@.progressing(p@).1);
        actions
    }

    /// Takes an event and says what is to be done about it.
    pub fn step(&mut self, event: RouterEvent) -> (r: Vec<Action>)
        requires
            old(self)@.fits(),
            old(self)@.has_room(event@),
        ensures
            (final(self)@, action_views(r@)) == old(self)@.on(event@),
            final(self)@.fits(),
            commands_fit_records(r@),
    {
        match event {
            RouterEvent::ClientConnected { client_id } => {
                self.client_connected(client_id);
                let actions: Vec<Action> = Vec::new();
                assert(action_views(actions@) =~= Seq::<ActionView>::empty());
                actions
            },
            RouterEvent::ClientDisconnected { client_id } => self.client_disconnected(client_id),
            RouterEvent::FromClient { client_id, msg, uptime_secs } => self.handle_client_msg(
                client_id,
                msg,
                uptime_secs,
            ),
            RouterEvent::FromChrome { msg } => self.handle_chrome_msg(msg),
            RouterEvent::Warm { count, url } => self.warm(count, url),
            RouterEvent::PipeClosed { chrome_id } => self.pipe_closed(chrome_id),
            RouterEvent::CallFailed { chrome_id, error } => self.call_failed(chrome_id, error),
            RouterEvent::CallTimedOut { chrome_id } => self.call_timed_out(chrome_id),
        }
    }

    /// Whether one more page can be counted, where the event can make a client get a page.
    pub fn has_room_for(&self, event: &RouterEvent) -> (r: bool)
        ensures
            r == self@.has_room(event@),
    {
        let can_take = match event {
            RouterEvent::FromClient { msg: ClientMsg::Acquire { .. }, .. } =>
            self.pool.available() > 0,
            RouterEvent::FromChrome { msg: ChromeMsg::Response { id, .. } } =>
            match self.pending.get(id) {
                Some(Owner::Internal { job }) => job.can_take(),
                _ => false,
            },
            _ => false,
        };
        !can_take || self.pool.active() < usize::MAX
    }
}

} // verus!
