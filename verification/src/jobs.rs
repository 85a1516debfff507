//! The daemon's own dealings with Chrome, which take several calls each.
//!
//! A job stands at a call that Chrome has not answered. The answer decides what the
//! job has brought about and at which call, if any, it goes on.
use crate::pool::{
    attach_call, attach_target, attach_target_result, attached_session, call_result, close_call,
    close_next, close_page, close_page_next, create_warm_page, create_warm_page_step, page_call,
    page_step, Call, CallResult, CallView, CdpError, CloseStage, PageStage, PageStageView, PageStep,
    PageStepView, PageView, WarmPage,
};
use crate::json::Json;
use crate::protocol::{DaemonMsg, DaemonMsgView};
use crate::text::joined;
use vstd::prelude::*;

verus! {

/// A request that waits for its answer: who asked, and under which number.
#[derive(Clone, Copy, PartialEq, Eq, Structural)]
pub struct Asker {
    pub client_id: u64,
    pub id: u64,
}

/// What a page is created for.
#[derive(Clone, Copy)]
#[allow(inconsistent_fields)]
pub enum Goal {
    /// For a client to use, if there is one.
    Acquire { asker: Option<Asker> },
    /// For the pool. After this page `left` more are to be created; `created` have
    /// been, and the asker, if there is one, is told how many in the end.
    Warmup { asker: Option<Asker>, left: usize, created: usize },
}

impl Goal {
    /// The counts add up to no more than a `usize` holds.
    pub open spec fn fits(self) -> bool {
        match self {
            Goal::Acquire { .. } => true,
            Goal::Warmup { left, created, .. } => left + created < usize::MAX,
        }
    }
}

/// A dealing with Chrome, at one of its calls.
#[allow(inconsistent_fields)]
pub enum Job {
    /// A page that shows `url` is created.
    CreatePage { url: String, stage: PageStage, goal: Goal },
    /// A page is attached to, for a client to use, if there is one.
    Attach { page: WarmPage, asker: Option<Asker> },
    /// A page is closed. The asker, if there is one, is told in the end.
    Close { target_id: String, context_id: String, stage: CloseStage, asker: Option<Asker> },
}

/// A [`Job`] with texts in place of what holds them.
#[allow(inconsistent_fields)]
pub enum JobView {
    CreatePage { url: Seq<char>, stage: PageStageView, goal: Goal },
    Attach { page: PageView, asker: Option<Asker> },
    Close { target_id: Seq<char>, context_id: Seq<char>, stage: CloseStage, asker: Option<Asker> },
}

impl View for Job {
    type V = JobView;

    open spec fn view(&self) -> JobView {
        match *self {
            Job::CreatePage { url, stage, goal } => JobView::CreatePage {
                url: url@,
                stage: stage@,
                goal,
            },
            Job::Attach { page, asker } => JobView::Attach { page: page@, asker },
            Job::Close { target_id, context_id, stage, asker } => JobView::Close {
                target_id: target_id@,
                context_id: context_id@,
                stage,
                asker,
            },
        }
    }
}

impl JobView {
    /// The call that the job stands at.
    pub open spec fn call(self) -> CallView {
        match self {
            JobView::CreatePage { url, stage, .. } => page_call(url, stage),
            JobView::Attach { page, .. } => attach_call(page.target_id),
            JobView::Close { target_id, context_id, stage, .. } => close_call(
                target_id,
                context_id,
                stage,
            ),
        }
    }

    /// The job is to warm up pages.
    pub open spec fn warms(self) -> bool {
        self matches JobView::CreatePage { goal, .. } && goal is Warmup
    }

    /// The answer to the call can be a page for a client, one that did not wait in the
    /// pool.
    pub open spec fn can_take(self) -> bool {
        self matches JobView::CreatePage { stage, goal, .. } && stage is Target && goal is Acquire
    }

    /// The counts of the job add up to no more than a `usize` holds.
    pub open spec fn fits(self) -> bool {
        match self {
            JobView::CreatePage { goal, .. } => goal.fits(),
            _ => true,
        }
    }
}

/// A page that a client can use from now on.
pub struct Attached {
    pub client_id: u64,
    pub page: WarmPage,
    pub session_id: String,
}

/// An [`Attached`] with texts in place of what holds them.
pub struct AttachedView {
    pub client_id: u64,
    pub page: PageView,
    pub session_id: Seq<char>,
}

impl View for Attached {
    type V = AttachedView;

    open spec fn view(&self) -> AttachedView {
        AttachedView {
            client_id: self.client_id,
            page: self.page@,
            session_id: self.session_id@,
        }
    }
}

/// A message for a client.
pub struct Reply {
    pub client_id: u64,
    pub msg: DaemonMsg,
}

/// A [`Reply`] with texts and JSON values in place of what holds them.
pub struct ReplyView {
    pub client_id: u64,
    pub msg: DaemonMsgView,
}

impl View for Reply {
    type V = ReplyView;

    open spec fn view(&self) -> ReplyView {
        ReplyView { client_id: self.client_id, msg: self.msg@ }
    }
}

/// What an answer to a job brings about.
pub struct Progress {
    /// A page for the pool.
    pub stored: Option<WarmPage>,
    /// Whether a client gets a page that did not wait in the pool.
    pub taken: bool,
    /// Whether a client will not get a page that was taken for it.
    pub given_back: bool,
    /// A page for a client.
    pub attached: Option<Attached>,
    /// What a client is told.
    pub reply: Option<Reply>,
    /// The call at which the job goes on.
    pub next: Option<Job>,
}

/// A [`Progress`] with texts and JSON values in place of what holds them.
pub struct ProgressView {
    pub stored: Option<PageView>,
    pub taken: bool,
    pub given_back: bool,
    pub attached: Option<AttachedView>,
    pub reply: Option<ReplyView>,
    pub next: Option<JobView>,
}

/// The view of an option.
pub open spec fn opt_view<T: View>(x: Option<T>) -> Option<T::V> {
    match x {
        Some(y) => Some(y@),
        None => None,
    }
}

impl View for Progress {
    type V = ProgressView;

    open spec fn view(&self) -> ProgressView {
        ProgressView {
            stored: opt_view(self.stored),
            taken: self.taken,
            given_back: self.given_back,
            attached: opt_view(self.attached),
            reply: opt_view(self.reply),
            next: opt_view(self.next),
        }
    }
}

impl ProgressView {
    /// Nothing comes of the answer.
    pub open spec fn nothing() -> ProgressView {
        ProgressView {
            stored: None,
            taken: false,
            given_back: false,
            attached: None,
            reply: None,
            next: None,
        }
    }

    /// The job goes on at the call of `job`.
    pub open spec fn goes_on(job: JobView) -> ProgressView {
        ProgressView { next: Some(job), ..ProgressView::nothing() }
    }

    /// The asker is told `msg`.
    pub open spec fn tells(asker: Asker, msg: DaemonMsgView) -> ProgressView {
        ProgressView {
            reply: Some(ReplyView { client_id: asker.client_id, msg }),
            ..ProgressView::nothing()
        }
    }
}

/// How a request is told that it failed, and why.
pub open spec fn failure(asker: Option<Asker>, what: Seq<char>, why: Seq<char>) -> ProgressView {
    match asker {
        Some(a) => ProgressView::tells(a, DaemonMsgView::Error { id: a.id, message: what + why }),
        None => ProgressView::nothing(),
    }
}

/// How warming up goes on when `left` pages are still to be created and `created`
/// have been: with the next page, or with the count for the asker.
pub open spec fn warmup_rest(
    url: Seq<char>,
    asker: Option<Asker>,
    left: usize,
    created: usize,
) -> ProgressView {
    if left > 0 {
        ProgressView::goes_on(
            JobView::CreatePage {
                url,
                stage: PageStageView::Context,
                goal: Goal::Warmup { asker, left: (left - 1) as usize, created },
            },
        )
    } else {
        match asker {
            Some(a) => ProgressView::tells(a, DaemonMsgView::WarmupDone { id: a.id, count: created }),
            None => ProgressView::nothing(),
        }
    }
}

/// What the answer to the call of `job` brings about.
pub open spec fn job_progress(job: JobView, result: CallResult) -> ProgressView {
    match job {
        JobView::CreatePage { url, stage, goal } => match page_step(stage, result) {
            PageStepView::Next(s) => ProgressView::goes_on(
                JobView::CreatePage { url, stage: s, goal },
            ),
            PageStepView::Done(page) => match goal {
                Goal::Acquire { asker } => ProgressView {
                    taken: true,
                    ..ProgressView::goes_on(JobView::Attach { page, asker })
                },
                Goal::Warmup { asker, left, created } => ProgressView {
                    stored: Some(page),
                    ..warmup_rest(url, asker, left, (created + 1) as usize)
                },
            },
            PageStepView::Failed(e) => match goal {
                Goal::Acquire { asker } => failure(asker, "create page: "@, e),
                Goal::Warmup { asker, left, created } => warmup_rest(url, asker, left, created),
            },
        },
        JobView::Attach { page, asker } => match attached_session(result) {
            Ok(s) => match asker {
                Some(a) => ProgressView {
                    attached: Some(AttachedView { client_id: a.client_id, page, session_id: s }),
                    ..ProgressView::tells(
                        a,
                        DaemonMsgView::Acquired {
                            id: a.id,
                            target_id: page.target_id,
                            session_id: s,
                        },
                    )
                },
                None => ProgressView { given_back: true, ..ProgressView::nothing() },
            },
            Err(e) => ProgressView { given_back: true, ..failure(asker, "attach: "@, e) },
        },
        JobView::Close { target_id, context_id, stage, asker } => match close_next(
            context_id,
            stage,
        ) {
            Some(s) => ProgressView::goes_on(
                JobView::Close { target_id, context_id, stage: s, asker },
            ),
            None => match asker {
                Some(a) => ProgressView::tells(a, DaemonMsgView::Released { id: a.id }),
                None => ProgressView::nothing(),
            },
        },
    }
}

impl Progress {
    fn nothing() -> (r: Progress)
        ensures
            r@ == ProgressView::nothing(),
    {
        Progress {
            stored: None,
            taken: false,
            given_back: false,
            attached: None,
            reply: None,
            next: None,
        }
    }

    fn goes_on(job: Job) -> (r: Progress)
        ensures
            r@ == ProgressView::goes_on(job@),
    {
        Progress { next: Some(job), ..Progress::nothing() }
    }

    fn tells(asker: Asker, msg: DaemonMsg) -> (r: Progress)
        ensures
            r@ == ProgressView::tells(asker, msg@),
    {
        Progress {
            reply: Some(Reply { client_id: asker.client_id, msg }),
            ..Progress::nothing()
        }
    }

    fn failure(asker: Option<Asker>, what: &str, why: &CdpError) -> (r: Progress)
        ensures
            r@ == failure(asker, what@, why.text()),
    {
        match asker {
            Some(a) => {
                let message = joined(what, why.message().as_str());
                Progress::tells(a, DaemonMsg::Error { id: a.id, message })
            },
            None => Progress::nothing(),
        }
    }
}

/// How warming up goes on when `left` pages are still to be created and `created`
/// have been.
pub fn warmup_progress(url: String, asker: Option<Asker>, left: usize, created: usize) -> (r:
    Progress)
    ensures
        r@ == warmup_rest(url@, asker, left, created),
{
    if left > 0 {
        Progress::goes_on(
            Job::CreatePage {
                url,
                stage: PageStage::Context,
                goal: Goal::Warmup { asker, left: left - 1, created },
            },
        )
    } else {
        match asker {
            Some(a) => Progress::tells(a, DaemonMsg::WarmupDone { id: a.id, count: created }),
            None => Progress::nothing(),
        }
    }
}

impl Job {
    /// The request that the job serves.
    pub fn asker(&self) -> (r: Option<Asker>)
        ensures
            r == self@.asker(),
    {
        match self {
            Job::CreatePage { goal: Goal::Acquire { asker }, .. } => *asker,
            Job::CreatePage { goal: Goal::Warmup { asker, .. }, .. } => *asker,
            Job::Attach { asker, .. } => *asker,
            Job::Close { asker, .. } => *asker,
        }
    }

    /// Whether the job is to warm up pages.
    pub fn warms(&self) -> (r: bool)
        ensures
            r == self@.warms(),
    {
        match self {
            Job::CreatePage { goal: Goal::Warmup { .. }, .. } => true,
            _ => false,
        }
    }

    /// Whether the answer to the call can be a page for a client, one that did not wait
    /// in the pool.
    pub fn can_take(&self) -> (r: bool)
        ensures
            r == self@.can_take(),
    {
        match self {
            Job::CreatePage { stage: PageStage::Target { .. }, goal: Goal::Acquire { .. }, .. } =>
            true,
            _ => false,
        }
    }

    /// The call that the job stands at.
    pub fn call(&self) -> (r: Call)
        ensures
            r@ == self@.call(),
    {
        match self {
            Job::CreatePage { url, stage, .. } => create_warm_page(url.as_str(), stage),
            Job::Attach { page, .. } => attach_target(page.target_id.as_str()),
            Job::Close { target_id, context_id, stage, .. } => close_page(
                target_id.as_str(),
                context_id.as_str(),
                *stage,
            ),
        }
    }

    /// Takes the answer to the call and gives what it brings about.
    pub fn progress(self, result: Result<serde_json::Value, CdpError>) -> (r: Progress)
        requires
            self@.fits(),
        ensures
            r@ == job_progress(self@, call_result(result)),
    {
        match self {
            Job::CreatePage { url, stage, goal } => match create_warm_page_step(stage, result) {
                PageStep::Next(s) => Progress::goes_on(Job::CreatePage { url, stage: s, goal }),
                PageStep::Done(page) => match goal {
                    Goal::Acquire { asker } => {
                        let on = Progress::goes_on(Job::Attach { page, asker });
                        Progress { taken: true, ..on }
                    },
                    Goal::Warmup { asker, left, created } => {
                        let rest = warmup_progress(url, asker, left, created + 1);
                        Progress { stored: Some(page), ..rest }
                    },
                },
                PageStep::Failed(e) => match goal {
                    Goal::Acquire { asker } => Progress::failure(asker, "create page: ", &e),
                    Goal::Warmup { asker, left, created } => warmup_progress(
                        url,
                        asker,
                        left,
                        created,
                    ),
                },
            },
            Job::Attach { page, asker } => match attach_target_result(result) {
                Ok(session_id) => match asker {
                    Some(a) => {
                        let msg = DaemonMsg::Acquired {
                            id: a.id,
                            target_id: page.target_id.clone(),
                            session_id: session_id.clone(),
                        };
                        let told = Progress::tells(a, msg);
                        Progress {
                            attached: Some(Attached { client_id: a.client_id, page, session_id }),
                            ..told
                        }
                    },
                    None => Progress { given_back: true, ..Progress::nothing() },
                },
                Err(e) => {
                    let told = Progress::failure(asker, "attach: ", &e);
                    Progress { given_back: true, ..told }
                },
            },
            Job::Close { target_id, context_id, stage, asker } => match close_page_next(
                context_id.as_str(),
                stage,
            ) {
                Some(s) => Progress::goes_on(Job::Close { target_id, context_id, stage: s, asker }),
                None => match asker {
                    Some(a) => Progress::tells(a, DaemonMsg::Released { id: a.id }),
                    None => Progress::nothing(),
                },
            },
        }
    }
}

/// A job keeps its counts within bounds.
pub proof fn progress_fits(job: JobView, result: CallResult)
    requires
        job.fits(),
    ensures
        job_progress(job, result).next matches Some(next) ==> next.fits(),
{
}

impl JobView {
    /// The request that the job serves.
    pub open spec fn asker(self) -> Option<Asker> {
        match self {
            JobView::CreatePage { goal: Goal::Acquire { asker }, .. } => asker,
            JobView::CreatePage { goal: Goal::Warmup { asker, .. }, .. } => asker,
            JobView::Attach { asker, .. } => asker,
            JobView::Close { asker, .. } => asker,
        }
    }

    /// How many calls the job makes at most, with the one that it stands at.
    pub open spec fn calls(self) -> nat {
        match self {
            JobView::CreatePage { stage, goal, .. } => {
                let page: nat = match stage {
                    PageStageView::Context => 2,
                    PageStageView::Target { .. } => 1,
                };
                match goal {
                    Goal::Acquire { .. } => page + 1,
                    Goal::Warmup { left, .. } => page + 2 * (left as nat),
                }
            },
            JobView::Attach { .. } => 1,
            JobView::Close { stage, .. } => match stage {
                CloseStage::Target => 2,
                CloseStage::Context => 1,
            },
        }
    }
}

/// Whatever an answer is, the job either goes on for the same request, which is told
/// nothing yet, or ends; and when it ends, the request that it serves is answered,
/// under its number and to the client that made it.
pub proof fn request_is_answered_once(job: JobView, result: CallResult)
    ensures
        ({
            let p = job_progress(job, result);
            match p.next {
                Some(next) => next.asker() == job.asker() && p.reply is None,
                None => match job.asker() {
                    Some(a) => p.reply matches Some(r) && r.client_id == a.client_id
                        && r.msg.answers() == Some(a.id),
                    None => p.reply is None,
                },
            }
        }),
{
}

/// A job ends: every answer leaves fewer calls to make.
pub proof fn job_ends(job: JobView, result: CallResult)
    ensures
        job_progress(job, result).next matches Some(next) ==> next.calls() < job.calls(),
{
}

/// A page is created in a browser context that was created for it, and is known by
/// that context.
pub proof fn page_has_its_own_context(
    url: Seq<char>,
    goal: Goal,
    context_id: Seq<char>,
    target_id: Seq<char>,
    first: Json,
    second: Json,
)
    requires
        first.text_field("browserContextId"@) == Some(context_id),
        second.text_field("targetId"@) == Some(target_id),
    ensures
        ({
            let start = JobView::CreatePage { url, stage: PageStageView::Context, goal };
            let target = JobView::CreatePage {
                url,
                stage: PageStageView::Target { context_id },
                goal,
            };
            let page = PageView { browser_context_id: context_id, target_id };
            let p = job_progress(target, Ok(second));
            &&& start.call().method == "Target.createBrowserContext"@
            &&& job_progress(start, Ok(first)) == ProgressView::goes_on(target)
            &&& target.call().method == "Target.createTarget"@
            &&& target.call().params.text_field("browserContextId"@) == Some(context_id)
            &&& target.call().params.text_field("url"@) == Some(url)
            &&& match goal {
                Goal::Acquire { asker } => p.taken && p.next == Some(
                    JobView::Attach { page, asker },
                ),
                Goal::Warmup { .. } => p.stored == Some(page),
            }
        }),
{
    reveal_strlit("url");
    reveal_strlit("browserContextId");
    assert("url"@.len() != "browserContextId"@.len());
}

/// What a job brings about when it is given these answers one after another, for as
/// long as it goes on: the pages for the pool, the last message for a client, and
/// the call at which it then stands, if any.
pub open spec fn run_job(job: JobView, results: Seq<CallResult>) -> (
    Seq<PageView>,
    Option<ReplyView>,
    Option<JobView>,
)
    decreases results.len(),
{
    if results.len() == 0 {
        (Seq::empty(), None, Some(job))
    } else {
        let p = job_progress(job, results[0]);
        let stored = match p.stored {
            Some(page) => seq![page],
            None => Seq::empty(),
        };
        match p.next {
            Some(next) => {
                let (pages, reply, end) = run_job(next, results.drop_first());
                (stored + pages, reply, end)
            },
            None => (stored, p.reply, None),
        }
    }
}

proof fn warmup_run_counts(job: JobView, results: Seq<CallResult>)
    requires
        job.fits(),
        job matches JobView::CreatePage { goal, .. } && goal is Warmup,
        run_job(job, results).2 is None,
    ensures
        ({
            let (pages, reply, _) = run_job(job, results);
            let goal = job->goal;
            &&& pages.len() <= goal->left + 1
            &&& match goal->Warmup_asker {
                Some(a) => reply == Some(
                    ReplyView {
                        client_id: a.client_id,
                        msg: DaemonMsgView::WarmupDone {
                            id: a.id,
                            count: (goal->created + pages.len()) as usize,
                        },
                    },
                ),
                None => reply is None,
            }
        }),
    decreases results.len(),
{
    let p = job_progress(job, results[0]);
    if let Some(next) = p.next {
        warmup_run_counts(next, results.drop_first());
    }
}

/// When warming up has ended, the client is told how many pages were put into the
/// pool, and these are no more than it asked for.
pub proof fn warmup_tells_pages_stored(
    url: Seq<char>,
    asker: Asker,
    count: usize,
    results: Seq<CallResult>,
)
    requires
        count > 0,
        run_job(warmup_rest(url, Some(asker), count, 0).next->0, results).2 is None,
    ensures
        ({
            let (pages, reply, _) = run_job(
                warmup_rest(url, Some(asker), count, 0).next->0,
                results,
            );
            &&& pages.len() <= count
            &&& reply == Some(
                ReplyView {
                    client_id: asker.client_id,
                    msg: DaemonMsgView::WarmupDone { id: asker.id, count: pages.len() as usize },
                },
            )
        }),
{
    warmup_run_counts(warmup_rest(url, Some(asker), count, 0).next->0, results);
}

/// The answers to the calls that create a number of pages, all of them good.
pub open spec fn good_answers(results: Seq<CallResult>) -> bool {
    forall|i: int|
        0 <= i < results.len() ==> ((#[trigger] results[i]) matches Ok(j) && if i % 2 == 0 {
            j.text_field("browserContextId"@) is Some
        } else {
            j.text_field("targetId"@) is Some
        })
}

proof fn good_warmup_run(url: Seq<char>, asker: Option<Asker>, left: usize, created: usize, results:
    Seq<CallResult>)
    requires
        good_answers(results),
        results.len() == 2 * (left + 1),
        left + created < usize::MAX,
    ensures
        ({
            let job = JobView::CreatePage {
                url,
                stage: PageStageView::Context,
                goal: Goal::Warmup { asker, left, created },
            };
            let (pages, _, end) = run_job(job, results);
            pages.len() == left + 1 && end is None
        }),
    decreases left,
{
    reveal_with_fuel(run_job, 3);
    let goal = Goal::Warmup { asker, left, created };
    let job = JobView::CreatePage { url, stage: PageStageView::Context, goal };
    let first = results[0];
    let second = results[1];
    let p = job_progress(job, first);
    let rest = results.drop_first();
    assert(rest[0] == second);
    let p2 = job_progress(p.next->0, rest[0]);
    assert(p2.stored is Some);
    if left > 0 {
        let later = rest.drop_first();
        assert forall|i: int| 0 <= i < later.len() implies ((#[trigger] later[i]) matches Ok(j)
            && if i % 2 == 0 {
            j.text_field("browserContextId"@) is Some
        } else {
            j.text_field("targetId"@) is Some
        }) by {
            assert(later[i] == results[i + 2]);
        }
        good_warmup_run(url, asker, (left - 1) as usize, (created + 1) as usize, later);
    }
}

/// Where Chrome creates every page that it is asked for, warming up `count` pages
/// puts `count` pages into the pool and tells the client so.
pub proof fn warmup_creates_what_was_asked(
    url: Seq<char>,
    asker: Asker,
    count: usize,
    results: Seq<CallResult>,
)
    requires
        count > 0,
        results.len() == 2 * count,
        good_answers(results),
    ensures
        ({
            let (pages, reply, end) = run_job(
                warmup_rest(url, Some(asker), count, 0).next->0,
                results,
            );
            &&& end is None
            &&& pages.len() == count
            &&& reply == Some(
                ReplyView {
                    client_id: asker.client_id,
                    msg: DaemonMsgView::WarmupDone { id: asker.id, count },
                },
            )
        }),
{
    good_warmup_run(url, Some(asker), (count - 1) as usize, 0, results);
    warmup_tells_pages_stored(url, asker, count, results);
}

/// A job that goes on to create a page, the same or another, has it show the address that
/// it was to show from the start, whatever Chrome answers.
pub proof fn address_stays(url: Seq<char>, stage: PageStageView, goal: Goal, result: CallResult)
    ensures
        job_progress(JobView::CreatePage { url, stage, goal }, result).next matches Some(
            JobView::CreatePage { url: later, .. },
        ) ==> later == url,
{
}

/// A warm-up begins with a page that shows the given address, with one page less to
/// follow and none created; a warm-up of no pages is done at once.
pub proof fn warm_up_begins(url: Seq<char>, asker: Option<Asker>, count: usize)
    ensures
        count > 0 ==> warmup_rest(url, asker, count, 0) == (ProgressView {
            stored: None,
            taken: false,
            given_back: false,
            attached: None,
            reply: None,
            next: Some(
                JobView::CreatePage {
                    url,
                    stage: PageStageView::Context,
                    goal: Goal::Warmup { asker, left: (count - 1) as usize, created: 0 },
                },
            ),
        }),
        count == 0 ==> warmup_rest(url, asker, count, 0) == (ProgressView {
            stored: None,
            taken: false,
            given_back: false,
            attached: None,
            reply: match asker {
                Some(a) => Some(
                    ReplyView {
                        client_id: a.client_id,
                        msg: DaemonMsgView::WarmupDone { id: a.id, count: 0 },
                    },
                ),
                None => None,
            },
            next: None,
        }),
{
}

/// With its context, a page goes on to be created in it, for the same goal and with the
/// same address, and nothing else comes of the answer.
pub proof fn context_leads_to_page(
    url: Seq<char>,
    goal: Goal,
    others: Map<Seq<char>, Json>,
    context_id: Seq<char>,
)
    ensures
        job_progress(
            JobView::CreatePage { url, stage: PageStageView::Context, goal },
            Ok(Json::Object(others.insert("browserContextId"@, Json::Text(context_id)))),
        ) == (ProgressView {
            stored: None,
            taken: false,
            given_back: false,
            attached: None,
            reply: None,
            next: Some(
                JobView::CreatePage { url, stage: PageStageView::Target { context_id }, goal },
            ),
        }),
{
}

/// A page that was created for a client counts as taken and is attached to for that
/// client, and nothing else comes of the answer.
pub proof fn page_for_client_is_attached_to(
    url: Seq<char>,
    asker: Option<Asker>,
    context_id: Seq<char>,
    others: Map<Seq<char>, Json>,
    target_id: Seq<char>,
)
    ensures
        job_progress(
            JobView::CreatePage {
                url,
                stage: PageStageView::Target { context_id },
                goal: Goal::Acquire { asker },
            },
            Ok(Json::Object(others.insert("targetId"@, Json::Text(target_id)))),
        ) == (ProgressView {
            stored: None,
            taken: true,
            given_back: false,
            attached: None,
            reply: None,
            next: Some(
                JobView::Attach {
                    page: PageView { browser_context_id: context_id, target_id },
                    asker,
                },
            ),
        }),
{
}

/// A page that was created for the pool is stored and counted. Where more are to follow,
/// the next one is begun, with the same address and for the same request; otherwise
/// whoever asked is told how many were created.
pub proof fn page_for_pool_is_stored(
    url: Seq<char>,
    asker: Option<Asker>,
    left: usize,
    created: usize,
    context_id: Seq<char>,
    others: Map<Seq<char>, Json>,
    target_id: Seq<char>,
)
    requires
        created < usize::MAX,
    ensures
        ({
            let p = job_progress(
                JobView::CreatePage {
                    url,
                    stage: PageStageView::Target { context_id },
                    goal: Goal::Warmup { asker, left, created },
                },
                Ok(Json::Object(others.insert("targetId"@, Json::Text(target_id)))),
            );
            &&& p.stored == Some(PageView { browser_context_id: context_id, target_id })
            &&& !p.taken && !p.given_back && p.attached is None
            &&& left > 0 ==> p.reply is None && p.next == Some(
                JobView::CreatePage {
                    url,
                    stage: PageStageView::Context,
                    goal: Goal::Warmup {
                        asker,
                        left: (left - 1) as usize,
                        created: (created + 1) as usize,
                    },
                },
            )
            &&& left == 0 ==> p.next is None && p.reply == match asker {
                Some(a) => Some(
                    ReplyView {
                        client_id: a.client_id,
                        msg: DaemonMsgView::WarmupDone { id: a.id, count: (created + 1) as usize },
                    },
                ),
                None => None,
            }
        }),
{
}

/// The answer to the call of a page's stage is bad: an error, or without the name that was
/// asked for.
pub open spec fn bad_answer(stage: PageStageView, result: CallResult, why: Seq<char>) -> bool {
    let wanted = match stage {
        PageStageView::Context => "browserContextId"@,
        PageStageView::Target { .. } => "targetId"@,
    };
    match result {
        Err(e) => why == e,
        Ok(Json::Object(m)) => why == "missing "@ + wanted && (m.dom().contains(wanted) ==> !(m[
            wanted
        ] is Text)),
        Ok(_) => why == "missing "@ + wanted,
    }
}

/// A page that cannot be created for a client ends the job: the client is told why, and
/// nothing else comes of it.
pub proof fn client_is_told_why_no_page(
    url: Seq<char>,
    stage: PageStageView,
    asker: Option<Asker>,
    result: CallResult,
    why: Seq<char>,
)
    requires
        bad_answer(stage, result, why),
    ensures
        job_progress(
            JobView::CreatePage { url, stage, goal: Goal::Acquire { asker } },
            result,
        ) == (ProgressView {
            stored: None,
            taken: false,
            given_back: false,
            attached: None,
            reply: match asker {
                Some(a) => Some(
                    ReplyView {
                        client_id: a.client_id,
                        msg: DaemonMsgView::Error { id: a.id, message: "create page: "@ + why },
                    },
                ),
                None => None,
            },
            next: None,
        }),
{
}

/// A page that cannot be created for the pool is not counted and does not end the
/// warm-up: the next one is begun all the same, or whoever asked is told how many were
/// created before.
pub proof fn failed_page_is_passed_over(
    url: Seq<char>,
    stage: PageStageView,
    asker: Option<Asker>,
    left: usize,
    created: usize,
    result: CallResult,
    why: Seq<char>,
)
    requires
        bad_answer(stage, result, why),
    ensures
        ({
            let p = job_progress(
                JobView::CreatePage { url, stage, goal: Goal::Warmup { asker, left, created } },
                result,
            );
            &&& p.stored is None && !p.taken && !p.given_back && p.attached is None
            &&& left > 0 ==> p.reply is None && p.next == Some(
                JobView::CreatePage {
                    url,
                    stage: PageStageView::Context,
                    goal: Goal::Warmup { asker, left: (left - 1) as usize, created },
                },
            )
            &&& left == 0 ==> p.next is None && p.reply == match asker {
                Some(a) => Some(
                    ReplyView {
                        client_id: a.client_id,
                        msg: DaemonMsgView::WarmupDone { id: a.id, count: created },
                    },
                ),
                None => None,
            }
        }),
{
}

/// A page that is attached to is the client's, in the session that Chrome names, and the
/// client is told of both, under the number of its request. Where there is no client, the
/// page counts as given back.
pub proof fn attached_page_is_handed_over(
    page: PageView,
    asker: Asker,
    others: Map<Seq<char>, Json>,
    session_id: Seq<char>,
)
    ensures
        ({
            let answer: CallResult = Ok(
                Json::Object(others.insert("sessionId"@, Json::Text(session_id))),
            );
            &&& job_progress(JobView::Attach { page, asker: Some(asker) }, answer) == (
            ProgressView {
                stored: None,
                taken: false,
                given_back: false,
                attached: Some(AttachedView { client_id: asker.client_id, page, session_id }),
                reply: Some(
                    ReplyView {
                        client_id: asker.client_id,
                        msg: DaemonMsgView::Acquired {
                            id: asker.id,
                            target_id: page.target_id,
                            session_id,
                        },
                    },
                ),
                next: None,
            })
            &&& job_progress(JobView::Attach { page, asker: None }, answer) == (ProgressView {
                stored: None,
                taken: false,
                given_back: true,
                attached: None,
                reply: None,
                next: None,
            })
        }),
{
}

/// A page that cannot be attached to counts as given back, and the client is told why.
pub proof fn client_is_told_why_not_attached(
    page: PageView,
    asker: Option<Asker>,
    result: CallResult,
    why: Seq<char>,
)
    requires
        match result {
            Err(e) => why == e,
            Ok(Json::Object(m)) => why == "missing "@ + "sessionId"@ && (m.dom().contains(
                "sessionId"@,
            ) ==> !(m["sessionId"@] is Text)),
            Ok(_) => why == "missing "@ + "sessionId"@,
        },
    ensures
        job_progress(JobView::Attach { page, asker }, result) == (ProgressView {
            stored: None,
            taken: false,
            given_back: true,
            attached: None,
            reply: match asker {
                Some(a) => Some(
                    ReplyView {
                        client_id: a.client_id,
                        msg: DaemonMsgView::Error { id: a.id, message: "attach: "@ + why },
                    },
                ),
                None => None,
            },
            next: None,
        }),
{
}

/// Whatever Chrome answers, a page that was closed has its context disposed of, where that
/// is known; then whoever asked is told that the page is released.
pub proof fn closing_goes_through(
    target_id: Seq<char>,
    context_id: Seq<char>,
    asker: Option<Asker>,
    result: CallResult,
)
    ensures
        ({
            let close = JobView::Close { target_id, context_id, stage: CloseStage::Target, asker };
            let dispose = JobView::Close {
                target_id,
                context_id,
                stage: CloseStage::Context,
                asker,
            };
            let done = ProgressView {
                stored: None,
                taken: false,
                given_back: false,
                attached: None,
                reply: match asker {
                    Some(a) => Some(
                        ReplyView {
                            client_id: a.client_id,
                            msg: DaemonMsgView::Released { id: a.id },
                        },
                    ),
                    None => None,
                },
                next: None,
            };
            &&& context_id.len() > 0 ==> job_progress(close, result) == (ProgressView {
                stored: None,
                taken: false,
                given_back: false,
                attached: None,
                reply: None,
                next: Some(dispose),
            })
            &&& context_id.len() == 0 ==> job_progress(close, result) == done
            &&& job_progress(dispose, result) == done
        }),
{
}

/// A job makes the call of its stage: for the address that it has, the page or the context
/// that it is about.
pub proof fn job_makes_its_call(
    url: Seq<char>,
    context_id: Seq<char>,
    goal: Goal,
    page: PageView,
    asker: Option<Asker>,
)
    ensures
        (JobView::CreatePage { url, stage: PageStageView::Context, goal }).call() == (CallView {
            method: "Target.createBrowserContext"@,
            params: Json::Object(map!["disposeOnDetach"@ => Json::Bool(false)]),
            session_id: None,
        }),
        (JobView::CreatePage {
            url,
            stage: PageStageView::Target { context_id },
            goal,
        }).call() == (CallView {
            method: "Target.createTarget"@,
            params: Json::Object(
                map!["url"@ => Json::Text(url), "browserContextId"@ => Json::Text(context_id)],
            ),
            session_id: None,
        }),
        (JobView::Attach { page, asker }).call() == (CallView {
            method: "Target.attachToTarget"@,
            params: Json::Object(
                map!["targetId"@ => Json::Text(page.target_id), "flatten"@ => Json::Bool(true)],
            ),
            session_id: None,
        }),
        (JobView::Close {
            target_id: page.target_id,
            context_id,
            stage: CloseStage::Target,
            asker,
        }).call() == (CallView {
            method: "Target.closeTarget"@,
            params: Json::Object(map!["targetId"@ => Json::Text(page.target_id)]),
            session_id: None,
        }),
        (JobView::Close {
            target_id: page.target_id,
            context_id,
            stage: CloseStage::Context,
            asker,
        }).call() == (CallView {
            method: "Target.disposeBrowserContext"@,
            params: Json::Object(map!["browserContextId"@ => Json::Text(context_id)]),
            session_id: None,
        }),
{
}

/// The calls that a job makes when it is given these answers one after another, for as
/// long as it goes on.
pub open spec fn run_calls(job: JobView, results: Seq<CallResult>) -> Seq<CallView>
    decreases results.len(),
{
    if results.len() == 0 {
        seq![job.call()]
    } else {
        seq![job.call()] + match job_progress(job, results[0]).next {
            Some(next) => run_calls(next, results.drop_first()),
            None => Seq::empty(),
        }
    }
}

/// Whatever Chrome answers, every page that a warm-up asks for is to show the address that
/// was given: each of its calls is for a context, or for a page with that address.
pub proof fn every_warm_page_shows_address(
    url: Seq<char>,
    stage: PageStageView,
    goal: Goal,
    results: Seq<CallResult>,
    i: int,
)
    requires
        goal is Warmup,
        0 <= i < run_calls(JobView::CreatePage { url, stage, goal }, results).len(),
    ensures
        ({
            let call = run_calls(JobView::CreatePage { url, stage, goal }, results)[i];
            &&& call.session_id is None
            &&& call.method == "Target.createBrowserContext"@ || (call.method
                == "Target.createTarget"@ && (call.params matches Json::Object(m)
                && m.dom().contains("url"@) && m["url"@] == Json::Text(url)))
        }),
    decreases results.len(),
{
    let job = JobView::CreatePage { url, stage, goal };
    if i == 0 {
        reveal_strlit("url");
        reveal_strlit("browserContextId");
        assert("url"@.len() != "browserContextId"@.len());
    } else {
        let next = job_progress(job, results[0]).next->0;
        let rest = results.drop_first();
        assert(run_calls(job, results)[i] == run_calls(next, rest)[i - 1]);
        match next {
            JobView::CreatePage { url: later, stage: s, goal: g } => {
                every_warm_page_shows_address(later, s, g, rest, i - 1);
            },
            _ => {},
        }
    }
}

/// The answer names the text `name` under `field`, whatever else it holds.
pub open spec fn answer_names(result: CallResult, field: Seq<char>, name: Seq<char>) -> bool {
    result matches Ok(Json::Object(m)) && m.dom().contains(field) && m[field] == Json::Text(name)
}

/// The answers name these contexts and targets, in turn.
pub open spec fn answers_name(
    results: Seq<CallResult>,
    contexts: Seq<Seq<char>>,
    targets: Seq<Seq<char>>,
) -> bool {
    &&& contexts.len() == targets.len()
    &&& results.len() == 2 * contexts.len()
    &&& forall|i: int|
        0 <= i < contexts.len() ==> answer_names(
            results[2 * i],
            "browserContextId"@,
            #[trigger] contexts[i],
        ) && answer_names(results[2 * i + 1], "targetId"@, targets[i])
}

/// Where Chrome creates every page that it is asked for, warming up makes two calls for
/// each page, one for a context and one for a page in that context with the given
/// address, and puts exactly the pages that Chrome names into the pool, in their order
/// and each with the context that was created for it.
pub proof fn warm_up_stores_named_pages(
    url: Seq<char>,
    asker: Option<Asker>,
    left: usize,
    created: usize,
    results: Seq<CallResult>,
    contexts: Seq<Seq<char>>,
    targets: Seq<Seq<char>>,
)
    requires
        left + created < usize::MAX,
        contexts.len() == left + 1,
        answers_name(results, contexts, targets),
    ensures
        ({
            let job = JobView::CreatePage {
                url,
                stage: PageStageView::Context,
                goal: Goal::Warmup { asker, left, created },
            };
            let (pages, reply, end) = run_job(job, results);
            let calls = run_calls(job, results);
            &&& end is None
            &&& pages == Seq::new(
                contexts.len(),
                |i: int| PageView { browser_context_id: contexts[i], target_id: targets[i] },
            )
            &&& reply == match asker {
                Some(a) => Some(
                    ReplyView {
                        client_id: a.client_id,
                        msg: DaemonMsgView::WarmupDone {
                            id: a.id,
                            count: (created + left + 1) as usize,
                        },
                    },
                ),
                None => None,
            }
            &&& calls.len() == 2 * contexts.len()
            &&& forall|i: int|
                0 <= i < contexts.len() ==> calls[2 * i] == (CallView {
                    method: "Target.createBrowserContext"@,
                    params: Json::Object(map!["disposeOnDetach"@ => Json::Bool(false)]),
                    session_id: None,
                }) && calls[2 * i + 1] == (CallView {
                    method: "Target.createTarget"@,
                    params: Json::Object(
                        map![
                            "url"@ => Json::Text(url),
                            "browserContextId"@ => Json::Text(#[trigger] contexts[i]),
                        ],
                    ),
                    session_id: None,
                })
        }),
    decreases left,
{
    reveal_with_fuel(run_job, 3);
    reveal_with_fuel(run_calls, 3);
    let goal = Goal::Warmup { asker, left, created };
    let job = JobView::CreatePage { url, stage: PageStageView::Context, goal };
    let context_id = contexts[0];
    let target = JobView::CreatePage { url, stage: PageStageView::Target { context_id }, goal };
    let rest = results.drop_first();
    let later = rest.drop_first();
    let first: int = 0;
    assert(contexts[first] == context_id);
    assert(job_progress(job, results[0]) == ProgressView::goes_on(target));
    assert(rest[0] == results[1]);
    let page = PageView { browser_context_id: contexts[0], target_id: targets[0] };
    let p = job_progress(target, rest[0]);
    assert(p.stored == Some(page));
    let all = Seq::new(
        contexts.len(),
        |i: int| PageView { browser_context_id: contexts[i], target_id: targets[i] },
    );
    let calls = run_calls(job, results);
    if left > 0 {
        let cs = contexts.drop_first();
        let ts = targets.drop_first();
        assert forall|i: int| 0 <= i < cs.len() implies answer_names(
            later[2 * i],
            "browserContextId"@,
            #[trigger] cs[i],
        ) && answer_names(later[2 * i + 1], "targetId"@, ts[i]) by {
            assert(cs[i] == contexts[i + 1]);
            assert(later[2 * i] == results[2 * (i + 1)]);
            assert(later[2 * i + 1] == results[2 * (i + 1) + 1]);
        }
        assert(answers_name(later, cs, ts));
        warm_up_stores_named_pages(
            url,
            asker,
            (left - 1) as usize,
            (created + 1) as usize,
            later,
            cs,
            ts,
        );
        let next = JobView::CreatePage {
            url,
            stage: PageStageView::Context,
            goal: Goal::Warmup {
                asker,
                left: (left - 1) as usize,
                created: (created + 1) as usize,
            },
        };
        assert(p.next == Some(next));
        let (more, told, end) = run_job(next, later);
        assert(run_job(job, results).1 == told);
        assert(run_job(job, results).2 == end);
        assert(run_job(job, results).0 =~= seq![page] + more);
        assert(seq![page] + more =~= all);
        let after = run_calls(next, later);
        assert(calls =~= seq![job.call(), target.call()] + after);
        assert forall|i: int| 0 <= i < contexts.len() implies calls[2 * i] == (CallView {
            method: "Target.createBrowserContext"@,
            params: Json::Object(map!["disposeOnDetach"@ => Json::Bool(false)]),
            session_id: None,
        }) && calls[2 * i + 1] == (CallView {
            method: "Target.createTarget"@,
            params: Json::Object(
                map![
                    "url"@ => Json::Text(url),
                    "browserContextId"@ => Json::Text(#[trigger] contexts[i]),
                ],
            ),
            session_id: None,
        }) by {
            if i > 0 {
                assert(cs[i - 1] == contexts[i]);
                assert(calls[2 * i] == after[2 * (i - 1)]);
                assert(calls[2 * i + 1] == after[2 * (i - 1) + 1]);
            }
        }
    } else {
        assert(run_job(job, results).0 =~= seq![page]);
        assert(seq![page] =~= all);
        assert(calls =~= seq![job.call(), target.call()]);
        assert forall|i: int| 0 <= i < contexts.len() implies calls[2 * i] == (CallView {
            method: "Target.createBrowserContext"@,
            params: Json::Object(map!["disposeOnDetach"@ => Json::Bool(false)]),
            session_id: None,
        }) && calls[2 * i + 1] == (CallView {
            method: "Target.createTarget"@,
            params: Json::Object(
                map![
                    "url"@ => Json::Text(url),
                    "browserContextId"@ => Json::Text(#[trigger] contexts[i]),
                ],
            ),
            session_id: None,
        }) by {
            assert(i == 0);
        }
    }
}

/// A job knows whom it serves, whether it warms up pages, and whether its next answer can
/// hand a page to a client.
pub proof fn job_knows_its_purpose(
    url: Seq<char>,
    context_id: Seq<char>,
    page: PageView,
    asker: Option<Asker>,
    left: usize,
    created: usize,
    stage: CloseStage,
)
    ensures
        ({
            let target = PageStageView::Target { context_id };
            let begun = PageStageView::Context;
            let acquire = Goal::Acquire { asker };
            let warmup = Goal::Warmup { asker, left, created };
            let for_client = JobView::CreatePage { url, stage: target, goal: acquire };
            let for_client_begun = JobView::CreatePage { url, stage: begun, goal: acquire };
            let for_pool = JobView::CreatePage { url, stage: target, goal: warmup };
            let for_pool_begun = JobView::CreatePage { url, stage: begun, goal: warmup };
            let attach = JobView::Attach { page, asker };
            let close = JobView::Close { target_id: page.target_id, context_id, stage, asker };
            &&& for_client.asker() == asker && for_client_begun.asker() == asker
            &&& for_pool.asker() == asker && for_pool_begun.asker() == asker
            &&& attach.asker() == asker && close.asker() == asker
            &&& for_pool.warms() && for_pool_begun.warms()
            &&& !for_client.warms() && !for_client_begun.warms() && !attach.warms()
                && !close.warms()
            &&& for_client.can_take() && !for_client_begun.can_take() && !for_pool.can_take()
                && !for_pool_begun.can_take() && !attach.can_take() && !close.can_take()
            &&& for_client.fits() && for_client_begun.fits() && attach.fits() && close.fits()
            &&& left + created < usize::MAX ==> for_pool.fits() && for_pool_begun.fits()
        }),
{
}

/// A job, and what comes of an answer, are seen with all that they hold.
pub proof fn job_is_seen_whole(
    url: String,
    other: String,
    goal: Goal,
    page: WarmPage,
    asker: Option<Asker>,
    stage: CloseStage,
    client_id: u64,
    msg: DaemonMsg,
)
    ensures
        forall|at: PageStage|
            (#[trigger] (Job::CreatePage { url, stage: at, goal })@) == (JobView::CreatePage {
                url: url@,
                stage: at@,
                goal,
            }),
        (Job::Attach { page, asker })@ == (JobView::Attach { page: page@, asker }),
        (Job::Close { target_id: url, context_id: other, stage, asker })@ == (JobView::Close {
            target_id: url@,
            context_id: other@,
            stage,
            asker,
        }),
        (Attached { client_id, page, session_id: url })@ == (AttachedView {
            client_id,
            page: page@,
            session_id: url@,
        }),
        (Reply { client_id, msg })@ == (ReplyView { client_id, msg: msg@ }),
        forall|p: Progress|
            {
                let v = #[trigger] p@;
                &&& v.taken == p.taken && v.given_back == p.given_back
                &&& v.stored == match p.stored {
                    Some(x) => Some(x@),
                    None => None,
                }
                &&& v.attached == match p.attached {
                    Some(x) => Some(x@),
                    None => None,
                }
                &&& v.reply == match p.reply {
                    Some(x) => Some(x@),
                    None => None,
                }
                &&& v.next == match p.next {
                    Some(x) => Some(x@),
                    None => None,
                }
            },
{
}

} // verus!
