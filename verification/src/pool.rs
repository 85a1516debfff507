//! Warm pages: the pool they wait in, and the calls to Chrome that create a page,
//! attach to it and close it.
//!
//! Each page has a browser context of its own, so that pages share neither cookies
//! nor storage.
use crate::json::{
    error_text, field_or_null, json, json_display, json_encoded, opt_text, text_field, value_display,
    value_from_bool, value_from_str, value_from_u64, value_get, value_null, value_set, value_to_vec,
    Json,
};
use crate::text::{decimal, joined, joined3};
use std::collections::VecDeque;
use vstd::prelude::*;

verus! {

/// A page that is ready for use.
#[derive(Debug)]
pub struct WarmPage {
    pub browser_context_id: String,
    pub target_id: String,
}

/// A [`WarmPage`] with texts in place of what holds them.
pub struct PageView {
    pub browser_context_id: Seq<char>,
    pub target_id: Seq<char>,
}

impl View for WarmPage {
    type V = PageView;

    open spec fn view(&self) -> PageView {
        PageView { browser_context_id: self.browser_context_id@, target_id: self.target_id@ }
    }
}

impl Clone for WarmPage {
    fn clone(&self) -> (r: Self)
        ensures
            r@ == self@,
    {
        WarmPage {
            browser_context_id: self.browser_context_id.clone(),
            target_id: self.target_id.clone(),
        }
    }
}

/// Pages that wait to be used, oldest first, and a count of those that have been
/// taken and not given back.
pub struct PagePool {
    pages: VecDeque<WarmPage>,
    pub active_count: usize,
}

/// The contents of a [`PagePool`].
pub struct PoolView {
    pub pages: Seq<PageView>,
    pub active: nat,
}

impl PoolView {
    /// The pool with nothing in it and no page taken.
    pub open spec fn empty() -> PoolView {
        PoolView { pages: Seq::empty(), active: 0 }
    }

    /// The pool with one more page waiting, behind the others.
    pub open spec fn push(self, page: PageView) -> PoolView {
        PoolView { pages: self.pages.push(page), ..self }
    }

    /// The pool without its oldest page, which counts as taken, and that page. Nothing
    /// comes of an empty pool.
    pub open spec fn acquire(self) -> (PoolView, Option<PageView>) {
        if self.pages.len() == 0 {
            (self, None)
        } else {
            (
                PoolView { pages: self.pages.drop_first(), active: self.active + 1 },
                Some(self.pages[0]),
            )
        }
    }

    /// The pool with one page more taken, one that did not wait in it.
    pub open spec fn taken(self) -> PoolView {
        PoolView { active: self.active + 1, ..self }
    }

    /// The pool with `n` pages less taken; the count does not go below zero.
    pub open spec fn given_back(self, n: nat) -> PoolView {
        PoolView {
            active: if self.active < n {
                0
            } else {
                (self.active - n) as nat
            },
            ..self
        }
    }

    /// The pool with one page less taken; the count does not go below zero.
    pub open spec fn released(self) -> PoolView {
        PoolView {
            active: if self.active == 0 {
                0
            } else {
                (self.active - 1) as nat
            },
            ..self
        }
    }
}

spec fn page_views(pages: Seq<WarmPage>) -> Seq<PageView> {
    pages.map_values(|p: WarmPage| p@)
}

/// The view of an optional page.
pub open spec fn opt_page(p: Option<WarmPage>) -> Option<PageView> {
    match p {
        Some(x) => Some(x@),
        None => None,
    }
}

impl View for PagePool {
    type V = PoolView;

    closed spec fn view(&self) -> PoolView {
        PoolView { pages: page_views(self.pages@), active: self.active_count as nat }
    }
}

impl PagePool {
    /// An empty pool.
    pub fn new() -> (r: Self)
        ensures
            r@ == PoolView::empty(),
    {
        let r = PagePool { pages: VecDeque::new(), active_count: 0 };
        assert(page_views(r.pages@) =~= Seq::<PageView>::empty());
        r
    }

    /// How many pages wait.
    pub fn available(&self) -> (n: usize)
        ensures
            n == self@.pages.len(),
    {
        self.pages.len()
    }

    /// How many pages have been taken and not given back.
    pub fn active(&self) -> (n: usize)
        ensures
            n == self@.active,
    {
        self.active_count
    }

    /// Adds a page behind the others.
    pub fn push(&mut self, page: WarmPage)
        ensures
            final(self)@ == old(self)@.push(page@),
    {
        self.pages.push_back(page);
        assert(page_views(self.pages@) =~= page_views(old(self).pages@).push(page@));
    }

    /// Takes the oldest page.
    pub fn acquire(&mut self) -> (r: Option<WarmPage>)
        requires
            old(self)@.pages.len() > 0 ==> old(self)@.active < usize::MAX,
        ensures
            (final(self)@, opt_page(r)) == old(self)@.acquire(),
    {
        match self.pages.pop_front() {
            Some(page) => {
                self.active_count = self.active_count + 1;
                assert(page_views(self.pages@) =~= page_views(old(self).pages@).drop_first());
                Some(page)
            },
            None => None,
        }
    }

    /// Counts a page as taken that did not wait here.
    pub fn taken(&mut self)
        requires
            old(self)@.active < usize::MAX,
        ensures
            final(self)@ == old(self)@.taken(),
    {
        self.active_count = self.active_count + 1;
    }

    /// Counts a page as given back.
    pub fn released(&mut self)
        ensures
            final(self)@ == old(self)@.released(),
    {
        self.active_count = self.active_count.saturating_sub(1);
    }
}

/// The pool after `n` pages have been taken, and those pages in the order in which
/// they came.
pub open spec fn acquire_many(pool: PoolView, n: nat) -> (PoolView, Seq<PageView>)
    decreases n,
{
    if n == 0 {
        (pool, Seq::empty())
    } else {
        let (rest, taken) = acquire_many(pool, (n - 1) as nat);
        match rest.acquire() {
            (after, Some(p)) => (after, taken.push(p)),
            (after, None) => (after, taken),
        }
    }
}

/// Taking pages gives them in the order in which they wait; each counts as taken,
/// and the others go on waiting in their order.
pub proof fn acquire_takes_in_order(pool: PoolView, n: nat)
    requires
        n <= pool.pages.len(),
    ensures
        acquire_many(pool, n).1 == pool.pages.take(n as int),
        acquire_many(pool, n).0.pages == pool.pages.skip(n as int),
        acquire_many(pool, n).0.active == pool.active + n,
    decreases n,
{
    if n == 0 {
        assert(pool.pages.take(0) =~= Seq::empty());
        assert(pool.pages.skip(0) =~= pool.pages);
    } else {
        acquire_takes_in_order(pool, (n - 1) as nat);
        assert(pool.pages.take(n - 1).push(pool.pages[n - 1]) =~= pool.pages.take(n as int));
        assert(pool.pages.skip(n - 1).drop_first() =~= pool.pages.skip(n as int));
    }
}

/// Something that is done to a pool.
pub enum PoolOp {
    Push(PageView),
    Acquire,
    Taken,
    Released,
}

/// The pool after all of this has been done to it, and the pages that were taken from
/// it, in the order in which they came.
pub open spec fn run_pool(pool: PoolView, ops: Seq<PoolOp>) -> (PoolView, Seq<PageView>)
    decreases ops.len(),
{
    if ops.len() == 0 {
        (pool, Seq::empty())
    } else {
        let (now, out) = run_pool(pool, ops.drop_last());
        match ops.last() {
            PoolOp::Push(page) => (now.push(page), out),
            PoolOp::Acquire => match now.acquire() {
                (after, Some(page)) => (after, out.push(page)),
                (after, None) => (after, out),
            },
            PoolOp::Taken => (now.taken(), out),
            PoolOp::Released => (now.released(), out),
        }
    }
}

/// The pages that are added, in order.
pub open spec fn pushed(ops: Seq<PoolOp>) -> Seq<PageView>
    decreases ops.len(),
{
    if ops.len() == 0 {
        Seq::empty()
    } else {
        let before = pushed(ops.drop_last());
        match ops.last() {
            PoolOp::Push(page) => before.push(page),
            _ => before,
        }
    }
}

/// Pages leave the pool in the order in which they entered it, first in, first out,
/// however adding and taking take turns: the pages that were taken, followed by those
/// that wait, are those that waited at first, followed by those that were added.
pub proof fn pool_is_first_in_first_out(pool: PoolView, ops: Seq<PoolOp>)
    ensures
        ({
            let (after, out) = run_pool(pool, ops);
            out + after.pages == pool.pages + pushed(ops)
        }),
    decreases ops.len(),
{
    if ops.len() == 0 {
        assert(Seq::<PageView>::empty() + pool.pages =~= pool.pages + Seq::<PageView>::empty());
    } else {
        let rest = ops.drop_last();
        pool_is_first_in_first_out(pool, rest);
        let (now, out) = run_pool(pool, rest);
        match ops.last() {
            PoolOp::Push(page) => {
                assert(out + now.pages.push(page) =~= (out + now.pages).push(page));
                assert((pool.pages + pushed(rest)).push(page) =~= pool.pages + pushed(rest).push(
                    page,
                ));
            },
            PoolOp::Acquire => {
                if now.pages.len() > 0 {
                    assert(out.push(now.pages[0]) + now.pages.drop_first() =~= out + now.pages);
                }
            },
            _ => {},
        }
    }
}

/// A page is taken once: where no page waits twice, the page that is taken waits no
/// more, and still no page waits twice.
pub proof fn page_is_taken_once(pool: PoolView)
    requires
        pool.pages.no_duplicates(),
        pool.pages.len() > 0,
    ensures
        !pool.acquire().0.pages.contains(pool.pages[0]),
        pool.acquire().1 == Some(pool.pages[0]),
        pool.acquire().0.pages.no_duplicates(),
{
}

/// Giving back a page that was taken restores the count.
pub proof fn released_undoes_acquire(pool: PoolView)
    requires
        pool.pages.len() > 0,
    ensures
        pool.acquire().0.released().active == pool.active,
{
}

/// Why a call to Chrome gave no result.
#[derive(Debug)]
pub enum CdpError {
    /// The pipe to Chrome is closed.
    PipeClosed,
    /// The command has no JSON text.
    Serialize(String),
    /// Chrome answered with this error.
    Cdp(String),
    /// No answer came in time.
    TimedOut { method: String },
    /// The answer lacks this member.
    Missing { field: String },
}

impl CdpError {
    /// The text that the error is reported with.
    pub open spec fn text(self) -> Seq<char> {
        match self {
            CdpError::PipeClosed => "chrome pipe channel closed"@,
            CdpError::Serialize(e) => e@,
            CdpError::Cdp(e) => cdp_error_text(e@),
            CdpError::TimedOut { method } => timeout_text(method@),
            CdpError::Missing { field } => missing_text(field@),
        }
    }

    /// The text that the error is reported with.
    pub fn message(&self) -> (r: String)
        ensures
            r@ == self.text(),
    {
        match self {
            CdpError::PipeClosed => "chrome pipe channel closed".to_owned(),
            CdpError::Serialize(e) => e.clone(),
            CdpError::Cdp(e) => joined("CDP error: ", e.as_str()),
            CdpError::TimedOut { method } => joined3(
                "CDP call '",
                method.as_str(),
                "' timed out (30s)",
            ),
            CdpError::Missing { field } => joined("missing ", field.as_str()),
        }
    }
}

/// How an error of Chrome's is reported.
pub open spec fn cdp_error_text(e: Seq<char>) -> Seq<char> {
    "CDP error: "@ + e
}

/// How a call that was not answered in time is reported.
pub open spec fn timeout_text(method: Seq<char>) -> Seq<char> {
    "CDP call '"@ + method + "' timed out (30s)"@
}

/// How an answer that lacks a member is reported.
pub open spec fn missing_text(field: Seq<char>) -> Seq<char> {
    "missing "@ + field
}

/// How long a call of the daemon's own waits for its answer, in seconds.
pub const CALL_TIMEOUT_SECS: u64 = 30;

/// A call to Chrome.
pub struct Call {
    pub method: String,
    pub params: serde_json::Value,
    pub session_id: Option<String>,
}

/// A [`Call`] with texts and JSON values in place of what holds them.
pub struct CallView {
    pub method: Seq<char>,
    pub params: Json,
    pub session_id: Option<Seq<char>>,
}

impl View for Call {
    type V = CallView;

    open spec fn view(&self) -> CallView {
        CallView {
            method: self.method@,
            params: json(self.params),
            session_id: opt_text(self.session_id),
        }
    }
}

/// The command that makes a call under the given number.
pub open spec fn command(id: u64, call: CallView) -> Json {
    let plain = Map::<Seq<char>, Json>::empty().insert("id"@, Json::Unsigned(id)).insert(
        "method"@,
        Json::Text(call.method),
    ).insert("params"@, call.params);
    match call.session_id {
        Some(s) => Json::Object(plain.insert("sessionId"@, Json::Text(s))),
        None => Json::Object(plain),
    }
}

/// What a call is answered with: a result, or the text of an error.
pub type CallResult = Result<Json, Seq<char>>;

/// The view of what a call gave.
pub open spec fn call_result(r: Result<serde_json::Value, CdpError>) -> CallResult {
    match r {
        Ok(v) => Ok(json(v)),
        Err(e) => Err(e.text()),
    }
}

/// The bytes that make a call under the given number: the text of its command,
/// which has no zero byte in it.
pub fn cdp_call(id: u64, call: &Call) -> (r: Result<Vec<u8>, CdpError>)
    ensures
        match json_encoded(command(id, call@)) {
            Ok(b) => r matches Ok(bytes) && bytes@ == b,
            Err(e) => r matches Err(err) && err.text() == e,
        },
        r matches Ok(bytes) ==> bytes@.len() > 0 && !bytes@.contains(0u8),
{
    let mut cmd = value_null();
    value_set(&mut cmd, "id", value_from_u64(id));
    value_set(&mut cmd, "method", value_from_str(call.method.as_str()));
    value_set(&mut cmd, "params", call.params.clone());
    match &call.session_id {
        Some(s) => value_set(&mut cmd, "sessionId", value_from_str(s.as_str())),
        None => {},
    }
    match value_to_vec(&cmd) {
        Ok(bytes) => Ok(bytes),
        Err(e) => Err(CdpError::Serialize(error_text(&e))),
    }
}

/// What a response says: the error it holds, where it holds one, and its result
/// otherwise, or null.
pub open spec fn response_result(payload: Json) -> CallResult {
    match payload.field("error"@) {
        Some(e) => Err(cdp_error_text(json_display(e))),
        None => Ok(payload.field_or_null("result"@)),
    }
}

/// What a response says.
pub fn cdp_call_result(payload: &serde_json::Value) -> (r: Result<serde_json::Value, CdpError>)
    ensures
        call_result(r) == response_result(json(*payload)),
        r matches Err(e) ==> e is Cdp,
{
    match value_get(payload, "error") {
        Some(e) => Err(CdpError::Cdp(value_display(e))),
        None => Ok(field_or_null(payload, "result")),
    }
}

/// A member of an answer that has to be a text.
pub open spec fn wanted_text(result: CallResult, field: Seq<char>) -> Result<Seq<char>, Seq<char>> {
    match result {
        Ok(j) => match j.text_field(field) {
            Some(s) => Ok(s),
            None => Err(missing_text(field)),
        },
        Err(e) => Err(e),
    }
}

/// The view of a text or an error.
pub open spec fn text_result(r: Result<String, CdpError>) -> Result<Seq<char>, Seq<char>> {
    match r {
        Ok(s) => Ok(s@),
        Err(e) => Err(e.text()),
    }
}

fn want_text(result: Result<serde_json::Value, CdpError>, field: &str) -> (r: Result<
    String,
    CdpError,
>)
    ensures
        text_result(r) == wanted_text(call_result(result), field@),
{
    match result {
        Ok(v) => match text_field(&v, field) {
            Some(s) => Ok(s),
            None => Err(CdpError::Missing { field: field.to_owned() }),
        },
        Err(e) => Err(e),
    }
}

/// How far the creation of a page has come.
pub enum PageStage {
    /// The browser context is being created.
    Context,
    /// The page is being created in this context.
    Target { context_id: String },
}

/// A [`PageStage`] with texts in place of what holds them.
pub enum PageStageView {
    Context,
    Target { context_id: Seq<char> },
}

impl View for PageStage {
    type V = PageStageView;

    open spec fn view(&self) -> PageStageView {
        match *self {
            PageStage::Context => PageStageView::Context,
            PageStage::Target { context_id } => PageStageView::Target { context_id: context_id@ },
        }
    }
}

/// An object with one member.
pub open spec fn object1(key: Seq<char>, value: Json) -> Json {
    Json::Object(Map::<Seq<char>, Json>::empty().insert(key, value))
}

/// An object with two members.
pub open spec fn object2(key: Seq<char>, value: Json, key2: Seq<char>, value2: Json) -> Json {
    Json::Object(Map::<Seq<char>, Json>::empty().insert(key, value).insert(key2, value2))
}

/// The call that creating a page which shows `url` makes at the given stage: first
/// for a browser context, then for a page in it.
pub open spec fn page_call(url: Seq<char>, stage: PageStageView) -> CallView {
    match stage {
        PageStageView::Context => CallView {
            method: "Target.createBrowserContext"@,
            params: object1("disposeOnDetach"@, Json::Bool(false)),
            session_id: None,
        },
        PageStageView::Target { context_id } => CallView {
            method: "Target.createTarget"@,
            params: object2(
                "url"@,
                Json::Text(url),
                "browserContextId"@,
                Json::Text(context_id),
            ),
            session_id: None,
        },
    }
}

/// The call that creating a page which shows `url` makes at the given stage.
pub fn create_warm_page(url: &str, stage: &PageStage) -> (r: Call)
    ensures
        r@ == page_call(url@, stage@),
{
    let mut params = value_null();
    match stage {
        PageStage::Context => {
            value_set(&mut params, "disposeOnDetach", value_from_bool(false));
            Call { method: "Target.createBrowserContext".to_owned(), params, session_id: None }
        },
        PageStage::Target { context_id } => {
            value_set(&mut params, "url", value_from_str(url));
            value_set(&mut params, "browserContextId", value_from_str(context_id.as_str()));
            Call { method: "Target.createTarget".to_owned(), params, session_id: None }
        },
    }
}

/// What comes of an answer during the creation of a page.
pub enum PageStep {
    /// The creation goes on at this stage.
    Next(PageStage),
    /// The page exists.
    Done(WarmPage),
    /// There will be no page.
    Failed(CdpError),
}

/// A [`PageStep`] with texts in place of what holds them.
pub enum PageStepView {
    Next(PageStageView),
    Done(PageView),
    Failed(Seq<char>),
}

impl View for PageStep {
    type V = PageStepView;

    open spec fn view(&self) -> PageStepView {
        match *self {
            PageStep::Next(s) => PageStepView::Next(s@),
            PageStep::Done(p) => PageStepView::Done(p@),
            PageStep::Failed(e) => PageStepView::Failed(e.text()),
        }
    }
}

/// What comes of the answer to the call of the given stage.
pub open spec fn page_step(stage: PageStageView, result: CallResult) -> PageStepView {
    match stage {
        PageStageView::Context => match wanted_text(result, "browserContextId"@) {
            Ok(c) => PageStepView::Next(PageStageView::Target { context_id: c }),
            Err(e) => PageStepView::Failed(e),
        },
        PageStageView::Target { context_id } => match wanted_text(result, "targetId"@) {
            Ok(t) => PageStepView::Done(
                PageView { browser_context_id: context_id, target_id: t },
            ),
            Err(e) => PageStepView::Failed(e),
        },
    }
}

/// What comes of the answer to the call of the given stage.
pub fn create_warm_page_step(
    stage: PageStage,
    result: Result<serde_json::Value, CdpError>,
) -> (r: PageStep)
    ensures
        r@ == page_step(stage@, call_result(result)),
{
    match stage {
        PageStage::Context => match want_text(result, "browserContextId") {
            Ok(c) => PageStep::Next(PageStage::Target { context_id: c }),
            Err(e) => PageStep::Failed(e),
        },
        PageStage::Target { context_id } => match want_text(result, "targetId") {
            Ok(t) => PageStep::Done(WarmPage { browser_context_id: context_id, target_id: t }),
            Err(e) => PageStep::Failed(e),
        },
    }
}

/// The call that attaches to a page.
pub open spec fn attach_call(target_id: Seq<char>) -> CallView {
    CallView {
        method: "Target.attachToTarget"@,
        params: object2("targetId"@, Json::Text(target_id), "flatten"@, Json::Bool(true)),
        session_id: None,
    }
}

/// The call that attaches to a page.
pub fn attach_target(target_id: &str) -> (r: Call)
    ensures
        r@ == attach_call(target_id@),
{
    let mut params = value_null();
    value_set(&mut params, "targetId", value_from_str(target_id));
    value_set(&mut params, "flatten", value_from_bool(true));
    Call { method: "Target.attachToTarget".to_owned(), params, session_id: None }
}

/// The session that attaching gave.
pub open spec fn attached_session(result: CallResult) -> Result<Seq<char>, Seq<char>> {
    wanted_text(result, "sessionId"@)
}

/// The session that attaching gave.
pub fn attach_target_result(result: Result<serde_json::Value, CdpError>) -> (r: Result<
    String,
    CdpError,
>)
    ensures
        text_result(r) == attached_session(call_result(result)),
{
    want_text(result, "sessionId")
}

/// How far the closing of a page has come.
#[derive(Clone, Copy, PartialEq, Eq, Structural)]
pub enum CloseStage {
    /// The page is being closed.
    Target,
    /// Its browser context is being disposed of.
    Context,
}

/// The call that closing a page makes at the given stage.
pub open spec fn close_call(
    target_id: Seq<char>,
    context_id: Seq<char>,
    stage: CloseStage,
) -> CallView {
    match stage {
        CloseStage::Target => CallView {
            method: "Target.closeTarget"@,
            params: object1("targetId"@, Json::Text(target_id)),
            session_id: None,
        },
        CloseStage::Context => CallView {
            method: "Target.disposeBrowserContext"@,
            params: object1("browserContextId"@, Json::Text(context_id)),
            session_id: None,
        },
    }
}

/// The call that closing a page makes at the given stage.
pub fn close_page(target_id: &str, context_id: &str, stage: CloseStage) -> (r: Call)
    ensures
        r@ == close_call(target_id@, context_id@, stage),
{
    let mut params = value_null();
    match stage {
        CloseStage::Target => {
            value_set(&mut params, "targetId", value_from_str(target_id));
            Call { method: "Target.closeTarget".to_owned(), params, session_id: None }
        },
        CloseStage::Context => {
            value_set(&mut params, "browserContextId", value_from_str(context_id));
            Call { method: "Target.disposeBrowserContext".to_owned(), params, session_id: None }
        },
    }
}

/// The stage that follows, whatever the answer was. Where the page has no known
/// context, none is disposed of.
pub open spec fn close_next(context_id: Seq<char>, stage: CloseStage) -> Option<CloseStage> {
    if stage == CloseStage::Target && context_id.len() > 0 {
        Some(CloseStage::Context)
    } else {
        None
    }
}

/// The stage that follows, whatever the answer was.
pub fn close_page_next(context_id: &str, stage: CloseStage) -> (r: Option<CloseStage>)
    ensures
        r == close_next(context_id@, stage),
{
    match stage {
        CloseStage::Target => if context_id.is_empty() {
            None
        } else {
            Some(CloseStage::Context)
        },
        CloseStage::Context => None,
    }
}

/// A page is seen with its own context and target, also where there may be none.
pub proof fn page_is_seen_whole(page: WarmPage)
    ensures
        page@.browser_context_id == page.browser_context_id@,
        page@.target_id == page.target_id@,
        opt_page(Some(page)) == Some(page@),
        opt_page(None) is None,
{
}

/// The count of pages taken goes up by one with each page that is taken, from the pool or
/// from elsewhere, and down with those that are given back, but not below zero. A page
/// that is added waits and is not counted; one that is counted or given back changes
/// nothing for those that wait; and where none waits, none is taken.
pub proof fn count_follows_pages(pool: PoolView, page: PageView, n: nat)
    ensures
        PoolView::empty().pages.len() == 0 && PoolView::empty().active == 0,
        pool.push(page).pages == pool.pages + seq![page],
        pool.push(page).active == pool.active,
        pool.pages.len() == 0 ==> pool.acquire() == (pool, None::<PageView>),
        pool.pages.len() > 0 ==> pool.acquire().1 == Some(pool.pages[0])
            && pool.acquire().0.active == pool.active + 1 && seq![pool.pages[0]]
            + pool.acquire().0.pages == pool.pages,
        pool.taken().active == pool.active + 1 && pool.taken().pages == pool.pages,
        pool.active >= n ==> pool.given_back(n).active + n == pool.active,
        pool.active < n ==> pool.given_back(n).active == 0,
        pool.given_back(n).pages == pool.pages,
        pool.released() == pool.given_back(1),
{
    assert(pool.push(page).pages =~= pool.pages + seq![page]);
    if pool.pages.len() > 0 {
        assert(seq![pool.pages[0]] + pool.acquire().0.pages =~= pool.pages);
    }
}

/// An error is reported with its cause: what Chrome said, the call that was not answered,
/// or the member that is missing.
pub proof fn call_error_names_cause(text: String)
    ensures
        CdpError::PipeClosed.text() == "chrome pipe channel closed"@,
        CdpError::Serialize(text).text() == text@,
        CdpError::Cdp(text).text() == "CDP error: "@ + text@,
        (CdpError::TimedOut { method: text }).text() == "CDP call '"@ + text@
            + "' timed out (30s)"@,
        (CdpError::Missing { field: text }).text() == "missing "@ + text@,
{
}

/// A call is seen with all that it holds, and so is what came of it.
pub proof fn call_is_seen_whole(
    method: String,
    params: serde_json::Value,
    session_id: Option<String>,
    error: CdpError,
)
    ensures
        (Call { method, params, session_id })@ == (CallView {
            method: method@,
            params: json(params),
            session_id: match session_id {
                Some(s) => Some(s@),
                None => None,
            },
        }),
        call_result(Ok(params)) == Ok::<Json, Seq<char>>(json(params)),
        call_result(Err(error)) == Err::<Json, Seq<char>>(error.text()),
        text_result(Ok(method)) == Ok::<Seq<char>, Seq<char>>(method@),
        text_result(Err(error)) == Err::<Seq<char>, Seq<char>>(error.text()),
{
}

proof fn command_names_differ()
    ensures
        "id"@ != "method"@,
        "id"@ != "params"@,
        "id"@ != "sessionId"@,
        "method"@ != "params"@,
        "method"@ != "sessionId"@,
        "params"@ != "sessionId"@,
{
    reveal_strlit("id");
    reveal_strlit("method");
    reveal_strlit("params");
    reveal_strlit("sessionId");
    assert("id"@.len() == 2 && "method"@.len() == 6 && "params"@.len() == 6);
    assert("method"@[0] == 'm' && "params"@[0] == 'p');
    assert("sessionId"@.len() == 9);
}

/// A command holds the number, the method and the parameters of its call as they are, and
/// the session where there is one, be its name empty or not; it holds nothing else.
pub proof fn command_holds_call(
    id: u64,
    method: Seq<char>,
    params: Json,
    session_id: Option<Seq<char>>,
)
    ensures
        command(id, CallView { method, params, session_id }) matches Json::Object(m) && {
            &&& m.dom().contains("id"@) && m["id"@] == Json::Unsigned(id)
            &&& m.dom().contains("method"@) && m["method"@] == Json::Text(method)
            &&& m.dom().contains("params"@) && m["params"@] == params
            &&& match session_id {
                Some(s) => m.dom().contains("sessionId"@) && m["sessionId"@] == Json::Text(s),
                None => !m.dom().contains("sessionId"@),
            }
            &&& forall|key: Seq<char>| #[trigger]
                m.dom().contains(key) ==> key == "id"@ || key == "method"@ || key == "params"@
                    || key == "sessionId"@
        },
{
    command_names_differ();
}

proof fn error_is_not_result()
    ensures
        "error"@ != "result"@,
{
    reveal_strlit("error");
    reveal_strlit("result");
    assert("error"@.len() != "result"@.len());
}

/// A response without an error gives its result exactly, whatever that holds and whatever
/// other members the response has.
pub proof fn response_gives_its_result(others: Map<Seq<char>, Json>, result: Json)
    requires
        !others.dom().contains("error"@),
    ensures
        response_result(Json::Object(others.insert("result"@, result))) == Ok::<Json, Seq<char>>(
            result,
        ),
{
    error_is_not_result();
}

/// A response with an error gives that error, displayed, whatever else it has; one with
/// neither error nor result, or that is no object, gives null.
pub proof fn response_gives_its_error(others: Map<Seq<char>, Json>, error: Json, empty: Json)
    requires
        empty matches Json::Object(m) ==> !m.dom().contains("error"@) && !m.dom().contains(
            "result"@,
        ),
    ensures
        response_result(Json::Object(others.insert("error"@, error))) == Err::<Json, Seq<char>>(
            "CDP error: "@ + json_display(error),
        ),
        response_result(empty) == Ok::<Json, Seq<char>>(Json::Null),
{
}

/// A wanted member is taken as it is where it is a text, be it empty or not; otherwise it
/// is missing, and a call that failed gives its own error.
pub proof fn wanted_text_is_taken(
    others: Map<Seq<char>, Json>,
    field: Seq<char>,
    value: Json,
    without: Json,
    why: Seq<char>,
)
    requires
        without matches Json::Object(m) ==> !m.dom().contains(field),
    ensures
        wanted_text(Ok(Json::Object(others.insert(field, value))), field) == match value {
            Json::Text(t) => Ok::<Seq<char>, Seq<char>>(t),
            _ => Err("missing "@ + field),
        },
        wanted_text(Ok(without), field) == Err::<Seq<char>, Seq<char>>("missing "@ + field),
        wanted_text(Err(why), field) == Err::<Seq<char>, Seq<char>>(why),
{
}

/// The calls that create a page ask Chrome for a context that outlives the connection,
/// and then for a page in exactly that context that shows exactly the given address.
pub proof fn page_calls_ask_for_page(url: Seq<char>, context_id: Seq<char>)
    ensures
        page_call(url, PageStageView::Context) == (CallView {
            method: "Target.createBrowserContext"@,
            params: Json::Object(map!["disposeOnDetach"@ => Json::Bool(false)]),
            session_id: None,
        }),
        page_call(url, PageStageView::Target { context_id }) == (CallView {
            method: "Target.createTarget"@,
            params: Json::Object(
                map!["url"@ => Json::Text(url), "browserContextId"@ => Json::Text(context_id)],
            ),
            session_id: None,
        }),
{
}

/// What Chrome answers to these calls makes the page: the context that it names, whatever
/// else it says, is the one that the page is created in and known by, and the target that
/// it names is the page.
pub proof fn answers_make_page(
    others: Map<Seq<char>, Json>,
    context_id: Seq<char>,
    target_id: Seq<char>,
)
    ensures
        page_step(
            PageStageView::Context,
            Ok(Json::Object(others.insert("browserContextId"@, Json::Text(context_id)))),
        ) == PageStepView::Next(PageStageView::Target { context_id }),
        page_step(
            PageStageView::Target { context_id },
            Ok(Json::Object(others.insert("targetId"@, Json::Text(target_id)))),
        ) == PageStepView::Done(PageView { browser_context_id: context_id, target_id }),
{
}

/// Where Chrome answers with an error, or without the name that was asked for, there is no
/// page, and the reason is told.
pub proof fn bad_answers_make_no_page(
    context_id: Seq<char>,
    why: Seq<char>,
    no_context: Json,
    no_target: Json,
)
    requires
        no_context matches Json::Object(m) ==> (m.dom().contains("browserContextId"@) ==> !(m[
            "browserContextId"@
        ] is Text)),
        no_target matches Json::Object(m) ==> (m.dom().contains("targetId"@) ==> !(m[
            "targetId"@
        ] is Text)),
    ensures
        page_step(PageStageView::Context, Err(why)) == PageStepView::Failed(why),
        page_step(PageStageView::Target { context_id }, Err(why)) == PageStepView::Failed(why),
        page_step(PageStageView::Context, Ok(no_context)) == PageStepView::Failed(
            "missing "@ + "browserContextId"@,
        ),
        page_step(PageStageView::Target { context_id }, Ok(no_target)) == PageStepView::Failed(
            "missing "@ + "targetId"@,
        ),
{
}

/// Attaching asks for the given page, in a session of its own, and gives the session that
/// Chrome names, whatever else it says.
pub proof fn attaching_gives_named_session(
    target_id: Seq<char>,
    others: Map<Seq<char>, Json>,
    session_id: Seq<char>,
    without: Json,
    why: Seq<char>,
)
    requires
        without matches Json::Object(m) ==> (m.dom().contains("sessionId"@) ==> !(m[
            "sessionId"@
        ] is Text)),
    ensures
        attach_call(target_id) == (CallView {
            method: "Target.attachToTarget"@,
            params: Json::Object(
                map!["targetId"@ => Json::Text(target_id), "flatten"@ => Json::Bool(true)],
            ),
            session_id: None,
        }),
        attached_session(
            Ok(Json::Object(others.insert("sessionId"@, Json::Text(session_id)))),
        ) == Ok::<Seq<char>, Seq<char>>(session_id),
        attached_session(Ok(without)) == Err::<Seq<char>, Seq<char>>("missing "@ + "sessionId"@),
        attached_session(Err(why)) == Err::<Seq<char>, Seq<char>>(why),
{
}

/// Closing asks Chrome to close exactly the given page, and then, where its context is
/// known, to dispose of exactly that context.
pub proof fn closing_names_page_and_context(target_id: Seq<char>, context_id: Seq<char>)
    ensures
        close_call(target_id, context_id, CloseStage::Target) == (CallView {
            method: "Target.closeTarget"@,
            params: Json::Object(map!["targetId"@ => Json::Text(target_id)]),
            session_id: None,
        }),
        close_call(target_id, context_id, CloseStage::Context) == (CallView {
            method: "Target.disposeBrowserContext"@,
            params: Json::Object(map!["browserContextId"@ => Json::Text(context_id)]),
            session_id: None,
        }),
        context_id.len() > 0 ==> close_next(context_id, CloseStage::Target) == Some(
            CloseStage::Context,
        ),
        context_id.len() == 0 ==> close_next(context_id, CloseStage::Target) is None,
        close_next(context_id, CloseStage::Context) is None,
{
}

/// How far a page has come, and what comes of an answer, are seen as they are.
pub proof fn page_stage_is_seen_whole(context_id: String, page: WarmPage, error: CdpError)
    ensures
        PageStage::Context@ == PageStageView::Context,
        (PageStage::Target { context_id })@ == (PageStageView::Target { context_id: context_id@ }),
        forall|stage: PageStage| (#[trigger] PageStep::Next(stage)@) == PageStepView::Next(stage@),
        PageStep::Done(page)@ == PageStepView::Done(page@),
        PageStep::Failed(error)@ == PageStepView::Failed(error.text()),
{
}

/// A call that was not answered in time is reported with the seconds that it waited.
pub proof fn time_waited_is_named(method: String)
    ensures
        (CdpError::TimedOut { method }).text() == "CDP call '"@ + method@ + "' timed out ("@
            + decimal(CALL_TIMEOUT_SECS as nat) + "s)"@,
{
    reveal_strlit("' timed out (30s)");
    reveal_strlit("' timed out (");
    reveal_strlit("s)");
    reveal_strlit("3");
    reveal_strlit("0");
    reveal_with_fuel(decimal, 2);
    assert(decimal(30) =~= seq!['3', '0']);
    assert("' timed out (30s)"@ =~= "' timed out ("@ + decimal(30) + "s)"@);
    let first = "CDP call '"@ + method@;
    assert(first + "' timed out (30s)"@ =~= first + "' timed out ("@ + decimal(30) + "s)"@);
}

} // verus!
