//! The part of niri's IPC protocol that the workspace actions speak: the
//! compositor state they read, the requests they send, and a session that
//! records every exchange so that contracts can say exactly what was sent.

use vstd::prelude::*;

use crate::order::seq_lt;

verus! {

/// A workspace as niri reports it.
#[derive(Clone, Debug, PartialEq, Eq)]
pub struct Workspace {
    pub id: u64,
    /// Index on its output, from 1.
    pub idx: u8,
    pub name: Option<String>,
    pub output: Option<String>,
    pub is_urgent: bool,
    /// Shown on its output.
    pub is_active: bool,
    /// Has keyboard focus.
    pub is_focused: bool,
    pub active_window_id: Option<u64>,
}

/// A window as niri reports it.
#[derive(Clone, Debug, PartialEq, Eq)]
pub struct Window {
    pub id: u64,
    pub title: Option<String>,
    pub app_id: Option<String>,
    pub workspace_id: Option<u64>,
    pub is_focused: bool,
    pub is_floating: bool,
    pub is_urgent: bool,
    /// Column of a tiled window in the scrolling layout, from 1; `None` when floating.
    pub column: Option<usize>,
}

/// How a request names a workspace.
#[derive(Clone, Debug, PartialEq, Eq)]
pub enum WorkspaceRef {
    Id(u64),
    Index(u8),
    Name(String),
}

/// The compositor actions the workspace commands use.
#[derive(Clone, Debug, PartialEq, Eq)]
pub enum Action {
    FocusWorkspace { reference: WorkspaceRef },
    SetWorkspaceName { name: String, workspace: Option<WorkspaceRef> },
    UnsetWorkspaceName { reference: Option<WorkspaceRef> },
    Spawn { command: Vec<String> },
    CloseWindow { id: Option<u64> },
    FocusWindow { id: u64 },
    MoveColumnToIndex { index: usize },
    MoveWindowToWorkspace { window_id: Option<u64>, reference: WorkspaceRef, focus: bool },
}

/// A request to the compositor.
#[derive(Clone, Debug, PartialEq, Eq)]
pub enum Request {
    Workspaces,
    Windows,
    FocusedWindow,
    Action(Action),
}

/// The compositor's answer to a request.
#[derive(Clone, Debug, PartialEq, Eq)]
pub enum Response {
    /// An action was carried out.
    Handled,
    Workspaces(Vec<Workspace>),
    Windows(Vec<Window>),
    FocusedWindow(Option<Window>),
    /// Any answer the workspace commands never expect.
    Other,
}

/// Transport for requests: a real socket, or a scripted stand-in.
pub trait NiriClient {
    /// Send `request` and return the compositor's answer, or why there is none.
    fn send(&mut self, request: Request) -> Result<Response, String>;

    /// Let `ms` milliseconds pass before the next request, while a command
    /// waits for the compositor to catch up. A scripted client need not wait.
    fn pause(&mut self, ms: u64) {
    }
}

/// One request and what came back for it.
pub type Exchange = (Request, Result<Response, String>);

/// A client together with the record of every exchange made through it.
pub struct Session<C> {
    pub client: C,
    pub log: Ghost<Seq<Exchange>>,
}

/// The exchanges made between two states of a session's log.
pub open spec fn since(before: Seq<Exchange>, after: Seq<Exchange>) -> Seq<Exchange> {
    after.subrange(before.len() as int, after.len() as int)
}

/// `after` continues `before`.
pub open spec fn extends(before: Seq<Exchange>, after: Seq<Exchange>) -> bool {
    before.len() <= after.len() && after.subrange(0, before.len() as int) == before
}

/// The message for an answer of the wrong kind.
pub open spec fn unexpected_message() -> Seq<char> {
    "unexpected response"@
}

/// What an action's answer means: done, or why not.
pub open spec fn action_outcome(resp: Result<Response, String>) -> Result<(), Seq<char>> {
    match resp {
        Ok(Response::Handled) => Ok(()),
        Ok(_) => Err(unexpected_message()),
        Err(e) => Err(e@),
    }
}

/// The text of an error.
pub open spec fn err_view<T>(r: Result<T, String>) -> Seq<char> {
    match r {
        Err(e) => e@,
        Ok(_) => Seq::empty(),
    }
}

/// A unit result, with its error as text.
pub open spec fn unit_view(r: Result<(), String>) -> Result<(), Seq<char>> {
    match r {
        Ok(()) => Ok(()),
        Err(e) => Err(e@),
    }
}

/// `a` sorts before `b` by output, then index; no output sorts first.
pub open spec fn ws_lt(a: Workspace, b: Workspace) -> bool {
    match (a.output, b.output) {
        (None, Some(_)) => true,
        (Some(_), None) => false,
        (Some(x), Some(y)) => seq_lt(x@, y@) || (x@ == y@ && a.idx < b.idx),
        (None, None) => a.idx < b.idx,
    }
}

/// `x` put into sorted `s` after every workspace that does not sort after it.
pub open spec fn insert_ws(s: Seq<Workspace>, x: Workspace) -> Seq<Workspace>
    decreases s.len(),
{
    if s.len() == 0 {
        seq![x]
    } else if ws_lt(x, s[0]) {
        seq![x] + s
    } else {
        seq![s[0]] + insert_ws(s.drop_first(), x)
    }
}

/// Workspaces sorted by output, then index, keeping the order of equal ones.
pub open spec fn sort_ws(s: Seq<Workspace>) -> Seq<Workspace>
    decreases s.len(),
{
    if s.len() == 0 {
        s
    } else {
        insert_ws(sort_ws(s.drop_last()), s.last())
    }
}

/// What a workspace listing's answer gives: the workspaces in order, or why not.
pub open spec fn workspaces_outcome(resp: Result<Response, String>) -> Result<Seq<Workspace>, Seq<char>> {
    match resp {
        Ok(Response::Workspaces(ws)) => Ok(sort_ws(ws@)),
        Ok(_) => Err(unexpected_message()),
        Err(e) => Err(e@),
    }
}

/// What a window listing's answer gives.
pub open spec fn windows_outcome(resp: Result<Response, String>) -> Result<Seq<Window>, Seq<char>> {
    match resp {
        Ok(Response::Windows(ws)) => Ok(ws@),
        Ok(_) => Err(unexpected_message()),
        Err(e) => Err(e@),
    }
}

/// What a focused-window query's answer gives.
pub open spec fn focused_window_outcome(resp: Result<Response, String>) -> Result<Option<Window>, Seq<char>> {
    match resp {
        Ok(Response::FocusedWindow(w)) => Ok(w),
        Ok(_) => Err(unexpected_message()),
        Err(e) => Err(e@),
    }
}

/// A list result, with its error as text.
pub open spec fn vec_view<T>(r: Result<Vec<T>, String>) -> Result<Seq<T>, Seq<char>> {
    match r {
        Ok(v) => Ok(v@),
        Err(e) => Err(e@),
    }
}

/// The exchanges since `before` are exactly one, of `req`.
pub open spec fn one_exchange(before: Seq<Exchange>, after: Seq<Exchange>, req: Request) -> bool {
    &&& extends(before, after)
    &&& after.len() == before.len() + 1
    &&& after.last().0 == req
}

impl<C: NiriClient> Session<C> {
    /// A session over `client` with nothing exchanged yet.
    pub fn new(client: C) -> (s: Self)
        ensures
            s.client == client,
            s.log@ == Seq::<Exchange>::empty(),
    {
        Session { client, log: Ghost(Seq::empty()) }
    }

    /// Let `ms` milliseconds pass; no exchange is made.
    pub fn pause(&mut self, ms: u64)
        ensures
            final(self).log@ == old(self).log@,
    {
        self.client.pause(ms);
    }

    /// Send `request` through the client and record the exchange.
    pub fn exchange(&mut self, request: Request) -> (r: Result<Response, String>)
        ensures
            final(self).log@ == old(self).log@.push((request, r)),
    {
        let ghost g = request;
        let r = self.client.send(request);
        self.log = Ghost(self.log@.push((g, r)));
        r
    }
}

/// The message for an answer of the wrong kind.
fn unexpected() -> (r: String)
    ensures
        r@ == unexpected_message(),
{
    "unexpected response".to_string()
}

/// Have the compositor carry out `action`.
pub fn send_action<C: NiriClient>(s: &mut Session<C>, action: Action) -> (r: Result<(), String>)
    ensures
        one_exchange(old(s).log@, final(s).log@, Request::Action(action)),
        unit_view(r) == action_outcome(final(s).log@.last().1),
{
    let resp = s.exchange(Request::Action(action));
    proof {
        assert(final(s).log@.subrange(0, old(s).log@.len() as int) =~= old(s).log@);
    }
    match resp {
        Ok(Response::Handled) => Ok(()),
        Ok(_) => Err(unexpected()),
        Err(e) => Err(e),
    }
}

/// A workspace equal to `w`.
pub fn copy_workspace(w: &Workspace) -> (r: Workspace)
    ensures
        r == *w,
{
    Workspace {
        id: w.id,
        idx: w.idx,
        name: match &w.name {
            Some(n) => Some(n.clone()),
            None => None,
        },
        output: match &w.output {
            Some(o) => Some(o.clone()),
            None => None,
        },
        is_urgent: w.is_urgent,
        is_active: w.is_active,
        is_focused: w.is_focused,
        active_window_id: w.active_window_id,
    }
}

/// A window equal to `w`.
pub fn copy_window(w: &Window) -> (r: Window)
    ensures
        r == *w,
{
    Window {
        id: w.id,
        title: match &w.title {
            Some(t) => Some(t.clone()),
            None => None,
        },
        app_id: match &w.app_id {
            Some(a) => Some(a.clone()),
            None => None,
        },
        workspace_id: w.workspace_id,
        is_focused: w.is_focused,
        is_floating: w.is_floating,
        is_urgent: w.is_urgent,
        column: w.column,
    }
}

/// Whether `a` sorts before `b` by output, then index.
pub fn workspace_before(a: &Workspace, b: &Workspace) -> (r: bool)
    ensures
        r == ws_lt(*a, *b),
{
    match (&a.output, &b.output) {
        (None, Some(_)) => true,
        (Some(_), None) => false,
        (Some(x), Some(y)) => {
            if crate::order::str_lt(x.as_str(), y.as_str()) {
                true
            } else if crate::text::str_eq(x.as_str(), y.as_str()) {
                a.idx < b.idx
            } else {
                false
            }
        },
        (None, None) => a.idx < b.idx,
    }
}

proof fn lemma_insert_at(s: Seq<Workspace>, x: Workspace, j: int)
    requires
        0 <= j <= s.len(),
        forall|k: int| 0 <= k < j ==> !ws_lt(x, #[trigger] s[k]),
        j < s.len() ==> ws_lt(x, s[j]),
    ensures
        insert_ws(s, x) == s.insert(j, x),
    decreases s.len(),
{
    if s.len() == 0 {
        assert(s.insert(j, x) =~= seq![x]);
    } else if j == 0 {
        assert(s.insert(0, x) =~= seq![x] + s);
    } else {
        let t = s.drop_first();
        assert forall|k: int| 0 <= k < j - 1 implies !ws_lt(x, #[trigger] t[k]) by {
            assert(t[k] == s[k + 1]);
        }
        lemma_insert_at(t, x, j - 1);
        assert(s.insert(j, x) =~= seq![s[0]] + t.insert(j - 1, x));
    }
}

/// The workspaces of `ws`, sorted by output, then index; equal ones keep their order.
pub fn sort_workspaces(ws: &Vec<Workspace>) -> (r: Vec<Workspace>)
    ensures
        r@ == sort_ws(ws@),
{
    let mut r: Vec<Workspace> = Vec::new();
    let mut i: usize = 0;
    while i < ws.len()
        invariant
            i <= ws@.len(),
            r@ == sort_ws(ws@.take(i as int)),
        decreases ws@.len() - i,
    {
        let x = copy_workspace(&ws[i]);
        let mut j: usize = 0;
        while j < r.len() && !workspace_before(&x, &r[j])
            invariant
                j <= r@.len(),
                forall|k: int| 0 <= k < j ==> !ws_lt(x, #[trigger] r@[k]),
            decreases r@.len() - j,
        {
            j = j + 1;
        }
        proof {
            lemma_insert_at(r@, x, j as int);
            assert(ws@.take(i + 1).drop_last() =~= ws@.take(i as int));
            assert(ws@.take(i + 1).last() == ws@[i as int]);
        }
        r.insert(j, x);
        i = i + 1;
    }
    assert(ws@.take(ws@.len() as int) =~= ws@);
    r
}

/// The workspaces, in order of output, then index.
pub fn list_workspaces<C: NiriClient>(s: &mut Session<C>) -> (r: Result<Vec<Workspace>, String>)
    ensures
        one_exchange(old(s).log@, final(s).log@, Request::Workspaces),
        vec_view(r) == workspaces_outcome(final(s).log@.last().1),
{
    let resp = s.exchange(Request::Workspaces);
    proof {
        assert(final(s).log@.subrange(0, old(s).log@.len() as int) =~= old(s).log@);
    }
    match resp {
        Ok(Response::Workspaces(ws)) => Ok(sort_workspaces(&ws)),
        Ok(_) => Err(unexpected()),
        Err(e) => Err(e),
    }
}

/// The windows.
pub fn list_windows<C: NiriClient>(s: &mut Session<C>) -> (r: Result<Vec<Window>, String>)
    ensures
        one_exchange(old(s).log@, final(s).log@, Request::Windows),
        vec_view(r) == windows_outcome(final(s).log@.last().1),
{
    let resp = s.exchange(Request::Windows);
    proof {
        assert(final(s).log@.subrange(0, old(s).log@.len() as int) =~= old(s).log@);
    }
    match resp {
        Ok(Response::Windows(ws)) => Ok(ws),
        Ok(_) => Err(unexpected()),
        Err(e) => Err(e),
    }
}

/// The focused window, if any.
pub fn focused_window<C: NiriClient>(s: &mut Session<C>) -> (r: Result<Option<Window>, String>)
    ensures
        one_exchange(old(s).log@, final(s).log@, Request::FocusedWindow),
        match (r, focused_window_outcome(final(s).log@.last().1)) {
            (Ok(w), Ok(v)) => w == v,
            (Err(e), Err(m)) => e@ == m,
            _ => false,
        },
{
    let resp = s.exchange(Request::FocusedWindow);
    proof {
        assert(final(s).log@.subrange(0, old(s).log@.len() as int) =~= old(s).log@);
    }
    match resp {
        Ok(Response::FocusedWindow(w)) => Ok(w),
        Ok(_) => Err(unexpected()),
        Err(e) => Err(e),
    }
}


/// Nothing was exchanged between a log and itself.
pub proof fn lemma_since_none(a: Seq<Exchange>)
    ensures
        extends(a, a),
        since(a, a) == Seq::<Exchange>::empty(),
{
    assert(a.subrange(0, a.len() as int) =~= a);
    assert(since(a, a) =~= Seq::<Exchange>::empty());
}

/// One exchange adds exactly its own record.
pub proof fn lemma_since_one(a: Seq<Exchange>, b: Seq<Exchange>, req: Request)
    requires
        one_exchange(a, b, req),
    ensures
        since(a, b) == seq![b.last()],
        since(a, b)[0].0 == req,
{
    assert(since(a, b) =~= seq![b.last()]);
}

/// The exchanges of two stretches in a row are those of the first, then those of the second.
pub proof fn lemma_since_chain(a: Seq<Exchange>, b: Seq<Exchange>, c: Seq<Exchange>)
    requires
        extends(a, b),
        extends(b, c),
    ensures
        extends(a, c),
        since(a, c) == since(a, b) + since(b, c),
{
    assert(c.subrange(0, a.len() as int) =~= b.subrange(0, a.len() as int));
    assert(since(a, c) =~= since(a, b) + since(b, c));
}

} // verus!
