//! Compositor-agnostic workspace commands over a backend: the primitives a
//! compositor offers, and the orchestration of them (switch, spawn,
//! delete, cleanup), with every call recorded for the contracts.

use vstd::prelude::*;

use crate::niri::{app_id_matches, app_id_matches_spec, basename, basename_spec};
use crate::text::{starts_with, str_eq, str_starts_with, words, words_spec};
use crate::naming::{parse_dynamic_name, parse_dynamic_name_spec};

verus! {

/// Compositor-agnostic workspace information.
#[derive(Debug)]
pub struct WorkspaceInfo {
    pub id: u64,
    pub idx: usize,
    pub name: Option<String>,
    pub output: Option<String>,
    pub is_focused: bool,
    pub is_active: bool,
}

/// Compositor-agnostic window information.
#[derive(Debug)]
pub struct WindowInfo {
    pub id: u64,
    pub workspace_id: Option<u64>,
    pub app_id: Option<String>,
    pub is_urgent: bool,
}

/// Request to reorder workspace columns after spawning programs.
#[derive(Debug)]
pub struct ReorderRequest {
    pub workspace_name: String,
    pub commands: Vec<String>,
    /// The windows on the workspace before the programs spawned; no id twice.
    pub existing_window_ids: Vec<u64>,
}

/// Trait for compositor backends: each method maps to a compositor primitive.
pub trait Backend {
    fn list_workspaces(&self) -> Result<Vec<WorkspaceInfo>, String>;

    fn list_windows(&self) -> Result<Vec<WindowInfo>, String>;

    /// Focus the workspace named `name`, creating it when needed; whether it was created.
    fn focus_or_create_workspace(&self, name: &str) -> Result<bool, String>;

    fn spawn_program(&self, command: &Vec<String>) -> Result<(), String>;

    fn close_window(&self, id: u64) -> Result<(), String>;

    fn focus_window(&self, id: u64) -> Result<(), String>;

    fn move_window_to_position(&self, index: usize) -> Result<(), String>;

    fn move_window_to_workspace(&self, name: &str) -> Result<(), String>;

    fn remove_workspace(&self, name: &str) -> Result<(), String>;

    /// Let `ms` milliseconds pass before the next call, while the compositor
    /// catches up. A scripted backend need not wait.
    fn pause(&self, ms: u64) {
    }

    /// Subscribe to compositor events and run cleanup when workspaces may
    /// become empty. Blocks forever; meant for a dedicated thread.
    fn run_event_cleanup(&self, prefix: &str);
}

/// A call made to a backend, with what came back.
pub enum Call {
    ListWorkspaces(Result<Seq<WorkspaceInfo>, Seq<char>>),
    ListWindows(Result<Seq<WindowInfo>, Seq<char>>),
    FocusOrCreate(Seq<char>, Result<bool, Seq<char>>),
    Spawn(Seq<Seq<char>>, Result<(), Seq<char>>),
    CloseWindow(u64, Result<(), Seq<char>>),
    FocusWindow(u64, Result<(), Seq<char>>),
    MoveToPosition(usize, Result<(), Seq<char>>),
    MoveToWorkspace(Seq<char>, Result<(), Seq<char>>),
    RemoveWorkspace(Seq<char>, Result<(), Seq<char>>),
}

/// A backend together with the record of every call made to it.
pub struct Recorder<B> {
    pub backend: B,
    pub calls: Ghost<Seq<Call>>,
}

/// A unit result, with its error as text.
pub open spec fn unit_res(r: Result<(), String>) -> Result<(), Seq<char>> {
    match r {
        Ok(()) => Ok(()),
        Err(e) => Err(e@),
    }
}

/// A yes-or-no result, with its error as text.
pub open spec fn bool_res(r: Result<bool, String>) -> Result<bool, Seq<char>> {
    match r {
        Ok(b) => Ok(b),
        Err(e) => Err(e@),
    }
}

/// A list result, with its error as text.
pub open spec fn list_res<T>(r: Result<Vec<T>, String>) -> Result<Seq<T>, Seq<char>> {
    match r {
        Ok(v) => Ok(v@),
        Err(e) => Err(e@),
    }
}

/// `after` continues `before`.
pub open spec fn continues(before: Seq<Call>, after: Seq<Call>) -> bool {
    before.len() <= after.len() && after.subrange(0, before.len() as int) == before
}

/// The calls made between two states of a record.
pub open spec fn made(before: Seq<Call>, after: Seq<Call>) -> Seq<Call> {
    after.subrange(before.len() as int, after.len() as int)
}

/// The calls of two stretches in a row are those of the first, then the second.
pub proof fn lemma_made_chain(a: Seq<Call>, b: Seq<Call>, c: Seq<Call>)
    requires
        continues(a, b),
        continues(b, c),
    ensures
        continues(a, c),
        made(a, c) == made(a, b) + made(b, c),
{
    assert(c.subrange(0, a.len() as int) =~= b.subrange(0, a.len() as int));
    assert(made(a, c) =~= made(a, b) + made(b, c));
}

/// No call was made between a record and itself.
pub proof fn lemma_made_none(a: Seq<Call>)
    ensures
        continues(a, a),
        made(a, a) == Seq::<Call>::empty(),
{
    assert(a.subrange(0, a.len() as int) =~= a);
    assert(made(a, a) =~= Seq::<Call>::empty());
}

/// Exactly the call `c` was made.
pub open spec fn one_call(before: Seq<Call>, after: Seq<Call>, c: Call) -> bool {
    continues(before, after) && made(before, after) == seq![c]
}

impl<B: Backend> Recorder<B> {
    /// A record over `backend` with no call made yet.
    pub fn new(backend: B) -> (r: Self)
        ensures
            r.backend == backend,
            r.calls@ == Seq::<Call>::empty(),
    {
        Recorder { backend, calls: Ghost(Seq::empty()) }
    }

    proof fn lemma_push(before: Seq<Call>, c: Call)
        ensures
            one_call(before, before.push(c), c),
    {
        assert(before.push(c).subrange(0, before.len() as int) =~= before);
        assert(made(before, before.push(c)) =~= seq![c]);
    }

    pub fn list_workspaces(&mut self) -> (r: Result<Vec<WorkspaceInfo>, String>)
        ensures
            one_call(old(self).calls@, final(self).calls@, Call::ListWorkspaces(list_res(r))),
    {
        let r = self.backend.list_workspaces();
        proof {
            Self::lemma_push(self.calls@, Call::ListWorkspaces(list_res(r)));
        }
        self.calls = Ghost(self.calls@.push(Call::ListWorkspaces(list_res(r))));
        r
    }

    pub fn list_windows(&mut self) -> (r: Result<Vec<WindowInfo>, String>)
        ensures
            one_call(old(self).calls@, final(self).calls@, Call::ListWindows(list_res(r))),
    {
        let r = self.backend.list_windows();
        proof {
            Self::lemma_push(self.calls@, Call::ListWindows(list_res(r)));
        }
        self.calls = Ghost(self.calls@.push(Call::ListWindows(list_res(r))));
        r
    }

    pub fn focus_or_create_workspace(&mut self, name: &str) -> (r: Result<bool, String>)
        ensures
            one_call(
                old(self).calls@,
                final(self).calls@,
                Call::FocusOrCreate(name@, bool_res(r)),
            ),
    {
        let r = self.backend.focus_or_create_workspace(name);
        let ghost c = Call::FocusOrCreate(name@, bool_res(r));
        proof {
            Self::lemma_push(self.calls@, c);
        }
        self.calls = Ghost(self.calls@.push(c));
        r
    }

    pub fn spawn_program(&mut self, command: &Vec<String>) -> (r: Result<(), String>)
        ensures
            one_call(old(self).calls@, final(self).calls@, Call::Spawn(command.deep_view(), unit_res(r))),
    {
        let r = self.backend.spawn_program(command);
        proof {
            Self::lemma_push(self.calls@, Call::Spawn(command.deep_view(), unit_res(r)));
        }
        self.calls = Ghost(self.calls@.push(Call::Spawn(command.deep_view(), unit_res(r))));
        r
    }

    pub fn close_window(&mut self, id: u64) -> (r: Result<(), String>)
        ensures
            one_call(old(self).calls@, final(self).calls@, Call::CloseWindow(id, unit_res(r))),
    {
        let r = self.backend.close_window(id);
        proof {
            Self::lemma_push(self.calls@, Call::CloseWindow(id, unit_res(r)));
        }
        self.calls = Ghost(self.calls@.push(Call::CloseWindow(id, unit_res(r))));
        r
    }

    /// Let `ms` milliseconds pass; no call is recorded.
    pub fn pause(&mut self, ms: u64)
        ensures
            final(self).calls@ == old(self).calls@,
    {
        self.backend.pause(ms);
    }

    pub fn focus_window(&mut self, id: u64) -> (r: Result<(), String>)
        ensures
            one_call(old(self).calls@, final(self).calls@, Call::FocusWindow(id, unit_res(r))),
    {
        let r = self.backend.focus_window(id);
        proof {
            Self::lemma_push(self.calls@, Call::FocusWindow(id, unit_res(r)));
        }
        self.calls = Ghost(self.calls@.push(Call::FocusWindow(id, unit_res(r))));
        r
    }

    pub fn move_window_to_position(&mut self, index: usize) -> (r: Result<(), String>)
        ensures
            one_call(old(self).calls@, final(self).calls@, Call::MoveToPosition(index, unit_res(r))),
    {
        let r = self.backend.move_window_to_position(index);
        proof {
            Self::lemma_push(self.calls@, Call::MoveToPosition(index, unit_res(r)));
        }
        self.calls = Ghost(self.calls@.push(Call::MoveToPosition(index, unit_res(r))));
        r
    }

    pub fn move_window_to_workspace(&mut self, name: &str) -> (r: Result<(), String>)
        ensures
            one_call(old(self).calls@, final(self).calls@, Call::MoveToWorkspace(name@, unit_res(r))),
    {
        let r = self.backend.move_window_to_workspace(name);
        proof {
            Self::lemma_push(self.calls@, Call::MoveToWorkspace(name@, unit_res(r)));
        }
        self.calls = Ghost(self.calls@.push(Call::MoveToWorkspace(name@, unit_res(r))));
        r
    }

    pub fn remove_workspace(&mut self, name: &str) -> (r: Result<(), String>)
        ensures
            one_call(old(self).calls@, final(self).calls@, Call::RemoveWorkspace(name@, unit_res(r))),
    {
        let r = self.backend.remove_workspace(name);
        proof {
            Self::lemma_push(self.calls@, Call::RemoveWorkspace(name@, unit_res(r)));
        }
        self.calls = Ghost(self.calls@.push(Call::RemoveWorkspace(name@, unit_res(r))));
        r
    }
}

/// `w` is named exactly `name`.
pub open spec fn is_named(w: WorkspaceInfo, name: Seq<char>) -> bool {
    match w.name {
        Some(n) => n@ == name,
        None => false,
    }
}

/// The index of the first workspace named `name`, if any.
pub open spec fn index_by_name(ws: Seq<WorkspaceInfo>, name: Seq<char>) -> Option<int>
    decreases ws.len(),
{
    if ws.len() == 0 {
        None
    } else if is_named(ws[0], name) {
        Some(0)
    } else {
        match index_by_name(ws.drop_first(), name) {
            Some(i) => Some(i + 1),
            None => None,
        }
    }
}

/// The index of the first workspace named exactly `name`.
pub fn find_index_by_name(workspaces: &Vec<WorkspaceInfo>, name: &str) -> (r: Option<usize>)
    ensures
        match r {
            Some(i) => index_by_name(workspaces@, name@) == Some(i as int) && i < workspaces@.len(),
            None => index_by_name(workspaces@, name@) is None,
        },
{
    let ghost ws = workspaces@;
    let mut i: usize = 0;
    assert(ws.skip(0) =~= ws);
    while i < workspaces.len()
        invariant
            ws == workspaces@,
            i <= ws.len(),
            index_by_name(ws, name@) == match index_by_name(ws.skip(i as int), name@) {
                Some(k) => Some(k + i),
                None => None::<int>,
            },
        decreases ws.len() - i,
    {
        assert(ws.skip(i as int)[0] == ws[i as int]);
        let hit = match &workspaces[i].name {
            Some(n) => str_eq(n.as_str(), name),
            None => false,
        };
        if hit {
            return Some(i);
        }
        assert(ws.skip(i as int).drop_first() =~= ws.skip(i + 1));
        i = i + 1;
    }
    None
}

/// The first workspace named exactly `name`.
pub fn find_workspace_by_name<'a>(workspaces: &'a Vec<WorkspaceInfo>, name: &str) -> (r: Option<&'a WorkspaceInfo>)
    ensures
        match r {
            Some(w) => exists|i: int| index_by_name(workspaces@, name@) == Some(i) && 0 <= i < workspaces@.len() && *w == workspaces@[i],
            None => index_by_name(workspaces@, name@) is None,
        },
{
    match find_index_by_name(workspaces, name) {
        Some(i) => Some(&workspaces[i]),
        None => None,
    }
}

/// The executable of a command: the basename of its first word, or of the
/// whole command when it has no words.
pub open spec fn executable_name_spec(command: Seq<char>) -> Seq<char> {
    let w = words_spec(command);
    basename_spec(if w.len() > 0 { w[0] } else { command })
}

/// Extract the executable name from a command string.
pub fn executable_name(command: &str) -> (r: String)
    ensures
        r@ == executable_name_spec(command@),
{
    let w = words(command);
    let ghost wd = w.deep_view();
    if w.len() > 0 {
        assert(wd[0] == w@[0]@);
        basename(w[0].as_str())
    } else {
        basename(command)
    }
}

/// The windows of `wins` on workspace `ws_id` that are not among `existing`, in order.
pub open spec fn fresh_on(wins: Seq<WindowInfo>, ws_id: u64, existing: Seq<u64>) -> Seq<WindowInfo>
    decreases wins.len(),
{
    if wins.len() == 0 {
        Seq::empty()
    } else {
        let r = fresh_on(wins.drop_last(), ws_id, existing);
        let w = wins.last();
        if w.workspace_id == Some(ws_id) && !existing.contains(w.id) {
            r.push(w)
        } else {
            r
        }
    }
}

/// Whether `v` holds `x`.
fn holds(v: &Vec<u64>, x: u64) -> (r: bool)
    ensures
        r == v@.contains(x),
{
    let mut i: usize = 0;
    while i < v.len()
        invariant
            i <= v@.len(),
            forall|k: int| 0 <= k < i ==> v@[k] != x,
        decreases v@.len() - i,
    {
        if v[i] == x {
            assert(v@[i as int] == x);
            return true;
        }
        i = i + 1;
    }
    false
}

/// A window equal to `w`.
pub fn copy_window_info(w: &WindowInfo) -> (r: WindowInfo)
    ensures
        r == *w,
{
    WindowInfo {
        id: w.id,
        workspace_id: w.workspace_id,
        app_id: match &w.app_id {
            Some(a) => Some(a.clone()),
            None => None,
        },
        is_urgent: w.is_urgent,
    }
}

/// The windows on workspace `ws_id` that were not there before (`existing_ids`).
pub fn new_workspace_windows(windows: &Vec<WindowInfo>, ws_id: u64, existing_ids: &Vec<u64>) -> (r: Vec<WindowInfo>)
    ensures
        r@ == fresh_on(windows@, ws_id, existing_ids@),
{
    let mut r: Vec<WindowInfo> = Vec::new();
    let mut i: usize = 0;
    while i < windows.len()
        invariant
            i <= windows@.len(),
            r@ == fresh_on(windows@.take(i as int), ws_id, existing_ids@),
        decreases windows@.len() - i,
    {
        assert(windows@.take(i + 1).drop_last() =~= windows@.take(i as int));
        assert(windows@.take(i + 1).last() == windows@[i as int]);
        if windows[i].workspace_id == Some(ws_id) && !holds(existing_ids, windows[i].id) {
            r.push(copy_window_info(&windows[i]));
        }
        i = i + 1;
    }
    assert(windows@.take(windows@.len() as int) =~= windows@);
    r
}

/// The ids of the windows of `wins` on workspace `ws_id`, each once, in order of first appearance.
pub open spec fn ids_on_spec(wins: Seq<WindowInfo>, ws_id: u64) -> Seq<u64>
    decreases wins.len(),
{
    if wins.len() == 0 {
        Seq::empty()
    } else {
        let r = ids_on_spec(wins.drop_last(), ws_id);
        let w = wins.last();
        if w.workspace_id == Some(ws_id) && !r.contains(w.id) {
            r.push(w.id)
        } else {
            r
        }
    }
}

/// The ids of the windows on workspace `ws_id`, each once.
pub fn ids_on(windows: &Vec<WindowInfo>, ws_id: u64) -> (r: Vec<u64>)
    ensures
        r@ == ids_on_spec(windows@, ws_id),
{
    let mut r: Vec<u64> = Vec::new();
    let mut i: usize = 0;
    while i < windows.len()
        invariant
            i <= windows@.len(),
            r@ == ids_on_spec(windows@.take(i as int), ws_id),
        decreases windows@.len() - i,
    {
        assert(windows@.take(i + 1).drop_last() =~= windows@.take(i as int));
        assert(windows@.take(i + 1).last() == windows@[i as int]);
        if windows[i].workspace_id == Some(ws_id) && !holds(&r, windows[i].id) {
            r.push(windows[i].id);
        }
        i = i + 1;
    }
    assert(windows@.take(windows@.len() as int) =~= windows@);
    r
}

/// No id occurs twice in `s`.
pub open spec fn no_repeats(s: Seq<u64>) -> bool {
    forall|i: int, j: int| 0 <= i < j < s.len() ==> s[i] != s[j]
}

/// What `ids_on_spec` gives holds no id twice.
pub proof fn lemma_ids_on_no_repeats(wins: Seq<WindowInfo>, ws_id: u64)
    ensures
        no_repeats(ids_on_spec(wins, ws_id)),
    decreases wins.len(),
{
    if wins.len() > 0 {
        lemma_ids_on_no_repeats(wins.drop_last(), ws_id);
    }
}

/// Snapshotting the windows on workspace `name`: list the workspaces, and
/// when one has that name, the windows; any failure gives no ids.
pub open spec fn snapshot_protocol(name: Seq<char>, calls: Seq<Call>, ids: Seq<u64>) -> bool {
    &&& calls.len() >= 1
    &&& match calls[0] {
        Call::ListWorkspaces(Err(_)) => calls.len() == 1 && ids.len() == 0,
        Call::ListWorkspaces(Ok(ws)) => match index_by_name(ws, name) {
            None => calls.len() == 1 && ids.len() == 0,
            Some(i) => calls.len() == 2 && match calls[1] {
                Call::ListWindows(Err(_)) => ids.len() == 0,
                Call::ListWindows(Ok(wins)) => ids == ids_on_spec(wins, ws[i].id),
                _ => false,
            },
        },
        _ => false,
    }
}

/// Snapshot all window ids currently on the workspace named `workspace_name`.
pub fn snapshot_workspace_window_ids<B: Backend>(rec: &mut Recorder<B>, workspace_name: &str) -> (r: Vec<u64>)
    ensures
        continues(old(rec).calls@, final(rec).calls@),
        snapshot_protocol(workspace_name@, made(old(rec).calls@, final(rec).calls@), r@),
        no_repeats(r@),
{
    let ghost c0 = rec.calls@;
    let listed = rec.list_workspaces();
    let ghost c1 = rec.calls@;
    let workspaces = match listed {
        Ok(ws) => ws,
        Err(_) => {
            return Vec::new();
        },
    };
    let i = match find_index_by_name(&workspaces, workspace_name) {
        Some(i) => i,
        None => {
            return Vec::new();
        },
    };
    let ws_id = workspaces[i].id;
    let listed_windows = rec.list_windows();
    proof {
        lemma_made_chain(c0, c1, rec.calls@);
        assert(made(c0, rec.calls@)[1] == made(c1, rec.calls@)[0]);
    }
    match listed_windows {
        Ok(wins) => {
            proof {
                lemma_ids_on_no_repeats(wins@, ws_id);
            }
            ids_on(&wins, ws_id)
        },
        Err(_) => Vec::new(),
    }
}


/// The programs that have words, each with its words, in order.
pub open spec fn split_programs(programs: Seq<Seq<char>>) -> Seq<(Seq<char>, Seq<Seq<char>>)>
    decreases programs.len(),
{
    if programs.len() == 0 {
        Seq::empty()
    } else {
        let r = split_programs(programs.drop_last());
        let p = programs.last();
        if words_spec(p).len() > 0 {
            r.push((p, words_spec(p)))
        } else {
            r
        }
    }
}

/// An optional error as the failure it stands for.
pub open spec fn opt_err(f: Option<String>) -> Result<(), Seq<char>> {
    match f {
        Some(e) => Err(e@),
        None => Ok(()),
    }
}

/// The message when a program fails to spawn.
pub open spec fn spawn_failed(program: Seq<char>, why: Seq<char>) -> Seq<char> {
    "failed to spawn '"@ + program + "': "@ + why
}

/// Spawning `progs` in order, stopping at the first that fails; `out` is what came of it.
pub open spec fn spawns_all(progs: Seq<(Seq<char>, Seq<Seq<char>>)>, calls: Seq<Call>, out: Result<(), Seq<char>>) -> bool
    decreases progs.len(),
{
    if progs.len() == 0 {
        calls.len() == 0 && out == Ok::<(), Seq<char>>(())
    } else {
        &&& calls.len() >= 1
        &&& match calls[0] {
            Call::Spawn(argv, Ok(())) => argv == progs[0].1 && spawns_all(progs.drop_first(), calls.drop_first(), out),
            Call::Spawn(argv, Err(m)) => argv == progs[0].1 && calls.len() == 1 && out == Err::<(), Seq<char>>(
                spawn_failed(progs[0].0, m),
            ),
            _ => false,
        }
    }
}

proof fn lemma_spawns_all_prefix(progs: Seq<(Seq<char>, Seq<Seq<char>>)>, calls: Seq<Call>, k: int, out: Result<(), Seq<char>>)
    requires
        0 <= k <= progs.len(),
        k <= calls.len(),
        forall|j: int| 0 <= j < k ==> #[trigger] calls[j] == Call::Spawn(progs[j].1, Ok(())),
        spawns_all(progs.skip(k), calls.skip(k), out),
    ensures
        spawns_all(progs, calls, out),
    decreases k,
{
    if k > 0 {
        assert(progs.skip(k) =~= progs.drop_first().skip(k - 1));
        assert(calls.skip(k) =~= calls.drop_first().skip(k - 1));
        assert forall|j: int| 0 <= j < k - 1 implies #[trigger] calls.drop_first()[j] == Call::Spawn(
            progs.drop_first()[j].1,
            Ok(()),
        ) by {
            assert(calls.drop_first()[j] == calls[j + 1]);
        }
        lemma_spawns_all_prefix(progs.drop_first(), calls.drop_first(), k - 1, out);
        assert(calls[0] == Call::Spawn(progs[0].1, Ok(())));
    } else {
        assert(progs.skip(0) =~= progs);
        assert(calls.skip(0) =~= calls);
    }
}

/// Spawning the programs of a new workspace named `name`: with two or more
/// programs, first snapshot the windows already there; then spawn each
/// program that has words, split on whitespace, in order. With two or more
/// programs the result asks for their columns to be reordered.
pub open spec fn spawn_programs_protocol(
    name: Seq<char>,
    programs: Seq<Seq<char>>,
    calls: Seq<Call>,
    r: Result<Option<ReorderRequest>, String>,
) -> bool {
    let (k, ids) = if programs.len() >= 2 {
        snapshot_result(name, calls)
    } else {
        (0int, Seq::<u64>::empty())
    };
    &&& 0 <= k <= calls.len()
    &&& programs.len() >= 2 ==> snapshot_protocol(name, calls.take(k), ids)
    &&& match r {
        Err(e) => spawns_all(split_programs(programs), calls.skip(k), Err(e@)),
        Ok(o) => spawns_all(split_programs(programs), calls.skip(k), Ok(())) && match o {
            Some(req) => programs.len() >= 2 && req.workspace_name@ == name && req.commands.deep_view() == programs
                && req.existing_window_ids@ == ids,
            None => programs.len() < 2,
        },
    }
}

/// How many calls a snapshot of workspace `name` made at the start of
/// `calls`, and the ids it found.
pub open spec fn snapshot_result(name: Seq<char>, calls: Seq<Call>) -> (int, Seq<u64>) {
    if calls.len() == 0 {
        (0, Seq::empty())
    } else {
        match calls[0] {
            Call::ListWorkspaces(Ok(ws)) => match index_by_name(ws, name) {
                None => (1, Seq::empty()),
                Some(i) => if calls.len() < 2 {
                    (2, Seq::empty())
                } else {
                    match calls[1] {
                        Call::ListWindows(Ok(wins)) => (2, ids_on_spec(wins, ws[i].id)),
                        _ => (2, Seq::empty()),
                    }
                },
            },
            _ => (1, Seq::empty()),
        }
    }
}

proof fn lemma_snapshot_result(name: Seq<char>, pre: Seq<Call>, rest: Seq<Call>, ids: Seq<u64>)
    requires
        snapshot_protocol(name, pre, ids),
    ensures
        snapshot_result(name, pre + rest) == (pre.len() as int, ids),
        (pre + rest).take(pre.len() as int) == pre,
        (pre + rest).skip(pre.len() as int) == rest,
{
    let c = pre + rest;
    assert(c[0] == pre[0]);
    if pre.len() == 2 {
        assert(c[1] == pre[1]);
    }
    assert(c.take(pre.len() as int) =~= pre);
    assert(c.skip(pre.len() as int) =~= rest);
}

/// Spawn programs for a newly created workspace. With two or more programs
/// launched, the result asks for their columns to be put in program order.
pub fn spawn_workspace_programs<B: Backend>(rec: &mut Recorder<B>, workspace_name: &str, programs: &Vec<String>) -> (r: Result<Option<ReorderRequest>, String>)
    ensures
        continues(old(rec).calls@, final(rec).calls@),
        spawn_programs_protocol(workspace_name@, programs.deep_view(), made(old(rec).calls@, final(rec).calls@), r),
{
    let ghost c0 = rec.calls@;
    let existing_ids = if programs.len() >= 2 {
        snapshot_workspace_window_ids(rec, workspace_name)
    } else {
        proof {
            lemma_made_none(c0);
        }
        Vec::new()
    };
    let ghost c1 = rec.calls@;
    let ghost all = programs.deep_view();
    let mut progs: Vec<(String, Vec<String>)> = Vec::new();
    let mut i: usize = 0;
    while i < programs.len()
        invariant
            all == programs.deep_view(),
            i <= all.len(),
            progs@.map_values(|p: (String, Vec<String>)| (p.0@, p.1.deep_view())) == split_programs(all.take(i as int)),
        decreases all.len() - i,
    {
        assert(all.take(i + 1).drop_last() =~= all.take(i as int));
        assert(all.take(i + 1).last() == all[i as int]);
        let w = words(programs[i].as_str());
        if w.len() > 0 {
            let ghost before = progs@;
            progs.push((programs[i].clone(), w));
            assert(progs@.map_values(|p: (String, Vec<String>)| (p.0@, p.1.deep_view())) =~= before.map_values(
                |p: (String, Vec<String>)| (p.0@, p.1.deep_view()),
            ).push((all[i as int], words_spec(all[i as int]))));
        }
        i = i + 1;
    }
    assert(all.take(all.len() as int) =~= all);
    let ghost pv = progs@.map_values(|p: (String, Vec<String>)| (p.0@, p.1.deep_view()));
    proof {
        lemma_made_none(c1);
    }
    let mut j: usize = 0;
    let mut failed: Option<String> = None;
    while j < progs.len() && failed.is_none()
        invariant
            pv == progs@.map_values(|p: (String, Vec<String>)| (p.0@, p.1.deep_view())),
            j <= pv.len(),
            continues(c1, rec.calls@),
            match failed {
                None => made(c1, rec.calls@).len() == j,
                Some(e) => {
                    &&& j < pv.len()
                    &&& made(c1, rec.calls@).len() == j + 1
                    &&& exists|m: Seq<char>|
                        made(c1, rec.calls@)[j as int] == Call::Spawn(pv[j as int].1, Err(m)) && e@ == spawn_failed(
                            pv[j as int].0,
                            m,
                        )
                },
            },
            forall|q: int| 0 <= q < j ==> #[trigger] made(c1, rec.calls@)[q] == Call::Spawn(pv[q].1, Ok(())),
        decreases pv.len() - j, (if failed is None { 1int } else { 0int }),
    {
        let ghost cj = rec.calls@;
        let res = rec.spawn_program(&progs[j].1);
        proof {
            lemma_made_chain(c1, cj, rec.calls@);
            assert(made(c1, rec.calls@)[j as int] == made(cj, rec.calls@)[0]);
            assert forall|q: int| 0 <= q < j implies #[trigger] made(c1, rec.calls@)[q] == made(c1, cj)[q] by {}
            assert(pv[j as int] == (progs@[j as int].0@, progs@[j as int].1.deep_view()));
            assert(made(c1, rec.calls@).len() == j + 1);
        }
        match res {
            Err(e) => {
                let mut m = "failed to spawn '".to_string();
                m.append(progs[j].0.as_str());
                m.append("': ");
                m.append(e.as_str());
                proof {
                    assert(made(c1, rec.calls@)[j as int] == Call::Spawn(pv[j as int].1, Err(e@)));
                    assert(m@ == spawn_failed(pv[j as int].0, e@));
                }
                failed = Some(m);
            },
            Ok(()) => {
                j = j + 1;
            },
        }
    }
    proof {
        let cs = made(c1, rec.calls@);
        let out = opt_err(failed);
        if failed is Some {
            assert(pv.skip(j as int)[0] == pv[j as int]);
            assert(cs.skip(j as int) =~= seq![cs[j as int]]);
        } else {
            assert(pv.skip(j as int).len() == 0);
            assert(cs.skip(j as int).len() == 0);
        }
        assert(spawns_all(pv.skip(j as int), cs.skip(j as int), out));
        lemma_spawns_all_prefix(pv, cs, j as int, out);
        lemma_made_chain(c0, c1, rec.calls@);
        if programs.len() >= 2 {
            lemma_snapshot_result(workspace_name@, made(c0, c1), cs, existing_ids@);
        } else {
            assert(made(c0, c1).len() == 0);
            assert(made(c0, rec.calls@).skip(0) =~= cs);
        }
        assert(programs.deep_view().len() == programs@.len());
    }
    match failed {
        Some(e) => Err(e),
        None => {
            if programs.len() >= 2 {
                Ok(Some(ReorderRequest {
                    workspace_name: workspace_name.to_string(),
                    commands: crate::text::clone_strings(programs),
                    existing_window_ids: existing_ids,
                }))
            } else {
                Ok(None)
            }
        },
    }
}

/// Switching to the workspace named `name`: focus or create it; when it was
/// created, spawn the programs there.
pub open spec fn switch_protocol(
    name: Seq<char>,
    programs: Seq<Seq<char>>,
    calls: Seq<Call>,
    r: Result<(bool, Option<ReorderRequest>), String>,
) -> bool {
    &&& calls.len() >= 1
    &&& match calls[0] {
        Call::FocusOrCreate(n, res) => n == name && match res {
            Err(m) => calls.len() == 1 && r is Err && r->Err_0@ == m,
            Ok(false) => calls.len() == 1 && r is Ok && r->Ok_0.0 == false && r->Ok_0.1 is None,
            Ok(true) => match r {
                Ok((created, reorder)) => created && spawn_programs_protocol(name, programs, calls.drop_first(), Ok(reorder)),
                Err(e) => spawn_programs_protocol(name, programs, calls.drop_first(), Err(e)),
            },
        },
        _ => false,
    }
}

/// Switch to a workspace (creating it if needed) and spawn programs on
/// creation. Returns whether it was created and, with two or more programs,
/// a reorder request.
pub fn switch_workspace<B: Backend>(rec: &mut Recorder<B>, name: &str, programs: &Vec<String>) -> (r: Result<(bool, Option<ReorderRequest>), String>)
    ensures
        continues(old(rec).calls@, final(rec).calls@),
        switch_protocol(name@, programs.deep_view(), made(old(rec).calls@, final(rec).calls@), r),
{
    let ghost c0 = rec.calls@;
    let created = rec.focus_or_create_workspace(name);
    let ghost c1 = rec.calls@;
    let created = match created {
        Err(e) => {
            return Err(e);
        },
        Ok(c) => c,
    };
    if !created {
        return Ok((false, None));
    }
    let res = spawn_workspace_programs(rec, name, programs);
    proof {
        lemma_made_chain(c0, c1, rec.calls@);
        assert(made(c0, rec.calls@).drop_first() =~= made(c1, rec.calls@));
        assert(made(c0, rec.calls@)[0] == made(c0, c1)[0]);
    }
    match res {
        Ok(reorder) => Ok((true, reorder)),
        Err(e) => Err(e),
    }
}

/// The windows of `wins` on workspace `ws_id`, in order.
pub open spec fn windows_on(wins: Seq<WindowInfo>, ws_id: u64) -> Seq<WindowInfo> {
    fresh_on(wins, ws_id, Seq::empty())
}

/// Closing `targets` in order, then removing workspace `name`; stopping at
/// the first that fails.
pub open spec fn closes_then_removes(targets: Seq<WindowInfo>, name: Seq<char>, calls: Seq<Call>, out: Result<(), Seq<char>>) -> bool
    decreases targets.len(),
{
    if targets.len() == 0 {
        calls.len() == 1 && calls[0] == Call::RemoveWorkspace(name, out)
    } else {
        &&& calls.len() >= 1
        &&& match calls[0] {
            Call::CloseWindow(id, Ok(())) => id == targets[0].id && closes_then_removes(
                targets.drop_first(),
                name,
                calls.drop_first(),
                out,
            ),
            Call::CloseWindow(id, Err(m)) => id == targets[0].id && calls.len() == 1 && out == Err::<(), Seq<char>>(m),
            _ => false,
        }
    }
}

proof fn lemma_closes_removes_prefix(targets: Seq<WindowInfo>, name: Seq<char>, calls: Seq<Call>, k: int, out: Result<(), Seq<char>>)
    requires
        0 <= k <= targets.len(),
        k <= calls.len(),
        forall|j: int| 0 <= j < k ==> #[trigger] calls[j] == Call::CloseWindow(targets[j].id, Ok(())),
        closes_then_removes(targets.skip(k), name, calls.skip(k), out),
    ensures
        closes_then_removes(targets, name, calls, out),
    decreases k,
{
    if k > 0 {
        assert(targets.skip(k) =~= targets.drop_first().skip(k - 1));
        assert(calls.skip(k) =~= calls.drop_first().skip(k - 1));
        assert forall|j: int| 0 <= j < k - 1 implies #[trigger] calls.drop_first()[j] == Call::CloseWindow(
            targets.drop_first()[j].id,
            Ok(()),
        ) by {
            assert(calls.drop_first()[j] == calls[j + 1]);
        }
        lemma_closes_removes_prefix(targets.drop_first(), name, calls.drop_first(), k - 1, out);
        assert(calls[0] == Call::CloseWindow(targets[0].id, Ok(())));
    } else {
        assert(targets.skip(0) =~= targets);
        assert(calls.skip(0) =~= calls);
    }
}

/// The message for a workspace that is not there.
pub open spec fn missing_message(name: Seq<char>) -> Seq<char> {
    "workspace '"@ + name + "' not found"@
}

/// Deleting the workspace named `name`: list the workspaces, fail when none
/// has the name, else list the windows, close those on it, and remove it.
pub open spec fn delete_protocol(name: Seq<char>, calls: Seq<Call>, r: Result<(), Seq<char>>) -> bool {
    &&& calls.len() >= 1
    &&& match calls[0] {
        Call::ListWorkspaces(Err(m)) => calls.len() == 1 && r == Err::<(), Seq<char>>(m),
        Call::ListWorkspaces(Ok(ws)) => match index_by_name(ws, name) {
            None => calls.len() == 1 && r == Err::<(), Seq<char>>(missing_message(name)),
            Some(i) => calls.len() >= 2 && match calls[1] {
                Call::ListWindows(Err(m)) => calls.len() == 2 && r == Err::<(), Seq<char>>(m),
                Call::ListWindows(Ok(wins)) => closes_then_removes(windows_on(wins, ws[i].id), name, calls.skip(2), r),
                _ => false,
            },
        },
        _ => false,
    }
}

/// Delete a workspace: close all its windows and remove it.
pub fn delete_workspace<B: Backend>(rec: &mut Recorder<B>, name: &str) -> (r: Result<(), String>)
    ensures
        continues(old(rec).calls@, final(rec).calls@),
        delete_protocol(name@, made(old(rec).calls@, final(rec).calls@), unit_res(r)),
{
    let ghost c0 = rec.calls@;
    let listed = rec.list_workspaces();
    let ghost c1 = rec.calls@;
    let workspaces = match listed {
        Ok(ws) => ws,
        Err(e) => {
            return Err(e);
        },
    };
    let i = match find_index_by_name(&workspaces, name) {
        Some(i) => i,
        None => {
            let mut m = "workspace '".to_string();
            m.append(name);
            m.append("' not found");
            return Err(m);
        },
    };
    let ws_id = workspaces[i].id;
    let listed_windows = rec.list_windows();
    let ghost c2 = rec.calls@;
    proof {
        lemma_made_chain(c0, c1, c2);
        assert(made(c0, c2)[1] == made(c1, c2)[0]);
    }
    let windows = match listed_windows {
        Ok(w) => w,
        Err(e) => {
            return Err(e);
        },
    };
    let empty: Vec<u64> = Vec::new();
    let targets = new_workspace_windows(&windows, ws_id, &empty);
    let ghost t = targets@;
    proof {
        lemma_made_none(c2);
    }
    let mut k: usize = 0;
    let mut failed: Option<String> = None;
    while k < targets.len() && failed.is_none()
        invariant
            t == targets@,
            k <= t.len(),
            continues(c2, rec.calls@),
            match failed {
                None => made(c2, rec.calls@).len() == k,
                Some(e) => {
                    &&& k < t.len()
                    &&& made(c2, rec.calls@).len() == k + 1
                    &&& made(c2, rec.calls@)[k as int] == Call::CloseWindow(t[k as int].id, Err(e@))
                },
            },
            forall|j: int| 0 <= j < k ==> #[trigger] made(c2, rec.calls@)[j] == Call::CloseWindow(t[j].id, Ok(())),
        decreases t.len() - k, (if failed is None { 1int } else { 0int }),
    {
        let ghost ck = rec.calls@;
        let res = rec.close_window(targets[k].id);
        proof {
            lemma_made_chain(c2, ck, rec.calls@);
            assert(made(c2, rec.calls@)[k as int] == made(ck, rec.calls@)[0]);
            assert forall|j: int| 0 <= j < k implies #[trigger] made(c2, rec.calls@)[j] == made(c2, ck)[j] by {}
        }
        match res {
            Err(e) => {
                failed = Some(e);
            },
            Ok(()) => {
                k = k + 1;
            },
        }
    }
    let ghost c3 = rec.calls@;
    let r = match failed {
        Some(e) => Err(e),
        None => rec.remove_workspace(name),
    };
    proof {
        lemma_made_none(c3);
        if failed is None {
            assert(continues(c3, rec.calls@));
        }
        lemma_made_chain(c2, c3, rec.calls@);
        let cs = made(c2, rec.calls@);
        if failed is Some {
            assert(t.skip(k as int)[0] == t[k as int]);
            assert(cs.skip(k as int) =~= seq![cs[k as int]]);
        } else {
            assert(t.skip(k as int).len() == 0);
            assert(cs[k as int] == made(c3, rec.calls@)[0]);
            assert(cs.skip(k as int) =~= seq![cs[k as int]]);
        }
        assert forall|j: int| 0 <= j < k implies #[trigger] cs[j] == Call::CloseWindow(t[j].id, Ok(())) by {
            assert(cs[j] == made(c2, c3)[j]);
        }
        lemma_closes_removes_prefix(t, name@, cs, k as int, unit_res(r));
        lemma_made_chain(c0, c2, rec.calls@);
        assert(made(c0, rec.calls@).skip(2) =~= cs);
        assert(made(c0, rec.calls@)[0] == made(c0, c2)[0]);
        assert(made(c0, rec.calls@)[1] == made(c0, c2)[1]);
    }
    r
}


/// Some window of `wins` is on workspace `id`.
pub open spec fn has_windows(wins: Seq<WindowInfo>, id: u64) -> bool {
    exists|j: int| 0 <= j < wins.len() && (#[trigger] wins[j]).workspace_id == Some(id)
}

/// The names of the workspaces of `ws` that cleanup removes: dynamic names
/// (`prefix`, one workspace character, then nothing or a space and a title),
/// unfocused, inactive and without windows; in order. A name such as
/// `dyn-alpha` is not dynamic and is never removed.
pub open spec fn cleanup_targets(ws: Seq<WorkspaceInfo>, wins: Seq<WindowInfo>, prefix: Seq<char>) -> Seq<Seq<char>>
    decreases ws.len(),
{
    if ws.len() == 0 {
        Seq::empty()
    } else {
        let r = cleanup_targets(ws.drop_last(), wins, prefix);
        let w = ws.last();
        match w.name {
            Some(n) => if parse_dynamic_name_spec(n@, prefix) is Some && !w.is_focused && !w.is_active && !has_windows(wins, w.id) {
                r.push(n@)
            } else {
                r
            },
            None => r,
        }
    }
}

/// Removing the workspaces `names` in order, stopping at the first that fails.
pub open spec fn removes(names: Seq<Seq<char>>, calls: Seq<Call>, out: Result<(), Seq<char>>) -> bool
    decreases names.len(),
{
    if names.len() == 0 {
        calls.len() == 0 && out == Ok::<(), Seq<char>>(())
    } else {
        &&& calls.len() >= 1
        &&& match calls[0] {
            Call::RemoveWorkspace(n, Ok(())) => n == names[0] && removes(names.drop_first(), calls.drop_first(), out),
            Call::RemoveWorkspace(n, Err(m)) => n == names[0] && calls.len() == 1 && out == Err::<(), Seq<char>>(m),
            _ => false,
        }
    }
}

proof fn lemma_removes_prefix(names: Seq<Seq<char>>, calls: Seq<Call>, k: int, out: Result<(), Seq<char>>)
    requires
        0 <= k <= names.len(),
        k <= calls.len(),
        forall|j: int| 0 <= j < k ==> #[trigger] calls[j] == Call::RemoveWorkspace(names[j], Ok(())),
        removes(names.skip(k), calls.skip(k), out),
    ensures
        removes(names, calls, out),
    decreases k,
{
    if k > 0 {
        assert(names.skip(k) =~= names.drop_first().skip(k - 1));
        assert(calls.skip(k) =~= calls.drop_first().skip(k - 1));
        assert forall|j: int| 0 <= j < k - 1 implies #[trigger] calls.drop_first()[j] == Call::RemoveWorkspace(
            names.drop_first()[j],
            Ok(()),
        ) by {
            assert(calls.drop_first()[j] == calls[j + 1]);
        }
        lemma_removes_prefix(names.drop_first(), calls.drop_first(), k - 1, out);
        assert(calls[0] == Call::RemoveWorkspace(names[0], Ok(())));
    } else {
        assert(names.skip(0) =~= names);
        assert(calls.skip(0) =~= calls);
    }
}

/// Cleaning up: list the workspaces, then the windows, then remove the
/// empty, unfocused dynamic workspaces in order.
pub open spec fn cleanup_protocol(prefix: Seq<char>, calls: Seq<Call>, r: Result<(), Seq<char>>) -> bool {
    &&& calls.len() >= 1
    &&& match calls[0] {
        Call::ListWorkspaces(Err(m)) => calls.len() == 1 && r == Err::<(), Seq<char>>(m),
        Call::ListWorkspaces(Ok(ws)) => calls.len() >= 2 && match calls[1] {
            Call::ListWindows(Err(m)) => calls.len() == 2 && r == Err::<(), Seq<char>>(m),
            Call::ListWindows(Ok(wins)) => removes(cleanup_targets(ws, wins, prefix), calls.skip(2), r),
            _ => false,
        },
        _ => false,
    }
}

/// Whether some window is on workspace `id`.
fn any_window_on(wins: &Vec<WindowInfo>, id: u64) -> (r: bool)
    ensures
        r == has_windows(wins@, id),
{
    let mut i: usize = 0;
    while i < wins.len()
        invariant
            i <= wins@.len(),
            forall|j: int| 0 <= j < i ==> (#[trigger] wins@[j]).workspace_id != Some(id),
        decreases wins@.len() - i,
    {
        if wins[i].workspace_id == Some(id) {
            return true;
        }
        i = i + 1;
    }
    false
}

/// Remove empty, unfocused dynamic workspaces matching the given prefix.
pub fn cleanup_empty_workspaces_inner<B: Backend>(rec: &mut Recorder<B>, prefix: &str) -> (r: Result<(), String>)
    ensures
        continues(old(rec).calls@, final(rec).calls@),
        cleanup_protocol(prefix@, made(old(rec).calls@, final(rec).calls@), unit_res(r)),
{
    let ghost c0 = rec.calls@;
    let listed = rec.list_workspaces();
    let ghost c1 = rec.calls@;
    let workspaces = match listed {
        Ok(ws) => ws,
        Err(e) => {
            return Err(e);
        },
    };
    let listed_windows = rec.list_windows();
    let ghost c2 = rec.calls@;
    proof {
        lemma_made_chain(c0, c1, c2);
        assert(made(c0, c2)[1] == made(c1, c2)[0]);
    }
    let windows = match listed_windows {
        Ok(w) => w,
        Err(e) => {
            return Err(e);
        },
    };
    let mut names: Vec<String> = Vec::new();
    let mut i: usize = 0;
    while i < workspaces.len()
        invariant
            i <= workspaces@.len(),
            names.deep_view() == cleanup_targets(workspaces@.take(i as int), windows@, prefix@),
        decreases workspaces@.len() - i,
    {
        assert(workspaces@.take(i + 1).drop_last() =~= workspaces@.take(i as int));
        assert(workspaces@.take(i + 1).last() == workspaces@[i as int]);
        match &workspaces[i].name {
            Some(n) => {
                if parse_dynamic_name(n.as_str(), prefix).is_some() && !workspaces[i].is_focused && !workspaces[i].is_active
                    && !any_window_on(&windows, workspaces[i].id) {
                    let ghost before = names.deep_view();
                    names.push(n.clone());
                    assert(names.deep_view() =~= before.push(n@));
                }
            },
            None => {},
        }
        i = i + 1;
    }
    assert(workspaces@.take(workspaces@.len() as int) =~= workspaces@);
    let ghost nv = names.deep_view();
    proof {
        lemma_made_none(c2);
    }
    let mut k: usize = 0;
    let mut failed: Option<String> = None;
    while k < names.len() && failed.is_none()
        invariant
            nv == names.deep_view(),
            k <= nv.len(),
            continues(c2, rec.calls@),
            match failed {
                None => made(c2, rec.calls@).len() == k,
                Some(e) => {
                    &&& k < nv.len()
                    &&& made(c2, rec.calls@).len() == k + 1
                    &&& made(c2, rec.calls@)[k as int] == Call::RemoveWorkspace(nv[k as int], Err(e@))
                },
            },
            forall|j: int| 0 <= j < k ==> #[trigger] made(c2, rec.calls@)[j] == Call::RemoveWorkspace(nv[j], Ok(())),
        decreases nv.len() - k, (if failed is None { 1int } else { 0int }),
    {
        let ghost ck = rec.calls@;
        let res = rec.remove_workspace(names[k].as_str());
        proof {
            lemma_made_chain(c2, ck, rec.calls@);
            assert(made(c2, rec.calls@)[k as int] == made(ck, rec.calls@)[0]);
            assert forall|j: int| 0 <= j < k implies #[trigger] made(c2, rec.calls@)[j] == made(c2, ck)[j] by {}
            assert(nv[k as int] == names@[k as int]@);
        }
        match res {
            Err(e) => {
                failed = Some(e);
            },
            Ok(()) => {
                k = k + 1;
            },
        }
    }
    let r = match failed {
        Some(e) => Err(e),
        None => Ok(()),
    };
    proof {
        let cs = made(c2, rec.calls@);
        if r is Err {
            assert(nv.skip(k as int)[0] == nv[k as int]);
            assert(cs.skip(k as int) =~= seq![cs[k as int]]);
        } else {
            assert(nv.skip(k as int).len() == 0);
            assert(cs.skip(k as int).len() == 0);
        }
        assert(removes(nv.skip(k as int), cs.skip(k as int), unit_res(r)));
        lemma_removes_prefix(nv, cs, k as int, unit_res(r));
        lemma_made_chain(c0, c2, rec.calls@);
        assert(made(c0, rec.calls@).skip(2) =~= cs);
        assert(made(c0, rec.calls@)[0] == made(c0, c2)[0]);
        assert(made(c0, rec.calls@)[1] == made(c0, c2)[1]);
    }
    r
}

/// Debounced cleanup over times in milliseconds: mark pending when a
/// relevant event arrives, clean up once 500 ms passed since the last cleanup.
pub struct DebouncedCleanup {
    pub last_cleanup: u64,
    pub pending: bool,
}

/// The pause between cleanups, in milliseconds.
pub open spec fn debounce_ms() -> u64 {
    500
}

impl DebouncedCleanup {
    /// Nothing pending; the last cleanup counts as done at `now`.
    pub fn new(now: u64) -> (r: DebouncedCleanup)
        ensures
            r.last_cleanup == now,
            !r.pending,
    {
        DebouncedCleanup { last_cleanup: now, pending: false }
    }

    /// A relevant event arrived.
    pub fn mark_pending(&mut self)
        ensures
            final(self).pending,
            final(self).last_cleanup == old(self).last_cleanup,
    {
        self.pending = true;
    }

    /// At `now`, clean up when something is pending and the pause has
    /// passed; returns whether it did. Cleanup failures are not reported:
    /// the next pass tries again.
    pub fn flush_if_ready<B: Backend>(&mut self, rec: &mut Recorder<B>, prefix: &str, now: u64) -> (r: bool)
        ensures
            continues(old(rec).calls@, final(rec).calls@),
            r == (old(self).pending && crate::niri::elapsed(now, old(self).last_cleanup) >= debounce_ms()),
            r ==> !final(self).pending && final(self).last_cleanup == now && exists|out: Result<(), Seq<char>>|
                cleanup_protocol(prefix@, made(old(rec).calls@, final(rec).calls@), out),
            !r ==> *final(self) == *old(self) && made(old(rec).calls@, final(rec).calls@).len() == 0,
    {
        let since = if now >= self.last_cleanup { now - self.last_cleanup } else { 0 };
        if self.pending && since >= 500 {
            let res = cleanup_empty_workspaces_inner(rec, prefix);
            self.pending = false;
            self.last_cleanup = now;
            proof {
                assert(cleanup_protocol(prefix@, made(old(rec).calls@, rec.calls@), unit_res(res)));
            }
            true
        } else {
            proof {
                lemma_made_none(rec.calls@);
            }
            false
        }
    }
}

/// The window each executable gets, in order: the first window not yet
/// taken whose app id it matches; and the windows taken.
pub open spec fn assign_windows(exes: Seq<Seq<char>>, wins: Seq<(u64, Seq<char>)>) -> (Seq<Option<u64>>, Seq<u64>)
    decreases exes.len(),
{
    if exes.len() == 0 {
        (Seq::empty(), Seq::empty())
    } else {
        let (slots, used) = assign_windows(exes.drop_last(), wins);
        match first_free(wins, used, exes.last()) {
            Some(id) => (slots.push(Some(id)), used.push(id)),
            None => (slots.push(None), used),
        }
    }
}

/// The first window of `wins` not among `used` whose app id matches `exe`.
pub open spec fn first_free(wins: Seq<(u64, Seq<char>)>, used: Seq<u64>, exe: Seq<char>) -> Option<u64>
    decreases wins.len(),
{
    if wins.len() == 0 {
        None
    } else if !used.contains(wins[0].0) && app_id_matches_spec(wins[0].1, exe) {
        Some(wins[0].0)
    } else {
        first_free(wins.drop_first(), used, exe)
    }
}

/// How long the windows of new programs get to appear, in milliseconds.
pub const APPEAR_TIMEOUT_MS: u64 = 5000;

/// How long, from the start, the windows get to settle, in milliseconds.
pub const SETTLE_TIMEOUT_MS: u64 = 8000;

/// Unchanged listings in a row that count as settled: apps remap and resize
/// while they start.
pub const STABLE_LISTINGS: u32 = 3;

/// The pause between two listings while waiting, in milliseconds.
pub const POLL_INTERVAL_MS: u64 = 200;

/// The ids of `ws`, in order.
pub open spec fn info_ids(ws: Seq<WindowInfo>) -> Seq<u64> {
    ws.map_values(|w: WindowInfo| w.id)
}

/// Waiting for the windows of newly spawned programs on workspace `ws_id`
/// (windows among `existing` were there before): first until `expected` of
/// them appeared or the appear timeout passed, then until their set stayed
/// unchanged for three listings in a row or the settle timeout passed.
pub struct ReorderWait {
    pub ws_id: u64,
    pub expected: usize,
    pub existing: Vec<u64>,
    /// The windows appeared; now waiting for them to settle.
    pub settling: bool,
    /// The ids of the new windows at the last listing while settling.
    pub last_ids: Vec<u64>,
    /// Unchanged listings in a row while settling.
    pub stable: u32,
    pub done: bool,
}

impl ReorderWait {
    pub open spec fn wf(&self) -> bool {
        &&& !self.done ==> self.stable < STABLE_LISTINGS
        &&& !self.settling ==> self.stable == 0
    }

    /// Start waiting for `expected` new windows on workspace `ws_id`.
    pub fn new(ws_id: u64, expected: usize, existing: Vec<u64>) -> (r: ReorderWait)
        ensures
            r.wf(),
            r.ws_id == ws_id,
            r.expected == expected,
            r.existing@ == existing@,
            !r.settling,
            !r.done,
            r.stable == 0,
            r.last_ids@ == Seq::<u64>::empty(),
    {
        ReorderWait { ws_id, expected, existing, settling: false, last_ids: Vec::new(), stable: 0, done: false }
    }

    /// What a listing `wins`, taken `elapsed` milliseconds after the start, does to the wait.
    pub open spec fn next(old: ReorderWait, new: ReorderWait, wins: Seq<WindowInfo>, elapsed: u64) -> bool {
        let fresh = fresh_on(wins, old.ws_id, old.existing@);
        let ids = info_ids(fresh).to_set();
        &&& new.ws_id == old.ws_id
        &&& new.expected == old.expected
        &&& new.existing@ == old.existing@
        &&& if !old.settling {
            if fresh.len() >= old.expected || elapsed >= APPEAR_TIMEOUT_MS {
                &&& new.settling
                &&& new.last_ids@.to_set() == ids
                &&& new.stable == 0
                &&& new.done == (elapsed >= SETTLE_TIMEOUT_MS)
            } else {
                &&& !new.settling
                &&& new.stable == 0
                &&& !new.done
            }
        } else {
            let stable = if ids == old.last_ids@.to_set() { old.stable + 1 } else { 0 };
            &&& new.settling
            &&& new.last_ids@.to_set() == ids
            &&& new.stable == stable
            &&& new.done == !(stable < STABLE_LISTINGS && elapsed < SETTLE_TIMEOUT_MS)
        }
    }

    /// Take a listing `windows`, made `elapsed_ms` after the start, into
    /// account; returns whether the wait is over.
    pub fn observe(&mut self, windows: &Vec<WindowInfo>, elapsed_ms: u64) -> (done: bool)
        requires
            old(self).wf(),
            !old(self).done,
        ensures
            final(self).wf(),
            ReorderWait::next(*old(self), *final(self), windows@, elapsed_ms),
            done == final(self).done,
    {
        let fresh = new_workspace_windows(windows, self.ws_id, &self.existing);
        let mut ids: Vec<u64> = Vec::new();
        let mut i: usize = 0;
        while i < fresh.len()
            invariant
                i <= fresh@.len(),
                ids@ == info_ids(fresh@).take(i as int),
            decreases fresh@.len() - i,
        {
            ids.push(fresh[i].id);
            i = i + 1;
            assert(ids@ =~= info_ids(fresh@).take(i as int));
        }
        assert(ids@ =~= info_ids(fresh@));
        if !self.settling {
            if fresh.len() >= self.expected || elapsed_ms >= APPEAR_TIMEOUT_MS {
                self.settling = true;
                self.last_ids = ids;
                self.stable = 0;
                self.done = elapsed_ms >= SETTLE_TIMEOUT_MS;
            }
        } else {
            if crate::commands::same_ids(&ids, &self.last_ids) {
                self.stable = self.stable + 1;
            } else {
                self.stable = 0;
            }
            self.last_ids = ids;
            self.done = !(self.stable < STABLE_LISTINGS && elapsed_ms < SETTLE_TIMEOUT_MS);
        }
        self.done
    }
}

/// The new windows on workspace `ws_id`, as id and app id (empty when it has none).
pub open spec fn fresh_pairs_spec(wins: Seq<WindowInfo>, ws_id: u64, existing: Seq<u64>) -> Seq<(u64, Seq<char>)> {
    fresh_on(wins, ws_id, existing).map_values(
        |w: WindowInfo|
            (
                w.id,
                match w.app_id {
                    Some(a) => a@,
                    None => Seq::<char>::empty(),
                },
            ),
    )
}

/// The new windows on workspace `ws_id`, as id and app id (empty when it has none).
pub fn fresh_pairs(windows: &Vec<WindowInfo>, ws_id: u64, existing: &Vec<u64>) -> (r: Vec<(u64, String)>)
    ensures
        crate::niri::pool_view(r@) == fresh_pairs_spec(windows@, ws_id, existing@),
{
    let fresh = new_workspace_windows(windows, ws_id, existing);
    let mut r: Vec<(u64, String)> = Vec::new();
    let mut i: usize = 0;
    while i < fresh.len()
        invariant
            i <= fresh@.len(),
            fresh@ == fresh_on(windows@, ws_id, existing@),
            crate::niri::pool_view(r@) == fresh_pairs_spec(windows@, ws_id, existing@).take(i as int),
        decreases fresh@.len() - i,
    {
        let app = match &fresh[i].app_id {
            Some(a) => a.clone(),
            None => String::new(),
        };
        let ghost before = r@;
        r.push((fresh[i].id, app));
        assert(crate::niri::pool_view(r@) =~= crate::niri::pool_view(before).push((fresh@[i as int].id, app@)));
        i = i + 1;
        assert(crate::niri::pool_view(r@) =~= fresh_pairs_spec(windows@, ws_id, existing@).take(i as int));
    }
    assert(fresh_pairs_spec(windows@, ws_id, existing@).take(fresh@.len() as int) =~= fresh_pairs_spec(windows@, ws_id, existing@));
    r
}

proof fn lemma_first_free(wins: Seq<(u64, Seq<char>)>, used: Seq<u64>, exe: Seq<char>)
    ensures
        first_free(wins, used, exe) matches Some(id) ==> !used.contains(id) && exists|i: int|
            0 <= i < wins.len() && (#[trigger] wins[i]).0 == id,
    decreases wins.len(),
{
    if wins.len() > 0 {
        lemma_first_free(wins.drop_first(), used, exe);
        if !used.contains(wins[0].0) && app_id_matches_spec(wins[0].1, exe) {
        } else if first_free(wins, used, exe) is Some {
            let id = first_free(wins, used, exe)->0;
            let i = choose|i: int| 0 <= i < wins.drop_first().len() && (#[trigger] wins.drop_first()[i]).0 == id;
            assert(wins[i + 1] == wins.drop_first()[i]);
        }
    }
}

proof fn lemma_assign_windows_distinct(exes: Seq<Seq<char>>, wins: Seq<(u64, Seq<char>)>)
    ensures
        assign_windows(exes, wins).0.len() == exes.len(),
        forall|k: int|
            0 <= k < assign_windows(exes, wins).0.len() && (#[trigger] assign_windows(exes, wins).0[k]) is Some
                ==> assign_windows(exes, wins).1.contains(assign_windows(exes, wins).0[k]->0),
        forall|a: int, b: int|
            0 <= a < b < assign_windows(exes, wins).0.len() && (#[trigger] assign_windows(exes, wins).0[a]) is Some
                && (#[trigger] assign_windows(exes, wins).0[b]) is Some ==> assign_windows(exes, wins).0[a]
                != assign_windows(exes, wins).0[b],
        forall|id: u64| #[trigger] assign_windows(exes, wins).1.contains(id) ==> exists|i: int|
            0 <= i < wins.len() && (#[trigger] wins[i]).0 == id,
    decreases exes.len(),
{
    if exes.len() > 0 {
        lemma_assign_windows_distinct(exes.drop_last(), wins);
        let (slots, used) = assign_windows(exes.drop_last(), wins);
        lemma_first_free(wins, used, exes.last());
        match first_free(wins, used, exes.last()) {
            Some(id) => {
                let s2 = slots.push(Some(id));
                let u2 = used.push(id);
                assert(u2[used.len() as int] == id);
                assert forall|k: int| 0 <= k < s2.len() && (#[trigger] s2[k]) is Some implies u2.contains(s2[k]->0) by {
                    if k < slots.len() {
                        assert(s2[k] == slots[k]);
                        let j = choose|j: int| 0 <= j < used.len() && used[j] == slots[k]->0;
                        assert(u2[j] == used[j]);
                    }
                }
                assert forall|a: int, b: int| 0 <= a < b < s2.len() && (#[trigger] s2[a]) is Some && (#[trigger] s2[b]) is Some implies s2[a] != s2[b] by {
                    assert(s2[a] == slots[a]);
                    if b < slots.len() {
                        assert(s2[b] == slots[b]);
                    } else {
                        assert(used.contains(slots[a]->0));
                    }
                }
                assert forall|x: u64| #[trigger] u2.contains(x) implies exists|i: int| 0 <= i < wins.len() && (#[trigger] wins[i]).0 == x by {
                    let j = choose|j: int| 0 <= j < u2.len() && u2[j] == x;
                    if j < used.len() {
                        assert(used[j] == x);
                        assert(used.contains(x));
                    }
                }
            },
            None => {
                let s2 = slots.push(None);
                assert forall|k: int| 0 <= k < s2.len() && (#[trigger] s2[k]) is Some implies used.contains(s2[k]->0) by {
                    assert(s2[k] == slots[k]);
                }
                assert forall|a: int, b: int| 0 <= a < b < s2.len() && (#[trigger] s2[a]) is Some && (#[trigger] s2[b]) is Some implies s2[a] != s2[b] by {
                    assert(s2[a] == slots[a]);
                    assert(s2[b] == slots[b]);
                }
            },
        }
    }
}

/// Each window goes to one command at most, and only new windows are given out.
pub proof fn lemma_order_windows_distinct(exes: Seq<Seq<char>>, wins: Seq<(u64, Seq<char>)>)
    ensures
        forall|a: int, b: int|
            0 <= a < b < assign_windows(exes, wins).0.len() && (#[trigger] assign_windows(exes, wins).0[a]) is Some
                && (#[trigger] assign_windows(exes, wins).0[b]) is Some ==> assign_windows(exes, wins).0[a]
                != assign_windows(exes, wins).0[b],
        forall|k: int|
            0 <= k < assign_windows(exes, wins).0.len() && (#[trigger] assign_windows(exes, wins).0[k]) is Some
                ==> exists|i: int| 0 <= i < wins.len() && (#[trigger] wins[i]).0 == assign_windows(exes, wins).0[k]->0,
{
    lemma_assign_windows_distinct(exes, wins);
    let r = assign_windows(exes, wins);
    assert forall|k: int| 0 <= k < r.0.len() && (#[trigger] r.0[k]) is Some implies exists|i: int| 0 <= i < wins.len() && (#[trigger] wins[i]).0 == r.0[k]->0 by {
        assert(r.1.contains(r.0[k]->0));
    }
}

/// Match each command to a new window by executable name and app id, in
/// command order; each window goes to one command at most.
pub fn order_windows(commands: &Vec<String>, new_windows: &Vec<(u64, String)>) -> (r: Vec<Option<u64>>)
    ensures
        r@ == assign_windows(commands.deep_view().map_values(|c: Seq<char>| executable_name_spec(c)), crate::niri::pool_view(new_windows@)).0,
        forall|a: int, b: int| 0 <= a < b < r@.len() && (#[trigger] r@[a]) is Some && (#[trigger] r@[b]) is Some ==> r@[a] != r@[b],
{
    let ghost exes = commands.deep_view().map_values(|c: Seq<char>| executable_name_spec(c));
    let ghost wv = crate::niri::pool_view(new_windows@);
    let mut slots: Vec<Option<u64>> = Vec::new();
    let mut used: Vec<u64> = Vec::new();
    let mut k: usize = 0;
    while k < commands.len()
        invariant
            exes == commands.deep_view().map_values(|c: Seq<char>| executable_name_spec(c)),
            wv == crate::niri::pool_view(new_windows@),
            k <= commands@.len(),
            (slots@, used@) == assign_windows(exes.take(k as int), wv),
        decreases commands@.len() - k,
    {
        assert(exes.take(k + 1).drop_last() =~= exes.take(k as int));
        assert(exes.take(k + 1).last() == exes[k as int]);
        assert(commands.deep_view()[k as int] == commands@[k as int]@);
        let exe = executable_name(commands[k].as_str());
        let mut j: usize = 0;
        let mut found: Option<u64> = None;
        assert(wv.skip(0) =~= wv);
        while j < new_windows.len() && found.is_none()
            invariant
                wv == crate::niri::pool_view(new_windows@),
                j <= wv.len(),
                found is None ==> first_free(wv, used@, exe@) == first_free(wv.skip(j as int), used@, exe@),
                found is Some ==> first_free(wv, used@, exe@) == found,
            decreases wv.len() - j, (if found is None { 1int } else { 0int }),
        {
            assert(wv.skip(j as int)[0] == wv[j as int]);
            assert(wv[j as int] == (new_windows@[j as int].0, new_windows@[j as int].1@));
            if !holds(&used, new_windows[j].0) && app_id_matches(new_windows[j].1.as_str(), exe.as_str()) {
                found = Some(new_windows[j].0);
            } else {
                assert(wv.skip(j as int).drop_first() =~= wv.skip(j + 1));
                j = j + 1;
            }
        }
        match found {
            Some(id) => {
                slots.push(Some(id));
                used.push(id);
            },
            None => {
                assert(wv.skip(j as int).len() == 0);
                slots.push(None);
            },
        }
        k = k + 1;
    }
    assert(exes.take(commands@.len() as int) =~= exes);
    proof {
        lemma_order_windows_distinct(exes, wv);
    }
    slots
}

/// Finding the workspace to reorder: the workspaces are listed once; `r` is
/// the id of the first named `name`, or the error.
pub open spec fn reorder_target_protocol(name: Seq<char>, calls: Seq<Call>, r: Result<u64, String>) -> bool {
    &&& calls.len() == 1
    &&& match calls[0] {
        Call::ListWorkspaces(Err(m)) => r is Err && r->Err_0@ == m,
        Call::ListWorkspaces(Ok(ws)) => match index_by_name(ws, name) {
            Some(i) => r == Ok::<u64, String>(ws[i].id),
            None => r is Err && r->Err_0@ == "workspace '"@ + name + "' not found"@,
        },
        _ => false,
    }
}

/// The id of the workspace named `name`, whose columns are to be put in
/// order; fails when no workspace has that name.
pub fn reorder_target<B: Backend>(rec: &mut Recorder<B>, name: &str) -> (r: Result<u64, String>)
    ensures
        continues(old(rec).calls@, final(rec).calls@),
        reorder_target_protocol(name@, made(old(rec).calls@, final(rec).calls@), r),
{
    let listed = rec.list_workspaces();
    let workspaces = match listed {
        Ok(ws) => ws,
        Err(e) => {
            return Err(e);
        },
    };
    match find_index_by_name(&workspaces, name) {
        Some(i) => Ok(workspaces[i].id),
        None => {
            let mut m = "workspace '".to_string();
            m.append(name);
            m.append("' not found");
            Err(m)
        },
    }
}

/// Milliseconds between two column moves, so the compositor keeps up.
pub const ACTION_DELAY_MS: u64 = 50;

/// Putting the columns in order from slot `from` on: each slot that holds a
/// window is focused and, when that went through, moved to column `slot + 1`;
/// a failed focus or move skips that window and the rest go on.
pub open spec fn order_applied(ordered: Seq<Option<u64>>, from: int, calls: Seq<Call>) -> bool
    decreases ordered.len() - from,
{
    if from < 0 || from >= ordered.len() {
        calls.len() == 0
    } else {
        match ordered[from] {
            None => order_applied(ordered, from + 1, calls),
            Some(id) => {
                &&& calls.len() >= 1
                &&& match calls[0] {
                    Call::FocusWindow(x, Err(_)) => x == id && order_applied(ordered, from + 1, calls.drop_first()),
                    Call::FocusWindow(x, Ok(())) => x == id && calls.len() >= 2 && (calls[1] matches Call::MoveToPosition(
                        p,
                        _,
                    ) && p == from + 1) && order_applied(ordered, from + 1, calls.skip(2)),
                    _ => false,
                }
            },
        }
    }
}

/// Move the windows of `ordered` into columns `1`, `2`, … in slot order,
/// skipping empty slots; a window that fails to focus or move is skipped.
pub fn apply_column_order<B: Backend>(rec: &mut Recorder<B>, ordered: &Vec<Option<u64>>)
    requires
        ordered@.len() < usize::MAX,
    ensures
        continues(old(rec).calls@, final(rec).calls@),
        order_applied(ordered@, 0, made(old(rec).calls@, final(rec).calls@)),
{
    apply_order_from(rec, ordered, 0);
}

/// The column moves for slots `from..` of `ordered`.
fn apply_order_from<B: Backend>(rec: &mut Recorder<B>, ordered: &Vec<Option<u64>>, from: usize)
    requires
        from <= ordered@.len(),
        ordered@.len() < usize::MAX,
    ensures
        continues(old(rec).calls@, final(rec).calls@),
        order_applied(ordered@, from as int, made(old(rec).calls@, final(rec).calls@)),
    decreases ordered@.len() - from,
{
    let ghost c0 = rec.calls@;
    if from == ordered.len() {
        proof {
            lemma_made_none(c0);
        }
        return;
    }
    match ordered[from] {
        None => {
            apply_order_from(rec, ordered, from + 1);
        },
        Some(id) => {
            let focused = rec.focus_window(id);
            let ghost c1 = rec.calls@;
            match focused {
                Err(_) => {
                    apply_order_from(rec, ordered, from + 1);
                    proof {
                        lemma_made_chain(c0, c1, rec.calls@);
                        assert(made(c0, rec.calls@)[0] == made(c0, c1)[0]);
                        assert(made(c0, rec.calls@).drop_first() =~= made(c1, rec.calls@));
                    }
                },
                Ok(()) => {
                    rec.pause(ACTION_DELAY_MS);
                    let _ = rec.move_window_to_position(from + 1);
                    let ghost c2 = rec.calls@;
                    rec.pause(ACTION_DELAY_MS);
                    apply_order_from(rec, ordered, from + 1);
                    proof {
                        lemma_made_chain(c0, c1, c2);
                        lemma_made_chain(c0, c2, rec.calls@);
                        assert(made(c0, rec.calls@)[0] == made(c0, c1)[0]);
                        assert(made(c0, rec.calls@)[1] == made(c1, c2)[0]);
                        assert(made(c0, rec.calls@).skip(2) =~= made(c2, rec.calls@));
                    }
                },
            }
        },
    }
}


// --- Laws of switching and cleaning up ---

/// Every call of a run of spawns is a spawn.
proof fn lemma_spawns_all_only_spawns(progs: Seq<(Seq<char>, Seq<Seq<char>>)>, calls: Seq<Call>, out: Result<(), Seq<char>>)
    requires
        spawns_all(progs, calls, out),
    ensures
        forall|j: int| 0 <= j < calls.len() ==> (#[trigger] calls[j]) is Spawn,
    decreases progs.len(),
{
    if progs.len() > 0 {
        if calls.len() > 1 {
            lemma_spawns_all_only_spawns(progs.drop_first(), calls.drop_first(), out);
            assert forall|j: int| 0 <= j < calls.len() implies (#[trigger] calls[j]) is Spawn by {
                if j > 0 {
                    assert(calls[j] == calls.drop_first()[j - 1]);
                }
            }
        }
    }
}

/// The ids `ids_on_spec` gives are exactly those of the windows on `ws_id`.
proof fn lemma_ids_on_members(wins: Seq<WindowInfo>, ws_id: u64)
    ensures
        forall|id: u64|
            #[trigger] ids_on_spec(wins, ws_id).contains(id) <==> exists|j: int|
                0 <= j < wins.len() && wins[j].id == id && wins[j].workspace_id == Some(ws_id),
    decreases wins.len(),
{
    if wins.len() > 0 {
        let init = wins.drop_last();
        lemma_ids_on_members(init, ws_id);
        let r = ids_on_spec(init, ws_id);
        let w = wins.last();
        assert forall|id: u64|
            #[trigger] ids_on_spec(wins, ws_id).contains(id) <==> exists|j: int|
                0 <= j < wins.len() && wins[j].id == id && wins[j].workspace_id == Some(ws_id) by {
            let out = ids_on_spec(wins, ws_id);
            if out.contains(id) {
                if r.contains(id) {
                    let j = choose|j: int| 0 <= j < init.len() && init[j].id == id && init[j].workspace_id == Some(ws_id);
                    assert(wins[j] == init[j]);
                } else {
                    assert(w.workspace_id == Some(ws_id) && !r.contains(w.id));
                    assert(out == r.push(w.id));
                    let k = choose|k: int| 0 <= k < out.len() && out[k] == id;
                    if k < r.len() {
                        assert(out[k] == r[k]);
                    }
                    assert(wins[wins.len() - 1] == w);
                }
            }
            if exists|j: int| 0 <= j < wins.len() && wins[j].id == id && wins[j].workspace_id == Some(ws_id) {
                let j = choose|j: int| 0 <= j < wins.len() && wins[j].id == id && wins[j].workspace_id == Some(ws_id);
                if j < init.len() {
                    assert(init[j] == wins[j]);
                    assert(r.contains(id));
                    let k = choose|k: int| 0 <= k < r.len() && r[k] == id;
                    if w.workspace_id == Some(ws_id) && !r.contains(w.id) {
                        assert(out[k] == r[k]);
                    }
                } else {
                    assert(wins[j] == w);
                    if !r.contains(id) {
                        assert(out == r.push(id));
                        assert(out[r.len() as int] == id);
                    }
                }
            }
        }
    }
}

/// `index_by_name` gives the first workspace with exactly that name.
proof fn lemma_index_by_name(ws: Seq<WorkspaceInfo>, name: Seq<char>)
    ensures
        match index_by_name(ws, name) {
            Some(i) => 0 <= i < ws.len() && is_named(ws[i], name) && forall|m: int| 0 <= m < i ==> !is_named(#[trigger] ws[m], name),
            None => forall|m: int| 0 <= m < ws.len() ==> !is_named(#[trigger] ws[m], name),
        },
    decreases ws.len(),
{
    if ws.len() > 0 && !is_named(ws[0], name) {
        lemma_index_by_name(ws.drop_first(), name);
        assert forall|m: int| 0 < m < ws.len() implies ws[m] == ws.drop_first()[m - 1] by {}
    }
}

/// Starting the programs of a new workspace: with two or more programs, the
/// workspaces are listed first, before anything is spawned, and once every
/// program started the result asks for the columns of workspace `name` to be
/// put in the order of `programs`. The windows it notes as already there are
/// exactly those the window listing places on the first workspace named
/// `name`. With fewer than two programs nothing but spawns is made and no
/// reorder is asked for.
pub proof fn lemma_spawn_reorders_two_or_more(
    name: Seq<char>,
    programs: Seq<Seq<char>>,
    calls: Seq<Call>,
    o: Option<ReorderRequest>,
)
    requires
        spawn_programs_protocol(name, programs, calls, Ok(o)),
    ensures
        programs.len() >= 2 ==> {
            &&& o is Some
            &&& o->Some_0.workspace_name@ == name
            &&& o->Some_0.commands.deep_view() == programs
            &&& calls.len() >= 1
            &&& calls[0] is ListWorkspaces
        },
        programs.len() >= 2 ==> forall|ws: Seq<WorkspaceInfo>, wins: Seq<WindowInfo>, i: int|
            calls.len() >= 2 && calls[0] == Call::ListWorkspaces(Ok(ws)) && calls[1] == Call::ListWindows(Ok(wins))
                && 0 <= i < ws.len() && is_named(ws[i], name) && (forall|m: int| 0 <= m < i ==> !is_named(
                #[trigger] ws[m],
                name,
            )) ==> forall|id: u64|
                #[trigger] o->Some_0.existing_window_ids@.contains(id) <==> exists|j: int|
                    0 <= j < wins.len() && wins[j].id == id && wins[j].workspace_id == Some(ws[i].id),
        programs.len() < 2 ==> o is None && forall|j: int| 0 <= j < calls.len() ==> (#[trigger] calls[j]) is Spawn,
{
    if programs.len() >= 2 {
        let (k, ids) = snapshot_result(name, calls);
        let pre = calls.take(k);
        assert(snapshot_protocol(name, pre, ids));
        assert(pre[0] == calls[0]);
        assert forall|ws: Seq<WorkspaceInfo>, wins: Seq<WindowInfo>, i: int|
            calls.len() >= 2 && calls[0] == Call::ListWorkspaces(Ok(ws)) && calls[1] == Call::ListWindows(Ok(wins))
                && 0 <= i < ws.len() && is_named(ws[i], name) && (forall|m: int| 0 <= m < i ==> !is_named(
                #[trigger] ws[m],
                name,
            )) implies forall|id: u64|
                #[trigger] o->Some_0.existing_window_ids@.contains(id) <==> exists|j: int|
                    0 <= j < wins.len() && wins[j].id == id && wins[j].workspace_id == Some(ws[i].id) by {
            lemma_index_by_name(ws, name);
            let f = index_by_name(ws, name);
            if f is Some {
                let fi = f->Some_0;
                if fi < i {
                    assert(!is_named(ws[fi], name));
                } else if fi > i {
                    assert(!is_named(ws[i], name));
                }
            } else {
                assert(!is_named(ws[i], name));
            }
            assert(k == 2);
            assert(pre[1] == calls[1]);
            lemma_ids_on_members(wins, ws[i].id);
        }
    } else {
        assert(calls.skip(0) =~= calls);
        lemma_spawns_all_only_spawns(split_programs(programs), calls.skip(0), Ok(()));
    }
}

/// Switching to a workspace that had to be created, with two or more
/// programs, lists the workspaces right after creating it and, when it went
/// through, reports the creation and asks for the columns of `name` to be
/// put in the order of `programs`; with fewer than two it asks for nothing.
pub proof fn lemma_switch_created_reorders(
    name: Seq<char>,
    programs: Seq<Seq<char>>,
    calls: Seq<Call>,
    r: Result<(bool, Option<ReorderRequest>), String>,
)
    requires
        switch_protocol(name, programs, calls, r),
        calls[0] == Call::FocusOrCreate(name, Ok(true)),
        r is Ok,
    ensures
        r->Ok_0.0,
        programs.len() >= 2 ==> {
            &&& r->Ok_0.1 is Some
            &&& r->Ok_0.1->Some_0.workspace_name@ == name
            &&& r->Ok_0.1->Some_0.commands.deep_view() == programs
            &&& calls.len() >= 2
            &&& calls[1] is ListWorkspaces
        },
        programs.len() < 2 ==> r->Ok_0.1 is None,
{
    lemma_spawn_reorders_two_or_more(name, programs, calls.drop_first(), r->Ok_0.1);
    if programs.len() >= 2 {
        assert(calls.drop_first()[0] == calls[1]);
    }
}

/// The workspace `w` is one that cleanup removes: its name is dynamic under
/// `prefix`, it is neither focused nor active, and no window of `wins` is on it.
pub open spec fn empty_dynamic(w: WorkspaceInfo, wins: Seq<WindowInfo>, prefix: Seq<char>) -> bool {
    &&& w.name is Some
    &&& parse_dynamic_name_spec(w.name->Some_0@, prefix) is Some
    &&& !w.is_focused
    &&& !w.is_active
    &&& forall|j: int| 0 <= j < wins.len() ==> (#[trigger] wins[j]).workspace_id != Some(w.id)
}

/// The names cleanup picks are exactly those of the listed workspaces that
/// are empty, unfocused, inactive and dynamic.
proof fn lemma_cleanup_targets_members(ws: Seq<WorkspaceInfo>, wins: Seq<WindowInfo>, prefix: Seq<char>)
    ensures
        forall|i: int|
            0 <= i < ws.len() && empty_dynamic(#[trigger] ws[i], wins, prefix) ==> cleanup_targets(ws, wins, prefix).contains(
                ws[i].name->Some_0@,
            ),
        forall|n: Seq<char>|
            #[trigger] cleanup_targets(ws, wins, prefix).contains(n) ==> exists|i: int|
                0 <= i < ws.len() && empty_dynamic(ws[i], wins, prefix) && ws[i].name->Some_0@ == n,
    decreases ws.len(),
{
    if ws.len() > 0 {
        let init = ws.drop_last();
        lemma_cleanup_targets_members(init, wins, prefix);
        let r = cleanup_targets(init, wins, prefix);
        let t = cleanup_targets(ws, wins, prefix);
        let w = ws.last();
        let picked = w.name is Some && parse_dynamic_name_spec(w.name->Some_0@, prefix) is Some && !w.is_focused
            && !w.is_active && !has_windows(wins, w.id);
        assert(empty_dynamic(w, wins, prefix) <==> picked) by {
            if has_windows(wins, w.id) {
                let j = choose|j: int| 0 <= j < wins.len() && (#[trigger] wins[j]).workspace_id == Some(w.id);
                assert(wins[j].workspace_id == Some(w.id));
            }
        }
        if picked {
            assert(t == r.push(w.name->Some_0@));
        } else {
            assert(t == r);
        }
        assert forall|n: Seq<char>| r.contains(n) implies t.contains(n) by {
            let k = choose|k: int| 0 <= k < r.len() && r[k] == n;
            if picked {
                assert(t[k] == r[k]);
            }
        }
        assert forall|i: int|
            0 <= i < ws.len() && empty_dynamic(#[trigger] ws[i], wins, prefix) implies t.contains(ws[i].name->Some_0@) by {
            if i < init.len() {
                assert(init[i] == ws[i]);
                assert(r.contains(init[i].name->Some_0@));
            } else {
                assert(ws[i] == w);
                assert(t[r.len() as int] == w.name->Some_0@);
            }
        }
        assert forall|n: Seq<char>| #[trigger] t.contains(n) implies exists|i: int|
            0 <= i < ws.len() && empty_dynamic(ws[i], wins, prefix) && ws[i].name->Some_0@ == n by {
            let k = choose|k: int| 0 <= k < t.len() && t[k] == n;
            if k < r.len() {
                assert(t[k] == r[k]);
                assert(r.contains(n));
                let i = choose|i: int| 0 <= i < init.len() && empty_dynamic(init[i], wins, prefix) && init[i].name->Some_0@ == n;
                assert(ws[i] == init[i]);
            } else {
                assert(picked);
                assert(ws[ws.len() - 1] == w);
            }
        }
    }
}

/// A run of removals that went through removes each name in turn.
proof fn lemma_removes_ok(names: Seq<Seq<char>>, calls: Seq<Call>)
    requires
        removes(names, calls, Ok(())),
    ensures
        calls.len() == names.len(),
        forall|j: int| 0 <= j < calls.len() ==> #[trigger] calls[j] == Call::RemoveWorkspace(names[j], Ok(())),
    decreases names.len(),
{
    if names.len() > 0 {
        lemma_removes_ok(names.drop_first(), calls.drop_first());
        assert forall|j: int| 0 <= j < calls.len() implies #[trigger] calls[j] == Call::RemoveWorkspace(names[j], Ok(())) by {
            if j > 0 {
                assert(calls[j] == calls.drop_first()[j - 1]);
                assert(names[j] == names.drop_first()[j - 1]);
            } else {
                match calls[0] {
                    Call::RemoveWorkspace(n, Ok(u)) => {
                        assert(n == names[0]);
                        assert(u == ());
                        assert(calls[0] == Call::RemoveWorkspace(names[0], Ok(())));
                    },
                    _ => {},
                }
            }
        }
    }
}

/// A cleanup that went through removed every listed workspace that is
/// empty, unfocused, inactive and dynamic under `prefix`, and nothing else:
/// after the two listings, every call removes such a workspace.
pub proof fn lemma_cleanup_removes_every_empty_dynamic(
    prefix: Seq<char>,
    calls: Seq<Call>,
    ws: Seq<WorkspaceInfo>,
    wins: Seq<WindowInfo>,
)
    requires
        cleanup_protocol(prefix, calls, Ok(())),
        calls.len() >= 2,
        calls[0] == Call::ListWorkspaces(Ok(ws)),
        calls[1] == Call::ListWindows(Ok(wins)),
    ensures
        forall|i: int|
            0 <= i < ws.len() && empty_dynamic(#[trigger] ws[i], wins, prefix) ==> exists|k: int|
                2 <= k < calls.len() && calls[k] == Call::RemoveWorkspace(ws[i].name->Some_0@, Ok(())),
        forall|k: int|
            2 <= k < calls.len() ==> exists|i: int|
                0 <= i < ws.len() && empty_dynamic(ws[i], wins, prefix) && #[trigger] calls[k]
                    == Call::RemoveWorkspace(ws[i].name->Some_0@, Ok(())),
{
    let names = cleanup_targets(ws, wins, prefix);
    let rest = calls.skip(2);
    lemma_removes_ok(names, rest);
    lemma_cleanup_targets_members(ws, wins, prefix);
    assert forall|i: int|
        0 <= i < ws.len() && empty_dynamic(#[trigger] ws[i], wins, prefix) implies exists|k: int|
            2 <= k < calls.len() && calls[k] == Call::RemoveWorkspace(ws[i].name->Some_0@, Ok(())) by {
        assert(names.contains(ws[i].name->Some_0@));
        let m = choose|m: int| 0 <= m < names.len() && names[m] == ws[i].name->Some_0@;
        assert(rest[m] == calls[m + 2]);
    }
    assert forall|k: int| 2 <= k < calls.len() implies exists|i: int|
        0 <= i < ws.len() && empty_dynamic(ws[i], wins, prefix) && #[trigger] calls[k]
            == Call::RemoveWorkspace(ws[i].name->Some_0@, Ok(())) by {
        assert(rest[k - 2] == calls[k]);
        assert(names.contains(names[k - 2]));
    }
}

} // verus!
