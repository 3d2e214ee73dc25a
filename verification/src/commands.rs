//! The workspace commands. Each speaks to the compositor through a session,
//! and its contract gives the exact requests it sends for every answer that
//! comes back, and what it returns.

use vstd::prelude::*;

use crate::ipc::{
    action_outcome, err_view, extends, lemma_since_chain, lemma_since_none, lemma_since_one,
    list_windows, list_workspaces, one_exchange, send_action, since, unit_view, windows_outcome,
    workspaces_outcome, Action, Exchange, NiriClient, Request, Session, Window, Workspace,
    WorkspaceRef,
};
use crate::niri::{
    find_workspace_index, focused_window_id, focused_window_spec, has_key, id_by_name,
    id_by_name_spec, is_empty_unnamed, is_trailing, key_index, lemma_first_with_key,
    lemma_key_index, no_empty_workspace_message, on_workspace, new_workspace_windows,
    trailing_empty_workspace, hook_spawn_command, hook_spawn_spec,
};

verus! {

/// The message for a workspace that is not there.
pub open spec fn not_found_message(name: Seq<char>) -> Seq<char> {
    "workspace '"@ + name + "' not found"@
}

/// The id of the existing workspace named `name`, matched the way niri
/// matches names: ignoring ASCII case. Fails when no workspace has that name.
pub fn workspace_id_by_name<C: NiriClient>(s: &mut Session<C>, name: &str) -> (r: Result<u64, String>)
    ensures
        one_exchange(old(s).log@, final(s).log@, Request::Workspaces),
        match workspaces_outcome(final(s).log@.last().1) {
            Err(m) => r is Err && err_view(r) == m,
            Ok(ws) => match id_by_name_spec(ws, name@) {
                Some(id) => r == Ok::<u64, String>(id),
                None => r is Err && err_view(r) == not_found_message(name@),
            },
        },
{
    match list_workspaces(s) {
        Err(e) => Err(e),
        Ok(ws) => match id_by_name(&ws, name) {
            Some(id) => Ok(id),
            None => {
                let mut m = "workspace '".to_string();
                m.append(name);
                m.append("' not found");
                Err(m)
            },
        },
    }
}

/// `req` names the workspace with id `id` as `name`.
pub open spec fn is_set_name(req: Request, name: Seq<char>, id: u64) -> bool {
    match req {
        Request::Action(Action::SetWorkspaceName { name: n, workspace }) => n@ == name && workspace == Some(
            WorkspaceRef::Id(id),
        ),
        _ => false,
    }
}

/// `r` is `v` when the action's answer says it was done, else the reason it was not.
pub open spec fn result_after<T>(resp: Result<crate::ipc::Response, String>, r: Result<T, String>, v: T) -> bool {
    match action_outcome(resp) {
        Ok(()) => r == Ok::<T, String>(v),
        Err(m) => r is Err && err_view(r) == m,
    }
}

/// Name the workspace with id `id` as `full_name`.
pub fn set_workspace_name_by_id<C: NiriClient>(s: &mut Session<C>, id: u64, full_name: &str) -> (r: Result<(), String>)
    ensures
        extends(old(s).log@, final(s).log@),
        since(old(s).log@, final(s).log@).len() == 1,
        is_set_name(since(old(s).log@, final(s).log@)[0].0, full_name@, id),
        unit_view(r) == action_outcome(since(old(s).log@, final(s).log@)[0].1),
{
    let ghost l0 = s.log@;
    let a = Action::SetWorkspaceName { name: full_name.to_string(), workspace: Some(WorkspaceRef::Id(id)) };
    let ghost ga = a;
    let r = send_action(s, a);
    proof {
        lemma_since_one(l0, s.log@, Request::Action(ga));
    }
    r
}

/// Creating a workspace: the trailing empty workspace of `ws` is focused by
/// id, then named `full_name`; `r` is its id. Fails when that workspace is
/// not empty.
pub open spec fn create_protocol(ws: Seq<Workspace>, full_name: Seq<char>, ex: Seq<Exchange>, r: Result<Option<u64>, String>) -> bool {
    ||| (forall|i: int| is_trailing(ws, i) ==> !is_empty_unnamed(#[trigger] ws[i])) && ex.len() == 1 && r is Err && err_view(r)
        == no_empty_workspace_message()
    ||| exists|i: int|
        #![trigger is_trailing(ws, i)]
        is_trailing(ws, i) && is_empty_unnamed(ws[i]) && ex.len() >= 2 && ex[1].0 == Request::Action(
            Action::FocusWorkspace { reference: WorkspaceRef::Id(ws[i].id) },
        ) && match action_outcome(ex[1].1) {
            Err(m) => ex.len() == 2 && r is Err && err_view(r) == m,
            Ok(()) => ex.len() == 3 && is_set_name(ex[2].0, full_name, ws[i].id) && result_after(
                ex[2].1,
                r,
                Some(ws[i].id),
            ),
        }
}

/// Focusing the workspace for `ch`, or creating it as `full_name`: the
/// workspaces are listed; an existing one is focused by its full name (`r`
/// is `None`), else a new one is created (`r` is its id).
pub open spec fn focus_or_create_protocol(prefix: Seq<char>, ch: char, full_name: Seq<char>, ex: Seq<Exchange>, r: Result<Option<u64>, String>) -> bool {
    &&& ex.len() >= 1
    &&& ex[0].0 == Request::Workspaces
    &&& match workspaces_outcome(ex[0].1) {
        Err(m) => ex.len() == 1 && r is Err && err_view(r) == m,
        Ok(ws) => match key_index(ws, prefix, ch) {
            Some(i) => ex.len() == 2 && ex[1].0 == Request::Action(
                Action::FocusWorkspace { reference: WorkspaceRef::Name(ws[i].name->Some_0) },
            ) && result_after(ex[1].1, r, None::<u64>),
            None => create_protocol(ws, full_name, ex, r),
        },
    }
}

/// Focus the workspace for `ch`, or create it as `full_name` when none
/// exists. Existing workspaces are found by prefix and key, so titled names
/// match. Returns the created workspace's id, or `None` when an existing
/// one was focused. Focus comes before naming: the cleanup daemon unsets the
/// names of empty unfocused dynamic workspaces.
pub fn focus_or_create<C: NiriClient>(s: &mut Session<C>, prefix: &str, ch: char, full_name: &str) -> (r: Result<Option<u64>, String>)
    ensures
        extends(old(s).log@, final(s).log@),
        focus_or_create_protocol(prefix@, ch, full_name@, since(old(s).log@, final(s).log@), r),
{
    let ghost l0 = s.log@;
    let listed = list_workspaces(s);
    let ghost l1 = s.log@;
    proof {
        lemma_since_one(l0, l1, Request::Workspaces);
    }
    let workspaces = match listed {
        Ok(ws) => ws,
        Err(e) => {
            return Err(e);
        },
    };
    let ghost ws = workspaces@;
    match find_workspace_index(&workspaces, prefix, ch) {
        Some(i) => {
            proof {
                lemma_first_with_key(ws, prefix@, ch, i as int);
            }
            let name = match &workspaces[i].name {
                Some(n) => n.clone(),
                None => {
                    proof {
                        assert(has_key(ws[i as int], prefix@, ch));
                    }
                    return Err(String::new());
                },
            };
            let a = Action::FocusWorkspace { reference: WorkspaceRef::Name(name) };
            let ghost ga = a;
            let res = send_action(s, a);
            proof {
                lemma_since_one(l1, s.log@, Request::Action(ga));
                lemma_since_chain(l0, l1, s.log@);
            }
            match res {
                Ok(()) => Ok(None),
                Err(e) => Err(e),
            }
        },
        None => {
            proof {
                lemma_key_index(ws, prefix@, ch);
                if key_index(ws, prefix@, ch) is Some {
                    let k = key_index(ws, prefix@, ch)->Some_0;
                    assert(has_key(ws[k], prefix@, ch));
                }
            }
            let target = match trailing_empty_workspace(&workspaces) {
                Ok(t) => t.id,
                Err(e) => {
                    return Err(e);
                },
            };
            let ghost wi = choose|i: int| is_trailing(ws, i) && is_empty_unnamed(ws[i]) && ws[i].id == target;
            let a = Action::FocusWorkspace { reference: WorkspaceRef::Id(target) };
            let ghost ga = a;
            let res = send_action(s, a);
            let ghost l2 = s.log@;
            proof {
                lemma_since_one(l1, l2, Request::Action(ga));
                lemma_since_chain(l0, l1, l2);
                assert(since(l0, l2)[1] == since(l1, l2)[0]);
            }
            match res {
                Err(e) => {
                    proof {
                        assert(is_trailing(ws, wi));
                    }
                    return Err(e);
                },
                Ok(()) => {},
            }
            let res2 = set_workspace_name_by_id(s, target, full_name);
            proof {
                lemma_since_chain(l0, l2, s.log@);
                assert(since(l0, s.log@)[2] == since(l2, s.log@)[0]);
                assert(since(l0, s.log@)[1] == since(l0, l2)[1]);
                assert(is_trailing(ws, wi));
            }
            match res2 {
                Ok(()) => Ok(Some(target)),
                Err(e) => Err(e),
            }
        },
    }
}


/// `req` has the compositor spawn `command`.
pub open spec fn is_spawn_of(req: Request, command: Seq<Seq<char>>) -> bool {
    match req {
        Request::Action(Action::Spawn { command: c }) => c.deep_view() == command,
        _ => false,
    }
}

/// The message when a program fails to spawn.
pub open spec fn spawn_failure(program: Seq<char>, why: Seq<char>) -> Seq<char> {
    "failed to spawn '"@ + program + "': "@ + why
}

/// Spawning `cmds` in order, stopping at the first that fails: `out` is
/// what came of it.
pub open spec fn spawns(cmds: Seq<Seq<Seq<char>>>, ex: Seq<Exchange>, out: Result<(), Seq<char>>) -> bool
    decreases cmds.len(),
{
    if cmds.len() == 0 {
        ex.len() == 0 && out == Ok::<(), Seq<char>>(())
    } else {
        &&& ex.len() >= 1
        &&& is_spawn_of(ex[0].0, cmds[0])
        &&& match action_outcome(ex[0].1) {
            Err(m) => ex.len() == 1 && out == Err::<(), Seq<char>>(spawn_failure(cmds[0][0], m)),
            Ok(()) => spawns(cmds.drop_first(), ex.drop_first(), out),
        }
    }
}

proof fn lemma_spawns_prefix(cmds: Seq<Seq<Seq<char>>>, ex: Seq<Exchange>, k: int, out: Result<(), Seq<char>>)
    requires
        0 <= k <= cmds.len(),
        k <= ex.len(),
        forall|j: int| 0 <= j < k ==> is_spawn_of(#[trigger] ex[j].0, cmds[j]) && action_outcome(ex[j].1) is Ok,
        spawns(cmds.skip(k), ex.skip(k), out),
    ensures
        spawns(cmds, ex, out),
    decreases k,
{
    if k > 0 {
        assert(cmds.skip(k) =~= cmds.drop_first().skip(k - 1));
        assert(ex.skip(k) =~= ex.drop_first().skip(k - 1));
        assert forall|j: int| 0 <= j < k - 1 implies is_spawn_of(#[trigger] ex.drop_first()[j].0, cmds.drop_first()[j])
            && action_outcome(ex.drop_first()[j].1) is Ok by {
            assert(ex.drop_first()[j] == ex[j + 1]);
        }
        lemma_spawns_prefix(cmds.drop_first(), ex.drop_first(), k - 1, out);
        assert(is_spawn_of(ex[0].0, cmds[0]));
    } else {
        assert(cmds.skip(0) =~= cmds);
        assert(ex.skip(0) =~= ex);
    }
}

/// Have the compositor spawn `command`, an argument vector (no shell involved).
pub fn spawn<C: NiriClient>(s: &mut Session<C>, command: &Vec<String>) -> (r: Result<(), String>)
    ensures
        extends(old(s).log@, final(s).log@),
        since(old(s).log@, final(s).log@).len() == 1,
        is_spawn_of(since(old(s).log@, final(s).log@)[0].0, command.deep_view()),
        unit_view(r) == action_outcome(since(old(s).log@, final(s).log@)[0].1),
{
    let ghost l0 = s.log@;
    let a = Action::Spawn { command: crate::text::clone_strings(command) };
    let ghost ga = a;
    let r = send_action(s, a);
    proof {
        lemma_since_one(l0, s.log@, Request::Action(ga));
    }
    r
}

/// The commands that are not empty, in order.
pub open spec fn nonempty(cmds: Seq<Seq<Seq<char>>>) -> Seq<Seq<Seq<char>>>
    decreases cmds.len(),
{
    if cmds.len() == 0 {
        cmds
    } else if cmds.last().len() == 0 {
        nonempty(cmds.drop_last())
    } else {
        nonempty(cmds.drop_last()).push(cmds.last())
    }
}

/// Programs spawned on a new workspace, whose columns should follow `commands`.
#[derive(Debug)]
pub struct ReorderRequest {
    pub workspace_id: u64,
    /// Non-empty argument vectors, in the desired column order.
    pub commands: Vec<Vec<String>>,
}

/// The argument vectors of `v`, as text.
pub open spec fn commands_view(v: Vec<Vec<String>>) -> Seq<Seq<Seq<char>>> {
    v.deep_view()
}

/// What spawning the non-empty `cmds` for workspace `ws_id` returns when
/// every spawn went through: a reorder request when two or more spawned.
pub open spec fn reorder_for(ws_id: u64, cmds: Seq<Seq<Seq<char>>>, r: Option<ReorderRequest>) -> bool {
    match r {
        Some(req) => cmds.len() >= 2 && req.workspace_id == ws_id && commands_view(req.commands) == cmds,
        None => cmds.len() < 2,
    }
}

/// Spawn the non-empty `commands` in order for the new workspace
/// `workspace_id`. Returns a reorder request when two or more programs
/// spawned; stops at the first spawn that fails.
pub fn spawn_programs<C: NiriClient>(s: &mut Session<C>, workspace_id: u64, commands: &Vec<Vec<String>>) -> (r: Result<Option<ReorderRequest>, String>)
    ensures
        extends(old(s).log@, final(s).log@),
        match r {
            Ok(o) => spawns(nonempty(commands.deep_view()), since(old(s).log@, final(s).log@), Ok(()))
                && reorder_for(workspace_id, nonempty(commands.deep_view()), o),
            Err(e) => spawns(nonempty(commands.deep_view()), since(old(s).log@, final(s).log@), Err(e@)),
        },
{
    let ghost l0 = s.log@;
    let ghost all = commands.deep_view();
    let mut cmds: Vec<Vec<String>> = Vec::new();
    let mut i: usize = 0;
    while i < commands.len()
        invariant
            all == commands.deep_view(),
            i <= commands@.len(),
            cmds.deep_view() == nonempty(all.take(i as int)),
            forall|j: int| 0 <= j < cmds@.len() ==> (#[trigger] cmds@[j])@.len() > 0,
        decreases commands@.len() - i,
    {
        assert(all.take(i + 1).drop_last() =~= all.take(i as int));
        assert(all.take(i + 1).last() == all[i as int]);
        assert(all[i as int] == commands@[i as int].deep_view());
        if commands[i].len() > 0 {
            let ghost before = cmds.deep_view();
            cmds.push(crate::text::clone_strings(&commands[i]));
            assert(cmds.deep_view() =~= before.push(all[i as int]));
        }
        i = i + 1;
    }
    assert(all.take(all.len() as int) =~= all);
    let ghost ne = cmds.deep_view();
    proof {
        lemma_since_none(l0);
    }
    let mut k: usize = 0;
    while k < cmds.len()
        invariant
            ne == cmds.deep_view(),
            ne == nonempty(commands.deep_view()),
            l0 == old(s).log@,
            forall|j: int| 0 <= j < cmds@.len() ==> (#[trigger] cmds@[j])@.len() > 0,
            k <= ne.len(),
            extends(l0, s.log@),
            since(l0, s.log@).len() == k,
            forall|j: int| 0 <= j < k ==> is_spawn_of(#[trigger] since(l0, s.log@)[j].0, ne[j]) && action_outcome(
                since(l0, s.log@)[j].1,
            ) is Ok,
        decreases ne.len() - k,
    {
        let ghost lk = s.log@;
        let res = spawn(s, &cmds[k]);
        proof {
            lemma_since_chain(l0, lk, s.log@);
            assert(ne[k as int] == cmds@[k as int].deep_view());
            assert(since(l0, s.log@)[k as int] == since(lk, s.log@)[0]);
            assert forall|j: int| 0 <= j < k implies #[trigger] since(l0, s.log@)[j] == since(l0, lk)[j] by {}
        }
        match res {
            Err(e) => {
                let mut m = "failed to spawn '".to_string();
                m.append(cmds[k][0].as_str());
                m.append("': ");
                m.append(e.as_str());
                proof {
                    let ex = since(l0, s.log@);
                    assert(ne[k as int][0] == cmds@[k as int]@[0]@);
                    assert(ne.skip(k as int)[0] == ne[k as int]);
                    assert(ex.skip(k as int) =~= seq![ex[k as int]]);
                    assert(spawns(ne.skip(k as int), ex.skip(k as int), Err(m@)));
                    lemma_spawns_prefix(ne, ex, k as int, Err(m@));
                }
                return Err(m);
            },
            Ok(()) => {},
        }
        k = k + 1;
    }
    proof {
        let ex = since(l0, s.log@);
        assert(ne.skip(k as int).len() == 0);
        assert(ex.skip(k as int).len() == 0);
        lemma_spawns_prefix(ne, ex, k as int, Ok(()));
    }
    if cmds.len() >= 2 {
        Ok(Some(ReorderRequest { workspace_id, commands: cmds }))
    } else {
        Ok(None)
    }
}

/// Switching to the workspace for `ch`: focus or create it, and when it was
/// created, spawn the commands there.
pub open spec fn switch_protocol(
    prefix: Seq<char>,
    ch: char,
    full_name: Seq<char>,
    cmds: Seq<Seq<Seq<char>>>,
    ex: Seq<Exchange>,
    r: Result<(Option<u64>, Option<ReorderRequest>), String>,
) -> bool {
    exists|k: int, r1: Result<Option<u64>, String>|
        #![trigger focus_or_create_protocol(prefix, ch, full_name, ex.take(k), r1)]
        0 <= k <= ex.len() && focus_or_create_protocol(prefix, ch, full_name, ex.take(k), r1) && match r1 {
            Err(e) => k == ex.len() && r is Err && err_view(r) == e@,
            Ok(None) => k == ex.len() && r is Ok && r->Ok_0.0 is None && r->Ok_0.1 is None,
            Ok(Some(id)) => match r {
                Ok((created, reorder)) => created == Some(id) && spawns(nonempty(cmds), ex.skip(k), Ok(()))
                    && reorder_for(id, nonempty(cmds), reorder),
                Err(e) => spawns(nonempty(cmds), ex.skip(k), Err(e@)),
            },
        }
}

/// Switch to the workspace for `ch`; when none exists, create it as
/// `full_name` and spawn `commands` (argument vectors) there. Returns the
/// created workspace's id (`None` when an existing one was focused) and,
/// when two or more programs spawned, a reorder request.
pub fn switch_workspace<C: NiriClient>(
    s: &mut Session<C>,
    prefix: &str,
    ch: char,
    full_name: &str,
    commands: &Vec<Vec<String>>,
) -> (r: Result<(Option<u64>, Option<ReorderRequest>), String>)
    ensures
        extends(old(s).log@, final(s).log@),
        switch_protocol(prefix@, ch, full_name@, commands.deep_view(), since(old(s).log@, final(s).log@), r),
{
    let ghost l0 = s.log@;
    let r1 = focus_or_create(s, prefix, ch, full_name);
    let ghost l1 = s.log@;
    let ghost g1 = r1;
    proof {
        lemma_since_none(l1);
        lemma_since_chain(l0, l1, l1);
        assert(since(l0, l1).take(since(l0, l1).len() as int) =~= since(l0, l1));
    }
    let id = match r1 {
        Err(e) => {
            return Err(e);
        },
        Ok(None) => {
            return Ok((None, None));
        },
        Ok(Some(id)) => id,
    };
    let r2 = spawn_programs(s, id, commands);
    proof {
        lemma_since_chain(l0, l1, s.log@);
        let ex = since(l0, s.log@);
        let k = since(l0, l1).len() as int;
        assert(ex.take(k) =~= since(l0, l1));
        assert(ex.skip(k) =~= since(l1, s.log@));
        assert(focus_or_create_protocol(prefix@, ch, full_name@, ex.take(k), g1));
    }
    match r2 {
        Ok(reorder) => Ok((Some(id), reorder)),
        Err(e) => Err(e),
    }
}


/// `req` moves window `w` to the workspace `reference` and follows it.
pub open spec fn is_move(req: Request, w: u64, reference: WorkspaceRef) -> bool {
    req == Request::Action(Action::MoveWindowToWorkspace { window_id: Some(w), reference, focus: true })
}

/// `req` unsets the name of the workspace named `name`.
pub open spec fn is_unset_name(req: Request, name: Seq<char>) -> bool {
    match req {
        Request::Action(Action::UnsetWorkspaceName { reference: Some(WorkspaceRef::Name(n)) }) => n@ == name,
        _ => false,
    }
}

/// The window a move applies to: the given one, else the focused workspace's active window.
pub open spec fn window_to_move(ws: Seq<Workspace>, window_id: Option<u64>) -> Option<u64> {
    match window_id {
        Some(id) => Some(id),
        None => focused_window_spec(ws),
    }
}

/// Moving a window to the workspace for `ch`, creating it as `full_name`
/// when none exists: the new workspace is named by id, with no change of
/// focus, and the window is moved to it by id; `r` is whether one was created.
pub open spec fn move_protocol(
    prefix: Seq<char>,
    ch: char,
    full_name: Seq<char>,
    window_id: Option<u64>,
    ex: Seq<Exchange>,
    r: Result<bool, String>,
) -> bool {
    &&& ex.len() >= 1
    &&& ex[0].0 == Request::Workspaces
    &&& match workspaces_outcome(ex[0].1) {
        Err(m) => ex.len() == 1 && r is Err && err_view(r) == m,
        Ok(ws) => match window_to_move(ws, window_id) {
            None => ex.len() == 1 && r is Err && err_view(r) == crate::niri::no_focused_window_message(),
            Some(w) => match key_index(ws, prefix, ch) {
                Some(i) => ex.len() == 2 && is_move(ex[1].0, w, WorkspaceRef::Name(ws[i].name->Some_0))
                    && result_after(ex[1].1, r, false),
                None => {
                    ||| (forall|i: int| is_trailing(ws, i) ==> !is_empty_unnamed(#[trigger] ws[i])) && ex.len() == 1 && r is Err
                        && err_view(r) == no_empty_workspace_message()
                    ||| exists|i: int|
                        #![trigger is_trailing(ws, i)]
                        is_trailing(ws, i) && is_empty_unnamed(ws[i]) && ex.len() >= 2 && is_set_name(
                            ex[1].0,
                            full_name,
                            ws[i].id,
                        ) && match action_outcome(ex[1].1) {
                            Err(m) => ex.len() == 2 && r is Err && err_view(r) == m,
                            Ok(()) => ex.len() == 3 && is_move(ex[2].0, w, WorkspaceRef::Id(ws[i].id)) && result_after(
                                ex[2].1,
                                r,
                                true,
                            ),
                        }
                },
            },
        },
    }
}

/// Move a window to the workspace for `ch`, creating it as `full_name` if it
/// doesn't exist; `None` moves the focused window. Returns whether a new
/// workspace was named. Fails before naming anything when `window_id` is
/// `None` and no window is focused.
pub fn move_window_to_workspace<C: NiriClient>(
    s: &mut Session<C>,
    prefix: &str,
    ch: char,
    full_name: &str,
    window_id: Option<u64>,
) -> (r: Result<bool, String>)
    ensures
        extends(old(s).log@, final(s).log@),
        move_protocol(prefix@, ch, full_name@, window_id, since(old(s).log@, final(s).log@), r),
{
    let ghost l0 = s.log@;
    let listed = list_workspaces(s);
    let ghost l1 = s.log@;
    proof {
        lemma_since_one(l0, l1, Request::Workspaces);
    }
    let workspaces = match listed {
        Ok(ws) => ws,
        Err(e) => {
            return Err(e);
        },
    };
    let ghost ws = workspaces@;
    let wid = match window_id {
        Some(id) => id,
        None => match focused_window_id(&workspaces) {
            Ok(id) => id,
            Err(e) => {
                return Err(e);
            },
        },
    };
    match find_workspace_index(&workspaces, prefix, ch) {
        Some(i) => {
            proof {
                lemma_first_with_key(ws, prefix@, ch, i as int);
            }
            let name = match &workspaces[i].name {
                Some(n) => n.clone(),
                None => {
                    proof {
                        assert(has_key(ws[i as int], prefix@, ch));
                    }
                    return Err(String::new());
                },
            };
            let a = Action::MoveWindowToWorkspace {
                window_id: Some(wid),
                reference: WorkspaceRef::Name(name),
                focus: true,
            };
            let ghost ga = a;
            let res = send_action(s, a);
            proof {
                lemma_since_one(l1, s.log@, Request::Action(ga));
                lemma_since_chain(l0, l1, s.log@);
            }
            match res {
                Ok(()) => Ok(false),
                Err(e) => Err(e),
            }
        },
        None => {
            proof {
                lemma_key_index(ws, prefix@, ch);
                if key_index(ws, prefix@, ch) is Some {
                    let k = key_index(ws, prefix@, ch)->Some_0;
                    assert(has_key(ws[k], prefix@, ch));
                }
            }
            let target = match trailing_empty_workspace(&workspaces) {
                Ok(t) => t.id,
                Err(e) => {
                    return Err(e);
                },
            };
            let ghost wi = choose|i: int| is_trailing(ws, i) && is_empty_unnamed(ws[i]) && ws[i].id == target;
            let res = set_workspace_name_by_id(s, target, full_name);
            let ghost l2 = s.log@;
            proof {
                lemma_since_chain(l0, l1, l2);
                assert(since(l0, l2)[1] == since(l1, l2)[0]);
                assert(is_trailing(ws, wi));
            }
            match res {
                Err(e) => {
                    return Err(e);
                },
                Ok(()) => {},
            }
            let a = Action::MoveWindowToWorkspace {
                window_id: Some(wid),
                reference: WorkspaceRef::Id(target),
                focus: true,
            };
            let ghost ga = a;
            let res2 = send_action(s, a);
            proof {
                lemma_since_one(l2, s.log@, Request::Action(ga));
                lemma_since_chain(l0, l2, s.log@);
                assert(since(l0, s.log@)[2] == since(l2, s.log@)[0]);
                assert(since(l0, s.log@)[1] == since(l0, l2)[1]);
            }
            match res2 {
                Ok(()) => Ok(true),
                Err(e) => Err(e),
            }
        },
    }
}

/// How many times deleting lists the windows again while it waits for the
/// closed windows to go; with [`DELETE_POLL_MS`] between listings, 5 s.
pub const DELETE_POLLS: u32 = 50;

/// Milliseconds between two listings while deleting waits.
pub const DELETE_POLL_MS: u64 = 100;

/// The message when a workspace's windows are still open after the wait.
pub open spec fn still_open_message(name: Seq<char>) -> Seq<char> {
    "workspace '"@ + name + "' still has open windows; it keeps its name"@
}

/// Waiting for workspace `id` to lose its windows, with `n` listings left:
/// each listing of the windows comes after a pause; once none is on the
/// workspace its name `name` is unset; with the listings spent and windows
/// still open, the deletion fails and the name stays.
pub open spec fn waits_then_unsets(id: u64, name: Seq<char>, n: nat, ex: Seq<Exchange>, out: Result<(), Seq<char>>) -> bool
    decreases n,
{
    if n == 0 {
        ex.len() == 0 && out == Err::<(), Seq<char>>(still_open_message(name))
    } else {
        &&& ex.len() >= 1
        &&& ex[0].0 == Request::Windows
        &&& match windows_outcome(ex[0].1) {
            Err(m) => ex.len() == 1 && out == Err::<(), Seq<char>>(m),
            Ok(wins) => if on_workspace(wins, id).len() == 0 {
                ex.len() == 2 && is_unset_name(ex[1].0, name) && out == action_outcome(ex[1].1)
            } else {
                waits_then_unsets(id, name, (n - 1) as nat, ex.drop_first(), out)
            },
        }
    }
}

/// Closing `targets` in order, stopping at the first close that fails, then
/// waiting for workspace `id` to lose its windows before unsetting its name
/// `name`. `out` is what came of it.
pub open spec fn closes_then_unsets(targets: Seq<Window>, id: u64, name: Seq<char>, ex: Seq<Exchange>, out: Result<(), Seq<char>>) -> bool
    decreases targets.len(),
{
    if targets.len() == 0 {
        waits_then_unsets(id, name, DELETE_POLLS as nat, ex, out)
    } else {
        &&& ex.len() >= 1
        &&& ex[0].0 == Request::Action(Action::CloseWindow { id: Some(targets[0].id) })
        &&& match action_outcome(ex[0].1) {
            Err(m) => ex.len() == 1 && out == Err::<(), Seq<char>>(m),
            Ok(()) => closes_then_unsets(targets.drop_first(), id, name, ex.drop_first(), out),
        }
    }
}

/// The message when a workspace's windows are still open after the wait.
fn still_open(name: &str) -> (r: String)
    ensures
        r@ == still_open_message(name@),
{
    let mut m = "workspace '".to_string();
    m.append(name);
    m.append("' still has open windows; it keeps its name");
    m
}

/// Unset workspace name `name`.
fn unset_name<C: NiriClient>(s: &mut Session<C>, name: String) -> (r: Result<(), String>)
    ensures
        extends(old(s).log@, final(s).log@),
        since(old(s).log@, final(s).log@).len() == 1,
        is_unset_name(since(old(s).log@, final(s).log@)[0].0, name@),
        unit_view(r) == action_outcome(since(old(s).log@, final(s).log@)[0].1),
{
    let ghost l0 = s.log@;
    let ghost nv = name@;
    let a = Action::UnsetWorkspaceName { reference: Some(WorkspaceRef::Name(name)) };
    let ghost ga = a;
    let r = send_action(s, a);
    proof {
        lemma_since_one(l0, s.log@, Request::Action(ga));
    }
    r
}

/// Wait for workspace `ws_id` to lose its windows, listing them at most `n`
/// times, each after a pause of [`DELETE_POLL_MS`]; then unset `name`, or
/// fail keeping it.
fn wait_then_unset<C: NiriClient>(s: &mut Session<C>, ws_id: u64, name: String, n: u32) -> (r: Result<(), String>)
    ensures
        extends(old(s).log@, final(s).log@),
        waits_then_unsets(ws_id, name@, n as nat, since(old(s).log@, final(s).log@), unit_view(r)),
    decreases n,
{
    let ghost l0 = s.log@;
    if n == 0 {
        proof {
            lemma_since_none(l0);
        }
        return Err(still_open(name.as_str()));
    }
    s.pause(DELETE_POLL_MS);
    let listed = list_windows(s);
    let ghost l1 = s.log@;
    proof {
        lemma_since_one(l0, l1, Request::Windows);
    }
    let windows = match listed {
        Ok(w) => w,
        Err(e) => {
            return Err(e);
        },
    };
    let remaining = new_workspace_windows(&windows, ws_id);
    if remaining.len() == 0 {
        let r = unset_name(s, name);
        proof {
            lemma_since_chain(l0, l1, s.log@);
            assert(since(l0, s.log@)[1] == since(l1, s.log@)[0]);
        }
        r
    } else {
        let r = wait_then_unset(s, ws_id, name, n - 1);
        proof {
            lemma_since_chain(l0, l1, s.log@);
            assert(since(l0, s.log@).drop_first() =~= since(l1, s.log@));
        }
        r
    }
}

proof fn lemma_closes_prefix(targets: Seq<Window>, id: u64, name: Seq<char>, ex: Seq<Exchange>, k: int, out: Result<(), Seq<char>>)
    requires
        0 <= k <= targets.len(),
        k <= ex.len(),
        forall|j: int|
            0 <= j < k ==> #[trigger] ex[j].0 == Request::Action(Action::CloseWindow { id: Some(targets[j].id) })
                && action_outcome(ex[j].1) is Ok,
        closes_then_unsets(targets.skip(k), id, name, ex.skip(k), out),
    ensures
        closes_then_unsets(targets, id, name, ex, out),
    decreases k,
{
    if k > 0 {
        assert(targets.skip(k) =~= targets.drop_first().skip(k - 1));
        assert(ex.skip(k) =~= ex.drop_first().skip(k - 1));
        assert forall|j: int| 0 <= j < k - 1 implies #[trigger] ex.drop_first()[j].0 == Request::Action(
            Action::CloseWindow { id: Some(targets.drop_first()[j].id) },
        ) && action_outcome(ex.drop_first()[j].1) is Ok by {
            assert(ex.drop_first()[j] == ex[j + 1]);
        }
        lemma_closes_prefix(targets.drop_first(), id, name, ex.drop_first(), k - 1, out);
        assert(ex[0].0 == Request::Action(Action::CloseWindow { id: Some(targets[0].id) }));
    } else {
        assert(targets.skip(0) =~= targets);
        assert(ex.skip(0) =~= ex);
    }
}

/// Deleting the workspace for `ch`: list the workspaces; with none for the
/// key, fail; else list the windows. Without windows on it, unset its name
/// so niri removes it; else close them in order, wait for them to go and
/// only then unset the name, failing with the name kept if they stay.
pub open spec fn delete_protocol(prefix: Seq<char>, ch: char, ex: Seq<Exchange>, r: Result<(), String>) -> bool {
    &&& ex.len() >= 1
    &&& ex[0].0 == Request::Workspaces
    &&& match workspaces_outcome(ex[0].1) {
        Err(m) => ex.len() == 1 && unit_view(r) == Err::<(), Seq<char>>(m),
        Ok(ws) => match key_index(ws, prefix, ch) {
            None => ex.len() == 1 && unit_view(r) == Err::<(), Seq<char>>(not_found_message(prefix.push(ch))),
            Some(i) => {
                &&& ex.len() >= 2
                &&& ex[1].0 == Request::Windows
                &&& match windows_outcome(ex[1].1) {
                    Err(m) => ex.len() == 2 && unit_view(r) == Err::<(), Seq<char>>(m),
                    Ok(wins) => if on_workspace(wins, ws[i].id).len() == 0 {
                        ex.len() == 3 && is_unset_name(ex[2].0, ws[i].name->Some_0@) && unit_view(r)
                            == action_outcome(ex[2].1)
                    } else {
                        closes_then_unsets(
                            on_workspace(wins, ws[i].id),
                            ws[i].id,
                            ws[i].name->Some_0@,
                            ex.skip(2),
                            unit_view(r),
                        )
                    },
                }
            },
        },
    }
}

/// Delete the workspace for `ch`: close all its windows, wait up to 5 s for
/// them to close, then unset its name so niri cleans it up. If a window is
/// still open after the wait, fail and leave the name in place.
pub fn delete_workspace<C: NiriClient>(s: &mut Session<C>, prefix: &str, ch: char) -> (r: Result<(), String>)
    ensures
        extends(old(s).log@, final(s).log@),
        delete_protocol(prefix@, ch, since(old(s).log@, final(s).log@), r),
{
    let ghost l0 = s.log@;
    let listed = list_workspaces(s);
    let ghost l1 = s.log@;
    proof {
        lemma_since_one(l0, l1, Request::Workspaces);
    }
    let workspaces = match listed {
        Ok(ws) => ws,
        Err(e) => {
            return Err(e);
        },
    };
    let ghost ws = workspaces@;
    let i = match find_workspace_index(&workspaces, prefix, ch) {
        Some(i) => i,
        None => {
            proof {
                lemma_key_index(ws, prefix@, ch);
                if key_index(ws, prefix@, ch) is Some {
                    let k = key_index(ws, prefix@, ch)->Some_0;
                    assert(has_key(ws[k], prefix@, ch));
                }
            }
            let mut m = "workspace '".to_string();
            m.append(prefix);
            crate::text::push_char(&mut m, ch);
            m.append("' not found");
            return Err(m);
        },
    };
    proof {
        lemma_first_with_key(ws, prefix@, ch, i as int);
    }
    let ws_id = workspaces[i].id;
    let name = match &workspaces[i].name {
        Some(n) => n.clone(),
        None => {
            proof {
                assert(has_key(ws[i as int], prefix@, ch));
            }
            return Err(String::new());
        },
    };
    let listed_windows = list_windows(s);
    let ghost l2 = s.log@;
    proof {
        lemma_since_one(l1, l2, Request::Windows);
        lemma_since_chain(l0, l1, l2);
        assert(since(l0, l2)[1] == since(l1, l2)[0]);
    }
    let windows = match listed_windows {
        Ok(w) => w,
        Err(e) => {
            return Err(e);
        },
    };
    let targets = new_workspace_windows(&windows, ws_id);
    let ghost t = targets@;
    if targets.len() == 0 {
        let r = unset_name(s, name);
        proof {
            lemma_since_chain(l0, l2, s.log@);
            assert(since(l0, s.log@)[2] == since(l2, s.log@)[0]);
            assert(since(l0, s.log@)[0] == since(l0, l2)[0]);
            assert(since(l0, s.log@)[1] == since(l0, l2)[1]);
        }
        return r;
    }
    proof {
        lemma_since_none(l2);
    }
    let mut k: usize = 0;
    let mut failed: Option<String> = None;
    while k < targets.len() && failed.is_none()
        invariant
            t == targets@,
            k <= t.len(),
            extends(l2, s.log@),
            match failed {
                None => since(l2, s.log@).len() == k,
                Some(e) => {
                    &&& k < t.len()
                    &&& since(l2, s.log@).len() == k + 1
                    &&& since(l2, s.log@)[k as int].0 == Request::Action(Action::CloseWindow { id: Some(t[k as int].id) })
                    &&& action_outcome(since(l2, s.log@)[k as int].1) == Err::<(), Seq<char>>(e@)
                },
            },
            forall|j: int|
                0 <= j < k ==> #[trigger] since(l2, s.log@)[j].0 == Request::Action(
                    Action::CloseWindow { id: Some(t[j].id) },
                ) && action_outcome(since(l2, s.log@)[j].1) is Ok,
        decreases t.len() - k, (if failed is None { 1int } else { 0int }),
    {
        let ghost lk = s.log@;
        let a = Action::CloseWindow { id: Some(targets[k].id) };
        let ghost ga = a;
        let res = send_action(s, a);
        proof {
            lemma_since_one(lk, s.log@, Request::Action(ga));
            lemma_since_chain(l2, lk, s.log@);
            assert(since(l2, s.log@)[k as int] == since(lk, s.log@)[0]);
            assert forall|j: int| 0 <= j < k implies #[trigger] since(l2, s.log@)[j] == since(l2, lk)[j] by {}
        }
        match res {
            Err(e) => {
                failed = Some(e);
            },
            Ok(()) => {
                k = k + 1;
            },
        }
    }
    match failed {
        Some(e) => {
            proof {
                let ex = since(l2, s.log@);
                assert(t.skip(k as int)[0] == t[k as int]);
                assert(ex.skip(k as int) =~= seq![ex[k as int]]);
                assert(closes_then_unsets(t.skip(k as int), ws_id, name@, ex.skip(k as int), Err(e@)));
                lemma_closes_prefix(t, ws_id, name@, ex, k as int, Err(e@));
                lemma_since_chain(l0, l2, s.log@);
                assert(since(l0, s.log@).skip(2) =~= ex);
                assert(since(l0, s.log@)[0] == since(l0, l2)[0]);
                assert(since(l0, s.log@)[1] == since(l0, l2)[1]);
            }
            return Err(e);
        },
        None => {},
    }
    let ghost l3 = s.log@;
    let res = wait_then_unset(s, ws_id, name, DELETE_POLLS);
    proof {
        lemma_since_chain(l2, l3, s.log@);
        let ex = since(l2, s.log@);
        assert forall|j: int| 0 <= j < k implies #[trigger] ex[j] == since(l2, l3)[j] by {}
        assert(t.skip(k as int).len() == 0);
        assert(ex.skip(k as int) =~= since(l3, s.log@));
        lemma_closes_prefix(t, ws_id, name@, ex, k as int, unit_view(res));
        lemma_since_chain(l0, l2, s.log@);
        assert(since(l0, s.log@).skip(2) =~= ex);
        assert(since(l0, s.log@)[0] == since(l0, l2)[0]);
        assert(since(l0, s.log@)[1] == since(l0, l2)[1]);
    }
    res
}

/// Have niri run hook `commands` in the background, one after another, each
/// through `sh -c` with `env` set: one spawn request, none without hooks.
/// The workspace action already happened, so a launch failure does not fail
/// it; whether the launch went through is returned.
pub fn run_hooks<C: NiriClient>(s: &mut Session<C>, commands: &Vec<String>, env: &Vec<(String, String)>) -> (r: bool)
    ensures
        extends(old(s).log@, final(s).log@),
        match hook_spawn_spec(commands.deep_view(), crate::order::pairs_view(env@)) {
            None => since(old(s).log@, final(s).log@).len() == 0 && !r,
            Some(argv) => since(old(s).log@, final(s).log@).len() == 1 && is_spawn_of(
                since(old(s).log@, final(s).log@)[0].0,
                argv,
            ) && r == (action_outcome(since(old(s).log@, final(s).log@)[0].1) is Ok),
        },
{
    let ghost l0 = s.log@;
    match hook_spawn_command(commands, env) {
        None => {
            proof {
                lemma_since_none(l0);
            }
            false
        },
        Some(command) => {
            let res = spawn(s, &command);
            res.is_ok()
        },
    }
}


/// Some window of `wins` is on workspace `id`.
pub open spec fn occupied(wins: Seq<Window>, id: u64) -> bool {
    exists|j: int| 0 <= j < wins.len() && (#[trigger] wins[j]).workspace_id == Some(id)
}

/// `w` is a dynamic workspace under `prefix` that is empty, unfocused and
/// inactive: one that cleanup may unset.
pub open spec fn is_removable(w: Workspace, wins: Seq<Window>, prefix: Seq<char>) -> bool {
    &&& w.name is Some
    &&& crate::naming::parse_dynamic_name_spec(w.name->Some_0@, prefix) is Some
    &&& !w.is_focused
    &&& !w.is_active
    &&& !occupied(wins, w.id)
}

/// The removable workspaces of `ws`, as id and name, in order.
pub open spec fn removable_spec(ws: Seq<Workspace>, wins: Seq<Window>, prefix: Seq<char>) -> Seq<(u64, Seq<char>)>
    decreases ws.len(),
{
    if ws.len() == 0 {
        Seq::empty()
    } else {
        let r = removable_spec(ws.drop_last(), wins, prefix);
        if is_removable(ws.last(), wins, prefix) {
            r.push((ws.last().id, ws.last().name->Some_0@))
        } else {
            r
        }
    }
}

/// Whether some window is on workspace `id`.
fn has_window_on(wins: &Vec<Window>, id: u64) -> (r: bool)
    ensures
        r == occupied(wins@, id),
{
    let mut i: usize = 0;
    while i < wins.len()
        invariant
            i <= wins@.len(),
            forall|j: int| 0 <= j < i ==> (#[trigger] wins@[j]).workspace_id != Some(id),
        decreases wins@.len() - i,
    {
        if wins[i].workspace_id == Some(id) {
            return true;
        }
        i = i + 1;
    }
    false
}

/// The prefix-matching workspaces that are empty, unfocused and inactive, as
/// id and name.
pub fn removable(ws: &Vec<Workspace>, wins: &Vec<Window>, prefix: &str) -> (r: Vec<(u64, String)>)
    ensures
        crate::niri::pool_view(r@) == removable_spec(ws@, wins@, prefix@),
{
    let mut r: Vec<(u64, String)> = Vec::new();
    let mut i: usize = 0;
    while i < ws.len()
        invariant
            i <= ws@.len(),
            crate::niri::pool_view(r@) == removable_spec(ws@.take(i as int), wins@, prefix@),
        decreases ws@.len() - i,
    {
        assert(ws@.take(i + 1).drop_last() =~= ws@.take(i as int));
        assert(ws@.take(i + 1).last() == ws@[i as int]);
        match &ws[i].name {
            Some(n) => {
                if crate::naming::parse_dynamic_name(n.as_str(), prefix).is_some() && !ws[i].is_focused
                    && !ws[i].is_active && !has_window_on(wins, ws[i].id) {
                    let ghost before = r@;
                    r.push((ws[i].id, n.clone()));
                    assert(crate::niri::pool_view(r@) =~= crate::niri::pool_view(before).push((ws@[i as int].id, n@)));
                }
            },
            None => {},
        }
        i = i + 1;
    }
    assert(ws@.take(ws@.len() as int) =~= ws@);
    r
}

/// Listing what cleanup may remove: the workspaces, then the windows; `r`
/// is the removable ones among them.
pub open spec fn removable_protocol(prefix: Seq<char>, ex: Seq<Exchange>, r: Result<Seq<(u64, Seq<char>)>, Seq<char>>) -> bool {
    &&& ex.len() >= 1
    &&& ex[0].0 == Request::Workspaces
    &&& match workspaces_outcome(ex[0].1) {
        Err(m) => ex.len() == 1 && r == Err::<Seq<(u64, Seq<char>)>, Seq<char>>(m),
        Ok(ws) => {
            &&& ex.len() == 2
            &&& ex[1].0 == Request::Windows
            &&& match windows_outcome(ex[1].1) {
                Err(m) => r == Err::<Seq<(u64, Seq<char>)>, Seq<char>>(m),
                Ok(wins) => r == Ok::<Seq<(u64, Seq<char>)>, Seq<char>>(removable_spec(ws, wins, prefix)),
            }
        },
    }
}

/// A list of ids and names, with its error as text.
pub open spec fn pool_result(r: Result<Vec<(u64, String)>, String>) -> Result<Seq<(u64, Seq<char>)>, Seq<char>> {
    match r {
        Ok(v) => Ok(crate::niri::pool_view(v@)),
        Err(e) => Err(e@),
    }
}

/// Collect the prefix-matching workspaces that are empty, unfocused and inactive.
pub fn removable_workspaces<C: NiriClient>(s: &mut Session<C>, prefix: &str) -> (r: Result<Vec<(u64, String)>, String>)
    ensures
        extends(old(s).log@, final(s).log@),
        removable_protocol(prefix@, since(old(s).log@, final(s).log@), pool_result(r)),
{
    let ghost l0 = s.log@;
    let listed = list_workspaces(s);
    let ghost l1 = s.log@;
    proof {
        lemma_since_one(l0, l1, Request::Workspaces);
    }
    let workspaces = match listed {
        Ok(ws) => ws,
        Err(e) => {
            return Err(e);
        },
    };
    let listed_windows = list_windows(s);
    proof {
        lemma_since_one(l1, s.log@, Request::Windows);
        lemma_since_chain(l0, l1, s.log@);
        assert(since(l0, s.log@)[1] == since(l1, s.log@)[0]);
    }
    match listed_windows {
        Ok(wins) => Ok(removable(&workspaces, &wins, prefix)),
        Err(e) => Err(e),
    }
}

/// The ids of `pool`, in order.
pub open spec fn pool_ids(pool: Seq<(u64, Seq<char>)>) -> Seq<u64> {
    pool.map_values(|p: (u64, Seq<char>)| p.0)
}

/// The first cleanup pass: the ids of the workspaces that may be removed.
/// A workspace mid-creation is briefly named but still empty and unfocused,
/// so only those that still qualify after a delay are removed.
pub fn cleanup_candidates<C: NiriClient>(s: &mut Session<C>, prefix: &str) -> (r: Result<Vec<u64>, String>)
    ensures
        extends(old(s).log@, final(s).log@),
        exists|p: Result<Seq<(u64, Seq<char>)>, Seq<char>>|
            #![trigger removable_protocol(prefix@, since(old(s).log@, final(s).log@), p)]
            removable_protocol(prefix@, since(old(s).log@, final(s).log@), p) && match (p, r) {
                (Ok(pool), Ok(ids)) => ids@ == pool_ids(pool),
                (Err(m), Err(e)) => e@ == m,
                _ => false,
            },
{
    let res = removable_workspaces(s, prefix);
    match res {
        Err(e) => Err(e),
        Ok(pool) => {
            let mut ids: Vec<u64> = Vec::new();
            let mut i: usize = 0;
            while i < pool.len()
                invariant
                    i <= pool@.len(),
                    ids@ == pool_ids(crate::niri::pool_view(pool@)).take(i as int),
                decreases pool@.len() - i,
            {
                ids.push(pool[i].0);
                i = i + 1;
                assert(ids@ =~= pool_ids(crate::niri::pool_view(pool@)).take(i as int));
            }
            assert(ids@ =~= pool_ids(crate::niri::pool_view(pool@)));
            Ok(ids)
        },
    }
}

/// The workspaces of `pool` whose ids are among `candidates`, in order.
pub open spec fn confirmed(pool: Seq<(u64, Seq<char>)>, candidates: Seq<u64>) -> Seq<(u64, Seq<char>)>
    decreases pool.len(),
{
    if pool.len() == 0 {
        pool
    } else if candidates.contains(pool.last().0) {
        confirmed(pool.drop_last(), candidates).push(pool.last())
    } else {
        confirmed(pool.drop_last(), candidates)
    }
}

/// Unsetting the names of `targets` in order, stopping at the first that fails.
pub open spec fn unsets(targets: Seq<(u64, Seq<char>)>, ex: Seq<Exchange>, out: Result<(), Seq<char>>) -> bool
    decreases targets.len(),
{
    if targets.len() == 0 {
        ex.len() == 0 && out == Ok::<(), Seq<char>>(())
    } else {
        &&& ex.len() >= 1
        &&& is_unset_name(ex[0].0, targets[0].1)
        &&& match action_outcome(ex[0].1) {
            Err(m) => ex.len() == 1 && out == Err::<(), Seq<char>>(m),
            Ok(()) => unsets(targets.drop_first(), ex.drop_first(), out),
        }
    }
}

proof fn lemma_unsets_prefix(targets: Seq<(u64, Seq<char>)>, ex: Seq<Exchange>, k: int, out: Result<(), Seq<char>>)
    requires
        0 <= k <= targets.len(),
        k <= ex.len(),
        forall|j: int| 0 <= j < k ==> is_unset_name(#[trigger] ex[j].0, targets[j].1) && action_outcome(ex[j].1) is Ok,
        unsets(targets.skip(k), ex.skip(k), out),
    ensures
        unsets(targets, ex, out),
    decreases k,
{
    if k > 0 {
        assert(targets.skip(k) =~= targets.drop_first().skip(k - 1));
        assert(ex.skip(k) =~= ex.drop_first().skip(k - 1));
        assert forall|j: int| 0 <= j < k - 1 implies is_unset_name(#[trigger] ex.drop_first()[j].0, targets.drop_first()[j].1)
            && action_outcome(ex.drop_first()[j].1) is Ok by {
            assert(ex.drop_first()[j] == ex[j + 1]);
        }
        lemma_unsets_prefix(targets.drop_first(), ex.drop_first(), k - 1, out);
        assert(is_unset_name(ex[0].0, targets[0].1));
    } else {
        assert(targets.skip(0) =~= targets);
        assert(ex.skip(0) =~= ex);
    }
}

/// Whether a pass went through, whatever it returned.
pub open spec fn done_view<T>(r: Result<T, String>) -> Result<(), Seq<char>> {
    match r {
        Ok(_) => Ok(()),
        Err(e) => Err(e@),
    }
}

/// The names of `pool`, in order.
pub open spec fn pool_names(pool: Seq<(u64, Seq<char>)>) -> Seq<Seq<char>> {
    pool.map_values(|p: (u64, Seq<char>)| p.1)
}

/// The second cleanup pass, after the delay: list what is removable again,
/// and unset the names of those that were `candidates` in the first pass
/// too, in order, stopping at the first failure. Returns the names it unset.
pub fn cleanup_confirmed<C: NiriClient>(s: &mut Session<C>, prefix: &str, candidates: &Vec<u64>) -> (r: Result<Vec<String>, String>)
    ensures
        extends(old(s).log@, final(s).log@),
        exists|k: int, p: Result<Seq<(u64, Seq<char>)>, Seq<char>>|
            #![trigger removable_protocol(prefix@, since(old(s).log@, final(s).log@).take(k), p)]
            0 <= k <= since(old(s).log@, final(s).log@).len() && removable_protocol(
                prefix@,
                since(old(s).log@, final(s).log@).take(k),
                p,
            ) && match p {
                Err(m) => k == since(old(s).log@, final(s).log@).len() && done_view(r) == Err::<(), Seq<char>>(m),
                Ok(pool) => unsets(confirmed(pool, candidates@), since(old(s).log@, final(s).log@).skip(k), done_view(r))
                    && (r matches Ok(v) ==> v.deep_view() == pool_names(confirmed(pool, candidates@))),
            },
{
    let ghost l0 = s.log@;
    let res = removable_workspaces(s, prefix);
    let ghost l1 = s.log@;
    proof {
        lemma_since_none(l1);
        lemma_since_chain(l0, l1, l1);
        assert(since(l0, l1).take(since(l0, l1).len() as int) =~= since(l0, l1));
    }
    let pool = match res {
        Err(e) => {
            return Err(e);
        },
        Ok(pool) => pool,
    };
    let ghost pv = crate::niri::pool_view(pool@);
    let mut targets: Vec<(u64, String)> = Vec::new();
    let mut i: usize = 0;
    while i < pool.len()
        invariant
            pv == crate::niri::pool_view(pool@),
            i <= pool@.len(),
            crate::niri::pool_view(targets@) == confirmed(pv.take(i as int), candidates@),
        decreases pool@.len() - i,
    {
        assert(pv.take(i + 1).drop_last() =~= pv.take(i as int));
        assert(pv.take(i + 1).last() == pv[i as int]);
        let id = pool[i].0;
        let mut found = false;
        let mut j: usize = 0;
        while j < candidates.len()
            invariant
                j <= candidates@.len(),
                found == exists|m: int| 0 <= m < j && candidates@[m] == id,
            decreases candidates@.len() - j,
        {
            if candidates[j] == id {
                found = true;
            }
            j = j + 1;
        }
        if found {
            let ghost before = targets@;
            targets.push((id, pool[i].1.clone()));
            assert(crate::niri::pool_view(targets@) =~= crate::niri::pool_view(before).push(pv[i as int]));
        }
        i = i + 1;
    }
    assert(pv.take(pv.len() as int) =~= pv);
    let ghost tv = crate::niri::pool_view(targets@);
    proof {
        lemma_since_none(l1);
    }
    let mut k: usize = 0;
    let mut failed: Option<String> = None;
    while k < targets.len() && failed.is_none()
        invariant
            tv == crate::niri::pool_view(targets@),
            k <= tv.len(),
            extends(l1, s.log@),
            match failed {
                None => since(l1, s.log@).len() == k,
                Some(e) => {
                    &&& k < tv.len()
                    &&& since(l1, s.log@).len() == k + 1
                    &&& is_unset_name(since(l1, s.log@)[k as int].0, tv[k as int].1)
                    &&& action_outcome(since(l1, s.log@)[k as int].1) == Err::<(), Seq<char>>(e@)
                },
            },
            forall|j: int| 0 <= j < k ==> is_unset_name(#[trigger] since(l1, s.log@)[j].0, tv[j].1) && action_outcome(
                since(l1, s.log@)[j].1,
            ) is Ok,
        decreases tv.len() - k, (if failed is None { 1int } else { 0int }),
    {
        let ghost lk = s.log@;
        let a = Action::UnsetWorkspaceName { reference: Some(WorkspaceRef::Name(targets[k].1.clone())) };
        let ghost ga = a;
        let res = send_action(s, a);
        proof {
            lemma_since_one(lk, s.log@, Request::Action(ga));
            lemma_since_chain(l1, lk, s.log@);
            assert(since(l1, s.log@)[k as int] == since(lk, s.log@)[0]);
            assert forall|j: int| 0 <= j < k implies #[trigger] since(l1, s.log@)[j] == since(l1, lk)[j] by {}
        }
        match res {
            Err(e) => {
                failed = Some(e);
            },
            Ok(()) => {
                k = k + 1;
            },
        }
    }
    let r0: Result<(), String> = match failed {
        Some(e) => Err(e),
        None => Ok(()),
    };
    proof {
        if r0 is Err {
            assert(tv.skip(k as int)[0] == tv[k as int]);
            assert(since(l1, s.log@).skip(k as int) =~= seq![since(l1, s.log@)[k as int]]);
        } else {
            assert(tv.skip(k as int).len() == 0);
            assert(since(l1, s.log@).skip(k as int).len() == 0);
        }
        assert(unsets(tv.skip(k as int), since(l1, s.log@).skip(k as int), unit_view(r0)));
        lemma_unsets_prefix(tv, since(l1, s.log@), k as int, unit_view(r0));
        lemma_since_chain(l0, l1, s.log@);
        let n = since(l0, l1).len() as int;
        assert(since(l0, s.log@).take(n) =~= since(l0, l1));
        assert(since(l0, s.log@).skip(n) =~= since(l1, s.log@));
    }
    match r0 {
        Err(e) => Err(e),
        Ok(()) => {
            let mut names: Vec<String> = Vec::new();
            let mut j: usize = 0;
            while j < targets.len()
                invariant
                    tv == crate::niri::pool_view(targets@),
                    j <= targets@.len(),
                    names.deep_view() == pool_names(tv).take(j as int),
                decreases targets@.len() - j,
            {
                assert(tv[j as int] == (targets@[j as int].0, targets@[j as int].1@));
                assert(pool_names(tv)[j as int] == tv[j as int].1);
                let ghost before = names.deep_view();
                names.push(targets[j].1.clone());
                assert(names.deep_view() =~= before.push(pool_names(tv)[j as int]));
                assert(pool_names(tv).take(j + 1) =~= pool_names(tv).take(j as int).push(pool_names(tv)[j as int]));
                j = j + 1;
                assert(names.deep_view() =~= pool_names(tv).take(j as int));
            }
            assert(names.deep_view() =~= pool_names(tv));
            Ok(names)
        },
    }
}


/// The ids of `ws`, in order.
pub open spec fn window_ids(ws: Seq<Window>) -> Seq<u64> {
    ws.map_values(|w: Window| w.id)
}

/// The ids of the windows of `wins` on workspace `ws_id`, as a set.
pub open spec fn ids_on(wins: Seq<Window>, ws_id: u64) -> Set<u64> {
    window_ids(on_workspace(wins, ws_id)).to_set()
}

/// Unchanged listings in a row that count as settled: apps like VS Code
/// remap and resize during startup.
pub open spec fn stable_polls() -> u32 {
    3
}

/// Waiting for the windows of newly spawned programs on workspace `ws_id`:
/// first until `expected` of them appeared (or `appear_polls` listings were
/// spent), then until the set stayed unchanged for three listings in a row
/// (or `total_polls` listings were spent in all).
pub struct Settler {
    pub ws_id: u64,
    pub expected: usize,
    pub appear_polls: u32,
    pub total_polls: u32,
    /// Listings so far.
    pub polls: u32,
    /// The windows appeared; now waiting for them to settle.
    pub settling: bool,
    /// Ids on the workspace at the last listing while settling.
    pub last_ids: Vec<u64>,
    /// Unchanged listings in a row while settling.
    pub stable: u32,
    /// The last listing.
    pub windows: Vec<Window>,
    pub done: bool,
}

impl Settler {
    /// The counter has room for the next listing.
    pub open spec fn wf(&self) -> bool {
        &&& !self.done && !self.settling ==> self.polls == 0 || self.polls < self.appear_polls
        &&& !self.done && self.settling ==> self.polls < self.total_polls && self.stable < stable_polls()
        &&& !self.settling ==> self.stable == 0
    }

    /// Start waiting for `expected` windows on workspace `ws_id`.
    pub fn new(ws_id: u64, expected: usize, appear_polls: u32, total_polls: u32) -> (r: Settler)
        ensures
            r.wf(),
            r.ws_id == ws_id,
            r.expected == expected,
            r.appear_polls == appear_polls,
            r.total_polls == total_polls,
            r.polls == 0,
            !r.settling,
            !r.done,
            r.stable == 0,
            r.last_ids@ == Seq::<u64>::empty(),
            r.windows@ == Seq::<Window>::empty(),
    {
        Settler {
            ws_id,
            expected,
            appear_polls,
            total_polls,
            polls: 0,
            settling: false,
            last_ids: Vec::new(),
            stable: 0,
            windows: Vec::new(),
            done: false,
        }
    }

    /// What one listing `wins` does to the wait, as of state `old`.
    pub open spec fn next(old: Settler, new: Settler, wins: Seq<Window>) -> bool {
        let p = old.polls + 1;
        &&& new.ws_id == old.ws_id
        &&& new.expected == old.expected
        &&& new.appear_polls == old.appear_polls
        &&& new.total_polls == old.total_polls
        &&& new.polls == p
        &&& new.windows@ == wins
        &&& if !old.settling {
            if on_workspace(wins, old.ws_id).len() >= old.expected || p >= old.appear_polls {
                &&& new.settling
                &&& new.last_ids@.to_set() == ids_on(wins, old.ws_id)
                &&& new.stable == 0
                &&& new.done == !(p < old.total_polls)
            } else {
                &&& !new.settling
                &&& new.stable == 0
                &&& !new.done
            }
        } else {
            let stable = if ids_on(wins, old.ws_id) == old.last_ids@.to_set() { old.stable + 1 } else { 0 };
            &&& new.settling
            &&& new.last_ids@.to_set() == ids_on(wins, old.ws_id)
            &&& new.stable == stable
            &&& new.done == !(stable < stable_polls() && p < old.total_polls)
        }
    }

    /// The windows on the workspace, once the wait is over.
    pub fn settled(&self) -> (r: Vec<Window>)
        ensures
            r@ == on_workspace(self.windows@, self.ws_id),
    {
        new_workspace_windows(&self.windows, self.ws_id)
    }

    /// List the windows once and take the listing into account; returns
    /// whether the wait is over. Once it is, nothing more is sent.
    pub fn advance<C: NiriClient>(&mut self, s: &mut Session<C>) -> (r: Result<bool, String>)
        requires
            old(self).wf(),
        ensures
            final(self).wf(),
            extends(old(s).log@, final(s).log@),
            old(self).done ==> since(old(s).log@, final(s).log@).len() == 0 && r == Ok::<bool, String>(true)
                && *final(self) == *old(self),
            !old(self).done ==> {
                &&& one_exchange(old(s).log@, final(s).log@, Request::Windows)
                &&& match windows_outcome(final(s).log@.last().1) {
                    Err(m) => r is Err && err_view(r) == m && *final(self) == *old(self),
                    Ok(wins) => Settler::next(*old(self), *final(self), wins) && r == Ok::<bool, String>(final(self).done),
                }
            },
    {
        if self.done {
            proof {
                lemma_since_none(s.log@);
            }
            return Ok(true);
        }
        let wins = match list_windows(s) {
            Ok(w) => w,
            Err(e) => {
                return Err(e);
            },
        };
        let p = self.polls + 1;
        let on = new_workspace_windows(&wins, self.ws_id);
        let mut ids: Vec<u64> = Vec::new();
        let mut i: usize = 0;
        while i < on.len()
            invariant
                i <= on@.len(),
                ids@ == window_ids(on@).take(i as int),
            decreases on@.len() - i,
        {
            ids.push(on[i].id);
            i = i + 1;
            assert(ids@ =~= window_ids(on@).take(i as int));
        }
        assert(ids@ =~= window_ids(on@));
        self.polls = p;
        if !self.settling {
            if on.len() >= self.expected || p >= self.appear_polls {
                self.settling = true;
                self.last_ids = ids;
                self.stable = 0;
                self.done = !(p < self.total_polls);
            }
        } else {
            let same = same_ids(&ids, &self.last_ids);
            if same {
                self.stable = self.stable + 1;
            } else {
                self.stable = 0;
            }
            self.last_ids = ids;
            self.done = !(self.stable < 3 && p < self.total_polls);
        }
        self.windows = wins;
        Ok(self.done)
    }
}

/// Whether `a` and `b` hold the same ids.
pub(crate) fn same_ids(a: &Vec<u64>, b: &Vec<u64>) -> (r: bool)
    ensures
        r == (a@.to_set() == b@.to_set()),
{
    let mut i: usize = 0;
    while i < a.len()
        invariant
            i <= a@.len(),
            forall|k: int| 0 <= k < i ==> b@.contains(#[trigger] a@[k]),
        decreases a@.len() - i,
    {
        if !contains_id(b, a[i]) {
            assert(a@.to_set().contains(a@[i as int]) && !b@.to_set().contains(a@[i as int]));
            return false;
        }
        i = i + 1;
    }
    let mut j: usize = 0;
    while j < b.len()
        invariant
            j <= b@.len(),
            forall|k: int| 0 <= k < a@.len() ==> b@.contains(#[trigger] a@[k]),
            forall|k: int| 0 <= k < j ==> a@.contains(#[trigger] b@[k]),
        decreases b@.len() - j,
    {
        if !contains_id(a, b[j]) {
            assert(b@.to_set().contains(b@[j as int]) && !a@.to_set().contains(b@[j as int]));
            return false;
        }
        j = j + 1;
    }
    assert forall|x: u64| a@.to_set().contains(x) <==> b@.to_set().contains(x) by {
        if a@.contains(x) {
            let k = choose|k: int| 0 <= k < a@.len() && a@[k] == x;
            assert(b@.contains(a@[k]));
        }
        if b@.contains(x) {
            let k = choose|k: int| 0 <= k < b@.len() && b@[k] == x;
            assert(a@.contains(b@[k]));
        }
    }
    assert(a@.to_set() =~= b@.to_set());
    true
}

/// Whether `v` holds `x`.
fn contains_id(v: &Vec<u64>, x: u64) -> (r: bool)
    ensures
        r == v@.contains(x),
{
    let mut i: usize = 0;
    while i < v.len()
        invariant
            i <= v@.len(),
            forall|k: int| 0 <= k < i ==> v@[k] != x,
        decreases v@.len() - i,
    {
        if v[i] == x {
            assert(v@[i as int] == x);
            return true;
        }
        i = i + 1;
    }
    false
}


/// The id of the first focused workspace, if any.
pub open spec fn focused_id_spec(ws: Seq<Workspace>) -> Option<u64>
    decreases ws.len(),
{
    if ws.len() == 0 {
        None
    } else if ws[0].is_focused {
        Some(ws[0].id)
    } else {
        focused_id_spec(ws.drop_first())
    }
}

/// The id of the first focused workspace.
pub fn focused_id(ws: &Vec<Workspace>) -> (r: Option<u64>)
    ensures
        r == focused_id_spec(ws@),
{
    let mut i: usize = 0;
    assert(ws@.skip(0) =~= ws@);
    while i < ws.len()
        invariant
            i <= ws@.len(),
            focused_id_spec(ws@) == focused_id_spec(ws@.skip(i as int)),
        decreases ws@.len() - i,
    {
        assert(ws@.skip(i as int)[0] == ws@[i as int]);
        if ws[i].is_focused {
            return Some(ws[i].id);
        }
        assert(ws@.skip(i as int).drop_first() =~= ws@.skip(i + 1));
        i = i + 1;
    }
    None
}

/// The column of window `id` on workspace `ws_id`: that of the first such
/// window in `wins`; none when it is gone or floating.
pub open spec fn column_of_spec(wins: Seq<Window>, id: u64, ws_id: u64) -> Option<usize>
    decreases wins.len(),
{
    if wins.len() == 0 {
        None
    } else if wins[0].id == id && wins[0].workspace_id == Some(ws_id) {
        wins[0].column
    } else {
        column_of_spec(wins.drop_first(), id, ws_id)
    }
}

/// The column of window `id` on workspace `ws_id`.
pub fn column_of(wins: &Vec<Window>, id: u64, ws_id: u64) -> (r: Option<usize>)
    ensures
        r == column_of_spec(wins@, id, ws_id),
{
    let mut i: usize = 0;
    assert(wins@.skip(0) =~= wins@);
    while i < wins.len()
        invariant
            i <= wins@.len(),
            column_of_spec(wins@, id, ws_id) == column_of_spec(wins@.skip(i as int), id, ws_id),
        decreases wins@.len() - i,
    {
        assert(wins@.skip(i as int)[0] == wins@[i as int]);
        if wins[i].id == id && wins[i].workspace_id == Some(ws_id) {
            return wins[i].column;
        }
        assert(wins@.skip(i as int).drop_first() =~= wins@.skip(i + 1));
        i = i + 1;
    }
    None
}

/// How a scan over the matched windows ended.
pub enum ScanEnd {
    /// Every slot was looked at.
    Exhausted,
    /// The user is on another workspace.
    Left,
    /// A listing failed.
    Failed(Seq<char>),
    /// The window of slot `i` was focused; its column is to move to slot `i + 1`.
    Focused(int),
}

/// The column of the window in slot `i` needs moving: it is tiled and not yet in its slot.
pub open spec fn needs_move(col: Option<usize>, i: int) -> bool {
    col is Some && col->Some_0 != i + 1
}

/// Looking at slot `i` of `ordered` with window `id`, up to and including
/// the request that decides the step: listing the workspaces, then the
/// windows, then focusing the window when its column needs moving.
/// `rest` says how the scan goes on after a skipped slot, given the
/// exchanges left.
pub open spec fn scan(ws_id: u64, ordered: Seq<Option<u64>>, i: int, ex: Seq<Exchange>, end: ScanEnd) -> bool
    decreases ordered.len() - i,
{
    if i < 0 || i >= ordered.len() {
        ex.len() == 0 && end == ScanEnd::Exhausted
    } else {
        match ordered[i] {
            None => scan(ws_id, ordered, i + 1, ex, end),
            Some(id) => {
                &&& ex.len() >= 1
                &&& ex[0].0 == Request::Workspaces
                &&& match workspaces_outcome(ex[0].1) {
                    Err(m) => ex.len() == 1 && end == ScanEnd::Failed(m),
                    Ok(ws) => if focused_id_spec(ws) != Some(ws_id) {
                        ex.len() == 1 && end == ScanEnd::Left
                    } else {
                        &&& ex.len() >= 2
                        &&& ex[1].0 == Request::Windows
                        &&& match windows_outcome(ex[1].1) {
                            Err(m) => ex.len() == 2 && end == ScanEnd::Failed(m),
                            Ok(wins) => if !needs_move(column_of_spec(wins, id, ws_id), i) {
                                scan(ws_id, ordered, i + 1, ex.skip(2), end)
                            } else {
                                &&& ex.len() >= 3
                                &&& ex[2].0 == Request::Action(Action::FocusWindow { id })
                                &&& match action_outcome(ex[2].1) {
                                    Err(_) => scan(ws_id, ordered, i + 1, ex.skip(3), end),
                                    Ok(()) => ex.len() == 3 && end == ScanEnd::Focused(i),
                                }
                            },
                        }
                    },
                }
            },
        }
    }
}

/// Slot `i` was looked at and skipped with exactly the exchanges `ex`.
pub open spec fn skip_step(ws_id: u64, ordered: Seq<Option<u64>>, i: int, ex: Seq<Exchange>) -> bool {
    &&& 0 <= i < ordered.len()
    &&& match ordered[i] {
        None => ex.len() == 0,
        Some(id) => {
            &&& ex.len() >= 2
            &&& ex[0].0 == Request::Workspaces
            &&& workspaces_outcome(ex[0].1) is Ok
            &&& focused_id_spec(workspaces_outcome(ex[0].1)->Ok_0) == Some(ws_id)
            &&& ex[1].0 == Request::Windows
            &&& windows_outcome(ex[1].1) is Ok
            &&& if !needs_move(column_of_spec(windows_outcome(ex[1].1)->Ok_0, id, ws_id), i) {
                ex.len() == 2
            } else {
                &&& ex.len() == 3
                &&& ex[2].0 == Request::Action(Action::FocusWindow { id })
                &&& action_outcome(ex[2].1) is Err
            }
        },
    }
}

/// Slots `from` up to `to` were all skipped, with exactly the exchanges `ex`.
pub open spec fn skips(ws_id: u64, ordered: Seq<Option<u64>>, from: int, to: int, ex: Seq<Exchange>) -> bool
    decreases to - from,
{
    if from >= to {
        from == to && ex.len() == 0
    } else {
        exists|n: int|
            #![trigger skip_step(ws_id, ordered, from, ex.take(n))]
            0 <= n <= ex.len() && skip_step(ws_id, ordered, from, ex.take(n)) && skips(
                ws_id,
                ordered,
                from + 1,
                to,
                ex.skip(n),
            )
    }
}

proof fn lemma_skip_step_scan(ws_id: u64, ordered: Seq<Option<u64>>, i: int, a: Seq<Exchange>, b: Seq<Exchange>, end: ScanEnd)
    requires
        skip_step(ws_id, ordered, i, a),
        scan(ws_id, ordered, i + 1, b, end),
    ensures
        scan(ws_id, ordered, i, a + b, end),
{
    match ordered[i] {
        None => {
            assert(a + b =~= b);
        },
        Some(id) => {
            let ab = a + b;
            assert(ab[0] == a[0]);
            assert(ab[1] == a[1]);
            if a.len() == 2 {
                assert(ab.skip(2) =~= b);
            } else {
                assert(ab[2] == a[2]);
                assert(ab.skip(3) =~= b);
            }
        },
    }
}

proof fn lemma_skips_scan(ws_id: u64, ordered: Seq<Option<u64>>, from: int, to: int, a: Seq<Exchange>, b: Seq<Exchange>, end: ScanEnd)
    requires
        skips(ws_id, ordered, from, to, a),
        scan(ws_id, ordered, to, b, end),
    ensures
        scan(ws_id, ordered, from, a + b, end),
    decreases to - from,
{
    if from < to {
        let n = choose|n: int| 0 <= n <= a.len() && skip_step(ws_id, ordered, from, a.take(n)) && skips(ws_id, ordered, from + 1, to, a.skip(n));
        lemma_skips_scan(ws_id, ordered, from + 1, to, a.skip(n), b, end);
        assert(a.take(n) + (a.skip(n) + b) =~= a + b);
        lemma_skip_step_scan(ws_id, ordered, from, a.take(n), a.skip(n) + b, end);
    } else {
        assert(a + b =~= b);
    }
}

proof fn lemma_skips_extend(ws_id: u64, ordered: Seq<Option<u64>>, from: int, to: int, a: Seq<Exchange>, c: Seq<Exchange>)
    requires
        from <= to,
        skips(ws_id, ordered, from, to, a),
        skip_step(ws_id, ordered, to, c),
    ensures
        skips(ws_id, ordered, from, to + 1, a + c),
    decreases to - from,
{
    if from < to {
        let n = choose|n: int| 0 <= n <= a.len() && skip_step(ws_id, ordered, from, a.take(n)) && skips(ws_id, ordered, from + 1, to, a.skip(n));
        lemma_skips_extend(ws_id, ordered, from + 1, to, a.skip(n), c);
        assert((a + c).take(n) =~= a.take(n));
        assert((a + c).skip(n) =~= a.skip(n) + c);
        assert(skip_step(ws_id, ordered, from, (a + c).take(n)));
    } else {
        assert(a.len() == 0);
        assert((a + c).take(c.len() as int) =~= c);
        assert((a + c).skip(c.len() as int) =~= Seq::<Exchange>::empty());
        assert(skips(ws_id, ordered, to + 1, to + 1, (a + c).skip(c.len() as int)));
        assert(skip_step(ws_id, ordered, to, (a + c).take(c.len() as int)));
    }
}

/// What a step of reordering asks of its caller.
#[derive(Clone, Copy, Debug, PartialEq, Eq, Structural)]
pub enum Progress {
    /// Wait a moment so niri applies the last action, then go on.
    Pause,
    /// Nothing more to do.
    Done,
}

/// Moving the columns of the matched windows on workspace `ws_id` into
/// their slots, one step at a time, then giving focus back to the window
/// that had it. It stops as soon as the user is on another workspace: niri
/// can only move the focused column, and focusing a window would pull them
/// back. Windows that are gone, floating, or already in place are skipped.
pub struct ColumnOrder {
    pub ws_id: u64,
    /// The window for each slot, from the first column.
    pub ordered: Vec<Option<u64>>,
    /// The next slot to look at.
    pub next: usize,
    /// The user's window on the workspace, to focus again at the end.
    pub restore: Option<u64>,
    /// Some window was focused to move its column.
    pub focus_moved: bool,
    /// The window to restore was looked up.
    pub started: bool,
    /// The focused column is to move to this slot next.
    pub pending_move: Option<usize>,
    pub done: bool,
}

/// The window to focus again at the end: the focused one, if on workspace `ws_id`.
pub open spec fn restore_of(w: Option<Window>, ws_id: u64) -> Option<u64> {
    match w {
        Some(w) => if w.workspace_id == Some(ws_id) {
            Some(w.id)
        } else {
            None
        },
        None => None,
    }
}

/// Giving focus back at the end, once every slot was looked at: only when
/// some window was focused, there is one to give it to, and the user is
/// still on the workspace.
pub open spec fn finish(ws_id: u64, restore: Option<u64>, focus_moved: bool, ex: Seq<Exchange>, r: Result<Progress, String>) -> bool {
    if restore is None || !focus_moved {
        ex.len() == 0 && r == Ok::<Progress, String>(Progress::Done)
    } else {
        &&& ex.len() >= 1
        &&& ex[0].0 == Request::Workspaces
        &&& match workspaces_outcome(ex[0].1) {
            Err(m) => ex.len() == 1 && r is Err && err_view(r) == m,
            Ok(ws) => if focused_id_spec(ws) != Some(ws_id) {
                ex.len() == 1 && r == Ok::<Progress, String>(Progress::Done)
            } else {
                ex.len() == 2 && ex[1].0 == Request::Action(Action::FocusWindow { id: restore->Some_0 })
                    && result_after(ex[1].1, r, Progress::Done)
            },
        }
    }
}

impl ColumnOrder {
    /// The next slot is within the slots.
    pub open spec fn wf(&self) -> bool {
        self.next <= self.ordered@.len()
    }

    /// Start putting the windows of `ordered` into their slots on workspace `ws_id`.
    pub fn new(ws_id: u64, ordered: Vec<Option<u64>>) -> (r: ColumnOrder)
        ensures
            r.wf(),
            r.ws_id == ws_id,
            r.ordered == ordered,
            r.next == 0,
            r.restore is None,
            !r.focus_moved,
            !r.started,
            r.pending_move is None,
            !r.done,
    {
        ColumnOrder {
            ws_id,
            ordered,
            next: 0,
            restore: None,
            focus_moved: false,
            started: false,
            pending_move: None,
            done: false,
        }
    }

    /// The requests of one step after the restore target is known, and its result.
    pub open spec fn scan_step(old: ColumnOrder, new: ColumnOrder, restore: Option<u64>, ex: Seq<Exchange>, r: Result<Progress, String>) -> bool {
        exists|k: int, end: ScanEnd|
            #![trigger scan(old.ws_id, old.ordered@, old.next as int, ex.take(k), end)]
            0 <= k <= ex.len() && scan(old.ws_id, old.ordered@, old.next as int, ex.take(k), end) && new.restore == restore
                && match end {
                ScanEnd::Failed(m) => k == ex.len() && r is Err && err_view(r) == m && new.done,
                ScanEnd::Left => k == ex.len() && r == Ok::<Progress, String>(Progress::Done) && new.done,
                ScanEnd::Focused(i) => k == ex.len() && r == Ok::<Progress, String>(Progress::Pause) && !new.done
                    && new.focus_moved && new.pending_move == Some((i + 1) as usize) && new.next == i + 1,
                ScanEnd::Exhausted => new.done && finish(old.ws_id, restore, old.focus_moved, ex.skip(k), r),
            }
    }

    /// One step: after a focus, move the focused column; else look at the
    /// next slots until a window is focused, the user left, or the slots
    /// ran out and focus was given back. The caller waits a moment after
    /// each `Pause`. A failed listing ends the reorder.
    pub fn advance<C: NiriClient>(&mut self, s: &mut Session<C>) -> (r: Result<Progress, String>)
        requires
            old(self).wf(),
        ensures
            final(self).wf(),
            final(self).ws_id == old(self).ws_id,
            final(self).ordered == old(self).ordered,
            extends(old(s).log@, final(s).log@),
            ({
                let ex = since(old(s).log@, final(s).log@);
                if old(self).done {
                    ex.len() == 0 && r == Ok::<Progress, String>(Progress::Done) && final(self).done
                } else if old(self).pending_move is Some {
                    &&& ex.len() == 1
                    &&& ex[0].0 == Request::Action(Action::MoveColumnToIndex { index: old(self).pending_move->Some_0 })
                    &&& r == Ok::<Progress, String>(Progress::Pause)
                    &&& final(self).pending_move is None
                    &&& !final(self).done
                    &&& final(self).next == old(self).next
                    &&& final(self).restore == old(self).restore
                    &&& final(self).focus_moved == old(self).focus_moved
                    &&& final(self).started == old(self).started
                } else if !old(self).started {
                    &&& ex.len() >= 1
                    &&& ex[0].0 == Request::FocusedWindow
                    &&& final(self).started
                    &&& match crate::ipc::focused_window_outcome(ex[0].1) {
                        Err(m) => ex.len() == 1 && r is Err && err_view(r) == m && final(self).done,
                        Ok(w) => ColumnOrder::scan_step(*old(self), *final(self), restore_of(w, old(self).ws_id), ex.skip(1), r),
                    }
                } else {
                    ColumnOrder::scan_step(*old(self), *final(self), old(self).restore, ex, r)
                }
            }),
    {
        let ghost l0 = s.log@;
        if self.done {
            proof {
                lemma_since_none(l0);
            }
            return Ok(Progress::Done);
        }
        match self.pending_move {
            Some(index) => {
                let a = Action::MoveColumnToIndex { index };
                let ghost ga = a;
                // niri clamps the index to the column count; a failed move leaves the column in place.
                let _ = send_action(s, a);
                proof {
                    lemma_since_one(l0, s.log@, Request::Action(ga));
                }
                self.pending_move = None;
                return Ok(Progress::Pause);
            },
            None => {},
        }
        let ghost was_started = self.started;
        if !self.started {
            let fw = crate::ipc::focused_window(s);
            proof {
                lemma_since_one(l0, s.log@, Request::FocusedWindow);
            }
            self.started = true;
            match fw {
                Err(e) => {
                    self.done = true;
                    return Err(e);
                },
                Ok(w) => {
                    self.restore = match w {
                        Some(w) => if w.workspace_id == Some(self.ws_id) {
                            Some(w.id)
                        } else {
                            None
                        },
                        None => None,
                    };
                },
            }
        }
        let ghost l1 = s.log@;
        let ghost st = *self;
        proof {
            lemma_since_none(l1);
        }
        let ghost from = self.next as int;
        let mut end_found = false;
        let mut result: Result<Progress, String> = Ok(Progress::Done);
        let mut focused_slot: Option<usize> = None;
        let ghost mut end: ScanEnd = ScanEnd::Exhausted;
        let ghost mut end_at: int = 0;
        let ghost mut before_end: Seq<Exchange> = Seq::empty();
        while self.next < self.ordered.len() && !end_found
            invariant
                self.ws_id == st.ws_id,
                self.ordered == st.ordered,
                self.restore == st.restore,
                self.focus_moved == st.focus_moved,
                self.pending_move is None,
                self.started,
                !self.done,
                from <= self.next <= self.ordered@.len(),
                extends(l1, s.log@),
                !end_found ==> skips(st.ws_id, st.ordered@, from, self.next as int, since(l1, s.log@)) && focused_slot is None,
                end_found ==> {
                    &&& from <= end_at < self.ordered@.len()
                    &&& skips(st.ws_id, st.ordered@, from, end_at, before_end)
                    &&& scan(st.ws_id, st.ordered@, end_at, since(l1, s.log@).skip(before_end.len() as int), end)
                    &&& since(l1, s.log@).take(before_end.len() as int) == before_end
                    &&& before_end.len() <= since(l1, s.log@).len()
                    &&& match end {
                        ScanEnd::Failed(m) => result is Err && err_view(result) == m && focused_slot is None,
                        ScanEnd::Left => result == Ok::<Progress, String>(Progress::Done) && focused_slot is None,
                        ScanEnd::Focused(i) => i == end_at && result == Ok::<Progress, String>(Progress::Pause)
                            && focused_slot == Some(i as usize),
                        ScanEnd::Exhausted => false,
                    }
                },
            decreases self.ordered@.len() - self.next, (if end_found { 0int } else { 1int }),
        {
            let i = self.next;
            let ghost li = s.log@;
            let ghost a = since(l1, li);
            proof {
                lemma_since_none(li);
            }
            match self.ordered[i] {
                None => {
                    proof {
                        assert(skip_step(st.ws_id, st.ordered@, i as int, since(li, s.log@)));
                        lemma_skips_extend(st.ws_id, st.ordered@, from, i as int, a, since(li, s.log@));
                        assert(a + since(li, s.log@) =~= a);
                    }
                    self.next = i + 1;
                },
                Some(id) => {
                    let listed = list_workspaces(s);
                    let ghost l2 = s.log@;
                    proof {
                        lemma_since_one(li, l2, Request::Workspaces);
                        lemma_since_chain(l1, li, l2);
                    }
                    match listed {
                        Err(e) => {
                            proof {
                                end = ScanEnd::Failed(e@);
                                end_at = i as int;
                                before_end = a;
                                assert(since(l1, l2).skip(a.len() as int) =~= since(li, l2));
                                assert(since(l1, l2).take(a.len() as int) =~= a);
                            }
                            result = Err(e);
                            end_found = true;
                        },
                        Ok(ws) => {
                            if focused_id(&ws) != Some(self.ws_id) {
                                proof {
                                    end = ScanEnd::Left;
                                    end_at = i as int;
                                    before_end = a;
                                    assert(since(l1, l2).skip(a.len() as int) =~= since(li, l2));
                                    assert(since(l1, l2).take(a.len() as int) =~= a);
                                }
                                result = Ok(Progress::Done);
                                end_found = true;
                            } else {
                                let listed_windows = list_windows(s);
                                let ghost l3 = s.log@;
                                proof {
                                    lemma_since_one(l2, l3, Request::Windows);
                                    lemma_since_chain(li, l2, l3);
                                    lemma_since_chain(l1, li, l3);
                                    assert(since(li, l3)[0] == since(li, l2)[0]);
                                    assert(since(li, l3)[1] == since(l2, l3)[0]);
                                }
                                match listed_windows {
                                    Err(e) => {
                                        proof {
                                            end = ScanEnd::Failed(e@);
                                            end_at = i as int;
                                            before_end = a;
                                            assert(since(l1, l3).skip(a.len() as int) =~= since(li, l3));
                                            assert(since(l1, l3).take(a.len() as int) =~= a);
                                        }
                                        result = Err(e);
                                        end_found = true;
                                    },
                                    Ok(wins) => {
                                        let col = column_of(&wins, id, self.ws_id);
                                        let moving = match col {
                                            Some(c) => c != i + 1,
                                            None => false,
                                        };
                                        if !moving {
                                            proof {
                                                assert(skip_step(st.ws_id, st.ordered@, i as int, since(li, l3)));
                                                lemma_skips_extend(st.ws_id, st.ordered@, from, i as int, a, since(li, l3));
                                            }
                                            self.next = i + 1;
                                        } else {
                                            let fa = Action::FocusWindow { id };
                                            let ghost gfa = fa;
                                            let focused = send_action(s, fa);
                                            let ghost l4 = s.log@;
                                            proof {
                                                lemma_since_one(l3, l4, Request::Action(gfa));
                                                lemma_since_chain(li, l3, l4);
                                                lemma_since_chain(l1, li, l4);
                                                assert(since(li, l4)[0] == since(li, l3)[0]);
                                                assert(since(li, l4)[1] == since(li, l3)[1]);
                                                assert(since(li, l4)[2] == since(l3, l4)[0]);
                                            }
                                            match focused {
                                                Err(_) => {
                                                    proof {
                                                        assert(skip_step(st.ws_id, st.ordered@, i as int, since(li, l4)));
                                                        lemma_skips_extend(st.ws_id, st.ordered@, from, i as int, a, since(li, l4));
                                                    }
                                                    self.next = i + 1;
                                                },
                                                Ok(()) => {
                                                    proof {
                                                        end = ScanEnd::Focused(i as int);
                                                        end_at = i as int;
                                                        before_end = a;
                                                        assert(since(l1, l4).skip(a.len() as int) =~= since(li, l4));
                                                        assert(since(l1, l4).take(a.len() as int) =~= a);
                                                    }
                                                    result = Ok(Progress::Pause);
                                                    focused_slot = Some(i);
                                                    end_found = true;
                                                },
                                            }
                                        }
                                    },
                                }
                            }
                        },
                    }
                },
            }
        }
        if end_found {
            proof {
                let ex = since(l1, s.log@);
                lemma_skips_scan(st.ws_id, st.ordered@, from, end_at, before_end, ex.skip(before_end.len() as int), end);
                assert(before_end + ex.skip(before_end.len() as int) =~= ex);
                assert(ex.take(ex.len() as int) =~= ex);
            }
            match focused_slot {
                Some(i) => {
                    self.focus_moved = true;
                    self.pending_move = Some(i + 1);
                    self.next = i + 1;
                },
                None => {
                    self.done = true;
                },
            }
            proof {
                let ex = since(l1, s.log@);
                assert(scan(st.ws_id, st.ordered@, st.next as int, ex.take(ex.len() as int), end));
            }
            proof {
                if !was_started {
                    lemma_since_chain(l0, l1, s.log@);
                    assert(since(l0, s.log@).skip(1) =~= since(l1, s.log@));
                    assert(since(l0, s.log@)[0] == since(l0, l1)[0]);
                }
            }
            return result;
        }
        let ghost l5 = s.log@;
        proof {
            let ex = since(l1, l5);
            assert(scan(st.ws_id, st.ordered@, self.next as int, Seq::<Exchange>::empty(), ScanEnd::Exhausted));
            lemma_skips_scan(st.ws_id, st.ordered@, from, self.next as int, ex, Seq::<Exchange>::empty(), ScanEnd::Exhausted);
            assert(ex + Seq::<Exchange>::empty() =~= ex);
            assert(ex.take(ex.len() as int) =~= ex);
            lemma_since_none(l5);
        }
        self.done = true;
        let r = match (self.restore, self.focus_moved) {
            (Some(id), true) => {
                let listed = list_workspaces(s);
                let ghost l6 = s.log@;
                proof {
                    lemma_since_one(l5, l6, Request::Workspaces);
                }
                match listed {
                    Err(e) => Err(e),
                    Ok(ws) => {
                        if focused_id(&ws) == Some(self.ws_id) {
                            let fa = Action::FocusWindow { id };
                            let ghost gfa = fa;
                            let res = send_action(s, fa);
                            proof {
                                lemma_since_one(l6, s.log@, Request::Action(gfa));
                                lemma_since_chain(l5, l6, s.log@);
                                assert(since(l5, s.log@)[0] == since(l5, l6)[0]);
                                assert(since(l5, s.log@)[1] == since(l6, s.log@)[0]);
                            }
                            match res {
                                Ok(()) => Ok(Progress::Done),
                                Err(e) => Err(e),
                            }
                        } else {
                            Ok(Progress::Done)
                        }
                    },
                }
            },
            _ => Ok(Progress::Done),
        };
        proof {
            assert(finish(st.ws_id, st.restore, st.focus_moved, since(l5, s.log@), r));
            lemma_since_chain(l1, l5, s.log@);
            let k = since(l1, l5).len() as int;
            assert(since(l1, s.log@).take(k) =~= since(l1, l5));
            assert(since(l1, s.log@).skip(k) =~= since(l5, s.log@));
            assert(scan(st.ws_id, st.ordered@, st.next as int, since(l1, s.log@).take(k), ScanEnd::Exhausted));
            if !was_started {
                lemma_since_chain(l0, l1, s.log@);
                assert(since(l0, s.log@).skip(1) =~= since(l1, s.log@));
                assert(since(l0, s.log@)[0] == since(l0, l1)[0]);
            }
        }
        r
    }
}


/// Focus an existing workspace by id; nothing is created. niri answers
/// `Handled` even when no workspace has that id.
pub fn focus_workspace_by_id<C: NiriClient>(s: &mut Session<C>, id: u64) -> (r: Result<(), String>)
    ensures
        one_exchange(old(s).log@, final(s).log@, Request::Action(Action::FocusWorkspace { reference: WorkspaceRef::Id(id) })),
        unit_view(r) == action_outcome(final(s).log@.last().1),
{
    send_action(s, Action::FocusWorkspace { reference: WorkspaceRef::Id(id) })
}

/// Move a window to an existing workspace by id and follow it; `None` moves
/// the focused window.
pub fn move_window_to_workspace_by_id<C: NiriClient>(s: &mut Session<C>, id: u64, window_id: Option<u64>) -> (r: Result<(), String>)
    ensures
        one_exchange(
            old(s).log@,
            final(s).log@,
            Request::Action(Action::MoveWindowToWorkspace { window_id, reference: WorkspaceRef::Id(id), focus: true }),
        ),
        unit_view(r) == action_outcome(final(s).log@.last().1),
{
    send_action(s, Action::MoveWindowToWorkspace { window_id, reference: WorkspaceRef::Id(id), focus: true })
}

} // verus!
