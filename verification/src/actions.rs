//! Workspace action choreography shared by the command line and the
//! overlay: the compositor requests, then the on-create or on-delete hooks.
//! Column reordering is left to the caller, which gets the request for it.

use vstd::prelude::*;

use crate::commands::{
    delete_protocol, is_spawn_of, move_protocol, run_hooks, switch_protocol, ReorderRequest,
};
use crate::config::ResolvedConfig;
use crate::ipc::{err_view, extends, since, Exchange, NiriClient, Session};
use crate::loading::{collect_create_hooks, create_hooks_spec};
use crate::niri::hook_spawn_spec;
use crate::order::{pairs_sorted, pairs_view};
use crate::template::{build_argv, build_argv_spec, build_hook_env, hook_env_fixed, hook_env_vars};
use crate::text::opt_view;
use crate::naming::{parse_dynamic_name, parse_dynamic_name_spec};

verus! {

/// Template context passed to on-create hooks.
pub struct HookInfo {
    pub template_name: Option<String>,
    /// Variable values by name; no name twice.
    pub variables: Vec<(String, String)>,
}

impl HookInfo {
    /// No template and no variables.
    pub fn empty() -> (r: HookInfo)
        ensures
            r.template_name is None,
            r.variables@.len() == 0,
    {
        HookInfo { template_name: None, variables: Vec::new() }
    }
}

/// `shell_words::ParseError`'s message. The error carries no data: its
/// `Display` writes one fixed text, which this contract states.
#[verifier::external_body]
fn parse_error_text(e: &shell_words::ParseError) -> (r: String)
    ensures
        r@ == "missing closing quote"@,
{
    format!("{e}")
}

/// The message for a program string that does not split into words.
pub open spec fn parse_failure(program: Seq<char>) -> Seq<char> {
    "failed to parse command '"@ + program + "': missing closing quote"@
}

/// The argument vectors of `programs`, placeholders filled from `vals`; the
/// first program that does not split fails them all.
pub open spec fn commands_spec(programs: Seq<Seq<char>>, vals: Seq<(Seq<char>, Seq<char>)>) -> Result<Seq<Seq<Seq<char>>>, Seq<char>>
    decreases programs.len(),
{
    if programs.len() == 0 {
        Ok(Seq::empty())
    } else {
        match commands_spec(programs.drop_last(), vals) {
            Err(m) => Err(m),
            Ok(done) => match build_argv_spec(programs.last(), vals) {
                Some(argv) => Ok(done.push(argv)),
                None => Err(parse_failure(programs.last())),
            },
        }
    }
}

/// The argument vectors of `programs`, with `{{name}}` placeholders filled
/// from `values`. A malformed program string fails them all.
pub fn build_commands(programs: &Vec<String>, values: &Vec<(String, String)>) -> (r: Result<Vec<Vec<String>>, String>)
    ensures
        match (r, commands_spec(programs.deep_view(), pairs_view(values@))) {
            (Ok(c), Ok(s)) => c.deep_view() == s,
            (Err(e), Err(m)) => e@ == m,
            _ => false,
        },
{
    let ghost ps = programs.deep_view();
    let ghost vals = pairs_view(values@);
    let mut out: Vec<Vec<String>> = Vec::new();
    let mut i: usize = 0;
    assert(ps.take(0) =~= Seq::<Seq<char>>::empty());
    assert(out.deep_view() =~= Seq::<Seq<Seq<char>>>::empty());
    while i < programs.len()
        invariant
            ps == programs.deep_view(),
            vals == pairs_view(values@),
            i <= ps.len(),
            commands_spec(ps.take(i as int), vals) == Ok::<Seq<Seq<Seq<char>>>, Seq<char>>(out.deep_view()),
        decreases ps.len() - i,
    {
        assert(ps.take(i + 1).drop_last() =~= ps.take(i as int));
        assert(ps.take(i + 1).last() == ps[i as int]);
        assert(ps[i as int] == programs@[i as int]@);
        match build_argv(programs[i].as_str(), values) {
            Ok(argv) => {
                let ghost before = out.deep_view();
                let ghost av = argv.deep_view();
                out.push(argv);
                assert(out.deep_view() =~= before.push(av));
            },
            Err(e) => {
                let mut m = "failed to parse command '".to_string();
                m.append(programs[i].as_str());
                m.append("': ");
                let t = parse_error_text(&e);
                m.append(t.as_str());
                proof {
                    let k = i + 1;
                    assert(commands_spec(ps.take(k as int), vals) == Err::<Seq<Seq<Seq<char>>>, Seq<char>>(
                        parse_failure(ps[i as int]),
                    ));
                    lemma_commands_err_stays(ps, vals, k as int);
                    assert(ps.take(ps.len() as int) =~= ps);
                    reveal_strlit("': ");
                    reveal_strlit("missing closing quote");
                    reveal_strlit("': missing closing quote");
                    assert(m@ =~= parse_failure(ps[i as int]));
                }
                return Err(m);
            },
        }
        i = i + 1;
    }
    assert(ps.take(ps.len() as int) =~= ps);
    Ok(out)
}

/// Once some programs fail, the longer lists fail the same way.
proof fn lemma_commands_err_stays(ps: Seq<Seq<char>>, vals: Seq<(Seq<char>, Seq<char>)>, k: int)
    requires
        0 <= k <= ps.len(),
        commands_spec(ps.take(k), vals) is Err,
    ensures
        commands_spec(ps, vals) == commands_spec(ps.take(k), vals),
    decreases ps.len() - k,
{
    if k < ps.len() {
        assert(ps.take(k + 1).drop_last() =~= ps.take(k));
        lemma_commands_err_stays(ps, vals, k + 1);
    } else {
        assert(ps.take(k) =~= ps);
    }
}

/// `env` is the hook environment for workspace `ws_name`, key `key`,
/// template `template` and variables `vars`: the fixed entries, then the
/// variables sorted.
pub open spec fn is_hook_env(
    env: Seq<(Seq<char>, Seq<char>)>,
    ws_name: Seq<char>,
    key: char,
    template: Option<Seq<char>>,
    vars: Seq<(Seq<char>, Seq<char>)>,
) -> bool {
    exists|sorted: Seq<(Seq<char>, Seq<char>)>|
        #![trigger pairs_sorted(sorted)]
        pairs_sorted(sorted) && sorted.to_multiset() == vars.to_multiset() && env == hook_env_fixed(ws_name, key, template)
            + hook_env_vars(sorted)
}

/// Running `hooks` with environment `env`: one spawn of the hook runner,
/// none without hooks.
pub open spec fn hooks_ran(hooks: Seq<Seq<char>>, env: Seq<(Seq<char>, Seq<char>)>, ex: Seq<Exchange>) -> bool {
    match hook_spawn_spec(hooks, env) {
        None => ex.len() == 0,
        Some(argv) => ex.len() == 1 && is_spawn_of(ex[0].0, argv),
    }
}

/// Running the on-create hooks of a workspace: the global ones, then those
/// of the template, with the workspace's environment.
pub open spec fn create_hooks_ran(config: ResolvedConfig, ch: char, ws_name: Seq<char>, template: Option<Seq<char>>, vars: Seq<(Seq<char>, Seq<char>)>, ex: Seq<Exchange>) -> bool {
    exists|env: Seq<(Seq<char>, Seq<char>)>|
        #![trigger is_hook_env(env, ws_name, ch, template, vars)]
        is_hook_env(env, ws_name, ch, template, vars) && hooks_ran(
            create_hooks_spec(config.hooks.on_create.deep_view(), config.templates@, template),
            env,
            ex,
        )
}

/// Run the global on-create hooks, then those of `hook_info`'s template.
pub fn run_create_hooks<C: NiriClient>(s: &mut Session<C>, config: &ResolvedConfig, ch: char, ws_name: &str, hook_info: &HookInfo)
    ensures
        extends(old(s).log@, final(s).log@),
        create_hooks_ran(
            *config,
            ch,
            ws_name@,
            opt_string_view(hook_info.template_name),
            pairs_view(hook_info.variables@),
            since(old(s).log@, final(s).log@),
        ),
{
    let template: Option<&str> = match &hook_info.template_name {
        Some(t) => Some(t.as_str()),
        None => None,
    };
    let hooks = collect_create_hooks(config, template);
    let env = build_hook_env(ws_name, ch, template, &hook_info.variables);
    let _ = run_hooks(s, &hooks, &env);
    proof {
        assert(opt_view(template) == opt_string_view(hook_info.template_name));
        assert(is_hook_env(pairs_view(env@), ws_name@, ch, opt_view(template), pairs_view(hook_info.variables@)));
    }
}

/// The text of an optional string.
pub open spec fn opt_string_view(o: Option<String>) -> Option<Seq<char>> {
    match o {
        Some(s) => Some(s@),
        None => None,
    }
}

/// Switching to the workspace for `ch` with `programs`: the program strings
/// become argument vectors first (a malformed one fails before anything is
/// sent); then the switch; then, when it created the workspace, its
/// on-create hooks.
pub open spec fn switch_action_protocol(
    config: ResolvedConfig,
    ch: char,
    ws_name: Seq<char>,
    programs: Seq<Seq<char>>,
    template: Option<Seq<char>>,
    vars: Seq<(Seq<char>, Seq<char>)>,
    ex: Seq<Exchange>,
    r: Result<Option<ReorderRequest>, String>,
) -> bool {
    match commands_spec(programs, vars) {
        Err(m) => ex.len() == 0 && r is Err && err_view(r) == m,
        Ok(cmds) => exists|k: int, r1: Result<(Option<u64>, Option<ReorderRequest>), String>|
            #![trigger switch_protocol(config.workspace_prefix@, ch, ws_name, cmds, ex.take(k), r1)]
            0 <= k <= ex.len() && switch_protocol(config.workspace_prefix@, ch, ws_name, cmds, ex.take(k), r1) && match r1 {
                Err(e) => k == ex.len() && r is Err && err_view(r) == e@,
                Ok((created, reorder)) => r == Ok::<Option<ReorderRequest>, String>(reorder) && if created is Some {
                    create_hooks_ran(config, ch, ws_name, template, vars, ex.skip(k))
                } else {
                    k == ex.len()
                },
            },
    }
}

/// Switch to a workspace (creating it if needed), spawn its programs, and
/// run the on-create hooks when a new workspace was made. `programs` are
/// command strings whose `{{name}}` placeholders are filled from the hook
/// variables; a malformed one fails before anything is created. Returns the
/// request to reorder columns, when two or more programs spawned.
pub fn switch_workspace<C: NiriClient>(
    s: &mut Session<C>,
    config: &ResolvedConfig,
    ch: char,
    ws_name: &str,
    programs: &Vec<String>,
    hook_info: &HookInfo,
) -> (r: Result<Option<ReorderRequest>, String>)
    ensures
        extends(old(s).log@, final(s).log@),
        switch_action_protocol(
            *config,
            ch,
            ws_name@,
            programs.deep_view(),
            opt_string_view(hook_info.template_name),
            pairs_view(hook_info.variables@),
            since(old(s).log@, final(s).log@),
            r,
        ),
{
    let ghost l0 = s.log@;
    let commands = match build_commands(programs, &hook_info.variables) {
        Ok(c) => c,
        Err(e) => {
            proof {
                crate::ipc::lemma_since_none(l0);
            }
            return Err(e);
        },
    };
    let switched = crate::commands::switch_workspace(s, config.workspace_prefix.as_str(), ch, ws_name, &commands);
    let ghost l1 = s.log@;
    let ghost g1 = switched;
    proof {
        crate::ipc::lemma_since_none(l1);
        crate::ipc::lemma_since_chain(l0, l1, l1);
        assert(since(l0, l1).take(since(l0, l1).len() as int) =~= since(l0, l1));
        assert(switch_protocol(config.workspace_prefix@, ch, ws_name@, commands.deep_view(), since(l0, l1).take(since(l0, l1).len() as int), g1));
    }
    let (created, reorder) = match switched {
        Ok(x) => x,
        Err(e) => {
            return Err(e);
        },
    };
    if created.is_some() {
        run_create_hooks(s, config, ch, ws_name, hook_info);
        proof {
            crate::ipc::lemma_since_chain(l0, l1, s.log@);
            let k = since(l0, l1).len() as int;
            assert(since(l0, s.log@).take(k) =~= since(l0, l1));
            assert(since(l0, s.log@).skip(k) =~= since(l1, s.log@));
        }
    }
    Ok(reorder)
}

/// Deleting the workspace for `ch`: the deletion, then, when it went
/// through, the on-delete hooks with the workspace's environment.
pub open spec fn delete_action_protocol(config: ResolvedConfig, ch: char, ws_name: Seq<char>, ex: Seq<Exchange>, r: Result<(), String>) -> bool {
    exists|k: int, r1: Result<(), String>|
        #![trigger delete_protocol(config.workspace_prefix@, ch, ex.take(k), r1)]
        0 <= k <= ex.len() && delete_protocol(config.workspace_prefix@, ch, ex.take(k), r1) && match r1 {
            Err(e) => k == ex.len() && r is Err && err_view(r) == e@,
            Ok(()) => r is Ok && exists|env: Seq<(Seq<char>, Seq<char>)>|
                #![trigger is_hook_env(env, ws_name, ch, None, Seq::empty())]
                is_hook_env(env, ws_name, ch, None, Seq::empty()) && hooks_ran(
                    config.hooks.on_delete.deep_view(),
                    env,
                    ex.skip(k),
                ),
        }
}

/// Delete a workspace and run the on-delete hooks on success.
pub fn delete_workspace<C: NiriClient>(s: &mut Session<C>, config: &ResolvedConfig, ch: char, ws_name: &str) -> (r: Result<(), String>)
    ensures
        extends(old(s).log@, final(s).log@),
        delete_action_protocol(*config, ch, ws_name@, since(old(s).log@, final(s).log@), r),
{
    let ghost l0 = s.log@;
    let deleted = crate::commands::delete_workspace(s, config.workspace_prefix.as_str(), ch);
    let ghost l1 = s.log@;
    let ghost g1 = deleted;
    proof {
        crate::ipc::lemma_since_none(l1);
        crate::ipc::lemma_since_chain(l0, l1, l1);
        assert(since(l0, l1).take(since(l0, l1).len() as int) =~= since(l0, l1));
        assert(delete_protocol(config.workspace_prefix@, ch, since(l0, l1).take(since(l0, l1).len() as int), g1));
    }
    match deleted {
        Err(e) => {
            return Err(e);
        },
        Ok(()) => {},
    }
    let no_vars: Vec<(String, String)> = Vec::new();
    let env = build_hook_env(ws_name, ch, None, &no_vars);
    let _ = run_hooks(s, &config.hooks.on_delete, &env);
    proof {
        crate::ipc::lemma_since_chain(l0, l1, s.log@);
        let k = since(l0, l1).len() as int;
        assert(since(l0, s.log@).take(k) =~= since(l0, l1));
        assert(since(l0, s.log@).skip(k) =~= since(l1, s.log@));
        assert(pairs_view(no_vars@) =~= Seq::<(Seq<char>, Seq<char>)>::empty());
        assert(is_hook_env(pairs_view(env@), ws_name@, ch, None, Seq::empty()));
    }
    Ok(())
}

/// Running the on-delete `hooks` for each of the workspaces `names` that
/// cleanup removed, in order: one launch each, with the workspace's
/// environment (its name and key). A name that is not dynamic under
/// `prefix` gets none, and without hooks nothing is launched.
pub open spec fn cleanup_hooks_ran(hooks: Seq<Seq<char>>, prefix: Seq<char>, names: Seq<Seq<char>>, ex: Seq<Exchange>) -> bool
    decreases names.len(),
{
    if names.len() == 0 {
        ex.len() == 0
    } else {
        match parse_dynamic_name_spec(names[0], prefix) {
            Some((ch, _)) if hooks.len() > 0 => {
                &&& ex.len() >= 1
                &&& exists|env: Seq<(Seq<char>, Seq<char>)>|
                    #![trigger is_hook_env(env, names[0], ch, None, Seq::empty())]
                    is_hook_env(env, names[0], ch, None, Seq::empty()) && hooks_ran(hooks, env, seq![ex[0]])
                &&& cleanup_hooks_ran(hooks, prefix, names.drop_first(), ex.drop_first())
            },
            _ => cleanup_hooks_ran(hooks, prefix, names.drop_first(), ex),
        }
    }
}

/// Run the on-delete `hooks` for the workspaces `names` that cleanup
/// removed. A hook that fails to launch does not stop the others.
pub fn run_cleanup_hooks<C: NiriClient>(s: &mut Session<C>, prefix: &str, hooks: &Vec<String>, names: &Vec<String>)
    ensures
        extends(old(s).log@, final(s).log@),
        cleanup_hooks_ran(hooks.deep_view(), prefix@, names.deep_view(), since(old(s).log@, final(s).log@)),
{
    proof {
        assert(names.deep_view().skip(0) =~= names.deep_view());
    }
    cleanup_hooks_from(s, prefix, hooks, names, 0);
}

/// The on-delete hooks for `names[i..]`.
fn cleanup_hooks_from<C: NiriClient>(s: &mut Session<C>, prefix: &str, hooks: &Vec<String>, names: &Vec<String>, i: usize)
    requires
        i <= names@.len(),
    ensures
        extends(old(s).log@, final(s).log@),
        cleanup_hooks_ran(hooks.deep_view(), prefix@, names.deep_view().skip(i as int), since(old(s).log@, final(s).log@)),
    decreases names@.len() - i,
{
    let ghost l0 = s.log@;
    let ghost rest = names.deep_view().skip(i as int);
    if i == names.len() {
        proof {
            crate::ipc::lemma_since_none(l0);
            assert(rest.len() == 0);
        }
        return;
    }
    proof {
        assert(rest[0] == names@[i as int]@);
        assert(rest.drop_first() =~= names.deep_view().skip(i + 1));
    }
    match parse_dynamic_name(names[i].as_str(), prefix) {
        Some((ch, _)) => {
            if hooks.len() > 0 {
                let no_vars: Vec<(String, String)> = Vec::new();
                let env = build_hook_env(names[i].as_str(), ch, None, &no_vars);
                let _ = run_hooks(s, hooks, &env);
                let ghost l1 = s.log@;
                proof {
                    assert(pairs_view(no_vars@) =~= Seq::<(Seq<char>, Seq<char>)>::empty());
                    assert(is_hook_env(pairs_view(env@), names@[i as int]@, ch, None, Seq::empty()));
                    assert(since(l0, l1) =~= seq![since(l0, l1)[0]]);
                }
                cleanup_hooks_from(s, prefix, hooks, names, i + 1);
                proof {
                    crate::ipc::lemma_since_chain(l0, l1, s.log@);
                    assert(since(l0, s.log@)[0] == since(l0, l1)[0]);
                    assert(since(l0, s.log@).drop_first() =~= since(l1, s.log@));
                    assert(seq![since(l0, s.log@)[0]] =~= since(l0, l1));
                    assert(hooks_ran(hooks.deep_view(), pairs_view(env@), seq![since(l0, s.log@)[0]]));
                    assert(hooks.deep_view().len() > 0);
                    assert(parse_dynamic_name_spec(rest[0], prefix@) matches Some((c, _)) && c == ch);
                    assert(is_hook_env(pairs_view(env@), rest[0], ch, None, Seq::empty()));
                    assert(cleanup_hooks_ran(hooks.deep_view(), prefix@, rest, since(l0, s.log@)));
                }
            } else {
                cleanup_hooks_from(s, prefix, hooks, names, i + 1);
                proof {
                    assert(cleanup_hooks_ran(hooks.deep_view(), prefix@, rest, since(l0, s.log@)));
                }
            }
        },
        None => {
            cleanup_hooks_from(s, prefix, hooks, names, i + 1);
            proof {
                assert(cleanup_hooks_ran(hooks.deep_view(), prefix@, rest, since(l0, s.log@)));
            }
        },
    }
}

/// Moving a window to the workspace for `ch`: the move, then, when it
/// created the workspace, the global on-create hooks.
pub open spec fn move_action_protocol(config: ResolvedConfig, ch: char, ws_name: Seq<char>, window_id: Option<u64>, ex: Seq<Exchange>, r: Result<(), String>) -> bool {
    exists|k: int, r1: Result<bool, String>|
        #![trigger move_protocol(config.workspace_prefix@, ch, ws_name, window_id, ex.take(k), r1)]
        0 <= k <= ex.len() && move_protocol(config.workspace_prefix@, ch, ws_name, window_id, ex.take(k), r1) && match r1 {
            Err(e) => k == ex.len() && r is Err && err_view(r) == e@,
            Ok(false) => k == ex.len() && r is Ok,
            Ok(true) => r is Ok && create_hooks_ran(config, ch, ws_name, None, Seq::empty(), ex.skip(k)),
        }
}

/// Move a window (`None`: the focused one) to a workspace, creating it if
/// needed, and run the global on-create hooks when it was created. No
/// programs are spawned: the moved window is the workspace's content.
pub fn move_window<C: NiriClient>(s: &mut Session<C>, config: &ResolvedConfig, ch: char, ws_name: &str, window_id: Option<u64>) -> (r: Result<(), String>)
    ensures
        extends(old(s).log@, final(s).log@),
        move_action_protocol(*config, ch, ws_name@, window_id, since(old(s).log@, final(s).log@), r),
{
    let ghost l0 = s.log@;
    let moved = crate::commands::move_window_to_workspace(s, config.workspace_prefix.as_str(), ch, ws_name, window_id);
    let ghost l1 = s.log@;
    let ghost g1 = moved;
    proof {
        crate::ipc::lemma_since_none(l1);
        crate::ipc::lemma_since_chain(l0, l1, l1);
        assert(since(l0, l1).take(since(l0, l1).len() as int) =~= since(l0, l1));
        assert(move_protocol(config.workspace_prefix@, ch, ws_name@, window_id, since(l0, l1).take(since(l0, l1).len() as int), g1));
    }
    match moved {
        Err(e) => Err(e),
        Ok(false) => Ok(()),
        Ok(true) => {
            let info = HookInfo::empty();
            run_create_hooks(s, config, ch, ws_name, &info);
            proof {
                crate::ipc::lemma_since_chain(l0, l1, s.log@);
                let k = since(l0, l1).len() as int;
                assert(since(l0, s.log@).take(k) =~= since(l0, l1));
                assert(since(l0, s.log@).skip(k) =~= since(l1, s.log@));
                assert(pairs_view(info.variables@) =~= Seq::<(Seq<char>, Seq<char>)>::empty());
            }
            Ok(())
        },
    }
}


/// The message for deleting a key pinned to a static workspace.
pub open spec fn pinned_message(ch: char, target: Seq<char>) -> Seq<char> {
    "key '"@ + seq![ch] + "' is pinned to static workspace '"@ + target + "', which cannot be deleted"@
}

/// Acting on key `ch` in `mode` without the overlay. A key pinned to a
/// static workspace acts on that workspace, found by name first (niri
/// ignores an action on a missing workspace), and cannot be deleted; any
/// other key acts on its dynamic workspace, named by the prefix and the key.
pub open spec fn direct_protocol(config: ResolvedConfig, mode: crate::overlay::Mode, ch: char, ex: Seq<Exchange>, r: Result<Option<ReorderRequest>, String>) -> bool {
    let statics = crate::assoc::assoc_map(config.static_workspaces@);
    if statics.dom().contains(ch) {
        let target = statics[ch]@;
        match mode {
            crate::overlay::Mode::Delete => ex.len() == 0 && r is Err && err_view(r) == pinned_message(ch, target),
            _ => {
                &&& ex.len() >= 1
                &&& ex[0].0 == crate::ipc::Request::Workspaces
                &&& match crate::ipc::workspaces_outcome(ex[0].1) {
                    Err(m) => ex.len() == 1 && r is Err && err_view(r) == m,
                    Ok(ws) => match crate::niri::id_by_name_spec(ws, target) {
                        None => ex.len() == 1 && r is Err && err_view(r) == crate::commands::not_found_message(target),
                        Some(id) => {
                            &&& ex.len() == 2
                            &&& ex[1].0 == if mode == crate::overlay::Mode::Normal {
                                crate::ipc::Request::Action(crate::ipc::Action::FocusWorkspace { reference: crate::ipc::WorkspaceRef::Id(id) })
                            } else {
                                crate::ipc::Request::Action(
                                    crate::ipc::Action::MoveWindowToWorkspace {
                                        window_id: None,
                                        reference: crate::ipc::WorkspaceRef::Id(id),
                                        focus: true,
                                    },
                                )
                            }
                            &&& match crate::ipc::action_outcome(ex[1].1) {
                                Ok(()) => r == Ok::<Option<ReorderRequest>, String>(None),
                                Err(m) => r is Err && err_view(r) == m,
                            }
                        },
                    },
                }
            },
        }
    } else {
        let ws_name = crate::naming::workspace_name_spec(config.workspace_prefix@, ch);
        match mode {
            crate::overlay::Mode::Normal => {
                let programs = if crate::assoc::assoc_map(config.workspace_programs@).dom().contains(ch) {
                    crate::assoc::assoc_map(config.workspace_programs@)[ch]
                } else {
                    config.default_programs
                };
                switch_action_protocol(config, ch, ws_name, programs.deep_view(), None, Seq::empty(), ex, r)
            },
            crate::overlay::Mode::Delete => exists|r1: Result<(), String>|
                delete_action_protocol(config, ch, ws_name, ex, r1) && match r1 {
                    Ok(()) => r == Ok::<Option<ReorderRequest>, String>(None),
                    Err(e) => r is Err && err_view(r) == e@,
                },
            crate::overlay::Mode::MoveWindow => exists|r1: Result<(), String>|
                move_action_protocol(config, ch, ws_name, None, ex, r1) && match r1 {
                    Ok(()) => r == Ok::<Option<ReorderRequest>, String>(None),
                    Err(e) => r is Err && err_view(r) == e@,
                },
        }
    }
}

/// Act on key `ch` in `mode` without the overlay; returns the request to
/// reorder columns when a switch spawned two or more programs.
pub fn direct_action<C: NiriClient>(s: &mut Session<C>, config: &ResolvedConfig, mode: crate::overlay::Mode, ch: char) -> (r: Result<Option<ReorderRequest>, String>)
    requires
        crate::assoc::keys_unique(config.static_workspaces@),
        crate::assoc::keys_unique(config.workspace_programs@),
    ensures
        extends(old(s).log@, final(s).log@),
        direct_protocol(*config, mode, ch, since(old(s).log@, final(s).log@), r),
{
    let ghost l0 = s.log@;
    match crate::assoc::assoc_get(&config.static_workspaces, ch) {
        Some(target) => {
            match mode {
                crate::overlay::Mode::Delete => {
                    proof {
                        crate::ipc::lemma_since_none(l0);
                    }
                    let mut m = "key '".to_string();
                    crate::text::push_char(&mut m, ch);
                    m.append("' is pinned to static workspace '");
                    m.append(target.as_str());
                    m.append("', which cannot be deleted");
                    proof {
                        assert(m@ =~= pinned_message(ch, target@));
                    }
                    Err(m)
                },
                _ => {
                    let found = crate::commands::workspace_id_by_name(s, target.as_str());
                    let ghost l1 = s.log@;
                    proof {
                        crate::ipc::lemma_since_one(l0, l1, crate::ipc::Request::Workspaces);
                    }
                    let id = match found {
                        Ok(id) => id,
                        Err(e) => {
                            return Err(e);
                        },
                    };
                    let res = if mode == crate::overlay::Mode::Normal {
                        crate::commands::focus_workspace_by_id(s, id)
                    } else {
                        crate::commands::move_window_to_workspace_by_id(s, id, None)
                    };
                    proof {
                        crate::ipc::lemma_since_one(
                            l1,
                            s.log@,
                            if mode == crate::overlay::Mode::Normal {
                                crate::ipc::Request::Action(crate::ipc::Action::FocusWorkspace { reference: crate::ipc::WorkspaceRef::Id(id) })
                            } else {
                                crate::ipc::Request::Action(
                                    crate::ipc::Action::MoveWindowToWorkspace {
                                        window_id: None,
                                        reference: crate::ipc::WorkspaceRef::Id(id),
                                        focus: true,
                                    },
                                )
                            },
                        );
                        crate::ipc::lemma_since_chain(l0, l1, s.log@);
                        assert(since(l0, s.log@)[1] == since(l1, s.log@)[0]);
                    }
                    match res {
                        Ok(()) => Ok(None),
                        Err(e) => Err(e),
                    }
                },
            }
        },
        None => {
            let ws_name = crate::naming::workspace_name(config.workspace_prefix.as_str(), ch);
            match mode {
                crate::overlay::Mode::Normal => {
                    let info = HookInfo::empty();
                    let programs = config.programs_for(ch);
                    let r = switch_workspace(s, config, ch, ws_name.as_str(), programs, &info);
                    proof {
                        assert(pairs_view(info.variables@) =~= Seq::<(Seq<char>, Seq<char>)>::empty());
                    }
                    r
                },
                crate::overlay::Mode::Delete => {
                    let r1 = delete_workspace(s, config, ch, ws_name.as_str());
                    let ghost g1 = r1;
                    match r1 {
                        Ok(()) => Ok(None),
                        Err(e) => Err(e),
                    }
                },
                crate::overlay::Mode::MoveWindow => {
                    let r1 = move_window(s, config, ch, ws_name.as_str(), None);
                    match r1 {
                        Ok(()) => Ok(None),
                        Err(e) => Err(e),
                    }
                },
            }
        },
    }
}

} // verus!
