//! The decisions of one overlay session that outlive a single key press:
//! what hover preview must undo, when a delete asks to be confirmed, and
//! how the footer sums up problems.

use vstd::prelude::*;

use crate::assoc::{assoc_get, assoc_map, keys_unique};
use crate::config::ResolvedConfig;
use crate::loading::{decimal, decimal_string};
use crate::naming::{workspace_name, workspace_name_spec};
use crate::grid::{focused_id, focused_output_from, focused_window_from, focused_workspace_id_from};
use crate::ipc::Workspace;
use crate::niri::{focused_output, focused_window_spec, no_focused_window_message, opt_string, same_opt_string};
use crate::overlay::{display_key_char, display_key_spec, Mode};
use crate::text::clone_strings;

verus! {

/// What hover preview has focused, so that closing the overlay undoes only
/// what it changed. The workspace that has focus is never focused again:
/// with niri's back-and-forth it would jump to the previous workspace.
#[derive(Clone, Copy, Debug)]
pub struct HoverPreview {
    /// The focused workspace when the overlay opened, or after the last output change.
    pub origin: Option<u64>,
    /// The workspace a preview focused in place of `origin`.
    pub previewed: Option<u64>,
}

/// The workspace that has focus while previewing.
pub open spec fn current_focus(p: HoverPreview) -> Option<u64> {
    match p.previewed {
        Some(w) => Some(w),
        None => p.origin,
    }
}

/// The state after a preview focused `ws_id`.
pub open spec fn after_focus(p: HoverPreview, ws_id: u64) -> HoverPreview {
    HoverPreview {
        origin: p.origin,
        previewed: if p.origin != Some(ws_id) {
            Some(ws_id)
        } else {
            None
        },
    }
}

/// The workspace to focus again on closing: the origin, once a preview moved focus away.
pub open spec fn restore_of(p: HoverPreview) -> Option<u64> {
    if p.previewed is Some {
        p.origin
    } else {
        None
    }
}

/// The state after the restore was taken.
pub open spec fn after_take(p: HoverPreview) -> HoverPreview {
    HoverPreview { origin: p.origin, previewed: None }
}

impl HoverPreview {
    /// A session that opened with `origin` focused.
    pub fn new(origin: Option<u64>) -> (r: HoverPreview)
        ensures
            r.origin == origin,
            r.previewed is None,
    {
        HoverPreview { origin, previewed: None }
    }

    /// Whether previewing `ws_id` changes focus: not when it has focus already.
    pub fn should_focus(&self, ws_id: u64) -> (r: bool)
        ensures
            r == (current_focus(*self) != Some(ws_id)),
    {
        match self.previewed {
            Some(w) => w != ws_id,
            None => match self.origin {
                Some(o) => o != ws_id,
                None => true,
            },
        }
    }

    /// Record that a preview focused `ws_id`.
    pub fn focused(&mut self, ws_id: u64)
        ensures
            *final(self) == after_focus(*old(self), ws_id),
    {
        let back_on_origin = match self.origin {
            Some(o) => o == ws_id,
            None => false,
        };
        self.previewed = if back_on_origin {
            None
        } else {
            Some(ws_id)
        };
    }

    /// Whether the last preview focused `ws_id`.
    pub fn is_previewed(&self, ws_id: u64) -> (r: bool)
        ensures
            r == (self.previewed == Some(ws_id)),
    {
        match self.previewed {
            Some(w) => w == ws_id,
            None => false,
        }
    }

    /// The workspace to focus again, once; none unless a preview moved focus.
    pub fn take_restore(&mut self) -> (r: Option<u64>)
        ensures
            r == restore_of(*old(self)),
            *final(self) == after_take(*old(self)),
    {
        let had = self.previewed.is_some();
        self.previewed = None;
        if had {
            self.origin
        } else {
            None
        }
    }

    /// Take `origin` as the focused workspace, dropping any pending restore.
    pub fn rebase(&mut self, origin: Option<u64>)
        ensures
            final(self).origin == origin,
            final(self).previewed is None,
    {
        self.origin = origin;
        self.previewed = None;
    }
}

/// Closing restores the origin at most once.
pub proof fn lemma_restore_once(p: HoverPreview)
    ensures
        restore_of(after_take(p)) is None,
{
}

/// A preview that moved focus away is undone by focusing the origin again;
/// one that came back to the origin needs nothing undone.
pub proof fn lemma_restore_after_focus(p: HoverPreview, ws_id: u64)
    ensures
        restore_of(after_focus(p, ws_id)) == if p.origin == Some(ws_id) {
            None
        } else {
            p.origin
        },
{
}

/// Without an origin nothing is ever restored.
pub proof fn lemma_no_origin_no_restore(p: HoverPreview)
    requires
        p.origin is None,
    ensures
        restore_of(p) is None,
{
}

/// A preview never focuses what has focus already.
pub proof fn lemma_focus_is_not_refocused(p: HoverPreview, ws_id: u64)
    ensures
        current_focus(after_focus(p, ws_id)) == Some(ws_id),
{
}

/// What the open overlay follows of the compositor: the output it shows,
/// what hover preview focused, and the window Move Window moves.
#[derive(Debug)]
pub struct Following {
    pub tracked_output: Option<String>,
    pub preview: HoverPreview,
    pub origin_window: Option<u64>,
}

/// Take a fresh workspace listing into account: when the focused output
/// changed, follow it, with its focused workspace as the preview's origin
/// (previews stay on the overlay's output, so none moved focus there) and
/// its focused window as the one Move Window moves. Returns whether the
/// output changed; otherwise nothing changes.
pub fn follow_output(state: &mut Following, workspaces: &Vec<Workspace>) -> (changed: bool)
    ensures
        changed == (opt_string(old(state).tracked_output) != focused_output(workspaces@)),
        changed ==> {
            &&& opt_string(final(state).tracked_output) == focused_output(workspaces@)
            &&& final(state).preview.origin == focused_id(workspaces@)
            &&& final(state).preview.previewed is None
            &&& final(state).origin_window == focused_window_spec(workspaces@)
        },
        !changed ==> opt_string(final(state).tracked_output) == opt_string(old(state).tracked_output)
            && final(state).preview == old(state).preview && final(state).origin_window == old(state).origin_window,
{
    let current = focused_output_from(workspaces);
    if same_opt_string(&current, &state.tracked_output) {
        return false;
    }
    state.tracked_output = current;
    let origin = focused_workspace_id_from(workspaces);
    state.preview.rebase(origin);
    state.origin_window = focused_window_from(workspaces);
    true
}

/// Whether a Delete-mode press of `ch` only arms the delete: with
/// confirmation on, a workspace with windows takes a second press of the same key.
pub fn needs_confirmation(enabled: bool, ch: char, window_count: usize, armed: Option<char>) -> (r: bool)
    ensures
        r == (enabled && window_count > 0 && armed != Some(ch)),
{
    let same = match armed {
        Some(a) => a == ch,
        None => false,
    };
    enabled && window_count > 0 && !same
}

pub open spec fn confirm_delete_hint_spec(ch: char, window_count: nat) -> Seq<char> {
    "press "@ + display_key_spec(ch) + " again to close "@ + decimal(window_count) + " "@ + (if window_count
        == 1 {
        "window"@
    } else {
        "windows"@
    })
}

/// The first hint of the footer while the delete of `ch` is armed.
pub fn confirm_delete_hint(ch: char, window_count: usize) -> (r: String)
    ensures
        r@ == confirm_delete_hint_spec(ch, window_count as nat),
{
    let mut r = "press ".to_string();
    let key = display_key_char(ch);
    r.append(key.as_str());
    r.append(" again to close ");
    let count = decimal_string(window_count as u128);
    r.append(count.as_str());
    r.append(" ");
    if window_count == 1 {
        r.append("window");
    } else {
        r.append("windows");
    }
    r
}

pub open spec fn diagnostics_summary_spec(problems: Seq<Seq<char>>, from_config: nat) -> Option<Seq<char>> {
    if problems.len() == 0 {
        None
    } else if problems.len() == 1 {
        Some(problems[0])
    } else if from_config > 1 {
        Some(problems[0] + " (+"@ + decimal((problems.len() - 1) as nat) + " more, run `niri-dynamic-workspaces check`)"@)
    } else {
        Some(problems[0] + " (+"@ + decimal((problems.len() - 1) as nat) + " more)"@)
    }
}

/// The line that sums up `problems`, whose first `from_config` come from the
/// config: the first problem and how many more. It points to `check` only
/// when some config problems are hidden, since `check` lists only those.
pub fn diagnostics_summary(problems: &Vec<String>, from_config: usize) -> (r: Option<String>)
    ensures
        match r {
            Some(s) => diagnostics_summary_spec(problems.deep_view(), from_config as nat) == Some(s@),
            None => diagnostics_summary_spec(problems.deep_view(), from_config as nat) is None,
        },
{
    if problems.len() == 0 {
        return None;
    }
    let mut r = problems[0].clone();
    let more = problems.len() - 1;
    if more == 0 {
        return Some(r);
    }
    r.append(" (+");
    let count = decimal_string(more as u128);
    r.append(count.as_str());
    if from_config > 1 {
        r.append(" more, run `niri-dynamic-workspaces check`)");
    } else {
        r.append(" more)");
    }
    Some(r)
}

pub open spec fn wrap_index_spec(current: nat, len: nat, forward: bool) -> nat {
    if len == 0 {
        0
    } else if forward {
        if current >= len - 1 {
            0
        } else {
            current + 1
        }
    } else if current == 0 {
        (len - 1) as nat
    } else {
        (current - 1) as nat
    }
}

/// Stepping one row and back returns to the same row.
pub proof fn lemma_wrap_index_round_trip(current: nat, len: nat, forward: bool)
    requires
        current < len,
    ensures
        wrap_index_spec(wrap_index_spec(current, len, forward), len, !forward) == current,
{
}

/// The next (`forward`) or previous row of a list of `len` rows, wrapping around.
pub fn wrap_index(current: usize, len: usize, forward: bool) -> (r: usize)
    ensures
        r == wrap_index_spec(current as nat, len as nat, forward),
        current < len ==> r < len,
{
    if len == 0 {
        return 0;
    }
    if forward {
        if current >= len - 1 {
            0
        } else {
            current + 1
        }
    } else if current == 0 {
        len - 1
    } else {
        current - 1
    }
}

/// What the keyboard knows of a pressed key's workspace.
#[derive(Debug)]
pub struct KeyContext {
    /// The id of its live workspace.
    pub ws_id: Option<u64>,
    /// The name of its workspace, when it has one.
    pub ws_name: Option<String>,
    pub is_uncreated: bool,
    pub window_count: usize,
}

/// The key whose delete stays armed once the overlay is rebuilt: the armed
/// key, while the overlay stays in Delete mode and that key's workspace
/// still has windows (`counts` gives each key's window count); else none.
pub open spec fn armed_after_refresh_spec(armed: Option<char>, mode: Mode, counts: Seq<(char, usize)>) -> Option<char> {
    match armed {
        Some(ch) => if mode == Mode::Delete && assoc_map(counts).dom().contains(ch) && assoc_map(counts)[ch] > 0 {
            Some(ch)
        } else {
            None
        },
        None => None,
    }
}

/// The key whose delete stays armed once the overlay is rebuilt.
pub fn armed_after_refresh(armed: Option<char>, mode: Mode, counts: &Vec<(char, usize)>) -> (r: Option<char>)
    requires
        keys_unique(counts@),
    ensures
        r == armed_after_refresh_spec(armed, mode, counts@),
{
    match armed {
        Some(ch) => {
            if mode != Mode::Delete {
                return None;
            }
            match assoc_get(counts, ch) {
                Some(n) => if *n > 0 {
                    Some(ch)
                } else {
                    None
                },
                None => None,
            }
        },
        None => None,
    }
}

/// What a key press in the overlay does.
#[derive(Debug)]
pub enum KeyAction {
    /// Show this error and keep the overlay open.
    Refuse(String),
    /// Nothing more to do: close, keeping the focus that a preview gave.
    Close,
    /// Focus the workspace with this id, then close.
    FocusWorkspace(u64),
    /// Move a window to the workspace with this id, then close.
    MoveWindowTo { workspace_id: u64, window_id: u64 },
    /// Let the user pick a template for the new workspace.
    PickTemplate,
    /// Create the workspace from the template of this name, which the key
    /// is bound to, without the picker.
    UseTemplate(String),
    /// Switch to (or create) the workspace named `ws_name`, starting `programs` if it is new.
    Switch { ws_name: String, programs: Vec<String> },
    /// Ask for a second press before deleting.
    ArmDelete,
    /// Delete the key's workspace.
    Delete,
    /// Move a window to the workspace named `ws_name`.
    MoveWindow { ws_name: String, window_id: u64 },
}

/// The message for deleting the workspace a key is pinned to.
pub open spec fn static_delete_message(target: Seq<char>) -> Seq<char> {
    "'"@ + target + "' is a static workspace and cannot be deleted"@
}

/// The message for a pinned workspace that does not exist.
pub open spec fn missing_static_message(target: Seq<char>) -> Seq<char> {
    "Failed: workspace '"@ + target + "' not found"@
}

/// The message when there is no window to move.
pub open spec fn no_window_to_move_message() -> Seq<char> {
    "Failed: "@ + no_focused_window_message()
}

/// The programs a new workspace on `ch` starts.
pub open spec fn programs_spec(config: ResolvedConfig, ch: char) -> Seq<Seq<char>> {
    if assoc_map(config.workspace_programs@).dom().contains(ch) {
        assoc_map(config.workspace_programs@)[ch].deep_view()
    } else {
        config.default_programs.deep_view()
    }
}

/// The name of the workspace key `ch` acts on: its workspace's, else the dynamic name.
pub open spec fn acted_name(info: Option<&KeyContext>, prefix: Seq<char>, ch: char) -> Seq<char> {
    match info {
        Some(i) => match i.ws_name {
            Some(n) => n@,
            None => workspace_name_spec(prefix, ch),
        },
        None => workspace_name_spec(prefix, ch),
    }
}

/// `r` is what pressing `ch` in `mode` does. A pinned key acts on its
/// workspace by id, and cannot delete it. Elsewhere: a switch to a workspace
/// that a preview focused already just closes, an uncreated key bound to a
/// template uses it, an uncreated key with templates to offer opens the picker, a delete may first ask for a second
/// press, and a move needs the window that had focus.
pub open spec fn is_key_action(
    r: KeyAction,
    mode: Mode,
    ch: char,
    config: ResolvedConfig,
    info: Option<&KeyContext>,
    preview: HoverPreview,
    armed: Option<char>,
    origin_window: Option<u64>,
) -> bool {
    let statics = assoc_map(config.static_workspaces@);
    let ws_id = match info {
        Some(i) => i.ws_id,
        None => None,
    };
    if statics.dom().contains(ch) {
        let target = statics[ch]@;
        match (mode, ws_id) {
            (Mode::Delete, _) => r matches KeyAction::Refuse(e) && e@ == static_delete_message(target),
            (_, None) => r matches KeyAction::Refuse(e) && e@ == missing_static_message(target),
            (Mode::Normal, Some(id)) => if preview.previewed == Some(id) {
                r is Close
            } else {
                r matches KeyAction::FocusWorkspace(x) && x == id
            },
            (Mode::MoveWindow, Some(id)) => match origin_window {
                Some(w) => r matches KeyAction::MoveWindowTo { workspace_id, window_id } && workspace_id == id
                    && window_id == w,
                None => r matches KeyAction::Refuse(e) && e@ == no_window_to_move_message(),
            },
        }
    } else {
        let name = acted_name(info, config.workspace_prefix@, ch);
        match mode {
            Mode::Normal => if ws_id is Some && preview.previewed == ws_id {
                r is Close
            } else if (match info {
                Some(i) => i.is_uncreated,
                None => true,
            }) && assoc_map(config.workspace_templates@).dom().contains(ch) {
                r matches KeyAction::UseTemplate(n) && n@ == assoc_map(config.workspace_templates@)[ch]@
            } else if (match info {
                Some(i) => i.is_uncreated,
                None => true,
            }) && config.templates@.len() > 0 && !assoc_map(config.workspace_programs@).dom().contains(ch) {
                r is PickTemplate
            } else {
                r matches KeyAction::Switch { ws_name, programs } && ws_name@ == name && programs.deep_view()
                    == programs_spec(config, ch)
            },
            Mode::Delete => {
                let count = match info {
                    Some(i) => i.window_count,
                    None => 0,
                };
                if config.confirm_delete && count > 0 && armed != Some(ch) {
                    r is ArmDelete
                } else {
                    r is Delete
                }
            },
            Mode::MoveWindow => match origin_window {
                Some(w) => r matches KeyAction::MoveWindow { ws_name, window_id } && ws_name@ == name && window_id
                    == w,
                None => r matches KeyAction::Refuse(e) && e@ == no_window_to_move_message(),
            },
        }
    }
}

/// The "no window to move" error.
fn no_window_to_move() -> (r: KeyAction)
    ensures
        r matches KeyAction::Refuse(e) && e@ == no_window_to_move_message(),
{
    let mut e = "Failed: ".to_string();
    e.append("no focused window to move");
    KeyAction::Refuse(e)
}

/// What pressing `ch` in `mode` does, given what the keyboard shows for the
/// key (`info`), what hover preview focused, which key waits for a second
/// delete press (`armed`), and the window that had focus when the overlay opened.
pub fn key_action(
    mode: Mode,
    ch: char,
    config: &ResolvedConfig,
    info: Option<&KeyContext>,
    preview: &HoverPreview,
    armed: Option<char>,
    origin_window: Option<u64>,
) -> (r: KeyAction)
    requires
        keys_unique(config.static_workspaces@),
        keys_unique(config.workspace_programs@),
        keys_unique(config.workspace_templates@),
    ensures
        is_key_action(r, mode, ch, *config, info, *preview, armed, origin_window),
{
    let ws_id = match info {
        Some(i) => i.ws_id,
        None => None,
    };
    match assoc_get(&config.static_workspaces, ch) {
        Some(target) => {
            match (mode, ws_id) {
                (Mode::Delete, _) => {
                    let mut e = "'".to_string();
                    e.append(target.as_str());
                    e.append("' is a static workspace and cannot be deleted");
                    KeyAction::Refuse(e)
                },
                (_, None) => {
                    let mut e = "Failed: workspace '".to_string();
                    e.append(target.as_str());
                    e.append("' not found");
                    KeyAction::Refuse(e)
                },
                (Mode::Normal, Some(id)) => {
                    if preview.is_previewed(id) {
                        KeyAction::Close
                    } else {
                        KeyAction::FocusWorkspace(id)
                    }
                },
                (Mode::MoveWindow, Some(id)) => match origin_window {
                    Some(w) => KeyAction::MoveWindowTo { workspace_id: id, window_id: w },
                    None => no_window_to_move(),
                },
            }
        },
        None => {
            let name = match info {
                Some(i) => match &i.ws_name {
                    Some(n) => n.clone(),
                    None => workspace_name(config.workspace_prefix.as_str(), ch),
                },
                None => workspace_name(config.workspace_prefix.as_str(), ch),
            };
            match mode {
                Mode::Normal => {
                    let previewed = match ws_id {
                        Some(id) => preview.is_previewed(id),
                        None => false,
                    };
                    if previewed {
                        return KeyAction::Close;
                    }
                    let is_uncreated = match info {
                        Some(i) => i.is_uncreated,
                        None => true,
                    };
                    if is_uncreated {
                        match assoc_get(&config.workspace_templates, ch) {
                            Some(t) => {
                                return KeyAction::UseTemplate(t.clone());
                            },
                            None => {},
                        }
                    }
                    if is_uncreated && config.should_show_templates(ch) {
                        return KeyAction::PickTemplate;
                    }
                    let programs = clone_strings(config.programs_for(ch));
                    KeyAction::Switch { ws_name: name, programs }
                },
                Mode::Delete => {
                    let count = match info {
                        Some(i) => i.window_count,
                        None => 0,
                    };
                    if needs_confirmation(config.confirm_delete, ch, count, armed) {
                        KeyAction::ArmDelete
                    } else {
                        KeyAction::Delete
                    }
                },
                Mode::MoveWindow => match origin_window {
                    Some(w) => KeyAction::MoveWindow { ws_name: name, window_id: w },
                    None => no_window_to_move(),
                },
            }
        },
    }
}

} // verus!

