//! What the overlay shows for the compositor's current state: a key of the
//! keyboard per workspace key, and a row of the other workspaces on the
//! focused output.

use vstd::prelude::*;

use crate::assoc::{assoc_get, assoc_insert, assoc_map, keys_unique};
use crate::config::ResolvedConfig;
use crate::ipc::{Window, Workspace};
use crate::loading::{decimal, decimal_string};
use crate::naming::{is_workspace_char_spec, parse_dynamic_name, parse_dynamic_name_spec};
use crate::niri::{find_focused_output, focused_output, focused_window_spec, named, opt_string, same_opt_string};
use crate::overlay::DynWorkspaceInfo;
use crate::text::{eq_ignore_case, str_eq_ignore_case};

verus! {

/// The id of the first focused workspace.
pub open spec fn focused_id(ws: Seq<Workspace>) -> Option<u64>
    decreases ws.len(),
{
    if ws.len() == 0 {
        None
    } else if ws[0].is_focused {
        Some(ws[0].id)
    } else {
        focused_id(ws.drop_first())
    }
}

/// The output of the focused workspace in `ws`.
pub fn focused_output_from(ws: &Vec<Workspace>) -> (r: Option<String>)
    ensures
        opt_string(r) == focused_output(ws@),
{
    find_focused_output(ws)
}

/// The id of the focused workspace in `ws`.
pub fn focused_workspace_id_from(ws: &Vec<Workspace>) -> (r: Option<u64>)
    ensures
        r == focused_id(ws@),
{
    let mut i: usize = 0;
    assert(ws@.skip(0) =~= ws@);
    while i < ws.len()
        invariant
            i <= ws@.len(),
            focused_id(ws@) == focused_id(ws@.skip(i as int)),
        decreases ws@.len() - i,
    {
        assert(ws@.skip(i as int)[0] == ws@[i as int]);
        if ws[i].is_focused {
            return Some(ws[i].id);
        }
        assert(ws@.skip(i as int).drop_first() =~= ws@.skip(i + 1));
        i = i + 1;
    }
    None
}

/// The active window of the focused workspace in `ws`. It is read from the
/// layout, since no window has focus while the overlay holds the keyboard.
pub fn focused_window_from(ws: &Vec<Workspace>) -> (r: Option<u64>)
    ensures
        r == focused_window_spec(ws@),
{
    let mut i: usize = 0;
    assert(ws@.skip(0) =~= ws@);
    while i < ws.len()
        invariant
            i <= ws@.len(),
            focused_window_spec(ws@) == focused_window_spec(ws@.skip(i as int)),
        decreases ws@.len() - i,
    {
        assert(ws@.skip(i as int)[0] == ws@[i as int]);
        if ws[i].is_focused {
            return ws[i].active_window_id;
        }
        assert(ws@.skip(i as int).drop_first() =~= ws@.skip(i + 1));
        i = i + 1;
    }
    None
}

/// Some window on workspace `id` asks for attention.
pub open spec fn has_urgent_window(windows: Seq<Window>, id: u64) -> bool {
    exists|i: int| 0 <= i < windows.len() && (#[trigger] windows[i]).is_urgent && windows[i].workspace_id == Some(id)
}

/// Some window is on workspace `id`.
pub open spec fn has_window(windows: Seq<Window>, id: u64) -> bool {
    exists|i: int| 0 <= i < windows.len() && (#[trigger] windows[i]).workspace_id == Some(id)
}

/// `s` with `v` added holds exactly what `s` holds and `v`.
proof fn lemma_push_contains(s: Seq<u64>, v: u64, x: u64)
    ensures
        s.push(v).contains(x) <==> (s.contains(x) || x == v),
{
    if s.contains(x) {
        let k = choose|k: int| 0 <= k < s.len() && s[k] == x;
        assert(s.push(v)[k] == x);
    }
    if x == v {
        assert(s.push(v)[s.len() as int] == v);
    }
    if s.push(v).contains(x) {
        let k = choose|k: int| 0 <= k < s.push(v).len() && s.push(v)[k] == x;
        if k < s.len() {
            assert(s[k] == x);
        }
    }
}

/// The workspaces that hold an urgent window.
pub fn urgent_workspace_ids(windows: &Vec<Window>) -> (r: Vec<u64>)
    ensures
        forall|id: u64| r@.contains(id) <==> has_urgent_window(windows@, id),
{
    let mut r: Vec<u64> = Vec::new();
    let mut i: usize = 0;
    while i < windows.len()
        invariant
            i <= windows@.len(),
            forall|id: u64|
                r@.contains(id) <==> exists|j: int|
                    0 <= j < i && (#[trigger] windows@[j]).is_urgent && windows@[j].workspace_id == Some(id),
        decreases windows@.len() - i,
    {
        let ghost before = r@;
        if windows[i].is_urgent {
            match windows[i].workspace_id {
                Some(id) => {
                    r.push(id);
                },
                None => {},
            }
        }
        proof {
            assert forall|x: u64| r@.contains(x) <==> exists|j: int|
                0 <= j < i + 1 && (#[trigger] windows@[j]).is_urgent && windows@[j].workspace_id == Some(x) by {
                if r@ != before {
                    lemma_push_contains(before, windows@[i as int].workspace_id->0, x);
                }
                if before.contains(x) {
                    let j = choose|j: int| 0 <= j < i && (#[trigger] windows@[j]).is_urgent && windows@[j].workspace_id == Some(x);
                    assert(0 <= j < i + 1);
                }
                if exists|j: int| 0 <= j < i + 1 && (#[trigger] windows@[j]).is_urgent && windows@[j].workspace_id == Some(x) {
                    let j = choose|j: int| 0 <= j < i + 1 && (#[trigger] windows@[j]).is_urgent && windows@[j].workspace_id == Some(x);
                    if j < i {
                        assert(before.contains(x));
                    }
                }
            }
        }
        i = i + 1;
    }
    proof {
        assert forall|id: u64| r@.contains(id) <==> has_urgent_window(windows@, id) by {
            if has_urgent_window(windows@, id) {
                let j = choose|j: int| 0 <= j < windows@.len() && (#[trigger] windows@[j]).is_urgent && windows@[j].workspace_id == Some(id);
                assert(0 <= j < i);
            }
        }
    }
    r
}

/// The workspaces that hold a window.
pub fn occupied_workspace_ids(windows: &Vec<Window>) -> (r: Vec<u64>)
    ensures
        forall|id: u64| r@.contains(id) <==> has_window(windows@, id),
{
    let mut r: Vec<u64> = Vec::new();
    let mut i: usize = 0;
    while i < windows.len()
        invariant
            i <= windows@.len(),
            forall|id: u64|
                r@.contains(id) <==> exists|j: int| 0 <= j < i && (#[trigger] windows@[j]).workspace_id == Some(id),
        decreases windows@.len() - i,
    {
        let ghost before = r@;
        match windows[i].workspace_id {
            Some(id) => {
                r.push(id);
            },
            None => {},
        }
        proof {
            assert forall|x: u64| r@.contains(x) <==> exists|j: int|
                0 <= j < i + 1 && (#[trigger] windows@[j]).workspace_id == Some(x) by {
                if r@ != before {
                    lemma_push_contains(before, windows@[i as int].workspace_id->0, x);
                }
                if before.contains(x) {
                    let j = choose|j: int| 0 <= j < i && (#[trigger] windows@[j]).workspace_id == Some(x);
                    assert(0 <= j < i + 1);
                }
                if exists|j: int| 0 <= j < i + 1 && (#[trigger] windows@[j]).workspace_id == Some(x) {
                    let j = choose|j: int| 0 <= j < i + 1 && (#[trigger] windows@[j]).workspace_id == Some(x);
                    if j < i {
                        assert(before.contains(x));
                    }
                }
            }
        }
        i = i + 1;
    }
    proof {
        assert forall|id: u64| r@.contains(id) <==> has_window(windows@, id) by {
            if has_window(windows@, id) {
                let j = choose|j: int| 0 <= j < windows@.len() && (#[trigger] windows@[j]).workspace_id == Some(id);
                assert(0 <= j < i);
            }
        }
    }
    r
}

/// Whether `id` is in `ids`.
fn contains_id(ids: &Vec<u64>, id: u64) -> (r: bool)
    ensures
        r == ids@.contains(id),
{
    let mut i: usize = 0;
    while i < ids.len()
        invariant
            i <= ids@.len(),
            forall|j: int| 0 <= j < i ==> ids@[j] != id,
        decreases ids@.len() - i,
    {
        if ids[i] == id {
            assert(ids@[i as int] == id);
            return true;
        }
        i = i + 1;
    }
    false
}

/// The key a workspace sits on: the key of its name, when that is a
/// dynamic workspace name (`dyn-alpha` is not one).
pub open spec fn dyn_key(w: Workspace, prefix: Seq<char>) -> Option<char> {
    match w.name {
        Some(n) => match parse_dynamic_name_spec(n@, prefix) {
            Some((k, _)) => Some(k),
            None => None,
        },
        None => None,
    }
}

/// The key of workspace `w` under `prefix`, if it is a dynamic workspace.
fn dyn_key_of(w: &Workspace, prefix: &str) -> (r: Option<char>)
    ensures
        r == dyn_key(*w, prefix@),
{
    match &w.name {
        Some(n) => match parse_dynamic_name(n.as_str(), prefix) {
            Some((k, _)) => Some(k),
            None => None,
        },
        None => None,
    }
}

/// The title in dynamic workspace name `name`, if it carries one.
pub open spec fn title_in(name: Seq<char>, prefix: Seq<char>) -> Option<Seq<char>> {
    match parse_dynamic_name_spec(name, prefix) {
        Some((_, t)) => t,
        None => None,
    }
}

/// What one key of the keyboard shows, as plain values.
pub struct KeyState {
    pub char_id: char,
    pub is_focused: bool,
    pub is_active: bool,
    pub is_uncreated: bool,
    pub is_urgent: bool,
    pub is_static: bool,
    pub is_empty: bool,
    pub name: Option<Seq<char>>,
    pub ws_name: Option<Seq<char>>,
    pub output: Option<Seq<char>>,
}

/// What `i` shows.
pub open spec fn key_state(i: DynWorkspaceInfo) -> KeyState {
    KeyState {
        char_id: i.char_id,
        is_focused: i.is_focused,
        is_active: i.is_active,
        is_uncreated: i.is_uncreated,
        is_urgent: i.is_urgent,
        is_static: i.is_static,
        is_empty: i.is_empty,
        name: opt_string(i.name),
        ws_name: opt_string(i.ws_name),
        output: opt_string(i.output),
    }
}

/// What each of `infos` shows.
pub open spec fn key_states(infos: Seq<DynWorkspaceInfo>) -> Seq<KeyState> {
    infos.map_values(|i: DynWorkspaceInfo| key_state(i))
}

/// The configured display name of key `ch`.
pub open spec fn name_for(names: Seq<(char, String)>, ch: char) -> Option<Seq<char>> {
    if assoc_map(names).dom().contains(ch) {
        Some(assoc_map(names)[ch]@)
    } else {
        None
    }
}

/// The key `ch` of live dynamic workspace `w`. A configured name wins over
/// the title in the workspace's name; focus wins over being shown.
pub open spec fn live_state(
    w: Workspace,
    ch: char,
    windows: Seq<Window>,
    focused: Option<u64>,
    names: Seq<(char, String)>,
    prefix: Seq<char>,
) -> KeyState {
    let is_focused = focused == Some(w.id);
    KeyState {
        char_id: ch,
        is_focused,
        is_active: !is_focused && w.is_active,
        is_uncreated: false,
        is_urgent: w.is_urgent || has_urgent_window(windows, w.id),
        is_static: false,
        is_empty: !has_window(windows, w.id),
        name: match name_for(names, ch) {
            Some(n) => Some(n),
            None => match w.name {
                Some(n) => title_in(n@, prefix),
                None => None,
            },
        },
        ws_name: opt_string(w.name),
        output: opt_string(w.output),
    }
}

/// The keys `ch` of the dynamic workspaces among `ws` that sit on `ch`, in order.
pub open spec fn live_states(
    ws: Seq<Workspace>,
    ch: char,
    windows: Seq<Window>,
    focused: Option<u64>,
    names: Seq<(char, String)>,
    prefix: Seq<char>,
) -> Seq<KeyState>
    decreases ws.len(),
{
    if ws.len() == 0 {
        Seq::empty()
    } else {
        let rest = live_states(ws.drop_last(), ch, windows, focused, names, prefix);
        if dyn_key(ws.last(), prefix) == Some(ch) {
            rest.push(live_state(ws.last(), ch, windows, focused, names, prefix))
        } else {
            rest
        }
    }
}

/// The first workspace named `name`, compared as niri compares names.
pub open spec fn named_first(ws: Seq<Workspace>, name: Seq<char>) -> Option<Workspace>
    decreases ws.len(),
{
    if ws.len() == 0 {
        None
    } else if named(ws[0], name) {
        Some(ws[0])
    } else {
        named_first(ws.drop_first(), name)
    }
}

/// Key `ch` pinned to the workspace named `target`: it mirrors that
/// workspace, or shows as uncreated when there is none.
pub open spec fn static_state(
    ch: char,
    target: Seq<char>,
    ws: Seq<Workspace>,
    windows: Seq<Window>,
    focused: Option<u64>,
    names: Seq<(char, String)>,
) -> KeyState {
    match named_first(ws, target) {
        Some(w) => {
            let is_focused = focused == Some(w.id);
            KeyState {
                char_id: ch,
                is_focused,
                is_active: !is_focused && w.is_active,
                is_uncreated: false,
                is_urgent: w.is_urgent || has_urgent_window(windows, w.id),
                is_static: true,
                is_empty: !has_window(windows, w.id),
                name: name_for(names, ch),
                ws_name: Some(target),
                output: opt_string(w.output),
            }
        },
        None => KeyState {
            char_id: ch,
            is_focused: false,
            is_active: false,
            is_uncreated: true,
            is_urgent: false,
            is_static: true,
            is_empty: false,
            name: name_for(names, ch),
            ws_name: Some(target),
            output: None,
        },
    }
}

/// A configured key whose workspace does not exist yet.
pub open spec fn uncreated_state(ch: char, names: Seq<(char, String)>) -> KeyState {
    KeyState {
        char_id: ch,
        is_focused: false,
        is_active: false,
        is_uncreated: true,
        is_urgent: false,
        is_static: false,
        is_empty: false,
        name: name_for(names, ch),
        ws_name: None,
        output: None,
    }
}

/// Key `ch` has a name or programs configured.
pub open spec fn configured(config: ResolvedConfig, ch: char) -> bool {
    assoc_map(config.workspace_names@).dom().contains(ch) || assoc_map(config.workspace_programs@).dom().contains(ch)
}

/// What key `ch` shows: its pinned workspace when it has one; else its live
/// dynamic workspaces; else, when configured, an uncreated workspace.
pub open spec fn states_for(ch: char, ws: Seq<Workspace>, windows: Seq<Window>, config: ResolvedConfig) -> Seq<KeyState> {
    let names = config.workspace_names@;
    let statics = assoc_map(config.static_workspaces@);
    if statics.dom().contains(ch) {
        seq![static_state(ch, statics[ch]@, ws, windows, focused_id(ws), names)]
    } else {
        let live = live_states(ws, ch, windows, focused_id(ws), names, config.workspace_prefix@);
        if live.len() == 0 && configured(config, ch) {
            seq![uncreated_state(ch, names)]
        } else {
            live
        }
    }
}

/// What the keys `keys` show, key after key.
pub open spec fn keyboard_states(keys: Seq<char>, ws: Seq<Workspace>, windows: Seq<Window>, config: ResolvedConfig) -> Seq<KeyState>
    decreases keys.len(),
{
    if keys.len() == 0 {
        Seq::empty()
    } else {
        keyboard_states(keys.drop_last(), ws, windows, config) + states_for(keys.last(), ws, windows, config)
    }
}

/// Every workspace character, in ascending order.
pub open spec fn workspace_keys() -> Seq<char> {
    seq![
        '0', '1', '2', '3', '4', '5', '6', '7', '8', '9',
        'a', 'b', 'c', 'd', 'e', 'f', 'g', 'h', 'i', 'j', 'k', 'l', 'm',
        'n', 'o', 'p', 'q', 'r', 's', 't', 'u', 'v', 'w', 'x', 'y', 'z',
    ]
}

/// What the keyboard shows, ordered by key.
pub open spec fn keyboard_spec(ws: Seq<Workspace>, windows: Seq<Window>, config: ResolvedConfig) -> Seq<KeyState> {
    keyboard_states(workspace_keys(), ws, windows, config)
}

/// Each key of `keys` comes after the one before it.
pub open spec fn ascending(keys: Seq<char>) -> bool
    decreases keys.len(),
{
    keys.len() <= 1 || (ascending(keys.drop_last()) && (keys[keys.len() - 2] as u32) < (keys.last() as u32))
}

/// The live workspaces on key `ch` all show `ch`.
proof fn lemma_live_states_key(
    ws: Seq<Workspace>,
    ch: char,
    windows: Seq<Window>,
    focused: Option<u64>,
    names: Seq<(char, String)>,
    prefix: Seq<char>,
)
    ensures
        forall|k: int|
            0 <= k < live_states(ws, ch, windows, focused, names, prefix).len() ==> (#[trigger] live_states(
                ws,
                ch,
                windows,
                focused,
                names,
                prefix,
            )[k]).char_id == ch,
    decreases ws.len(),
{
    if ws.len() > 0 {
        lemma_live_states_key(ws.drop_last(), ch, windows, focused, names, prefix);
    }
}

/// What key `ch` shows is all about `ch`.
proof fn lemma_states_for_key(ch: char, ws: Seq<Workspace>, windows: Seq<Window>, config: ResolvedConfig)
    ensures
        forall|k: int| 0 <= k < states_for(ch, ws, windows, config).len() ==> (#[trigger] states_for(ch, ws, windows, config)[k]).char_id == ch,
{
    lemma_live_states_key(ws, ch, windows, focused_id(ws), config.workspace_names@, config.workspace_prefix@);
}

/// Keys shown in ascending order give an ordered keyboard, none past the last key.
proof fn lemma_keyboard_states_sorted(keys: Seq<char>, ws: Seq<Workspace>, windows: Seq<Window>, config: ResolvedConfig)
    requires
        ascending(keys),
    ensures
        forall|a: int, b: int|
            0 <= a < b < keyboard_states(keys, ws, windows, config).len() ==> (#[trigger] keyboard_states(keys, ws, windows, config)[a].char_id as u32)
                <= (#[trigger] keyboard_states(keys, ws, windows, config)[b].char_id as u32),
        keys.len() > 0 ==> forall|a: int|
            0 <= a < keyboard_states(keys, ws, windows, config).len() ==> (#[trigger] keyboard_states(keys, ws, windows, config)[a].char_id as u32)
                <= (keys.last() as u32),
    decreases keys.len(),
{
    if keys.len() > 0 {
        let front = keys.drop_last();
        lemma_keyboard_states_sorted(front, ws, windows, config);
        lemma_states_for_key(keys.last(), ws, windows, config);
        let first = keyboard_states(front, ws, windows, config);
        let last = states_for(keys.last(), ws, windows, config);
        let all = keyboard_states(keys, ws, windows, config);
        assert(all == first + last);
        if front.len() > 0 {
            assert(front.last() == keys[keys.len() - 2]);
        }
        assert forall|a: int| 0 <= a < all.len() implies (#[trigger] all[a].char_id as u32) <= (keys.last() as u32) by {
            if a >= first.len() {
                assert(all[a] == last[a - first.len()]);
            } else {
                assert(all[a] == first[a]);
            }
        }
        assert forall|a: int, b: int| 0 <= a < b < all.len() implies (#[trigger] all[a].char_id as u32) <= (#[trigger] all[b].char_id as u32) by {
            if b < first.len() {
                assert(all[a] == first[a]);
                assert(all[b] == first[b]);
            } else if a >= first.len() {
                assert(all[a] == last[a - first.len()]);
                assert(all[b] == last[b - first.len()]);
            } else {
                assert(all[a] == first[a]);
                assert(all[b] == last[b - first.len()]);
            }
        }
    }
}

/// The keyboard is ordered by key: digits first, then letters, in ascending order.
pub proof fn lemma_keyboard_sorted(ws: Seq<Workspace>, windows: Seq<Window>, config: ResolvedConfig)
    ensures
        forall|a: int, b: int|
            0 <= a < b < keyboard_spec(ws, windows, config).len() ==> (#[trigger] keyboard_spec(ws, windows, config)[a].char_id as u32)
                <= (#[trigger] keyboard_spec(ws, windows, config)[b].char_id as u32),
{
    let keys = workspace_keys();
    assert(ascending(keys.take(1)));
    assert(keys.take(2).drop_last() =~= keys.take(1));
    assert(ascending(keys.take(2)));
    assert(keys.take(3).drop_last() =~= keys.take(2));
    assert(ascending(keys.take(3)));
    assert(keys.take(4).drop_last() =~= keys.take(3));
    assert(ascending(keys.take(4)));
    assert(keys.take(5).drop_last() =~= keys.take(4));
    assert(ascending(keys.take(5)));
    assert(keys.take(6).drop_last() =~= keys.take(5));
    assert(ascending(keys.take(6)));
    assert(keys.take(7).drop_last() =~= keys.take(6));
    assert(ascending(keys.take(7)));
    assert(keys.take(8).drop_last() =~= keys.take(7));
    assert(ascending(keys.take(8)));
    assert(keys.take(9).drop_last() =~= keys.take(8));
    assert(ascending(keys.take(9)));
    assert(keys.take(10).drop_last() =~= keys.take(9));
    assert(ascending(keys.take(10)));
    assert(keys.take(11).drop_last() =~= keys.take(10));
    assert(ascending(keys.take(11)));
    assert(keys.take(12).drop_last() =~= keys.take(11));
    assert(ascending(keys.take(12)));
    assert(keys.take(13).drop_last() =~= keys.take(12));
    assert(ascending(keys.take(13)));
    assert(keys.take(14).drop_last() =~= keys.take(13));
    assert(ascending(keys.take(14)));
    assert(keys.take(15).drop_last() =~= keys.take(14));
    assert(ascending(keys.take(15)));
    assert(keys.take(16).drop_last() =~= keys.take(15));
    assert(ascending(keys.take(16)));
    assert(keys.take(17).drop_last() =~= keys.take(16));
    assert(ascending(keys.take(17)));
    assert(keys.take(18).drop_last() =~= keys.take(17));
    assert(ascending(keys.take(18)));
    assert(keys.take(19).drop_last() =~= keys.take(18));
    assert(ascending(keys.take(19)));
    assert(keys.take(20).drop_last() =~= keys.take(19));
    assert(ascending(keys.take(20)));
    assert(keys.take(21).drop_last() =~= keys.take(20));
    assert(ascending(keys.take(21)));
    assert(keys.take(22).drop_last() =~= keys.take(21));
    assert(ascending(keys.take(22)));
    assert(keys.take(23).drop_last() =~= keys.take(22));
    assert(ascending(keys.take(23)));
    assert(keys.take(24).drop_last() =~= keys.take(23));
    assert(ascending(keys.take(24)));
    assert(keys.take(25).drop_last() =~= keys.take(24));
    assert(ascending(keys.take(25)));
    assert(keys.take(26).drop_last() =~= keys.take(25));
    assert(ascending(keys.take(26)));
    assert(keys.take(27).drop_last() =~= keys.take(26));
    assert(ascending(keys.take(27)));
    assert(keys.take(28).drop_last() =~= keys.take(27));
    assert(ascending(keys.take(28)));
    assert(keys.take(29).drop_last() =~= keys.take(28));
    assert(ascending(keys.take(29)));
    assert(keys.take(30).drop_last() =~= keys.take(29));
    assert(ascending(keys.take(30)));
    assert(keys.take(31).drop_last() =~= keys.take(30));
    assert(ascending(keys.take(31)));
    assert(keys.take(32).drop_last() =~= keys.take(31));
    assert(ascending(keys.take(32)));
    assert(keys.take(33).drop_last() =~= keys.take(32));
    assert(ascending(keys.take(33)));
    assert(keys.take(34).drop_last() =~= keys.take(33));
    assert(ascending(keys.take(34)));
    assert(keys.take(35).drop_last() =~= keys.take(34));
    assert(ascending(keys.take(35)));
    assert(keys.take(36).drop_last() =~= keys.take(35));
    assert(ascending(keys.take(36)));
    assert(keys.take(36) =~= keys);
    lemma_keyboard_states_sorted(keys, ws, windows, config);
}

/// Every key of `m` is a workspace character.
pub open spec fn workspace_char_keys<A>(m: Seq<(char, A)>) -> bool {
    forall|i: int| 0 <= i < m.len() ==> is_workspace_char_spec(#[trigger] m[i].0)
}

/// The per-key maps of `config` hold each key once, and only workspace characters.
pub open spec fn key_maps_wf(config: ResolvedConfig) -> bool {
    &&& keys_unique(config.workspace_names@)
    &&& keys_unique(config.workspace_programs@)
    &&& keys_unique(config.static_workspaces@)
    &&& workspace_char_keys(config.workspace_names@)
    &&& workspace_char_keys(config.workspace_programs@)
    &&& workspace_char_keys(config.static_workspaces@)
}

/// What `v` with `x` added shows.
proof fn lemma_key_states_push(v: Seq<DynWorkspaceInfo>, x: DynWorkspaceInfo)
    ensures
        key_states(v.push(x)) == key_states(v).push(key_state(x)),
{
    assert(key_states(v.push(x)) =~= key_states(v).push(key_state(x)));
}

/// A copy of `o`.
fn clone_opt(o: &Option<String>) -> (r: Option<String>)
    ensures
        opt_string(r) == opt_string(*o),
{
    match o {
        Some(s) => Some(s.clone()),
        None => None,
    }
}

/// The configured name of key `ch`.
fn name_of(names: &Vec<(char, String)>, ch: char) -> (r: Option<String>)
    requires
        keys_unique(names@),
    ensures
        opt_string(r) == name_for(names@, ch),
{
    match assoc_get(names, ch) {
        Some(n) => Some(n.clone()),
        None => None,
    }
}

/// Whether `focused` is `id`.
fn is_focused_id(focused: Option<u64>, id: u64) -> (r: bool)
    ensures
        r == (focused == Some(id)),
{
    match focused {
        Some(f) => f == id,
        None => false,
    }
}

/// The key `ch` of live dynamic workspace `w`.
fn live_info(
    w: &Workspace,
    ch: char,
    config: &ResolvedConfig,
    urgent: &Vec<u64>,
    occupied: &Vec<u64>,
    focused: Option<u64>,
    Ghost(windows): Ghost<Seq<Window>>,
) -> (r: DynWorkspaceInfo)
    requires
        keys_unique(config.workspace_names@),
        forall|id: u64| urgent@.contains(id) <==> has_urgent_window(windows, id),
        forall|id: u64| occupied@.contains(id) <==> has_window(windows, id),
    ensures
        key_state(r) == live_state(*w, ch, windows, focused, config.workspace_names@, config.workspace_prefix@),
{
    let is_focused = is_focused_id(focused, w.id);
    let name = match name_of(&config.workspace_names, ch) {
        Some(n) => Some(n),
        None => match &w.name {
            Some(n) => match parse_dynamic_name(n.as_str(), config.workspace_prefix.as_str()) {
                Some((_, Some(t))) => Some(t.to_string()),
                _ => None,
            },
            None => None,
        },
    };
    DynWorkspaceInfo {
        char_id: ch,
        is_focused,
        is_active: !is_focused && w.is_active,
        is_uncreated: false,
        is_urgent: w.is_urgent || contains_id(urgent, w.id),
        is_static: false,
        is_empty: !contains_id(occupied, w.id),
        name,
        ws_name: clone_opt(&w.name),
        output: clone_opt(&w.output),
    }
}

/// The first workspace named `name`, compared as niri compares names.
fn find_named<'a>(ws: &'a Vec<Workspace>, name: &str) -> (r: Option<&'a Workspace>)
    ensures
        match r {
            Some(w) => named_first(ws@, name@) == Some(*w),
            None => named_first(ws@, name@) is None,
        },
{
    let mut i: usize = 0;
    assert(ws@.skip(0) =~= ws@);
    while i < ws.len()
        invariant
            i <= ws@.len(),
            named_first(ws@, name@) == named_first(ws@.skip(i as int), name@),
        decreases ws@.len() - i,
    {
        assert(ws@.skip(i as int)[0] == ws@[i as int]);
        let hit = match &ws[i].name {
            Some(n) => str_eq_ignore_case(n.as_str(), name),
            None => false,
        };
        if hit {
            return Some(&ws[i]);
        }
        assert(ws@.skip(i as int).drop_first() =~= ws@.skip(i + 1));
        i = i + 1;
    }
    None
}

/// Key `ch` pinned to the workspace named `target`.
fn static_info(
    ch: char,
    target: &String,
    workspaces: &Vec<Workspace>,
    config: &ResolvedConfig,
    urgent: &Vec<u64>,
    occupied: &Vec<u64>,
    focused: Option<u64>,
    Ghost(windows): Ghost<Seq<Window>>,
) -> (r: DynWorkspaceInfo)
    requires
        keys_unique(config.workspace_names@),
        forall|id: u64| urgent@.contains(id) <==> has_urgent_window(windows, id),
        forall|id: u64| occupied@.contains(id) <==> has_window(windows, id),
    ensures
        key_state(r) == static_state(ch, target@, workspaces@, windows, focused, config.workspace_names@),
{
    let name = name_of(&config.workspace_names, ch);
    match find_named(workspaces, target.as_str()) {
        Some(w) => {
            let is_focused = is_focused_id(focused, w.id);
            DynWorkspaceInfo {
                char_id: ch,
                is_focused,
                is_active: !is_focused && w.is_active,
                is_uncreated: false,
                is_urgent: w.is_urgent || contains_id(urgent, w.id),
                is_static: true,
                is_empty: !contains_id(occupied, w.id),
                name,
                ws_name: Some(target.clone()),
                output: clone_opt(&w.output),
            }
        },
        None => DynWorkspaceInfo {
            char_id: ch,
            is_focused: false,
            is_active: false,
            is_uncreated: true,
            is_urgent: false,
            is_static: true,
            is_empty: false,
            name,
            ws_name: Some(target.clone()),
            output: None,
        },
    }
}

/// Add what key `ch` shows to `infos`.
fn push_key_infos(
    infos: &mut Vec<DynWorkspaceInfo>,
    ch: char,
    workspaces: &Vec<Workspace>,
    config: &ResolvedConfig,
    urgent: &Vec<u64>,
    occupied: &Vec<u64>,
    focused: Option<u64>,
    Ghost(windows): Ghost<Seq<Window>>,
)
    requires
        key_maps_wf(*config),
        focused == focused_id(workspaces@),
        forall|id: u64| urgent@.contains(id) <==> has_urgent_window(windows, id),
        forall|id: u64| occupied@.contains(id) <==> has_window(windows, id),
    ensures
        key_states(final(infos)@) == key_states(old(infos)@) + states_for(ch, workspaces@, windows, *config),
{
    let ghost names = config.workspace_names@;
    let ghost prefix = config.workspace_prefix@;
    match assoc_get(&config.static_workspaces, ch) {
        Some(target) => {
            let info = static_info(ch, target, workspaces, config, urgent, occupied, focused, Ghost(windows));
            proof {
                lemma_key_states_push(infos@, info);
            }
            infos.push(info);
            assert(key_states(infos@) =~= key_states(old(infos)@) + states_for(ch, workspaces@, windows, *config));
        },
        None => {
            let mut found = false;
            let mut i: usize = 0;
            assert(workspaces@.take(0) =~= Seq::<Workspace>::empty());
            assert(key_states(infos@) =~= key_states(old(infos)@) + live_states(workspaces@.take(0), ch, windows, focused, names, prefix));
            while i < workspaces.len()
                invariant
                    i <= workspaces@.len(),
                    names == config.workspace_names@,
                    prefix == config.workspace_prefix@,
                    keys_unique(config.workspace_names@),
                    forall|id: u64| urgent@.contains(id) <==> has_urgent_window(windows, id),
                    forall|id: u64| occupied@.contains(id) <==> has_window(windows, id),
                    key_states(infos@) == key_states(old(infos)@) + live_states(workspaces@.take(i as int), ch, windows, focused, names, prefix),
                    found == (live_states(workspaces@.take(i as int), ch, windows, focused, names, prefix).len() > 0),
                decreases workspaces@.len() - i,
            {
                assert(workspaces@.take(i + 1).drop_last() =~= workspaces@.take(i as int));
                assert(workspaces@.take(i + 1).last() == workspaces@[i as int]);
                let k = dyn_key_of(&workspaces[i], config.workspace_prefix.as_str());
                let hit = match k {
                    Some(c) => c == ch,
                    None => false,
                };
                if hit {
                    let info = live_info(&workspaces[i], ch, config, urgent, occupied, focused, Ghost(windows));
                    proof {
                        lemma_key_states_push(infos@, info);
                    }
                    infos.push(info);
                    found = true;
                    assert(key_states(infos@) =~= key_states(old(infos)@) + live_states(workspaces@.take(i + 1), ch, windows, focused, names, prefix));
                }
                i = i + 1;
            }
            assert(workspaces@.take(workspaces@.len() as int) =~= workspaces@);
            if !found {
                let named = assoc_get(&config.workspace_names, ch).is_some();
                let with_programs = assoc_get(&config.workspace_programs, ch).is_some();
                if named || with_programs {
                    let mut info = DynWorkspaceInfo::uncreated(ch);
                    info.name = name_of(&config.workspace_names, ch);
                    proof {
                        lemma_key_states_push(infos@, info);
                    }
                    infos.push(info);
                    assert(key_states(infos@) =~= key_states(old(infos)@) + states_for(ch, workspaces@, windows, *config));
                }
            }
        },
    }
}

/// The keys of the keyboard in ascending order.
fn all_workspace_keys() -> (r: Vec<char>)
    ensures
        r@ == workspace_keys(),
{
    let r = vec![
        '0', '1', '2', '3', '4', '5', '6', '7', '8', '9',
        'a', 'b', 'c', 'd', 'e', 'f', 'g', 'h', 'i', 'j', 'k', 'l', 'm',
        'n', 'o', 'p', 'q', 'r', 's', 't', 'u', 'v', 'w', 'x', 'y', 'z',
    ];
    assert(r@ =~= workspace_keys());
    r
}

/// What every key of the keyboard shows, ordered by key: a pinned key
/// mirrors its workspace, a dynamic key shows its live workspaces, and a
/// configured key without one shows as uncreated.
pub fn build_dyn_workspace_infos(
    workspaces: &Vec<Workspace>,
    windows: &Vec<Window>,
    config: &ResolvedConfig,
) -> (r: Vec<DynWorkspaceInfo>)
    requires
        key_maps_wf(*config),
    ensures
        key_states(r@) == keyboard_spec(workspaces@, windows@, *config),
        forall|a: int, b: int| 0 <= a < b < r@.len() ==> (#[trigger] r@[a].char_id as u32) <= (#[trigger] r@[b].char_id as u32),
{
    let urgent = urgent_workspace_ids(windows);
    let occupied = occupied_workspace_ids(windows);
    let focused = focused_workspace_id_from(workspaces);
    let keys = all_workspace_keys();
    let mut infos: Vec<DynWorkspaceInfo> = Vec::new();
    let mut k: usize = 0;
    assert(keys@.take(0) =~= Seq::<char>::empty());
    assert(key_states(infos@) =~= Seq::<KeyState>::empty());
    while k < keys.len()
        invariant
            k <= keys@.len(),
            key_maps_wf(*config),
            focused == focused_id(workspaces@),
            forall|id: u64| urgent@.contains(id) <==> has_urgent_window(windows@, id),
            forall|id: u64| occupied@.contains(id) <==> has_window(windows@, id),
            key_states(infos@) == keyboard_states(keys@.take(k as int), workspaces@, windows@, *config),
        decreases keys@.len() - k,
    {
        assert(keys@.take(k + 1).drop_last() =~= keys@.take(k as int));
        assert(keys@.take(k + 1).last() == keys@[k as int]);
        push_key_infos(&mut infos, keys[k], workspaces, config, &urgent, &occupied, focused, Ghost(windows@));
        k = k + 1;
    }
    assert(keys@.take(keys@.len() as int) =~= keys@);
    proof {
        lemma_keyboard_sorted(workspaces@, windows@, *config);
        let ks = keyboard_spec(workspaces@, windows@, *config);
        assert(key_states(infos@) == ks);
        assert forall|a: int, b: int| 0 <= a < b < infos@.len() implies (#[trigger] infos@[a].char_id as u32) <= (#[trigger] infos@[b].char_id as u32) by {
            assert((ks[a].char_id as u32) <= (ks[b].char_id as u32));
            assert(key_states(infos@)[a] == key_state(infos@[a]));
            assert(key_states(infos@)[b] == key_state(infos@[b]));
        }
    }
    infos
}

/// The states of `states` by key; a later state of a key wins.
pub open spec fn states_by_key(states: Seq<KeyState>) -> Map<char, KeyState>
    decreases states.len(),
{
    if states.len() == 0 {
        Map::empty()
    } else {
        states_by_key(states.drop_last()).insert(states.last().char_id, states.last())
    }
}

/// A key with nothing behind it.
pub open spec fn blank_state(ch: char) -> KeyState {
    KeyState {
        char_id: ch,
        is_focused: false,
        is_active: false,
        is_uncreated: true,
        is_urgent: false,
        is_static: false,
        is_empty: false,
        name: None,
        ws_name: None,
        output: None,
    }
}

/// `m` with a blank state for each of `keys` that has none.
pub open spec fn fill_keys(m: Map<char, KeyState>, keys: Seq<char>) -> Map<char, KeyState>
    decreases keys.len(),
{
    if keys.len() == 0 {
        m
    } else {
        let f = fill_keys(m, keys.drop_last());
        if f.dom().contains(keys.last()) {
            f
        } else {
            f.insert(keys.last(), blank_state(keys.last()))
        }
    }
}

/// `m` with a blank state for each key of `rows` that has none.
pub open spec fn fill_rows(m: Map<char, KeyState>, rows: Seq<Seq<char>>) -> Map<char, KeyState>
    decreases rows.len(),
{
    if rows.len() == 0 {
        m
    } else {
        fill_keys(fill_rows(m, rows.drop_last()), rows.last())
    }
}

/// What each key of the keyboard shows, by key: the keys with a workspace,
/// and every key of the layout.
pub open spec fn full_keyboard_spec(ws: Seq<Workspace>, windows: Seq<Window>, config: ResolvedConfig) -> Map<char, KeyState> {
    fill_rows(states_by_key(keyboard_spec(ws, windows, config)), config.layout.rows.deep_view())
}

/// What each entry of `m` shows, by key.
pub open spec fn states_of_map(m: Seq<(char, DynWorkspaceInfo)>) -> Map<char, KeyState> {
    assoc_map(m).map_values(|i: DynWorkspaceInfo| key_state(i))
}

proof fn lemma_states_of_map_insert(m: Map<char, DynWorkspaceInfo>, k: char, v: DynWorkspaceInfo)
    ensures
        m.insert(k, v).map_values(|i: DynWorkspaceInfo| key_state(i)) == m.map_values(|i: DynWorkspaceInfo| key_state(i)).insert(k, key_state(v)),
{
    assert(m.insert(k, v).map_values(|i: DynWorkspaceInfo| key_state(i)) =~= m.map_values(|i: DynWorkspaceInfo| key_state(i)).insert(k, key_state(v)));
}

/// What every key shows: each key with a workspace (the last of a key's
/// infos wins), and each other key of the layout as a key with nothing behind it.
pub fn build_full_keyboard_info(
    workspaces: &Vec<Workspace>,
    windows: &Vec<Window>,
    config: &ResolvedConfig,
) -> (r: Vec<(char, DynWorkspaceInfo)>)
    requires
        key_maps_wf(*config),
    ensures
        keys_unique(r@),
        states_of_map(r@) == full_keyboard_spec(workspaces@, windows@, *config),
{
    let mut infos = build_dyn_workspace_infos(workspaces, windows, config);
    let ghost st = key_states(infos@);
    let ghost orig = infos@;
    let total = infos.len();
    assert(orig.len() == total);
    let mut m: Vec<(char, DynWorkspaceInfo)> = Vec::new();
    let mut done: usize = 0;
    assert(st.take(0) =~= Seq::<KeyState>::empty());
    assert(states_of_map(m@) =~= Map::<char, KeyState>::empty());
    assert(orig.skip(0) =~= orig);
    while infos.len() > 0
        invariant
            st == key_states(orig),
            st.len() == orig.len(),
            orig.len() <= usize::MAX,
            done + infos@.len() == orig.len(),
            infos@ == orig.skip(done as int),
            keys_unique(m@),
            states_of_map(m@) == states_by_key(st.take(done as int)),
        decreases infos@.len(),
    {
        let info = infos.remove(0);
        assert(info == orig[done as int]);
        assert(st[done as int] == key_state(info));
        proof {
            lemma_states_of_map_insert(assoc_map(m@), info.char_id, info);
        }
        let k = info.char_id;
        assoc_insert(&mut m, k, info);
        assert(st.take(done + 1).drop_last() =~= st.take(done as int));
        assert(infos@ =~= orig.skip(done + 1));
        done = done + 1;
    }
    assert(st.take(done as int) =~= st);
    let ghost m0 = states_by_key(st);
    let ghost rows = config.layout.rows.deep_view();
    let mut ri: usize = 0;
    assert(rows.take(0) =~= Seq::<Seq<char>>::empty());
    while ri < config.layout.rows.len()
        invariant
            rows == config.layout.rows.deep_view(),
            ri <= rows.len(),
            keys_unique(m@),
            states_of_map(m@) == fill_rows(m0, rows.take(ri as int)),
        decreases rows.len() - ri,
    {
        let row = &config.layout.rows[ri];
        assert(rows[ri as int] == row@);
        let ghost base = fill_rows(m0, rows.take(ri as int));
        let mut ki: usize = 0;
        assert(row@.take(0) =~= Seq::<char>::empty());
        while ki < row.len()
            invariant
                ki <= row@.len(),
                keys_unique(m@),
                states_of_map(m@) == fill_keys(base, row@.take(ki as int)),
            decreases row@.len() - ki,
        {
            let k = row[ki];
            assert(row@.take(ki + 1).drop_last() =~= row@.take(ki as int));
            assert(row@.take(ki + 1).last() == k);
            if assoc_get(&m, k).is_none() {
                let info = DynWorkspaceInfo::uncreated(k);
                assert(key_state(info) == blank_state(k));
                proof {
                    lemma_states_of_map_insert(assoc_map(m@), k, info);
                }
                assoc_insert(&mut m, k, info);
            }
            ki = ki + 1;
        }
        assert(row@.take(row@.len() as int) =~= row@);
        assert(rows.take(ri + 1).drop_last() =~= rows.take(ri as int));
        assert(rows.take(ri + 1).last() == row@);
        ri = ri + 1;
    }
    assert(rows.take(rows.len() as int) =~= rows);
    m
}

/// A workspace of the row under the keyboard: one that no key reaches.
pub struct StaticWorkspaceInfo {
    pub name: String,
    pub is_focused: bool,
    pub is_active: bool,
    pub is_urgent: bool,
    pub is_empty: bool,
}

/// What an entry of the static row shows, as plain values.
pub struct RowState {
    pub name: Seq<char>,
    pub is_focused: bool,
    pub is_active: bool,
    pub is_urgent: bool,
    pub is_empty: bool,
}

/// What `i` shows.
pub open spec fn row_state(i: StaticWorkspaceInfo) -> RowState {
    RowState {
        name: i.name@,
        is_focused: i.is_focused,
        is_active: i.is_active,
        is_urgent: i.is_urgent,
        is_empty: i.is_empty,
    }
}

/// What each of `v` shows.
pub open spec fn row_states(v: Seq<StaticWorkspaceInfo>) -> Seq<RowState> {
    v.map_values(|i: StaticWorkspaceInfo| row_state(i))
}

/// Some key is pinned to the workspace named `name`, compared as niri compares names.
pub open spec fn pinned_target(statics: Seq<(char, String)>, name: Seq<char>) -> bool {
    exists|i: int| 0 <= i < statics.len() && eq_ignore_case((#[trigger] statics[i]).1@, name)
}

/// Workspace `w` belongs in the static row: it is on the focused output, its
/// name is neither a dynamic workspace name nor pinned to a key, and it is
/// not hidden for being empty (a focused or urgent workspace never is).
pub open spec fn in_static_row(w: Workspace, ws: Seq<Workspace>, windows: Seq<Window>, config: ResolvedConfig) -> bool {
    &&& opt_string(w.output) == focused_output(ws)
    &&& match w.name {
        Some(n) => parse_dynamic_name_spec(n@, config.workspace_prefix@) is None && !pinned_target(
            config.static_workspaces@,
            n@,
        ),
        None => true,
    }
    &&& (!config.hide_empty_static || has_window(windows, w.id) || w.is_focused || w.is_urgent
        || has_urgent_window(windows, w.id))
}

/// The entry of `w` in the static row: named by its name, or else its index.
pub open spec fn static_row_entry(w: Workspace, windows: Seq<Window>) -> RowState {
    RowState {
        name: match w.name {
            Some(n) => n@,
            None => decimal(w.idx as nat),
        },
        is_focused: w.is_focused,
        is_active: !w.is_focused && w.is_active,
        is_urgent: w.is_urgent || has_urgent_window(windows, w.id),
        is_empty: !has_window(windows, w.id),
    }
}

/// The static row entries of `part`, a prefix of `ws`, in order.
pub open spec fn static_row_states(
    part: Seq<Workspace>,
    ws: Seq<Workspace>,
    windows: Seq<Window>,
    config: ResolvedConfig,
) -> Seq<RowState>
    decreases part.len(),
{
    if part.len() == 0 {
        Seq::empty()
    } else {
        let rest = static_row_states(part.drop_last(), ws, windows, config);
        if in_static_row(part.last(), ws, windows, config) {
            rest.push(static_row_entry(part.last(), windows))
        } else {
            rest
        }
    }
}

/// The static row for `ws`, in workspace order.
pub open spec fn static_row_spec(ws: Seq<Workspace>, windows: Seq<Window>, config: ResolvedConfig) -> Seq<RowState> {
    static_row_states(ws, ws, windows, config)
}

/// Whether some key is pinned to the workspace named `name`.
fn is_pinned_target(statics: &Vec<(char, String)>, name: &str) -> (r: bool)
    ensures
        r == pinned_target(statics@, name@),
{
    let mut i: usize = 0;
    while i < statics.len()
        invariant
            i <= statics@.len(),
            forall|j: int| 0 <= j < i ==> !eq_ignore_case((#[trigger] statics@[j]).1@, name@),
        decreases statics@.len() - i,
    {
        if str_eq_ignore_case(statics[i].1.as_str(), name) {
            return true;
        }
        i = i + 1;
    }
    false
}

/// The workspaces on the focused output that no key reaches, in order.
pub fn build_static_workspace_infos(
    workspaces: &Vec<Workspace>,
    windows: &Vec<Window>,
    config: &ResolvedConfig,
) -> (r: Vec<StaticWorkspaceInfo>)
    ensures
        row_states(r@) == static_row_spec(workspaces@, windows@, *config),
{
    let output = find_focused_output(workspaces);
    let urgent = urgent_workspace_ids(windows);
    let occupied = occupied_workspace_ids(windows);
    let mut row: Vec<StaticWorkspaceInfo> = Vec::new();
    let mut i: usize = 0;
    assert(workspaces@.take(0) =~= Seq::<Workspace>::empty());
    assert(row_states(row@) =~= Seq::<RowState>::empty());
    while i < workspaces.len()
        invariant
            i <= workspaces@.len(),
            opt_string(output) == focused_output(workspaces@),
            forall|id: u64| urgent@.contains(id) <==> has_urgent_window(windows@, id),
            forall|id: u64| occupied@.contains(id) <==> has_window(windows@, id),
            row_states(row@) == static_row_states(workspaces@.take(i as int), workspaces@, windows@, *config),
        decreases workspaces@.len() - i,
    {
        assert(workspaces@.take(i + 1).drop_last() =~= workspaces@.take(i as int));
        assert(workspaces@.take(i + 1).last() == workspaces@[i as int]);
        let w = &workspaces[i];
        let on_output = same_opt_string(&w.output, &output);
        let unreached = match &w.name {
            Some(n) => parse_dynamic_name(n.as_str(), config.workspace_prefix.as_str()).is_none()
                && !is_pinned_target(&config.static_workspaces, n.as_str()),
            None => true,
        };
        let is_urgent = w.is_urgent || contains_id(&urgent, w.id);
        let has_windows = contains_id(&occupied, w.id);
        let shown = !config.hide_empty_static || has_windows || w.is_focused || is_urgent;
        if on_output && unreached && shown {
            let name = match &w.name {
                Some(n) => n.clone(),
                None => decimal_string(w.idx as u128),
            };
            let entry = StaticWorkspaceInfo {
                name,
                is_focused: w.is_focused,
                is_active: !w.is_focused && w.is_active,
                is_urgent,
                is_empty: !has_windows,
            };
            let ghost before = row@;
            row.push(entry);
            assert(row_states(row@) =~= row_states(before).push(row_state(entry)));
        }
        i = i + 1;
    }
    assert(workspaces@.take(workspaces@.len() as int) =~= workspaces@);
    row
}

} // verus!


