//! The workspace actions on niri: which workspace a key names, where a new
//! one goes, which windows belong to which programs, and the exact requests
//! each action sends for the answers it gets.

use vstd::prelude::*;

use crate::ipc::{copy_window, Window, Workspace};
use crate::naming::{parse_dynamic_name, parse_dynamic_name_spec};
use crate::text::{
    eq_ignore_case, split_char, split_char_spec, str_eq, str_eq_ignore_case, words,
    words_spec,
};

verus! {

/// The text of an optional string.
pub open spec fn opt_string(o: Option<String>) -> Option<Seq<char>> {
    match o {
        Some(s) => Some(s@),
        None => None,
    }
}

/// Workspace `w` is the dynamic workspace for key `ch` under `prefix`, titled or not.
pub open spec fn has_key(w: Workspace, prefix: Seq<char>, ch: char) -> bool {
    match w.name {
        Some(n) => match parse_dynamic_name_spec(n@, prefix) {
            Some((k, _)) => k == ch,
            None => false,
        },
        None => false,
    }
}

/// `i` is the first index of `ws` whose workspace is the one for `ch`.
pub open spec fn first_with_key(ws: Seq<Workspace>, prefix: Seq<char>, ch: char, i: int) -> bool {
    &&& 0 <= i < ws.len()
    &&& has_key(ws[i], prefix, ch)
    &&& forall|j: int| 0 <= j < i ==> !has_key(#[trigger] ws[j], prefix, ch)
}

/// No workspace of `ws` is the one for `ch`.
pub open spec fn none_with_key(ws: Seq<Workspace>, prefix: Seq<char>, ch: char) -> bool {
    forall|j: int| 0 <= j < ws.len() ==> !has_key(#[trigger] ws[j], prefix, ch)
}

/// The index of the first workspace for `ch`, if any.
pub fn find_workspace_index(ws: &Vec<Workspace>, prefix: &str, ch: char) -> (r: Option<usize>)
    ensures
        match r {
            Some(i) => first_with_key(ws@, prefix@, ch, i as int),
            None => none_with_key(ws@, prefix@, ch),
        },
{
    let mut i: usize = 0;
    while i < ws.len()
        invariant
            i <= ws@.len(),
            forall|j: int| 0 <= j < i ==> !has_key(#[trigger] ws@[j], prefix@, ch),
        decreases ws@.len() - i,
    {
        match &ws[i].name {
            Some(n) => match parse_dynamic_name(n.as_str(), prefix) {
                Some((k, _)) => {
                    if k == ch {
                        return Some(i);
                    }
                },
                None => {},
            },
            None => {},
        }
        i = i + 1;
    }
    None
}

/// Find a workspace by prefix and key character: its name is the prefix and
/// the character, then nothing or a space and a title.
pub fn find_workspace_by_char<'a>(ws: &'a Vec<Workspace>, prefix: &str, ch: char) -> (r: Option<&'a Workspace>)
    ensures
        match r {
            Some(w) => exists|i: int| first_with_key(ws@, prefix@, ch, i) && *w == ws@[i],
            None => none_with_key(ws@, prefix@, ch),
        },
{
    match find_workspace_index(ws, prefix, ch) {
        Some(i) => Some(&ws[i]),
        None => None,
    }
}

/// The message when no window is focused.
pub open spec fn no_focused_window_message() -> Seq<char> {
    "no focused window to move"@
}

/// The focused workspace's active window: the first focused workspace's, if it has one.
pub open spec fn focused_window_spec(ws: Seq<Workspace>) -> Option<u64>
    decreases ws.len(),
{
    if ws.len() == 0 {
        None
    } else if ws[0].is_focused {
        ws[0].active_window_id
    } else {
        focused_window_spec(ws.drop_first())
    }
}

/// The window that a move without a window id would move: the active window
/// of the focused workspace.
pub fn focused_window_id(ws: &Vec<Workspace>) -> (r: Result<u64, String>)
    ensures
        match (r, focused_window_spec(ws@)) {
            (Ok(id), Some(f)) => id == f,
            (Err(e), None) => e@ == no_focused_window_message(),
            _ => false,
        },
{
    let mut i: usize = 0;
    assert(ws@.skip(0) =~= ws@);
    while i < ws.len()
        invariant
            i <= ws@.len(),
            focused_window_spec(ws@) == focused_window_spec(ws@.skip(i as int)),
        decreases ws@.len() - i,
    {
        assert(ws@.skip(i as int)[0] == ws@[i as int]);
        if ws[i].is_focused {
            return match ws[i].active_window_id {
                Some(id) => Ok(id),
                None => Err("no focused window to move".to_string()),
            };
        }
        assert(ws@.skip(i as int).drop_first() =~= ws@.skip(i + 1));
        i = i + 1;
    }
    Err("no focused window to move".to_string())
}

/// The output of the first focused workspace; none when no workspace is focused.
pub open spec fn focused_output(ws: Seq<Workspace>) -> Option<Seq<char>>
    decreases ws.len(),
{
    if ws.len() == 0 {
        None
    } else if ws[0].is_focused {
        opt_string(ws[0].output)
    } else {
        focused_output(ws.drop_first())
    }
}

/// `ws[i]` is the last of the workspaces on the focused output with the highest index.
pub open spec fn is_trailing(ws: Seq<Workspace>, i: int) -> bool {
    let o = focused_output(ws);
    &&& 0 <= i < ws.len()
    &&& opt_string(ws[i].output) == o
    &&& forall|j: int| 0 <= j < ws.len() && opt_string(#[trigger] ws[j].output) == o ==> ws[j].idx <= ws[i].idx
    &&& forall|j: int| i < j < ws.len() && opt_string(#[trigger] ws[j].output) == o ==> ws[j].idx < ws[i].idx
}

/// A workspace with no name and no window.
pub open spec fn is_empty_unnamed(w: Workspace) -> bool {
    w.name is None && w.active_window_id is None
}

/// The message when the focused output has no empty workspace at its end.
pub open spec fn no_empty_workspace_message() -> Seq<char> {
    "no empty workspace available on the focused output"@
}

/// Whether two optional strings hold the same text.
pub fn same_opt_string(a: &Option<String>, b: &Option<String>) -> (r: bool)
    ensures
        r == (opt_string(*a) == opt_string(*b)),
{
    match (a, b) {
        (Some(x), Some(y)) => str_eq(x.as_str(), y.as_str()),
        (None, None) => true,
        _ => false,
    }
}

/// The output of the first focused workspace.
pub fn find_focused_output(ws: &Vec<Workspace>) -> (r: Option<String>)
    ensures
        opt_string(r) == focused_output(ws@),
{
    let mut i: usize = 0;
    assert(ws@.skip(0) =~= ws@);
    while i < ws.len()
        invariant
            i <= ws@.len(),
            focused_output(ws@) == focused_output(ws@.skip(i as int)),
        decreases ws@.len() - i,
    {
        assert(ws@.skip(i as int)[0] == ws@[i as int]);
        if ws[i].is_focused {
            return match &ws[i].output {
                Some(o) => Some(o.clone()),
                None => None,
            };
        }
        assert(ws@.skip(i as int).drop_first() =~= ws@.skip(i + 1));
        i = i + 1;
    }
    None
}

/// The workspace at the end of the focused output, which niri keeps empty:
/// the one a new workspace takes over. Targeted by id, since focus can move
/// between requests.
pub fn trailing_empty_workspace(ws: &Vec<Workspace>) -> (r: Result<&Workspace, String>)
    ensures
        match r {
            Ok(w) => exists|i: int| is_trailing(ws@, i) && is_empty_unnamed(ws@[i]) && *w == ws@[i],
            Err(e) => e@ == no_empty_workspace_message() && forall|i: int| is_trailing(ws@, i) ==> !is_empty_unnamed(ws@[i]),
        },
{
    let o = find_focused_output(ws);
    let ghost og = focused_output(ws@);
    let mut best: Option<usize> = None;
    let mut i: usize = 0;
    while i < ws.len()
        invariant
            i <= ws@.len(),
            opt_string(o) == og,
            og == focused_output(ws@),
            match best {
                None => forall|j: int| 0 <= j < i ==> opt_string(#[trigger] ws@[j].output) != og,
                Some(b) => {
                    &&& b < i
                    &&& opt_string(ws@[b as int].output) == og
                    &&& forall|j: int| 0 <= j < i && opt_string(#[trigger] ws@[j].output) == og ==> ws@[j].idx <= ws@[b as int].idx
                    &&& forall|j: int| b < j < i && opt_string(#[trigger] ws@[j].output) == og ==> ws@[j].idx < ws@[b as int].idx
                },
            },
        decreases ws@.len() - i,
    {
        if same_opt_string(&ws[i].output, &o) {
            match best {
                None => {
                    best = Some(i);
                },
                Some(b) => {
                    if ws[i].idx >= ws[b].idx {
                        best = Some(i);
                    }
                },
            }
        }
        i = i + 1;
    }
    match best {
        Some(b) => {
            assert(is_trailing(ws@, b as int));
            if ws[b].name.is_none() && ws[b].active_window_id.is_none() {
                Ok(&ws[b])
            } else {
                proof {
                    assert forall|k: int| is_trailing(ws@, k) implies !is_empty_unnamed(ws@[k]) by {
                        if k != b {
                            if k < b {
                                assert(ws@[b as int].idx < ws@[k].idx);
                            } else {
                                assert(ws@[k].idx < ws@[b as int].idx);
                            }
                        }
                    }
                }
                Err("no empty workspace available on the focused output".to_string())
            }
        },
        None => Err("no empty workspace available on the focused output".to_string()),
    }
}

/// `w` is named `name`, compared the way niri compares names.
pub open spec fn named(w: Workspace, name: Seq<char>) -> bool {
    match w.name {
        Some(n) => eq_ignore_case(n@, name),
        None => false,
    }
}

/// The id of the first workspace named `name`, if any.
pub open spec fn id_by_name_spec(ws: Seq<Workspace>, name: Seq<char>) -> Option<u64>
    decreases ws.len(),
{
    if ws.len() == 0 {
        None
    } else if named(ws[0], name) {
        Some(ws[0].id)
    } else {
        id_by_name_spec(ws.drop_first(), name)
    }
}

/// The id of the first workspace named `name`, ignoring ASCII case.
pub fn id_by_name(ws: &Vec<Workspace>, name: &str) -> (r: Option<u64>)
    ensures
        r == id_by_name_spec(ws@, name@),
{
    let mut i: usize = 0;
    assert(ws@.skip(0) =~= ws@);
    while i < ws.len()
        invariant
            i <= ws@.len(),
            id_by_name_spec(ws@, name@) == id_by_name_spec(ws@.skip(i as int), name@),
        decreases ws@.len() - i,
    {
        assert(ws@.skip(i as int)[0] == ws@[i as int]);
        let hit = match &ws[i].name {
            Some(n) => str_eq_ignore_case(n.as_str(), name),
            None => false,
        };
        if hit {
            return Some(ws[i].id);
        }
        assert(ws@.skip(i as int).drop_first() =~= ws@.skip(i + 1));
        i = i + 1;
    }
    None
}

/// A command word without any leading path: what follows its last `/`.
pub open spec fn basename_spec(word: Seq<char>) -> Seq<char> {
    split_char_spec(word, '/').last()
}

/// A command word without any leading path.
pub fn basename(word: &str) -> (r: String)
    ensures
        r@ == basename_spec(word@),
{
    let mut parts = split_char(word, '/');
    let ghost d = parts.deep_view();
    assert(d.len() > 0);
    let n = parts.len();
    let last = parts.remove(n - 1);
    assert(last@ == d[n - 1]);
    last
}

/// Some `.`-separated segment of `app_id` is `exe`, ignoring ASCII case.
pub open spec fn app_id_matches_spec(app_id: Seq<char>, exe: Seq<char>) -> bool {
    exists|i: int| 0 <= i < split_char_spec(app_id, '.').len() && eq_ignore_case(#[trigger] split_char_spec(app_id, '.')[i], exe)
}

/// Check whether a window's app id matches an executable name: some segment
/// of the id between dots is the name, ignoring ASCII case.
pub fn app_id_matches(app_id: &str, exe: &str) -> (r: bool)
    ensures
        r == app_id_matches_spec(app_id@, exe@),
{
    let segs = split_char(app_id, '.');
    let ghost d = segs.deep_view();
    let mut i: usize = 0;
    while i < segs.len()
        invariant
            d == segs.deep_view(),
            d == split_char_spec(app_id@, '.'),
            i <= segs@.len(),
            forall|j: int| 0 <= j < i ==> !eq_ignore_case(#[trigger] d[j], exe@),
        decreases segs@.len() - i,
    {
        assert(d[i as int] == segs@[i as int]@);
        if str_eq_ignore_case(segs[i].as_str(), exe) {
            return true;
        }
        i = i + 1;
    }
    false
}

/// Command word `word` names the app of `app_id`: its basename is not empty
/// and is a segment of the id or the whole of it, ignoring ASCII case.
pub open spec fn word_matches_spec(app_id: Seq<char>, word: Seq<char>) -> bool {
    let name = basename_spec(word);
    name.len() > 0 && (app_id_matches_spec(app_id, name) || eq_ignore_case(app_id, name))
}

/// Whether a command word names the window's app: its basename is a segment
/// of the app id (`firefox`, `org.mozilla.firefox`) or the whole of it
/// (`com.slack.Slack`).
pub fn word_matches(app_id: &str, word: &str) -> (r: bool)
    ensures
        r == word_matches_spec(app_id@, word@),
{
    let name = basename(word);
    name.unicode_len() > 0 && (app_id_matches(app_id, name.as_str()) || str_eq_ignore_case(app_id, name.as_str()))
}

/// Some word of an argument after the first names the app of `app_id`.
pub open spec fn later_word_matches_spec(command: Seq<Seq<char>>, app_id: Seq<char>) -> bool {
    exists|i: int, k: int|
        1 <= i < command.len() && 0 <= k < words_spec(command[i]).len()
            && word_matches_spec(app_id, #[trigger] words_spec(command[i])[k])
}

/// Whether a word after the first names the window's app, as with the
/// program a wrapper starts: `flatpak run com.slack.Slack`, `uwsm app --
/// kitty`, `env FOO=1 foot`, `sh -c '...; exec foot'`.
pub fn later_word_matches(command: &Vec<String>, app_id: &str) -> (r: bool)
    ensures
        r == later_word_matches_spec(command.deep_view(), app_id@),
{
    let ghost c = command.deep_view();
    let mut i: usize = 1;
    while i < command.len()
        invariant
            c == command.deep_view(),
            1 <= i,
            forall|a: int, k: int|
                1 <= a < i && a < c.len() && 0 <= k < words_spec(c[a]).len()
                    ==> !word_matches_spec(app_id@, #[trigger] words_spec(c[a])[k]),
        decreases command@.len() - i,
    {
        let ws = words(command[i].as_str());
        let ghost wd = ws.deep_view();
        assert(wd == words_spec(c[i as int]));
        let mut k: usize = 0;
        while k < ws.len()
            invariant
                wd == ws.deep_view(),
                c == command.deep_view(),
                1 <= i < c.len(),
                wd == words_spec(c[i as int]),
                k <= ws@.len(),
                forall|m: int| 0 <= m < k ==> !word_matches_spec(app_id@, #[trigger] wd[m]),
            decreases ws@.len() - k,
        {
            assert(wd[k as int] == ws@[k as int]@);
            if word_matches(app_id, ws[k].as_str()) {
                assert(word_matches_spec(app_id@, words_spec(c[i as int])[k as int]));
                return true;
            }
            k = k + 1;
        }
        i = i + 1;
    }
    false
}


/// How a command claims a window's app id.
pub enum ClaimBy {
    /// The command's executable names the app.
    Exe(Seq<char>),
    /// A later word of the command names the app.
    Later(Seq<Seq<char>>),
}

/// App id `app_id` is claimed by `c`.
pub open spec fn claims(c: ClaimBy, app_id: Seq<char>) -> bool {
    match c {
        ClaimBy::Exe(word) => word_matches_spec(app_id, word),
        ClaimBy::Later(command) => later_word_matches_spec(command, app_id),
    }
}

/// The windows with an app id, as id and app id, in order.
pub open spec fn unclaimed_of(ws: Seq<Window>) -> Seq<(u64, Seq<char>)>
    decreases ws.len(),
{
    if ws.len() == 0 {
        Seq::empty()
    } else {
        let u = unclaimed_of(ws.drop_last());
        match ws.last().app_id {
            Some(a) => u.push((ws.last().id, a@)),
            None => u,
        }
    }
}

/// The index of the first unclaimed window that `c` claims; -1 when none.
pub open spec fn claim_index(u: Seq<(u64, Seq<char>)>, c: ClaimBy) -> int
    decreases u.len(),
{
    if u.len() == 0 {
        -1
    } else if claims(c, u[0].1) {
        0
    } else {
        let j = claim_index(u.drop_first(), c);
        if j < 0 {
            -1
        } else {
            j + 1
        }
    }
}

/// Claim with `c`: the claimed window's id and what stays unclaimed.
pub open spec fn claim_step(u: Seq<(u64, Seq<char>)>, c: ClaimBy) -> (Option<u64>, Seq<(u64, Seq<char>)>) {
    let j = claim_index(u, c);
    if j < 0 {
        (None, u)
    } else {
        (Some(u[j].0), u.remove(j))
    }
}

/// First pass: each command, in order, claims a window by its executable.
pub open spec fn match_by_exe(cmds: Seq<Seq<Seq<char>>>, u0: Seq<(u64, Seq<char>)>) -> (Seq<Option<u64>>, Seq<(u64, Seq<char>)>)
    decreases cmds.len(),
{
    if cmds.len() == 0 {
        (Seq::empty(), u0)
    } else {
        let (s, u) = match_by_exe(cmds.drop_last(), u0);
        let c = cmds.last();
        if c.len() == 0 {
            (s.push(None), u)
        } else {
            let (got, rest) = claim_step(u, ClaimBy::Exe(c[0]));
            (s.push(got), rest)
        }
    }
}

/// Second pass: each command still without a window, in order, claims one by a later word.
pub open spec fn match_by_later(cmds: Seq<Seq<Seq<char>>>, s1: Seq<Option<u64>>, u1: Seq<(u64, Seq<char>)>) -> (Seq<Option<u64>>, Seq<(u64, Seq<char>)>)
    decreases cmds.len(),
{
    if cmds.len() == 0 {
        (Seq::empty(), u1)
    } else {
        let (s, u) = match_by_later(cmds.drop_last(), s1, u1);
        let k = cmds.len() - 1;
        if s1[k] is Some {
            (s.push(s1[k]), u)
        } else {
            let (got, rest) = claim_step(u, ClaimBy::Later(cmds.last()));
            (s.push(got), rest)
        }
    }
}

/// The window each command gets: every executable is matched before any later word.
pub open spec fn match_windows_spec(cmds: Seq<Seq<Seq<char>>>, windows: Seq<Window>) -> Seq<Option<u64>> {
    let (s1, u1) = match_by_exe(cmds, unclaimed_of(windows));
    match_by_later(cmds, s1, u1).0
}

proof fn lemma_match_by_exe_len(cmds: Seq<Seq<Seq<char>>>, u0: Seq<(u64, Seq<char>)>)
    ensures
        match_by_exe(cmds, u0).0.len() == cmds.len(),
    decreases cmds.len(),
{
    if cmds.len() > 0 {
        lemma_match_by_exe_len(cmds.drop_last(), u0);
    }
}

proof fn lemma_match_by_later_len(cmds: Seq<Seq<Seq<char>>>, s1: Seq<Option<u64>>, u1: Seq<(u64, Seq<char>)>)
    ensures
        match_by_later(cmds, s1, u1).0.len() == cmds.len(),
    decreases cmds.len(),
{
    if cmds.len() > 0 {
        lemma_match_by_later_len(cmds.drop_last(), s1, u1);
    }
}

/// No window appears twice in pool `u`.
pub open spec fn pool_unique(u: Seq<(u64, Seq<char>)>) -> bool {
    forall|i: int, j: int| 0 <= i < j < u.len() ==> (#[trigger] u[i]).0 != (#[trigger] u[j]).0
}

/// Window `id` is in pool `u`.
pub open spec fn in_pool(u: Seq<(u64, Seq<char>)>, id: u64) -> bool {
    exists|i: int| 0 <= i < u.len() && (#[trigger] u[i]).0 == id
}

/// The ids of `ws` are distinct.
pub open spec fn window_ids_unique(ws: Seq<Window>) -> bool {
    forall|i: int, j: int| 0 <= i < j < ws.len() ==> (#[trigger] ws[i]).id != (#[trigger] ws[j]).id
}

/// Window `id` has an app id among `ws`.
pub open spec fn has_app_window(ws: Seq<Window>, id: u64) -> bool {
    exists|i: int| 0 <= i < ws.len() && (#[trigger] ws[i]).id == id && ws[i].app_id is Some
}

proof fn lemma_claim_index_range(u: Seq<(u64, Seq<char>)>, c: ClaimBy)
    ensures
        -1 <= claim_index(u, c) < u.len(),
    decreases u.len(),
{
    if u.len() > 0 {
        lemma_claim_index_range(u.drop_first(), c);
    }
}

/// A claim takes one window out of the pool and gives its id.
proof fn lemma_claim_step(u: Seq<(u64, Seq<char>)>, c: ClaimBy)
    requires
        pool_unique(u),
    ensures
        pool_unique(claim_step(u, c).1),
        forall|id: u64| #[trigger] in_pool(claim_step(u, c).1, id) <==> (in_pool(u, id) && claim_step(u, c).0 != Some(id)),
        claim_step(u, c).0 matches Some(id) ==> in_pool(u, id),
{
    lemma_claim_index_range(u, c);
    let j = claim_index(u, c);
    if j >= 0 {
        let rest = u.remove(j);
        assert forall|a: int, b: int| 0 <= a < b < rest.len() implies (#[trigger] rest[a]).0 != (#[trigger] rest[b]).0 by {
            let a0 = if a < j { a } else { a + 1 };
            let b0 = if b < j { b } else { b + 1 };
            assert(rest[a] == u[a0]);
            assert(rest[b] == u[b0]);
        }
        assert forall|id: u64| #[trigger] in_pool(rest, id) <==> (in_pool(u, id) && Some(u[j].0) != Some(id)) by {
            if in_pool(rest, id) {
                let i = choose|i: int| 0 <= i < rest.len() && (#[trigger] rest[i]).0 == id;
                let i0 = if i < j { i } else { i + 1 };
                assert(rest[i] == u[i0]);
                assert(u[i0].0 == id);
            }
            if in_pool(u, id) && u[j].0 != id {
                let i = choose|i: int| 0 <= i < u.len() && (#[trigger] u[i]).0 == id;
                assert(i != j);
                if i < j {
                    assert(rest[i] == u[i]);
                } else {
                    assert(rest[i - 1] == u[i]);
                }
            }
        }
        assert(u[j].0 == u[j].0);
        assert(in_pool(u, u[j].0));
    }
}

/// After the first pass: the pool holds no window twice and only windows of
/// the start pool, and each matched window came from the start pool, left
/// the pool and was matched once.
pub open spec fn first_pass_ok(s: Seq<Option<u64>>, u: Seq<(u64, Seq<char>)>, u0: Seq<(u64, Seq<char>)>) -> bool {
    &&& pool_unique(u)
    &&& forall|id: u64| #[trigger] in_pool(u, id) ==> in_pool(u0, id)
    &&& forall|k: int| 0 <= k < s.len() && (#[trigger] s[k]) is Some ==> in_pool(u0, s[k]->0) && !in_pool(u, s[k]->0)
    &&& forall|a: int, b: int| 0 <= a < b < s.len() && (#[trigger] s[a]) is Some && (#[trigger] s[b]) is Some ==> s[a] != s[b]
}

proof fn lemma_match_by_exe_ok(cmds: Seq<Seq<Seq<char>>>, u0: Seq<(u64, Seq<char>)>)
    requires
        pool_unique(u0),
    ensures
        first_pass_ok(match_by_exe(cmds, u0).0, match_by_exe(cmds, u0).1, u0),
    decreases cmds.len(),
{
    if cmds.len() > 0 {
        lemma_match_by_exe_ok(cmds.drop_last(), u0);
        let (s, u) = match_by_exe(cmds.drop_last(), u0);
        let c = cmds.last();
        if c.len() > 0 {
            lemma_claim_step(u, ClaimBy::Exe(c[0]));
            let (got, rest) = claim_step(u, ClaimBy::Exe(c[0]));
            let s2 = s.push(got);
            assert forall|k: int| 0 <= k < s2.len() && (#[trigger] s2[k]) is Some implies in_pool(u0, s2[k]->0) && !in_pool(rest, s2[k]->0) by {
                if k < s.len() {
                    assert(s2[k] == s[k]);
                    assert(!in_pool(u, s[k]->0));
                    assert(!in_pool(rest, s[k]->0));
                } else {
                    assert(in_pool(rest, got->0) <==> (in_pool(u, got->0) && got != Some(got->0)));
                }
            }
            assert forall|a: int, b: int| 0 <= a < b < s2.len() && (#[trigger] s2[a]) is Some && (#[trigger] s2[b]) is Some implies s2[a] != s2[b] by {
                if b < s.len() {
                    assert(s2[a] == s[a]);
                    assert(s2[b] == s[b]);
                } else {
                    assert(s2[a] == s[a]);
                    assert(!in_pool(u, s[a]->0));
                    assert(in_pool(u, got->0));
                }
            }
        } else {
            let s2 = s.push(None);
            assert forall|k: int| 0 <= k < s2.len() && (#[trigger] s2[k]) is Some implies in_pool(u0, s2[k]->0) && !in_pool(u, s2[k]->0) by {
                assert(s2[k] == s[k]);
            }
            assert forall|a: int, b: int| 0 <= a < b < s2.len() && (#[trigger] s2[a]) is Some && (#[trigger] s2[b]) is Some implies s2[a] != s2[b] by {
                assert(s2[a] == s[a]);
                assert(s2[b] == s[b]);
            }
        }
    }
}

/// After the second pass over the first `cmds.len()` commands: each slot kept
/// its first-pass window or took one from the pool, which it left; no window
/// is matched twice.
pub open spec fn second_pass_ok(s: Seq<Option<u64>>, u: Seq<(u64, Seq<char>)>, s1: Seq<Option<u64>>, u1: Seq<(u64, Seq<char>)>) -> bool {
    &&& pool_unique(u)
    &&& forall|id: u64| #[trigger] in_pool(u, id) ==> in_pool(u1, id)
    &&& forall|k: int| 0 <= k < s.len() && (#[trigger] s[k]) is Some ==> (s[k] == s1[k] || (in_pool(u1, s[k]->0) && !in_pool(u, s[k]->0)))
    &&& forall|a: int, b: int| 0 <= a < b < s.len() && (#[trigger] s[a]) is Some && (#[trigger] s[b]) is Some ==> s[a] != s[b]
}

proof fn lemma_match_by_later_ok(cmds: Seq<Seq<Seq<char>>>, s1: Seq<Option<u64>>, u1: Seq<(u64, Seq<char>)>, u0: Seq<(u64, Seq<char>)>)
    requires
        cmds.len() <= s1.len(),
        first_pass_ok(s1, u1, u0),
    ensures
        second_pass_ok(match_by_later(cmds, s1, u1).0, match_by_later(cmds, s1, u1).1, s1, u1),
        match_by_later(cmds, s1, u1).0.len() == cmds.len(),
    decreases cmds.len(),
{
    if cmds.len() > 0 {
        lemma_match_by_later_ok(cmds.drop_last(), s1, u1, u0);
        let (s, u) = match_by_later(cmds.drop_last(), s1, u1);
        let k = cmds.len() - 1;
        if s1[k] is Some {
            let s2 = s.push(s1[k]);
            assert(!in_pool(u1, s1[k]->0));
            assert(!in_pool(u, s1[k]->0));
            assert forall|m: int| 0 <= m < s2.len() && (#[trigger] s2[m]) is Some implies (s2[m] == s1[m] || (in_pool(u1, s2[m]->0) && !in_pool(u, s2[m]->0))) by {
                if m < s.len() {
                    assert(s2[m] == s[m]);
                }
            }
            assert forall|a: int, b: int| 0 <= a < b < s2.len() && (#[trigger] s2[a]) is Some && (#[trigger] s2[b]) is Some implies s2[a] != s2[b] by {
                if b < s.len() {
                    assert(s2[a] == s[a]);
                    assert(s2[b] == s[b]);
                } else {
                    assert(s2[a] == s[a]);
                    if s[a] == s1[a] {
                        assert(s1[a] != s1[k]);
                    } else {
                        assert(in_pool(u1, s[a]->0));
                    }
                }
            }
        } else {
            lemma_claim_step(u, ClaimBy::Later(cmds.last()));
            let (got, rest) = claim_step(u, ClaimBy::Later(cmds.last()));
            let s2 = s.push(got);
            assert forall|m: int| 0 <= m < s2.len() && (#[trigger] s2[m]) is Some implies (s2[m] == s1[m] || (in_pool(u1, s2[m]->0) && !in_pool(rest, s2[m]->0))) by {
                if m < s.len() {
                    assert(s2[m] == s[m]);
                    if s[m] != s1[m] {
                        assert(!in_pool(u, s[m]->0));
                        assert(!in_pool(rest, s[m]->0));
                    }
                } else {
                    assert(in_pool(u, got->0));
                    assert(in_pool(rest, got->0) <==> (in_pool(u, got->0) && got != Some(got->0)));
                }
            }
            assert forall|a: int, b: int| 0 <= a < b < s2.len() && (#[trigger] s2[a]) is Some && (#[trigger] s2[b]) is Some implies s2[a] != s2[b] by {
                if b < s.len() {
                    assert(s2[a] == s[a]);
                    assert(s2[b] == s[b]);
                } else {
                    assert(s2[a] == s[a]);
                    assert(in_pool(u, got->0));
                    if s[a] == s1[a] {
                        assert(!in_pool(u1, s1[a]->0));
                    } else {
                        assert(!in_pool(u, s[a]->0));
                    }
                }
            }
        }
    }
}

proof fn lemma_unclaimed_of(ws: Seq<Window>)
    requires
        window_ids_unique(ws),
    ensures
        pool_unique(unclaimed_of(ws)),
        forall|id: u64| #[trigger] in_pool(unclaimed_of(ws), id) ==> has_app_window(ws, id),
    decreases ws.len(),
{
    if ws.len() > 0 {
        let front = ws.drop_last();
        assert forall|i: int, j: int| 0 <= i < j < front.len() implies (#[trigger] front[i]).id != (#[trigger] front[j]).id by {
            assert(front[i] == ws[i]);
            assert(front[j] == ws[j]);
        }
        lemma_unclaimed_of(front);
        let u = unclaimed_of(front);
        assert forall|id: u64| #[trigger] in_pool(u, id) implies has_app_window(ws, id) by {
            let i = choose|i: int| 0 <= i < front.len() && (#[trigger] front[i]).id == id && front[i].app_id is Some;
            assert(ws[i] == front[i]);
        }
        match ws.last().app_id {
            Some(a) => {
                let u2 = u.push((ws.last().id, a@));
                assert(forall|id: u64| #[trigger] in_pool(u, id) ==> id != ws.last().id) by {
                    assert forall|id: u64| #[trigger] in_pool(u, id) implies id != ws.last().id by {
                        let i = choose|i: int| 0 <= i < front.len() && (#[trigger] front[i]).id == id && front[i].app_id is Some;
                        assert(ws[i] == front[i]);
                        assert(ws[i].id != ws[ws.len() - 1].id);
                    }
                }
                assert forall|i: int, j: int| 0 <= i < j < u2.len() implies (#[trigger] u2[i]).0 != (#[trigger] u2[j]).0 by {
                    if j == u.len() {
                        assert(u2[i] == u[i]);
                        assert(in_pool(u, u[i].0));
                    } else {
                        assert(u2[i] == u[i]);
                        assert(u2[j] == u[j]);
                    }
                }
                assert forall|id: u64| #[trigger] in_pool(u2, id) implies has_app_window(ws, id) by {
                    let i = choose|i: int| 0 <= i < u2.len() && (#[trigger] u2[i]).0 == id;
                    if i < u.len() {
                        assert(u2[i] == u[i]);
                        assert(in_pool(u, id));
                    } else {
                        assert(ws[ws.len() - 1].id == id);
                    }
                }
            },
            None => {},
        }
    }
}

/// Each command gets a window of its own: no window is matched to two
/// commands, and every matched window is one of `windows` with an app id.
pub proof fn lemma_match_windows_distinct(cmds: Seq<Seq<Seq<char>>>, windows: Seq<Window>)
    requires
        window_ids_unique(windows),
    ensures
        forall|a: int, b: int|
            0 <= a < b < match_windows_spec(cmds, windows).len() && (#[trigger] match_windows_spec(cmds, windows)[a]) is Some
                && (#[trigger] match_windows_spec(cmds, windows)[b]) is Some ==> match_windows_spec(cmds, windows)[a]
                != match_windows_spec(cmds, windows)[b],
        forall|k: int|
            0 <= k < match_windows_spec(cmds, windows).len() && (#[trigger] match_windows_spec(cmds, windows)[k]) is Some
                ==> has_app_window(windows, match_windows_spec(cmds, windows)[k]->0),
{
    let u0 = unclaimed_of(windows);
    lemma_unclaimed_of(windows);
    lemma_match_by_exe_ok(cmds, u0);
    lemma_match_by_exe_len(cmds, u0);
    let (s1, u1) = match_by_exe(cmds, u0);
    lemma_match_by_later_ok(cmds, s1, u1, u0);
    let r = match_windows_spec(cmds, windows);
    let u = match_by_later(cmds, s1, u1).1;
    assert forall|k: int| 0 <= k < r.len() && (#[trigger] r[k]) is Some implies has_app_window(windows, r[k]->0) by {
        if r[k] == s1[k] {
            assert(in_pool(u0, s1[k]->0));
        } else {
            assert(in_pool(u1, r[k]->0));
            assert(in_pool(u0, r[k]->0));
        }
    }
}

/// The unclaimed windows as id and app id.
pub open spec fn pool_view(u: Seq<(u64, String)>) -> Seq<(u64, Seq<char>)> {
    u.map_values(|p: (u64, String)| (p.0, p.1@))
}

/// Claim the first unclaimed window whose app `word` names.
fn claim_by_exe(u: &mut Vec<(u64, String)>, word: &str) -> (r: Option<u64>)
    ensures
        (r, pool_view(final(u)@)) == claim_step(pool_view(old(u)@), ClaimBy::Exe(word@)),
{
    let ghost pv = pool_view(u@);
    let mut i: usize = 0;
    assert(pv.skip(0) =~= pv);
    while i < u.len()
        invariant
            pv == pool_view(u@),
            pv == pool_view(old(u)@),
            i <= u@.len(),
            claim_index(pv, ClaimBy::Exe(word@)) == (if claim_index(pv.skip(i as int), ClaimBy::Exe(word@)) < 0 { -1 } else { claim_index(pv.skip(i as int), ClaimBy::Exe(word@)) + i }),
        decreases u@.len() - i,
    {
        assert(pv.skip(i as int)[0] == pv[i as int]);
        assert(pv[i as int] == (u@[i as int].0, u@[i as int].1@));
        if word_matches(u[i].1.as_str(), word) {
            assert(claim_index(pv.skip(i as int), ClaimBy::Exe(word@)) == 0);
            let (id, _) = u.remove(i);
            proof {
                assert(id == pv[i as int].0);
                assert(pool_view(u@) =~= pv.remove(i as int));
            }
            return Some(id);
        }
        assert(pv.skip(i as int).drop_first() =~= pv.skip(i + 1));
        i = i + 1;
    }
    assert(pv.skip(i as int).len() == 0);
    None
}

/// Claim the first unclaimed window whose app a later word of `command` names.
fn claim_by_later(u: &mut Vec<(u64, String)>, command: &Vec<String>) -> (r: Option<u64>)
    ensures
        (r, pool_view(final(u)@)) == claim_step(pool_view(old(u)@), ClaimBy::Later(command.deep_view())),
{
    let ghost pv = pool_view(u@);
    let ghost c = ClaimBy::Later(command.deep_view());
    let mut i: usize = 0;
    assert(pv.skip(0) =~= pv);
    while i < u.len()
        invariant
            pv == pool_view(u@),
            pv == pool_view(old(u)@),
            c == ClaimBy::Later(command.deep_view()),
            i <= u@.len(),
            claim_index(pv, c) == (if claim_index(pv.skip(i as int), c) < 0 { -1 } else { claim_index(pv.skip(i as int), c) + i }),
        decreases u@.len() - i,
    {
        assert(pv.skip(i as int)[0] == pv[i as int]);
        assert(pv[i as int] == (u@[i as int].0, u@[i as int].1@));
        if later_word_matches(command, u[i].1.as_str()) {
            assert(claim_index(pv.skip(i as int), c) == 0);
            let (id, _) = u.remove(i);
            proof {
                assert(id == pv[i as int].0);
                assert(pool_view(u@) =~= pv.remove(i as int));
            }
            return Some(id);
        }
        assert(pv.skip(i as int).drop_first() =~= pv.skip(i + 1));
        i = i + 1;
    }
    assert(pv.skip(i as int).len() == 0);
    None
}

/// Pair each command with a distinct window by app id, in command order;
/// `None` where no window matches. Every executable is matched before any
/// later word, so a direct `kitty` keeps its window from a `uwsm app --
/// kitty`. Windows without an app id never match.
pub fn match_windows(commands: &Vec<Vec<String>>, windows: &Vec<Window>) -> (r: Vec<Option<u64>>)
    ensures
        r@ == match_windows_spec(commands.deep_view(), windows@),
        window_ids_unique(windows@) ==> forall|a: int, b: int|
            0 <= a < b < r@.len() && (#[trigger] r@[a]) is Some && (#[trigger] r@[b]) is Some ==> r@[a] != r@[b],
{
    let ghost cmds = commands.deep_view();
    let mut unclaimed: Vec<(u64, String)> = Vec::new();
    let mut i: usize = 0;
    while i < windows.len()
        invariant
            i <= windows@.len(),
            pool_view(unclaimed@) == unclaimed_of(windows@.take(i as int)),
        decreases windows@.len() - i,
    {
        assert(windows@.take(i + 1).drop_last() =~= windows@.take(i as int));
        assert(windows@.take(i + 1).last() == windows@[i as int]);
        match &windows[i].app_id {
            Some(a) => {
                let ghost before = unclaimed@;
                unclaimed.push((windows[i].id, a.clone()));
                assert(pool_view(unclaimed@) =~= pool_view(before).push((windows@[i as int].id, a@)));
            },
            None => {},
        }
        i = i + 1;
    }
    assert(windows@.take(windows@.len() as int) =~= windows@);
    let ghost u0 = pool_view(unclaimed@);
    let mut slots: Vec<Option<u64>> = Vec::new();
    let mut k: usize = 0;
    while k < commands.len()
        invariant
            cmds == commands.deep_view(),
            k <= cmds.len(),
            (slots@, pool_view(unclaimed@)) == match_by_exe(cmds.take(k as int), u0),
        decreases cmds.len() - k,
    {
        assert(cmds.take(k + 1).drop_last() =~= cmds.take(k as int));
        assert(cmds.take(k + 1).last() == cmds[k as int]);
        assert(cmds[k as int] == commands@[k as int].deep_view());
        if commands[k].len() == 0 {
            slots.push(None);
        } else {
            assert(cmds[k as int][0] == commands@[k as int]@[0]@);
            let got = claim_by_exe(&mut unclaimed, commands[k][0].as_str());
            slots.push(got);
        }
        k = k + 1;
    }
    assert(cmds.take(cmds.len() as int) =~= cmds);
    let ghost s1 = slots@;
    let ghost u1 = pool_view(unclaimed@);
    proof {
        lemma_match_by_exe_len(cmds, u0);
    }
    let mut k: usize = 0;
    while k < commands.len()
        invariant
            cmds == commands.deep_view(),
            k <= cmds.len(),
            s1.len() == cmds.len(),
            slots@.len() == cmds.len(),
            forall|m: int| 0 <= m < k ==> slots@[m] == #[trigger] match_by_later(cmds.take(k as int), s1, u1).0[m],
            forall|m: int| k <= m < cmds.len() ==> #[trigger] slots@[m] == s1[m],
            pool_view(unclaimed@) == match_by_later(cmds.take(k as int), s1, u1).1,
        decreases cmds.len() - k,
    {
        assert(cmds.take(k + 1).drop_last() =~= cmds.take(k as int));
        assert(cmds.take(k + 1).last() == cmds[k as int]);
        assert(cmds[k as int] == commands@[k as int].deep_view());
        proof {
            lemma_match_by_later_len(cmds.take(k as int), s1, u1);
        }
        if slots[k].is_none() {
            let got = claim_by_later(&mut unclaimed, &commands[k]);
            slots.set(k, got);
        }
        k = k + 1;
    }
    proof {
        lemma_match_by_later_len(cmds, s1, u1);
        assert(cmds.take(cmds.len() as int) =~= cmds);
    }
    assert(slots@ =~= match_windows_spec(cmds, windows@));
    proof {
        if window_ids_unique(windows@) {
            lemma_match_windows_distinct(cmds, windows@);
        }
    }
    slots
}


/// The windows of `ws` on workspace `id`, in order.
pub open spec fn on_workspace(ws: Seq<Window>, id: u64) -> Seq<Window>
    decreases ws.len(),
{
    if ws.len() == 0 {
        Seq::empty()
    } else {
        let r = on_workspace(ws.drop_last(), id);
        if ws.last().workspace_id == Some(id) {
            r.push(ws.last())
        } else {
            r
        }
    }
}

/// The windows on workspace `ws_id`, in order.
pub fn new_workspace_windows(windows: &Vec<Window>, ws_id: u64) -> (r: Vec<Window>)
    ensures
        r@ == on_workspace(windows@, ws_id),
{
    let mut r: Vec<Window> = Vec::new();
    let mut i: usize = 0;
    while i < windows.len()
        invariant
            i <= windows@.len(),
            r@ == on_workspace(windows@.take(i as int), ws_id),
        decreases windows@.len() - i,
    {
        assert(windows@.take(i + 1).drop_last() =~= windows@.take(i as int));
        assert(windows@.take(i + 1).last() == windows@[i as int]);
        if windows[i].workspace_id == Some(ws_id) {
            r.push(copy_window(&windows[i]));
        }
        i = i + 1;
    }
    assert(windows@.take(windows@.len() as int) =~= windows@);
    r
}

/// Runs its arguments in order, each in its own `sh -c`, so a hook that
/// exits or fails to parse cannot stop the ones after it.
pub open spec fn hook_runner_spec() -> Seq<char> {
    "for hook in \"$@\"; do sh -c \"$hook\"; done"@
}

/// The argument vector that runs `commands` through the hook runner with
/// `env` set: `env`, each `NAME=value`, `sh -c <runner> niri-dynamic-workspaces`,
/// then the commands; none when there are no commands.
pub open spec fn hook_spawn_spec(commands: Seq<Seq<char>>, env: Seq<(Seq<char>, Seq<char>)>) -> Option<Seq<Seq<char>>> {
    if commands.len() == 0 {
        None
    } else {
        Some(seq!["env"@] + env.map_values(|p: (Seq<char>, Seq<char>)| p.0 + "="@ + p.1)
            + seq!["sh"@, "-c"@, hook_runner_spec(), "niri-dynamic-workspaces"@] + commands)
    }
}

/// The argument vector that runs the hook `commands` one after another with
/// `env` set, or `None` when there are no commands. niri's spawn takes no
/// environment, so `env` sets it.
pub fn hook_spawn_command(commands: &Vec<String>, env: &Vec<(String, String)>) -> (r: Option<Vec<String>>)
    ensures
        match r {
            Some(v) => hook_spawn_spec(commands.deep_view(), crate::order::pairs_view(env@)) == Some(v.deep_view()),
            None => hook_spawn_spec(commands.deep_view(), crate::order::pairs_view(env@)) is None,
        },
{
    if commands.len() == 0 {
        return None;
    }
    let ghost ev = crate::order::pairs_view(env@);
    let mut argv: Vec<String> = Vec::new();
    argv.push("env".to_string());
    let mut i: usize = 0;
    while i < env.len()
        invariant
            ev == crate::order::pairs_view(env@),
            i <= env@.len(),
            argv.deep_view() == seq!["env"@] + ev.take(i as int).map_values(|p: (Seq<char>, Seq<char>)| p.0 + "="@ + p.1),
        decreases env@.len() - i,
    {
        let mut entry = env[i].0.clone();
        entry.append("=");
        entry.append(env[i].1.as_str());
        let ghost before = argv.deep_view();
        argv.push(entry);
        proof {
            let f = |p: (Seq<char>, Seq<char>)| p.0 + "="@ + p.1;
            assert(ev[i as int] == (env@[i as int].0@, env@[i as int].1@));
            assert(argv.deep_view() =~= before.push(f(ev[i as int])));
            assert(ev.take(i + 1) =~= ev.take(i as int).push(ev[i as int]));
            assert(ev.take(i + 1).map_values(f) =~= ev.take(i as int).map_values(f).push(f(ev[i as int])));
            assert(argv.deep_view() =~= seq!["env"@] + ev.take(i + 1).map_values(f));
        }
        i = i + 1;
    }
    assert(ev.take(env@.len() as int) =~= ev);
    let ghost mid = argv.deep_view();
    argv.push("sh".to_string());
    argv.push("-c".to_string());
    argv.push("for hook in \"$@\"; do sh -c \"$hook\"; done".to_string());
    argv.push("niri-dynamic-workspaces".to_string());
    let ghost mid2 = argv.deep_view();
    assert(mid2 =~= mid + seq!["sh"@, "-c"@, hook_runner_spec(), "niri-dynamic-workspaces"@]);
    let mut j: usize = 0;
    while j < commands.len()
        invariant
            j <= commands@.len(),
            argv.deep_view() == mid2 + commands.deep_view().take(j as int),
        decreases commands@.len() - j,
    {
        let ghost before = argv.deep_view();
        argv.push(commands[j].clone());
        assert(argv.deep_view() =~= before.push(commands@[j as int]@));
        assert(commands.deep_view().take(j + 1) =~= commands.deep_view().take(j as int).push(commands@[j as int]@));
        assert(argv.deep_view() =~= mid2 + commands.deep_view().take(j + 1));
        j = j + 1;
    }
    assert(commands.deep_view().take(commands@.len() as int) =~= commands.deep_view());
    Some(argv)
}

/// Trailing-edge debounce over times in milliseconds: due once events have
/// been quiet for `quiet`, or `max_wait` after the first pending event so a
/// busy stream cannot starve it.
pub struct Debouncer {
    pub quiet: u64,
    pub max_wait: u64,
    /// `(first, last)` event times since the last clear.
    pub pending: Option<(u64, u64)>,
}

/// `a - b`, or 0 when `b` is later.
pub open spec fn elapsed(a: u64, b: u64) -> int {
    if a >= b {
        a - b
    } else {
        0
    }
}

impl Debouncer {
    /// The debouncer after an event at `now`.
    pub open spec fn after_event(self, now: u64) -> Debouncer {
        Debouncer {
            pending: Some(
                (
                    match self.pending {
                        Some((first, _)) => first,
                        None => now,
                    },
                    now,
                ),
            ),
            ..self
        }
    }

    /// The debouncer after events at the times `ts`, in order.
    pub open spec fn after_events(self, ts: Seq<u64>) -> Debouncer
        decreases ts.len(),
    {
        if ts.len() == 0 {
            self
        } else {
            self.after_events(ts.drop_last()).after_event(ts.last())
        }
    }

    /// Whether a pending event is due at `now`.
    pub open spec fn is_due(self, now: u64) -> bool {
        match self.pending {
            Some((first, last)) => elapsed(now, last) >= self.quiet || elapsed(now, first) >= self.max_wait,
            None => false,
        }
    }

    /// A debouncer with nothing pending.
    pub fn new(quiet: u64, max_wait: u64) -> (d: Debouncer)
        ensures
            d.quiet == quiet,
            d.max_wait == max_wait,
            d.pending is None,
    {
        Debouncer { quiet, max_wait, pending: None }
    }

    /// An event happened at `now`.
    pub fn on_event(&mut self, now: u64)
        ensures
            *final(self) == old(self).after_event(now),
    {
        let first = match self.pending {
            Some((first, _)) => first,
            None => now,
        };
        self.pending = Some((first, now));
    }

    /// Whether a pending event is due at `now`.
    pub fn due(&self, now: u64) -> (r: bool)
        ensures
            r == self.is_due(now),
    {
        match self.pending {
            Some((first, last)) => {
                let since_last = if now >= last { now - last } else { 0 };
                let since_first = if now >= first { now - first } else { 0 };
                since_last >= self.quiet || since_first >= self.max_wait
            },
            None => false,
        }
    }

    /// Forget the pending events.
    pub fn clear(&mut self)
        ensures
            final(self).quiet == old(self).quiet,
            final(self).max_wait == old(self).max_wait,
            final(self).pending is None,
    {
        self.pending = None;
    }
}

/// After any run of events `ts` since it was made or cleared, a debouncer
/// is due at `now` (no earlier than the last event) exactly when there was
/// an event and either `quiet` has passed since the last one or `max_wait`
/// since the first; with no event it is never due.
pub proof fn lemma_debouncer_run(d: Debouncer, ts: Seq<u64>, now: u64)
    requires
        d.pending is None,
        ts.len() > 0 ==> now >= ts.last(),
    ensures
        d.after_events(ts).quiet == d.quiet,
        d.after_events(ts).max_wait == d.max_wait,
        d.after_events(ts).is_due(now) <==> ts.len() > 0 && (now - ts.last() >= d.quiet || elapsed(
            now,
            ts[0],
        ) >= d.max_wait),
{
    lemma_debouncer_pending(d, ts);
}

/// After events `ts` on a debouncer with nothing pending, the pending pair
/// is the first and the last event time.
proof fn lemma_debouncer_pending(d: Debouncer, ts: Seq<u64>)
    requires
        d.pending is None,
    ensures
        d.after_events(ts).quiet == d.quiet,
        d.after_events(ts).max_wait == d.max_wait,
        ts.len() == 0 ==> d.after_events(ts).pending is None,
        ts.len() > 0 ==> d.after_events(ts).pending == Some((ts[0], ts.last())),
    decreases ts.len(),
{
    if ts.len() > 0 {
        lemma_debouncer_pending(d, ts.drop_last());
    }
}

/// The kinds of niri event that the daemon and the overlay tell apart.
#[derive(Clone, Copy, Debug, PartialEq, Eq, Structural)]
pub enum EventKind {
    WorkspacesChanged,
    WorkspaceUrgencyChanged,
    WorkspaceActivated,
    WorkspaceActiveWindowChanged,
    WindowsChanged,
    WindowOpenedOrChanged,
    WindowClosed,
    WindowFocusChanged,
    WindowUrgencyChanged,
    WindowLayoutsChanged,
    KeyboardLayoutsChanged,
    KeyboardLayoutSwitched,
    OverviewOpenedOrClosed,
    ConfigLoaded,
    Other,
}

/// Overlay-relevant compositor changes, coarsened from the niri event stream.
#[derive(Clone, Copy, Debug, PartialEq, Eq, Structural)]
pub enum OverlayEvent {
    /// Focus may have moved (workspace activation or window focus change).
    FocusChanged,
    /// Workspaces or windows changed; overlay cards may be stale.
    StructureChanged,
}

/// Whether an event can leave a dynamic workspace empty and unfocused.
pub fn triggers_cleanup(kind: EventKind) -> (r: bool)
    ensures
        r == (kind == EventKind::WindowOpenedOrChanged || kind == EventKind::WindowClosed
            || kind == EventKind::WindowsChanged || kind == EventKind::WorkspaceActivated
            || kind == EventKind::WorkspacesChanged),
{
    match kind {
        EventKind::WindowOpenedOrChanged
        | EventKind::WindowClosed
        | EventKind::WindowsChanged
        | EventKind::WorkspaceActivated
        | EventKind::WorkspacesChanged => true,
        _ => false,
    }
}

/// What an event means to the overlay, if anything.
pub fn classify_event(kind: EventKind) -> (r: Option<OverlayEvent>)
    ensures
        r == (if kind == EventKind::WorkspacesChanged || kind == EventKind::WorkspaceUrgencyChanged
            || kind == EventKind::WindowsChanged || kind == EventKind::WindowOpenedOrChanged
            || kind == EventKind::WindowClosed || kind == EventKind::WindowUrgencyChanged {
            Some(OverlayEvent::StructureChanged)
        } else if kind == EventKind::WorkspaceActivated || kind == EventKind::WindowFocusChanged {
            Some(OverlayEvent::FocusChanged)
        } else {
            None
        }),
{
    match kind {
        EventKind::WorkspacesChanged
        | EventKind::WorkspaceUrgencyChanged
        | EventKind::WindowsChanged
        | EventKind::WindowOpenedOrChanged
        | EventKind::WindowClosed
        | EventKind::WindowUrgencyChanged => Some(OverlayEvent::StructureChanged),
        EventKind::WorkspaceActivated | EventKind::WindowFocusChanged => Some(OverlayEvent::FocusChanged),
        _ => None,
    }
}


/// The index of the first workspace for `ch`, if any.
pub open spec fn key_index(ws: Seq<Workspace>, prefix: Seq<char>, ch: char) -> Option<int>
    decreases ws.len(),
{
    if ws.len() == 0 {
        None
    } else if has_key(ws[0], prefix, ch) {
        Some(0)
    } else {
        match key_index(ws.drop_first(), prefix, ch) {
            Some(i) => Some(i + 1),
            None => None,
        }
    }
}

/// `key_index` names the first workspace for the key.
pub proof fn lemma_key_index(ws: Seq<Workspace>, prefix: Seq<char>, ch: char)
    ensures
        match key_index(ws, prefix, ch) {
            Some(i) => first_with_key(ws, prefix, ch, i),
            None => none_with_key(ws, prefix, ch),
        },
    decreases ws.len(),
{
    if ws.len() > 0 {
        let t = ws.drop_first();
        lemma_key_index(t, prefix, ch);
        if !has_key(ws[0], prefix, ch) {
            match key_index(t, prefix, ch) {
                Some(i) => {
                    assert forall|j: int| 0 <= j < i + 1 implies !has_key(#[trigger] ws[j], prefix, ch) by {
                        if j > 0 {
                            assert(ws[j] == t[j - 1]);
                        }
                    }
                },
                None => {
                    assert forall|j: int| 0 <= j < ws.len() implies !has_key(#[trigger] ws[j], prefix, ch) by {
                        if j > 0 {
                            assert(ws[j] == t[j - 1]);
                        }
                    }
                },
            }
        }
    }
}

/// A workspace for the key at index `i` is the first one that `key_index` finds.
pub proof fn lemma_first_with_key(ws: Seq<Workspace>, prefix: Seq<char>, ch: char, i: int)
    requires
        first_with_key(ws, prefix, ch, i),
    ensures
        key_index(ws, prefix, ch) == Some(i),
{
    lemma_key_index(ws, prefix, ch);
    match key_index(ws, prefix, ch) {
        Some(k) => {
            if k < i {
                assert(!has_key(ws[k], prefix, ch));
            } else if k > i {
                assert(!has_key(ws[i], prefix, ch));
            }
        },
        None => {
            assert(!has_key(ws[i], prefix, ch));
        },
    }
}

} // verus!
