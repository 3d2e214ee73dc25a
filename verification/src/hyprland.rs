//! The Hyprland side of the backend: window addresses, the dispatch
//! commands `hyprctl` is given, and how its workspaces, monitors and
//! clients become compositor-agnostic information.

use vstd::prelude::*;

use crate::backend::{WindowInfo, WorkspaceInfo};
use crate::order::seq_lt;
use crate::text::{str_eq, words, words_spec};

verus! {

/// The value of hex digit `c`, if it is one.
pub open spec fn hex_digit_value(c: char) -> Option<nat> {
    if '0' <= c && c <= '9' {
        Some(((c as u32) - 48) as nat)
    } else if 'a' <= c && c <= 'f' {
        Some(((c as u32) - 87) as nat)
    } else if 'A' <= c && c <= 'F' {
        Some(((c as u32) - 55) as nat)
    } else {
        None
    }
}

/// The number that hex digits `s` write; none when `s` is empty or holds
/// anything but hex digits.
pub open spec fn hex_value(s: Seq<char>) -> Option<nat>
    decreases s.len(),
{
    if s.len() == 0 {
        None
    } else if s.len() == 1 {
        hex_digit_value(s[0])
    } else {
        match (hex_value(s.drop_last()), hex_digit_value(s.last())) {
            (Some(v), Some(d)) => Some(v * 16 + d),
            _ => None,
        }
    }
}

/// What `u64::from_str_radix(s, 16)` reads: an optional `+`, then hex
/// digits, to a value that fits in 64 bits.
pub open spec fn radix16(s: Seq<char>) -> Option<nat> {
    let digits = if s.len() > 1 && s[0] == '+' { s.drop_first() } else { s };
    match hex_value(digits) {
        Some(v) => if v <= u64::MAX { Some(v) } else { None },
        None => None,
    }
}

/// The window id in a Hyprland address such as `0x55a1b2c3`: the hex
/// number after an optional `0x`; 0 when it does not read as one.
pub open spec fn parse_address_spec(addr: Seq<char>) -> nat {
    let hex = if addr.len() >= 2 && addr[0] == '0' && addr[1] == 'x' { addr.skip(2) } else { addr };
    match radix16(hex) {
        Some(v) => v,
        None => 0,
    }
}

/// The value of hex digit `c`.
fn hex_digit(c: char) -> (r: Option<u64>)
    ensures
        match (r, hex_digit_value(c)) {
            (Some(x), Some(y)) => x == y,
            (None, None) => true,
            _ => false,
        },
{
    let u = c as u32;
    if '0' <= c && c <= '9' {
        Some((u - 48) as u64)
    } else if 'a' <= c && c <= 'f' {
        Some((u - 97 + 10) as u64)
    } else if 'A' <= c && c <= 'F' {
        Some((u - 65 + 10) as u64)
    } else {
        None
    }
}

/// The number that the hex digits `v[start..]` write, when they are all
/// hex digits, at least one, and it fits in 64 bits.
fn parse_hex(v: &Vec<char>, start: usize) -> (r: Option<u64>)
    requires
        start <= v@.len(),
    ensures
        match hex_value(v@.skip(start as int)) {
            Some(x) => if x <= u64::MAX {
                r == Some(x as u64)
            } else {
                r is None
            },
            None => r is None,
        },
{
    let ghost digits = v@.skip(start as int);
    if start >= v.len() {
        assert(digits.len() == 0);
        return None;
    }
    let mut acc: u64 = 0;
    let mut i: usize = start;
    while i < v.len()
        invariant
            start < v@.len(),
            start <= i <= v@.len(),
            digits == v@.skip(start as int),
            i > start ==> hex_value(digits.take(i - start)) == Some(acc as nat),
        decreases v@.len() - i,
    {
        let k = i - start;
        assert(digits[k as int] == v@[i as int]);
        assert(digits.take(k + 1).drop_last() =~= digits.take(k as int));
        assert(digits.take(k + 1).last() == digits[k as int]);
        match hex_digit(v[i]) {
            None => {
                proof {
                    if k == 0 {
                        assert(digits.take(1) =~= seq![digits[0]]);
                    }
                    lemma_hex_none_stays(digits, k + 1);
                }
                return None;
            },
            Some(d) => {
                if k == 0 {
                    assert(digits.take(1) =~= seq![digits[0]]);
                    acc = d;
                } else {
                    if acc > (u64::MAX - d) / 16 {
                        proof {
                            assert(acc * 16 + d > u64::MAX) by (nonlinear_arith)
                                requires
                                    acc > (u64::MAX - d) / 16,
                                    d <= 15,
                            ;
                            lemma_hex_too_big(digits, k + 1);
                        }
                        return None;
                    }
                    assert(acc * 16 + d <= u64::MAX) by (nonlinear_arith)
                        requires
                            acc <= (u64::MAX - d) / 16,
                            d <= 15,
                    ;
                    acc = acc * 16 + d;
                }
            },
        }
        i = i + 1;
    }
    assert(digits.take(v@.len() - start) =~= digits);
    Some(acc)
}

/// Parse a hex address string like `0x55a1b2c3` into a window id; 0 when it
/// is not one.
pub fn parse_address(addr: &str) -> (r: u64)
    ensures
        r == parse_address_spec(addr@),
{
    let v = crate::text::chars_of(addr);
    let mut start: usize = 0;
    if v.len() >= 2 && v[0] == '0' && v[1] == 'x' {
        start = 2;
    }
    let ghost hex = v@.skip(start as int);
    assert(start == 0 ==> hex =~= v@);
    if v.len() - start > 1 && v[start] == '+' {
        start = start + 1;
        assert(v@.skip(start as int) =~= hex.drop_first());
    }
    match parse_hex(&v, start) {
        Some(x) => x,
        None => 0,
    }
}

/// Once a prefix is not hex, no longer prefix is.
proof fn lemma_hex_none_stays(s: Seq<char>, k: int)
    requires
        1 <= k <= s.len(),
        hex_value(s.take(k)) is None,
    ensures
        hex_value(s) is None,
    decreases s.len() - k,
{
    if k < s.len() {
        assert(s.take(k + 1).drop_last() =~= s.take(k));
        lemma_hex_none_stays(s, k + 1);
    } else {
        assert(s.take(k) =~= s);
    }
}

/// Once a prefix writes more than 64 bits, so does the whole.
proof fn lemma_hex_too_big(s: Seq<char>, k: int)
    requires
        1 <= k <= s.len(),
        hex_value(s.take(k)) is None || hex_value(s.take(k))->Some_0 > u64::MAX,
    ensures
        hex_value(s) is None || hex_value(s)->Some_0 > u64::MAX,
    decreases s.len() - k,
{
    if k < s.len() {
        assert(s.take(k + 1).drop_last() =~= s.take(k));
        if hex_value(s.take(k + 1)) is Some {
            let v = hex_value(s.take(k))->Some_0;
            let d = hex_digit_value(s.take(k + 1).last())->Some_0;
            assert(v * 16 + d >= v) by (nonlinear_arith)
                requires
                    d >= 0,
                    v >= 0,
            ;
        }
        lemma_hex_too_big(s, k + 1);
    } else {
        assert(s.take(k) =~= s);
    }
}

/// The lowercase hex digit for `d`.
pub open spec fn hex_char(d: nat) -> char {
    if d < 10 {
        ((d + 48) as u32) as char
    } else {
        ((d - 10 + 97) as u32) as char
    }
}

/// `n` in lowercase hex, without leading zeros.
pub open spec fn hex(n: nat) -> Seq<char>
    decreases n,
{
    if n < 16 {
        seq![hex_char(n)]
    } else {
        hex(n / 16).push(hex_char(n % 16))
    }
}

/// The lowercase hex digit for `d`.
fn hex_char_exec(d: u64) -> (c: char)
    requires
        d < 16,
    ensures
        c == hex_char(d as nat),
{
    if d == 0 { '0' } else if d == 1 { '1' } else if d == 2 { '2' } else if d == 3 { '3' } else if d == 4 { '4' } else if d
        == 5 { '5' } else if d == 6 { '6' } else if d == 7 { '7' } else if d == 8 { '8' } else if d == 9 { '9' } else if d
        == 10 { 'a' } else if d == 11 { 'b' } else if d == 12 { 'c' } else if d == 13 { 'd' } else if d == 14 { 'e' } else {
        'f'
    }
}

/// `n` in lowercase hex.
fn hex_string(n: u64) -> (r: String)
    ensures
        r@ == hex(n as nat),
    decreases n,
{
    if n < 16 {
        let mut s = String::new();
        crate::text::push_char(&mut s, hex_char_exec(n));
        assert(s@ =~= hex(n as nat));
        s
    } else {
        let mut s = hex_string(n / 16);
        crate::text::push_char(&mut s, hex_char_exec(n % 16));
        s
    }
}

/// Format a window id as a hex address for `hyprctl`: `0x` and lowercase hex.
pub fn format_address(id: u64) -> (r: String)
    ensures
        r@ == "0x"@ + hex(id as nat),
        parse_address_spec(r@) == id,
{
    let h = hex_string(id);
    let mut r = "0x".to_string();
    r.append(h.as_str());
    proof {
        lemma_address_round_trip(id);
    }
    r
}

/// The digits of `n` in hex read back as `n`, each of them a hex digit.
proof fn lemma_hex_reads_back(n: nat)
    ensures
        hex(n).len() >= 1,
        hex_value(hex(n)) == Some(n),
        forall|i: int| 0 <= i < hex(n).len() ==> hex_digit_value(#[trigger] hex(n)[i]) is Some,
    decreases n,
{
    if n < 16 {
        assert(hex(n)[0] == hex_char(n));
    } else {
        lemma_hex_reads_back(n / 16);
        let h = hex(n);
        let front = hex(n / 16);
        assert(h.drop_last() =~= front);
        assert(h.last() == hex_char(n % 16));
        assert(hex_digit_value(hex_char(n % 16)) == Some(n % 16));
        assert((n / 16) * 16 + n % 16 == n) by (nonlinear_arith);
        assert forall|i: int| 0 <= i < h.len() implies hex_digit_value(#[trigger] h[i]) is Some by {
            if i < front.len() {
                assert(h[i] == front[i]);
            }
        }
    }
}

/// A window id written as an address reads back as the same id.
pub proof fn lemma_address_round_trip(id: u64)
    ensures
        parse_address_spec("0x"@ + hex(id as nat)) == id,
{
    reveal_strlit("0x");
    lemma_hex_reads_back(id as nat);
    let h = hex(id as nat);
    let addr = "0x"@ + h;
    assert(addr[0] == '0' && addr[1] == 'x');
    assert(addr.skip(2) =~= h);
    assert(hex_digit_value(h[0]) is Some);
    assert(h[0] != '+');
}

/// The arguments `hyprctl` gets for dispatching `dispatch_args`: `dispatch`,
/// `--`, then its words.
pub fn dispatch_argv(dispatch_args: &str) -> (r: Vec<String>)
    ensures
        r.deep_view() == seq!["dispatch"@, "--"@] + words_spec(dispatch_args@),
{
    let w = words(dispatch_args);
    let mut r: Vec<String> = Vec::new();
    r.push("dispatch".to_string());
    r.push("--".to_string());
    let ghost head = r.deep_view();
    let mut i: usize = 0;
    while i < w.len()
        invariant
            head == seq!["dispatch"@, "--"@],
            i <= w@.len(),
            r.deep_view() == head + w.deep_view().take(i as int),
        decreases w@.len() - i,
    {
        let ghost before = r.deep_view();
        r.push(w[i].clone());
        assert(r.deep_view() =~= before.push(w@[i as int]@));
        assert(w.deep_view().take(i + 1) =~= w.deep_view().take(i as int).push(w@[i as int]@));
        i = i + 1;
    }
    assert(w.deep_view().take(w@.len() as int) =~= w.deep_view());
    r
}

/// The moves that put the focused column at 1-based `index`: Hyprland has
/// no such command, so all the way left (twenty moves, more than any real
/// layout needs), then right to the target.
pub fn position_moves(index: usize) -> (r: Vec<&'static str>)
    ensures
        r@.len() == 20 + (if index > 0 { index - 1 } else { 0 }),
        forall|i: int| 0 <= i < 20 ==> (#[trigger] r@[i])@ == "movewindoworgroup l"@,
        forall|i: int| 20 <= i < r@.len() ==> (#[trigger] r@[i])@ == "movewindoworgroup r"@,
{
    let mut r: Vec<&'static str> = Vec::new();
    let mut i: usize = 0;
    while i < 20
        invariant
            i <= 20,
            r@.len() == i,
            forall|j: int| 0 <= j < i ==> (#[trigger] r@[j])@ == "movewindoworgroup l"@,
        decreases 20 - i,
    {
        r.push("movewindoworgroup l");
        i = i + 1;
    }
    let right = if index > 0 { index - 1 } else { 0 };
    let mut k: usize = 0;
    while k < right
        invariant
            k <= right,
            r@.len() == 20 + k,
            forall|j: int| 0 <= j < 20 ==> (#[trigger] r@[j])@ == "movewindoworgroup l"@,
            forall|j: int| 20 <= j < r@.len() ==> (#[trigger] r@[j])@ == "movewindoworgroup r"@,
        decreases right - k,
    {
        r.push("movewindoworgroup r");
        k = k + 1;
    }
    r
}

/// `prefix` followed by `rest`.
fn join2(prefix: &str, rest: &str) -> (r: String)
    ensures
        r@ == prefix@ + rest@,
{
    let mut r = prefix.to_string();
    r.append(rest);
    r
}

/// The dispatch that focuses (creating if needed) the workspace named `name`.
pub fn focus_workspace_dispatch(name: &str) -> (r: String)
    ensures
        r@ == "workspace name:"@ + name@,
{
    join2("workspace name:", name)
}

/// The dispatch that moves the focused window to the workspace named `name`.
pub fn move_to_workspace_dispatch(name: &str) -> (r: String)
    ensures
        r@ == "movetoworkspace name:"@ + name@,
{
    join2("movetoworkspace name:", name)
}

/// The dispatch that closes window `id`.
pub fn close_window_dispatch(id: u64) -> (r: String)
    ensures
        r@ == "closewindow address:0x"@ + hex(id as nat),
{
    let a = format_address(id);
    proof {
        reveal_strlit("0x");
        reveal_strlit("closewindow address:");
        reveal_strlit("closewindow address:0x");
    }
    let r = join2("closewindow address:", a.as_str());
    assert(r@ =~= "closewindow address:0x"@ + hex(id as nat));
    r
}

/// The dispatch that focuses window `id`.
pub fn focus_window_dispatch(id: u64) -> (r: String)
    ensures
        r@ == "focuswindow address:0x"@ + hex(id as nat),
{
    let a = format_address(id);
    proof {
        reveal_strlit("0x");
        reveal_strlit("focuswindow address:");
        reveal_strlit("focuswindow address:0x");
    }
    let r = join2("focuswindow address:", a.as_str());
    assert(r@ =~= "focuswindow address:0x"@ + hex(id as nat));
    r
}

/// The words of `command` joined by single spaces.
pub open spec fn join_spaces(command: Seq<Seq<char>>) -> Seq<char>
    decreases command.len(),
{
    if command.len() == 0 {
        Seq::empty()
    } else if command.len() == 1 {
        command[0]
    } else {
        join_spaces(command.drop_last()) + " "@ + command.last()
    }
}

/// The dispatch that runs `command`: `exec` and its words joined by spaces.
pub fn exec_dispatch(command: &Vec<String>) -> (r: String)
    ensures
        r@ == "exec "@ + join_spaces(command.deep_view()),
{
    let ghost c = command.deep_view();
    let mut joined = String::new();
    let mut i: usize = 0;
    while i < command.len()
        invariant
            c == command.deep_view(),
            i <= c.len(),
            joined@ == join_spaces(c.take(i as int)),
        decreases c.len() - i,
    {
        assert(c.take(i + 1).drop_last() =~= c.take(i as int));
        assert(c.take(i + 1).last() == command@[i as int]@);
        if i > 0 {
            joined.append(" ");
        } else {
            assert(c.take(1) =~= seq![c[0]]);
        }
        joined.append(command[i].as_str());
        i = i + 1;
    }
    assert(c.take(c.len() as int) =~= c);
    join2("exec ", joined.as_str())
}

/// The type of a Hyprland event line `EVENT>>DATA`: what comes before the first `>>`.
pub open spec fn event_type_spec(line: Seq<char>) -> Seq<char>
    decreases line.len(),
{
    if line.len() < 2 {
        line
    } else if line[0] == '>' && line[1] == '>' {
        Seq::empty()
    } else {
        seq![line[0]] + event_type_spec(line.drop_first())
    }
}

/// Whether a Hyprland event can leave a dynamic workspace empty.
pub fn triggers_cleanup(line: &str) -> (r: bool)
    ensures
        r == {
            let t = event_type_spec(line@);
            t == "workspace"@ || t == "openwindow"@ || t == "closewindow"@ || t == "movewindow"@ || t
                == "destroyworkspace"@
        },
{
    let v = crate::text::chars_of(line);
    let mut i: usize = 0;
    let mut found = false;
    assert(v@.skip(0) =~= v@);
    assert(v@.take(0) + event_type_spec(v@.skip(0)) =~= event_type_spec(v@));
    while v.len() - i > 1 && !found
        invariant
            v@ == line@,
            i <= v@.len(),
            !found ==> event_type_spec(v@) == v@.take(i as int) + event_type_spec(v@.skip(i as int)),
            found ==> event_type_spec(v@) == v@.take(i as int),
        decreases v@.len() - i, (if found { 0int } else { 1int }),
    {
        let ghost rest = v@.skip(i as int);
        assert(rest[0] == v@[i as int] && rest[1] == v@[i + 1]);
        if v[i] == '>' && v[i + 1] == '>' {
            found = true;
            assert(v@.take(i as int) + Seq::<char>::empty() =~= v@.take(i as int));
        } else {
            assert(rest.drop_first() =~= v@.skip(i + 1));
            assert(v@.take(i + 1) =~= v@.take(i as int).push(v@[i as int]));
            assert(v@.take(i as int) + (seq![v@[i as int]] + event_type_spec(v@.skip(i + 1))) =~= v@.take(i + 1)
                + event_type_spec(v@.skip(i + 1)));
            i = i + 1;
        }
    }
    let end: usize = if found {
        i
    } else {
        v.len()
    };
    proof {
        if !found {
            assert(v@.skip(i as int).len() < 2);
            assert(v@.take(i as int) + v@.skip(i as int) =~= v@);
        }
    }
    let t = crate::text::string_of_range(&v, 0, end);
    assert(t@ =~= event_type_spec(line@)) by {
        assert(v@.subrange(0, end as int) =~= v@.take(end as int));
        if !found {
            assert(v@.take(end as int) =~= v@);
        }
    }
    let s = t.as_str();
    str_eq(s, "workspace") || str_eq(s, "openwindow") || str_eq(s, "closewindow") || str_eq(s, "movewindow")
        || str_eq(s, "destroyworkspace")
}

/// A Hyprland client as `hyprctl clients -j` lists it: address, workspace
/// id, class and urgency.
pub fn window_from_client(address: &str, workspace_id: i64, class: String, urgent: bool) -> (r: WindowInfo)
    ensures
        r.id == parse_address_spec(address@),
        r.workspace_id == (if workspace_id > 0 { Some(workspace_id as u64) } else { None }),
        r.app_id == (if class@.len() > 0 { Some(class) } else { None }),
        r.is_urgent == urgent,
{
    let ws = if workspace_id > 0 { Some(workspace_id as u64) } else { None };
    let app_id = if class.unicode_len() > 0 { Some(class) } else { None };
    WindowInfo { id: parse_address(address), workspace_id: ws, app_id, is_urgent: urgent }
}


/// `a` sorts before `b` by output, then index; no output sorts first.
pub open spec fn info_lt(a: WorkspaceInfo, b: WorkspaceInfo) -> bool {
    match (a.output, b.output) {
        (None, Some(_)) => true,
        (Some(_), None) => false,
        (Some(x), Some(y)) => seq_lt(x@, y@) || (x@ == y@ && a.idx < b.idx),
        (None, None) => a.idx < b.idx,
    }
}

/// `x` put into sorted `s` after every workspace that does not sort after it.
pub open spec fn insert_info(s: Seq<WorkspaceInfo>, x: WorkspaceInfo) -> Seq<WorkspaceInfo>
    decreases s.len(),
{
    if s.len() == 0 {
        seq![x]
    } else if info_lt(x, s[0]) {
        seq![x] + s
    } else {
        seq![s[0]] + insert_info(s.drop_first(), x)
    }
}

/// Workspaces sorted by output, then index, keeping the order of equal ones.
pub open spec fn sort_infos(s: Seq<WorkspaceInfo>) -> Seq<WorkspaceInfo>
    decreases s.len(),
{
    if s.len() == 0 {
        s
    } else {
        insert_info(sort_infos(s.drop_last()), s.last())
    }
}

proof fn lemma_insert_info_at(s: Seq<WorkspaceInfo>, x: WorkspaceInfo, j: int)
    requires
        0 <= j <= s.len(),
        forall|k: int| 0 <= k < j ==> !info_lt(x, #[trigger] s[k]),
        j < s.len() ==> info_lt(x, s[j]),
    ensures
        insert_info(s, x) == s.insert(j, x),
    decreases s.len(),
{
    if s.len() == 0 {
        assert(s.insert(j, x) =~= seq![x]);
    } else if j == 0 {
        assert(s.insert(0, x) =~= seq![x] + s);
    } else {
        let t = s.drop_first();
        assert forall|k: int| 0 <= k < j - 1 implies !info_lt(x, #[trigger] t[k]) by {
            assert(t[k] == s[k + 1]);
        }
        lemma_insert_info_at(t, x, j - 1);
        assert(s.insert(j, x) =~= seq![s[0]] + t.insert(j - 1, x));
    }
}

/// The id the first focused monitor shows, if any.
pub open spec fn focused_active(monitors: Seq<(bool, i64)>) -> Option<i64>
    decreases monitors.len(),
{
    if monitors.len() == 0 {
        None
    } else if monitors[0].0 {
        Some(monitors[0].1)
    } else {
        focused_active(monitors.drop_first())
    }
}

/// Some monitor shows workspace `id`.
pub open spec fn shown(monitors: Seq<(bool, i64)>, id: i64) -> bool {
    exists|m: int| 0 <= m < monitors.len() && (#[trigger] monitors[m]).1 == id
}

/// Workspace `k` of `hyprctl workspaces` (id, name, monitor) as information.
pub open spec fn info_of(k: int, ws: (i64, String, String), monitors: Seq<(bool, i64)>) -> WorkspaceInfo {
    let is_focused = Some(ws.0) == focused_active(monitors);
    WorkspaceInfo {
        id: ws.0 as u64,
        idx: (k + 1) as usize,
        name: Some(ws.1),
        output: Some(ws.2),
        is_focused,
        is_active: !is_focused && shown(monitors, ws.0),
    }
}

/// The workspaces `hyprctl` lists, numbered from 1 in its order, as information.
pub open spec fn infos_of(workspaces: Seq<(i64, String, String)>, monitors: Seq<(bool, i64)>) -> Seq<WorkspaceInfo> {
    Seq::new(workspaces.len(), |k: int| info_of(k, workspaces[k], monitors))
}

/// Whether some monitor shows workspace `id`.
fn is_shown(monitors: &Vec<(bool, i64)>, id: i64) -> (r: bool)
    ensures
        r == shown(monitors@, id),
{
    let mut i: usize = 0;
    while i < monitors.len()
        invariant
            i <= monitors@.len(),
            forall|m: int| 0 <= m < i ==> (#[trigger] monitors@[m]).1 != id,
        decreases monitors@.len() - i,
    {
        if monitors[i].1 == id {
            return true;
        }
        i = i + 1;
    }
    false
}

/// The workspace the focused monitor shows.
fn find_focused_active(monitors: &Vec<(bool, i64)>) -> (r: Option<i64>)
    ensures
        r == focused_active(monitors@),
{
    let mut i: usize = 0;
    assert(monitors@.skip(0) =~= monitors@);
    while i < monitors.len()
        invariant
            i <= monitors@.len(),
            focused_active(monitors@) == focused_active(monitors@.skip(i as int)),
        decreases monitors@.len() - i,
    {
        assert(monitors@.skip(i as int)[0] == monitors@[i as int]);
        if monitors[i].0 {
            return Some(monitors[i].1);
        }
        assert(monitors@.skip(i as int).drop_first() =~= monitors@.skip(i + 1));
        i = i + 1;
    }
    None
}

/// Whether `a` sorts before `b` by output, then index.
fn info_before(a: &WorkspaceInfo, b: &WorkspaceInfo) -> (r: bool)
    ensures
        r == info_lt(*a, *b),
{
    match (&a.output, &b.output) {
        (None, Some(_)) => true,
        (Some(_), None) => false,
        (Some(x), Some(y)) => {
            if crate::order::str_lt(x.as_str(), y.as_str()) {
                true
            } else if str_eq(x.as_str(), y.as_str()) {
                a.idx < b.idx
            } else {
                false
            }
        },
        (None, None) => a.idx < b.idx,
    }
}

/// The workspaces of `hyprctl workspaces -j` (id, name, monitor), given the
/// monitors of `hyprctl monitors -j` (focused, shown workspace id): numbered
/// from 1 in listing order; focused when the focused monitor shows them,
/// active when another monitor does; then sorted by monitor and number.
pub fn workspace_infos(workspaces: &Vec<(i64, String, String)>, monitors: &Vec<(bool, i64)>) -> (r: Vec<WorkspaceInfo>)
    requires
        workspaces@.len() < usize::MAX,
    ensures
        r@ == sort_infos(infos_of(workspaces@, monitors@)),
{
    let focused = find_focused_active(monitors);
    let ghost all = infos_of(workspaces@, monitors@);
    let mut r: Vec<WorkspaceInfo> = Vec::new();
    let mut k: usize = 0;
    while k < workspaces.len()
        invariant
            workspaces@.len() < usize::MAX,
            focused == focused_active(monitors@),
            all == infos_of(workspaces@, monitors@),
            k <= workspaces@.len(),
            r@ == sort_infos(all.take(k as int)),
        decreases workspaces@.len() - k,
    {
        let w = &workspaces[k];
        let is_focused = focused == Some(w.0);
        let x = WorkspaceInfo {
            id: w.0 as u64,
            idx: k + 1,
            name: Some(w.1.clone()),
            output: Some(w.2.clone()),
            is_focused,
            is_active: !is_focused && is_shown(monitors, w.0),
        };
        assert(x == all[k as int]);
        let mut j: usize = 0;
        while j < r.len() && !info_before(&x, &r[j])
            invariant
                j <= r@.len(),
                forall|i: int| 0 <= i < j ==> !info_lt(x, #[trigger] r@[i]),
            decreases r@.len() - j,
        {
            j = j + 1;
        }
        proof {
            lemma_insert_info_at(r@, x, j as int);
            assert(all.take(k + 1).drop_last() =~= all.take(k as int));
            assert(all.take(k + 1).last() == all[k as int]);
        }
        r.insert(j, x);
        k = k + 1;
    }
    assert(all.take(workspaces@.len() as int) =~= all);
    r
}

} // verus!
