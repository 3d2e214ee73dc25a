//! What the overlay shows, apart from drawing it: its modes, the labels of
//! the keys, and the options of the template picker.

use vstd::prelude::*;

use crate::assoc::{assoc_get, assoc_map, keys_unique};
use crate::config::{ResolvedConfig, Select, Template, TemplateVariable, VariableType};
use crate::text::{is_lower_spec, str_eq, upper_spec};

verus! {

/// What a key press in the overlay does.
#[derive(Clone, Copy, Debug, PartialEq, Eq, Structural)]
pub enum Mode {
    Normal,
    Delete,
    MoveWindow,
}

impl Mode {
    pub open spec fn display_name_spec(self) -> Seq<char> {
        match self {
            Mode::Normal => "Switch"@,
            Mode::Delete => "Delete"@,
            Mode::MoveWindow => "Move Window"@,
        }
    }

    /// The mode's label on its tab.
    pub fn display_name(self) -> (r: &'static str)
        ensures
            r@ == self.display_name_spec(),
    {
        match self {
            Mode::Normal => "Switch",
            Mode::Delete => "Delete",
            Mode::MoveWindow => "Move Window",
        }
    }

    pub open spec fn hint_spec(self) -> Seq<char> {
        match self {
            Mode::Normal => "press key to select"@,
            Mode::Delete => "press key to delete (closes its windows)"@,
            Mode::MoveWindow => "press key to move the focused window"@,
        }
    }

    /// The first hint of the footer: what a key press does in this mode.
    pub fn hint(self) -> (r: &'static str)
        ensures
            r@ == self.hint_spec(),
    {
        match self {
            Mode::Normal => "press key to select",
            Mode::Delete => "press key to delete (closes its windows)",
            Mode::MoveWindow => "press key to move the focused window",
        }
    }

    pub open spec fn next_spec(self) -> Mode {
        match self {
            Mode::Normal => Mode::Delete,
            Mode::Delete => Mode::MoveWindow,
            Mode::MoveWindow => Mode::Normal,
        }
    }

    /// The mode after this one, cycling.
    pub fn next(self) -> (r: Mode)
        ensures
            r == self.next_spec(),
    {
        match self {
            Mode::Normal => Mode::Delete,
            Mode::Delete => Mode::MoveWindow,
            Mode::MoveWindow => Mode::Normal,
        }
    }

    pub open spec fn prev_spec(self) -> Mode {
        match self {
            Mode::Normal => Mode::MoveWindow,
            Mode::Delete => Mode::Normal,
            Mode::MoveWindow => Mode::Delete,
        }
    }

    /// The mode before this one, cycling.
    pub fn prev(self) -> (r: Mode)
        ensures
            r == self.prev_spec(),
    {
        match self {
            Mode::Normal => Mode::MoveWindow,
            Mode::Delete => Mode::Normal,
            Mode::MoveWindow => Mode::Delete,
        }
    }

    /// Every mode, in tab order.
    pub fn all() -> (r: Vec<Mode>)
        ensures
            r@ == seq![Mode::Normal, Mode::Delete, Mode::MoveWindow],
    {
        let mut v: Vec<Mode> = Vec::new();
        v.push(Mode::Normal);
        v.push(Mode::Delete);
        v.push(Mode::MoveWindow);
        assert(v@ =~= seq![Mode::Normal, Mode::Delete, Mode::MoveWindow]);
        v
    }

    pub open spec fn css_class_spec(self) -> Seq<char> {
        match self {
            Mode::Normal => "switch"@,
            Mode::Delete => "delete"@,
            Mode::MoveWindow => "move-window"@,
        }
    }

    /// The style class of the mode's tab.
    pub fn css_class(self) -> (r: &'static str)
        ensures
            r@ == self.css_class_spec(),
    {
        match self {
            Mode::Normal => "switch",
            Mode::Delete => "delete",
            Mode::MoveWindow => "move-window",
        }
    }

    pub open spec fn widget_name_spec(self) -> Seq<char> {
        match self {
            Mode::Normal => "mode-switch"@,
            Mode::Delete => "mode-delete"@,
            Mode::MoveWindow => "mode-move-window"@,
        }
    }

    /// The name of the overlay window in this mode.
    pub fn widget_name(self) -> (r: &'static str)
        ensures
            r@ == self.widget_name_spec(),
    {
        match self {
            Mode::Normal => "mode-switch",
            Mode::Delete => "mode-delete",
            Mode::MoveWindow => "mode-move-window",
        }
    }

    /// The mode whose window is named `name`, if any.
    pub fn from_widget_name(name: &str) -> (r: Option<Mode>)
        ensures
            match r {
                Some(m) => m.widget_name_spec() == name@,
                None => forall|m: Mode| m.widget_name_spec() != name@,
            },
    {
        proof {
            reveal_strlit("mode-switch");
            reveal_strlit("mode-delete");
            reveal_strlit("mode-move-window");
        }
        if str_eq(name, "mode-switch") {
            Some(Mode::Normal)
        } else if str_eq(name, "mode-delete") {
            Some(Mode::Delete)
        } else if str_eq(name, "mode-move-window") {
            Some(Mode::MoveWindow)
        } else {
            proof {
                assert forall|m: Mode| m.widget_name_spec() != name@ by {
                    match m {
                        Mode::Normal => {},
                        Mode::Delete => {},
                        Mode::MoveWindow => {},
                    }
                }
            }
            None
        }
    }

    pub open spec fn container_css_class_spec(self) -> Option<Seq<char>> {
        match self {
            Mode::Normal => None,
            Mode::Delete => Some("delete-mode"@),
            Mode::MoveWindow => Some("move-window-mode"@),
        }
    }

    /// The style class of the overlay's container in this mode; none in the normal mode.
    pub fn container_css_class(self) -> (r: Option<&'static str>)
        ensures
            match (r, self.container_css_class_spec()) {
                (Some(c), Some(s)) => c@ == s,
                (None, None) => true,
                _ => false,
            },
    {
        match self {
            Mode::Normal => None,
            Mode::Delete => Some("delete-mode"),
            Mode::MoveWindow => Some("move-window-mode"),
        }
    }
}

/// Cycling forward then back, or back then forward, returns to the same mode.
pub proof fn lemma_mode_next_prev(m: Mode)
    ensures
        m.next_spec().prev_spec() == m,
        m.prev_spec().next_spec() == m,
{
}

/// Cycling forward three times returns to the same mode, through every mode.
pub proof fn lemma_mode_cycle(m: Mode)
    ensures
        m.next_spec().next_spec().next_spec() == m,
        m.next_spec() != m,
        m.next_spec().next_spec() != m,
{
}

/// A mode is found again from its window name, and no two modes share one.
pub proof fn lemma_mode_widget_name(m: Mode, n: Mode)
    ensures
        m.widget_name_spec() == n.widget_name_spec() ==> m == n,
{
    reveal_strlit("mode-switch");
    reveal_strlit("mode-delete");
    reveal_strlit("mode-move-window");
    if m != n {
        match (m, n) {
            (Mode::Normal, Mode::Delete) => {
                assert(m.widget_name_spec()[5] != n.widget_name_spec()[5]);
            },
            (Mode::Delete, Mode::Normal) => {
                assert(m.widget_name_spec()[5] != n.widget_name_spec()[5]);
            },
            (Mode::Normal, Mode::MoveWindow) => {
                assert(m.widget_name_spec().len() != n.widget_name_spec().len());
            },
            (Mode::MoveWindow, Mode::Normal) => {
                assert(m.widget_name_spec().len() != n.widget_name_spec().len());
            },
            (Mode::Delete, Mode::MoveWindow) => {
                assert(m.widget_name_spec().len() != n.widget_name_spec().len());
            },
            (Mode::MoveWindow, Mode::Delete) => {
                assert(m.widget_name_spec().len() != n.widget_name_spec().len());
            },
            _ => {},
        }
    }
}

/// The label of key `ch`: an ASCII lowercase letter in upper case, anything else as it is.
pub open spec fn display_key_spec(ch: char) -> Seq<char> {
    seq![if is_lower_spec(ch) { upper_spec(ch) } else { ch }]
}

/// The label of key `ch` on the keyboard.
pub fn display_key_char(ch: char) -> (r: String)
    ensures
        r@ == display_key_spec(ch),
{
    let mut s = String::new();
    let c = if 'a' <= ch && ch <= 'z' {
        crate::text::to_upper(ch)
    } else {
        ch
    };
    crate::text::push_char(&mut s, c);
    assert(s@ =~= display_key_spec(ch));
    s
}

/// The label of workspace key `ch`: the key, then the configured name in
/// brackets when there is one.
pub open spec fn workspace_display_spec(ch: char, names: Seq<(char, String)>) -> Seq<char> {
    if assoc_map(names).dom().contains(ch) {
        display_key_spec(ch) + " ("@ + assoc_map(names)[ch]@ + ")"@
    } else {
        display_key_spec(ch)
    }
}

/// The label of workspace key `ch` under `config`.
pub fn format_workspace_display(ch: char, config: &ResolvedConfig) -> (r: String)
    requires
        keys_unique(config.workspace_names@),
    ensures
        r@ == workspace_display_spec(ch, config.workspace_names@),
{
    let key = display_key_char(ch);
    match assoc_get(&config.workspace_names, ch) {
        Some(name) => {
            let mut r = key;
            r.append(" (");
            r.append(name.as_str());
            r.append(")");
            r
        },
        None => key,
    }
}

/// An option in the template picker: "Empty" or a named template.
#[derive(Debug)]
pub struct TemplateOption {
    pub key: Option<char>,
    pub name: String,
    pub programs: Vec<String>,
    pub variables: Vec<TemplateVariable>,
    pub title: Option<String>,
}

/// Option `o` offers template `t`.
pub open spec fn offers(o: TemplateOption, t: Template) -> bool {
    &&& o.key == t.key
    &&& o.name@ == t.name@
    &&& o.programs.deep_view() == t.programs.deep_view()
    &&& o.variables@.len() == t.variables@.len()
    &&& forall|i: int| 0 <= i < o.variables@.len() ==> same_variable(#[trigger] o.variables@[i], t.variables@[i])
    &&& crate::niri::opt_string(o.title) == crate::niri::opt_string(t.title)
}

/// The options of the template picker: "Empty" under key `1` with the
/// default programs first, then every template in order.
pub fn build_template_options(config: &ResolvedConfig) -> (r: Vec<TemplateOption>)
    ensures
        r@.len() == config.templates@.len() + 1,
        r@[0].key == Some('1'),
        r@[0].name@ == "Empty"@,
        r@[0].programs.deep_view() == config.default_programs.deep_view(),
        r@[0].variables@.len() == 0,
        r@[0].title is None,
        forall|i: int| 0 <= i < config.templates@.len() ==> offers(#[trigger] r@[i + 1], config.templates@[i]),
{
    let mut options: Vec<TemplateOption> = Vec::new();
    options.push(TemplateOption {
        key: Some('1'),
        name: "Empty".to_string(),
        programs: crate::text::clone_strings(&config.default_programs),
        variables: Vec::new(),
        title: None,
    });
    let mut i: usize = 0;
    while i < config.templates.len()
        invariant
            i <= config.templates@.len(),
            options@.len() == i + 1,
            options@[0].key == Some('1'),
            options@[0].name@ == "Empty"@,
            options@[0].programs.deep_view() == config.default_programs.deep_view(),
            options@[0].variables@.len() == 0,
            options@[0].title is None,
            forall|j: int| 0 <= j < i ==> offers(#[trigger] options@[j + 1], config.templates@[j]),
        decreases config.templates@.len() - i,
    {
        let t = &config.templates[i];
        let vars = copy_variables(&t.variables);
        let opt = TemplateOption {
            key: t.key,
            name: t.name.clone(),
            programs: crate::text::clone_strings(&t.programs),
            variables: vars,
            title: match &t.title {
                Some(x) => Some(x.clone()),
                None => None,
            },
        };
        options.push(opt);
        assert(options@[i + 1] == opt);
        i = i + 1;
    }
    options
}

/// A key of the overlay keyboard and the workspace behind it.
#[derive(Debug)]
pub struct DynWorkspaceInfo {
    pub char_id: char,
    pub is_focused: bool,
    pub is_active: bool,
    pub is_uncreated: bool,
    pub is_urgent: bool,
    /// The key is pinned to an existing (non-dynamic) workspace.
    pub is_static: bool,
    /// The workspace exists but holds no windows.
    pub is_empty: bool,
    pub name: Option<String>,
    pub ws_name: Option<String>,
    pub output: Option<String>,
}

impl DynWorkspaceInfo {
    /// A key whose workspace does not exist yet.
    pub fn uncreated(ch: char) -> (r: DynWorkspaceInfo)
        ensures
            r.char_id == ch,
            r.is_uncreated,
            !r.is_focused,
            !r.is_active,
            !r.is_urgent,
            !r.is_static,
            !r.is_empty,
            r.name is None,
            r.ws_name is None,
            r.output is None,
    {
        DynWorkspaceInfo {
            char_id: ch,
            is_focused: false,
            is_active: false,
            is_uncreated: true,
            is_urgent: false,
            is_static: false,
            is_empty: false,
            name: None,
            ws_name: None,
            output: None,
        }
    }
}


/// Whether the card of `info` is dimmed as doing nothing in `mode`: an
/// uncreated key in every mode; in Move Window mode also the focused
/// workspace; in Delete mode also a pinned key; in Normal mode also a pinned
/// key whose workspace is empty (it still switches).
pub open spec fn card_disabled_spec(info: DynWorkspaceInfo, mode: Mode) -> bool {
    match mode {
        Mode::MoveWindow => info.is_uncreated || info.is_focused,
        Mode::Delete => info.is_uncreated || info.is_static,
        Mode::Normal => info.is_uncreated || (info.is_static && info.is_empty),
    }
}

/// The CSS classes of the card of `info` in `mode`: `keyboard-key`, then
/// `static-workspace` for a pinned key, `active` for the focused or an
/// active workspace, `urgent` for an urgent one, and `disabled` when the key
/// does nothing in `mode`.
pub open spec fn card_classes_spec(info: DynWorkspaceInfo, mode: Mode) -> Seq<Seq<char>> {
    seq!["keyboard-key"@]
        + (if info.is_static { seq!["static-workspace"@] } else { Seq::empty() })
        + (if info.is_focused || info.is_active { seq!["active"@] } else { Seq::empty() })
        + (if info.is_urgent { seq!["urgent"@] } else { Seq::empty() })
        + (if card_disabled_spec(info, mode) { seq!["disabled"@] } else { Seq::empty() })
}

/// Whether the card of `info` does nothing in `mode`.
pub fn card_disabled(info: &DynWorkspaceInfo, mode: Mode) -> (r: bool)
    ensures
        r == card_disabled_spec(*info, mode),
{
    match mode {
        Mode::MoveWindow => info.is_uncreated || info.is_focused,
        Mode::Delete => info.is_uncreated || info.is_static,
        Mode::Normal => info.is_uncreated || (info.is_static && info.is_empty),
    }
}

/// The CSS classes of the card of `info` in `mode`.
pub fn key_card_classes(info: &DynWorkspaceInfo, mode: Mode) -> (r: Vec<&'static str>)
    ensures
        r@.map_values(|c: &str| c@) == card_classes_spec(*info, mode),
{
    let mut r: Vec<&'static str> = vec!["keyboard-key"];
    let ghost mut v: Seq<Seq<char>> = seq!["keyboard-key"@];
    assert(r@.map_values(|c: &str| c@) =~= v);
    if info.is_static {
        r.push("static-workspace");
        proof {
            v = v + seq!["static-workspace"@];
        }
    } else {
        assert(v + Seq::<Seq<char>>::empty() =~= v);
    }
    assert(r@.map_values(|c: &str| c@) =~= v);
    if info.is_focused || info.is_active {
        r.push("active");
        proof {
            v = v + seq!["active"@];
        }
    }
    assert(r@.map_values(|c: &str| c@) =~= v);
    if info.is_urgent {
        r.push("urgent");
        proof {
            v = v + seq!["urgent"@];
        }
    }
    assert(r@.map_values(|c: &str| c@) =~= v);
    if card_disabled(info, mode) {
        r.push("disabled");
        proof {
            v = v + seq!["disabled"@];
        }
    }
    assert(r@.map_values(|c: &str| c@) =~= v);
    assert(v =~= card_classes_spec(*info, mode));
    r
}

/// Whether hovering a card previews its workspace: only for a card that
/// does something, in Normal mode, with hover preview on, and for a
/// workspace on the focused output (so the cursor does not jump).
pub fn hover_preview_enabled(
    disabled: bool,
    mode: Mode,
    hover_preview: bool,
    ws_output: Option<&str>,
    focused_output: Option<&str>,
) -> (r: bool)
    ensures
        r == (!disabled && mode == Mode::Normal && hover_preview && ws_output is Some && focused_output is Some
            && ws_output->Some_0@ == focused_output->Some_0@),
{
    if disabled || mode != Mode::Normal || !hover_preview {
        return false;
    }
    match (ws_output, focused_output) {
        (Some(w), Some(f)) => str_eq(w, f),
        _ => false,
    }
}

/// The status line of a card: `focused`, `active`, `empty` for a created
/// workspace without windows, the window count as `N win`, or none.
pub open spec fn status_text_spec(is_focused: bool, is_active: bool, is_uncreated: bool, window_count: nat) -> Option<Seq<char>> {
    if is_focused {
        Some("focused"@)
    } else if is_active {
        Some("active"@)
    } else if !is_uncreated && window_count == 0 {
        Some("empty"@)
    } else if window_count > 0 {
        Some(crate::loading::decimal(window_count) + " win"@)
    } else {
        None
    }
}

/// The status line of a card for a workspace that is focused, active or
/// neither, created or not, with `window_count` windows.
pub fn status_text(is_focused: bool, is_active: bool, is_uncreated: bool, window_count: usize) -> (r: Option<String>)
    ensures
        match r {
            Some(t) => status_text_spec(is_focused, is_active, is_uncreated, window_count as nat) == Some(t@),
            None => status_text_spec(is_focused, is_active, is_uncreated, window_count as nat) is None,
        },
{
    if is_focused {
        Some("focused".to_string())
    } else if is_active {
        Some("active".to_string())
    } else if !is_uncreated && window_count == 0 {
        Some("empty".to_string())
    } else if window_count > 0 {
        let mut t = crate::loading::decimal_string(window_count as u128);
        t.append(" win");
        Some(t)
    } else {
        None
    }
}

/// The strings of `v`, each cloned.
fn copy_strings(v: &Vec<String>) -> (r: Vec<String>)
    ensures
        r@ == v@,
{
    let mut r: Vec<String> = Vec::new();
    let mut i: usize = 0;
    while i < v.len()
        invariant
            i <= v@.len(),
            r@ == v@.take(i as int),
        decreases v@.len() - i,
    {
        r.push(v[i].clone());
        i = i + 1;
        assert(r@ =~= v@.take(i as int));
    }
    assert(v@.take(v@.len() as int) =~= v@);
    r
}

/// `a` and `b` are the same variable: same name, label and kind of value.
pub open spec fn same_variable(a: TemplateVariable, b: TemplateVariable) -> bool {
    &&& a.name == b.name
    &&& a.label == b.label
    &&& match (a.var_type, b.var_type) {
        (VariableType::Text, VariableType::Text) => true,
        (VariableType::Select(Select::Options(x)), VariableType::Select(Select::Options(y))) => x@ == y@,
        (VariableType::Select(Select::Command(x)), VariableType::Select(Select::Command(y))) => x == y,
        (VariableType::Select(Select::Dirs { dirs: x, depth: d }), VariableType::Select(Select::Dirs { dirs: y, depth: e })) => x@
            == y@ && d == e,
        _ => false,
    }
}

/// A copy of variable `v`.
fn copy_variable(v: &TemplateVariable) -> (r: TemplateVariable)
    ensures
        same_variable(r, *v),
{
    let var_type = match &v.var_type {
        VariableType::Text => VariableType::Text,
        VariableType::Select(Select::Options(o)) => VariableType::Select(Select::Options(copy_strings(o))),
        VariableType::Select(Select::Command(c)) => VariableType::Select(Select::Command(c.clone())),
        VariableType::Select(Select::Dirs { dirs, depth }) => VariableType::Select(Select::Dirs { dirs: copy_strings(dirs), depth: *depth }),
    };
    TemplateVariable { name: v.name.clone(), label: v.label.clone(), var_type }
}

/// Copies of the variables of `v`, in order.
fn copy_variables(v: &Vec<TemplateVariable>) -> (r: Vec<TemplateVariable>)
    ensures
        r@.len() == v@.len(),
        forall|i: int| 0 <= i < v@.len() ==> same_variable(#[trigger] r@[i], v@[i]),
{
    let mut r: Vec<TemplateVariable> = Vec::new();
    let mut i: usize = 0;
    while i < v.len()
        invariant
            i <= v@.len(),
            r@.len() == i,
            forall|j: int| 0 <= j < i ==> same_variable(#[trigger] r@[j], v@[j]),
        decreases v@.len() - i,
    {
        r.push(copy_variable(&v[i]));
        i = i + 1;
    }
    r
}

} // verus!
