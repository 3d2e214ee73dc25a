//! Turning the config file's contents into a [`ResolvedConfig`], with a
//! warning for every setting that is ignored or replaced.

use vstd::prelude::*;

use crate::config::{
    CardLayout, HookConfig, ResolvedConfig, Select, Template, TemplateVariable, VariableType,
};
use crate::theme::{parse_theme_spec, Theme};
use crate::keybind::{parse_modifier, parse_modifier_spec, SHIFT_MASK, parse_keybind, parse_keybind_spec, shadowed_workspace_key, shadowed_workspace_key_spec, KeyTable, Keybind};
use crate::layout::{lookup_layout, lookup_layout_spec, KeyboardLayout, LayoutId};
use crate::naming::{parse_dynamic_name, parse_dynamic_name_spec, parse_workspace_char, parse_workspace_char_spec};
use crate::template::{
    build_argv, build_argv_spec, contains_string, extract_variable_references, hook_env_var,
    hook_env_var_spec, mentions_env_var, mentions_from, refs_spec, segments_spec, trim, trim_bounds,
};
use crate::text::{chars_of, lower_seq, push_char, str_eq};
use crate::layout::to_ascii_lowercase;
use crate::assoc::{assoc_insert, assoc_map, keys_unique};

verus! {

// --- The config file's contents ---

/// `[general]`.
#[derive(Clone, Debug)]
pub struct RawGeneral {
    pub workspace_prefix: String,
    pub default_programs: Vec<String>,
    pub auto_delete_empty: bool,
    pub layout: String,
    pub hover_preview: bool,
    pub hide_empty_static: bool,
    pub inhibit_compositor_shortcuts: bool,
    pub confirm_delete: bool,
    pub theme: String,
    /// Alt+key in the overlay pulls the workspace onto the focused monitor
    /// (Switch mode) or moves the window without following it (Move Window).
    pub alt_variants: bool,
}

impl RawGeneral {
    /// `self` holds the settings of an empty `[general]`.
    pub open spec fn is_default(self) -> bool {
        &&& self.workspace_prefix@ == "dyn-"@
        &&& self.default_programs@.len() == 0
        &&& self.auto_delete_empty
        &&& self.layout@ == "qwerty"@
        &&& self.hover_preview
        &&& !self.hide_empty_static
        &&& self.inhibit_compositor_shortcuts
        &&& self.confirm_delete
        &&& self.theme@ == "gtk"@
        &&& !self.alt_variants
    }

    /// The settings of an empty `[general]`.
    pub fn defaults() -> (g: RawGeneral)
        ensures
            g.is_default(),
    {
        RawGeneral {
            workspace_prefix: "dyn-".to_string(),
            default_programs: Vec::new(),
            auto_delete_empty: true,
            layout: "qwerty".to_string(),
            hover_preview: true,
            hide_empty_static: false,
            inhibit_compositor_shortcuts: true,
            confirm_delete: true,
            theme: "gtk".to_string(),
            alt_variants: false,
        }
    }
}

/// A `[template.NAME.variables.VAR]` table.
#[derive(Clone, Debug)]
pub struct RawVariable {
    pub name: String,
    pub variable_type: String,
    pub options: Vec<String>,
    pub command: Option<String>,
    pub dirs: Vec<String>,
    pub depth: Option<u32>,
}

impl RawVariable {
    /// The settings of an empty variable table: type `text`.
    pub fn defaults() -> (v: RawVariable)
        ensures
            v.name@.len() == 0,
            v.variable_type@ == "text"@,
            v.options@.len() == 0,
            v.command is None,
            v.dirs@.len() == 0,
            v.depth is None,
    {
        RawVariable {
            name: String::new(),
            variable_type: "text".to_string(),
            options: Vec::new(),
            command: None,
            dirs: Vec::new(),
            depth: None,
        }
    }
}

/// A `[template.NAME]` table.
#[derive(Clone, Debug)]
pub struct RawTemplate {
    pub programs: Vec<String>,
    pub key: Option<String>,
    /// In declaration order: the form's order, and the first fills in the title.
    pub variables: Vec<(String, RawVariable)>,
    pub on_create: Vec<String>,
    pub title: Option<String>,
}

/// A `[workspace.KEY]` table.
#[derive(Clone, Debug)]
pub struct RawWorkspace {
    pub name: Option<String>,
    pub programs: Vec<String>,
    pub static_workspace: Option<String>,
    /// A template that creates this key's workspace without the picker.
    pub template: Option<String>,
}

/// The whole config file.
#[derive(Clone, Debug)]
pub struct RawConfig {
    pub general: RawGeneral,
    pub close: Vec<String>,
    /// `keybinds.delete_modifier`.
    pub delete_modifier: String,
    /// `[layout]`.
    pub card_layout: CardLayout,
    pub on_create: Vec<String>,
    pub on_delete: Vec<String>,
    pub workspace: Vec<(String, RawWorkspace)>,
    /// In declaration order, which sets the picker order and automatic keys.
    pub template: Vec<(String, RawTemplate)>,
}

/// The close keybinds of an empty `[keybinds]`.
pub open spec fn default_close_spec() -> Seq<Seq<char>> {
    seq!["Escape"@, "Ctrl+c"@, "Ctrl+w"@, "Ctrl+q"@]
}

pub fn default_close() -> (v: Vec<String>)
    ensures
        v.deep_view() == default_close_spec(),
{
    let v = vec![
        "Escape".to_string(),
        "Ctrl+c".to_string(),
        "Ctrl+w".to_string(),
        "Ctrl+q".to_string(),
    ];
    assert(v.deep_view() =~= default_close_spec());
    v
}

impl RawConfig {
    /// `self` is an empty config file.
    pub open spec fn is_default(self) -> bool {
        &&& self.general.is_default()
        &&& self.close.deep_view() == default_close_spec()
        &&& self.delete_modifier@ == "Shift"@
        &&& self.card_layout == CardLayout::defaults_spec()
        &&& self.on_create@.len() == 0
        &&& self.on_delete@.len() == 0
        &&& self.workspace@.len() == 0
        &&& self.template@.len() == 0
    }

    /// An empty config file.
    pub fn defaults() -> (c: RawConfig)
        ensures
            c.is_default(),
    {
        RawConfig {
            general: RawGeneral::defaults(),
            close: default_close(),
            delete_modifier: "Shift".to_string(),
            card_layout: CardLayout::defaults(),
            on_create: Vec::new(),
            on_delete: Vec::new(),
            workspace: Vec::new(),
            template: Vec::new(),
        }
    }
}

// --- Small text builders ---

/// `a` `b` `c` joined.
fn join3(a: &str, b: &str, c: &str) -> (r: String)
    ensures
        r@ == a@ + b@ + c@,
{
    let mut r = a.to_string();
    r.append(b);
    r.append(c);
    r
}

/// `a` `b` `c` `d` `e` joined.
fn join5(a: &str, b: &str, c: &str, d: &str, e: &str) -> (r: String)
    ensures
        r@ == a@ + b@ + c@ + d@ + e@,
{
    let mut r = join3(a, b, c);
    r.append(d);
    r.append(e);
    r
}

/// The one-character string `c`.
fn char_string(c: char) -> (r: String)
    ensures
        r@ == seq![c],
{
    let mut r = String::new();
    push_char(&mut r, c);
    r
}

// --- Variable types ---

/// The prefix of messages about variable `var` of template `tmpl`.
pub open spec fn var_msg(tmpl: Seq<char>, var: Seq<char>, rest: Seq<char>) -> Seq<char> {
    "template '"@ + tmpl + "': variable '"@ + var + rest
}

/// The type a variable entry resolves to, and the warnings it gives.
pub open spec fn variable_type_spec(tmpl: Seq<char>, var: Seq<char>, e: RawVariable) -> (
    VariableType,
    Seq<Seq<char>>,
) {
    let t = lower_seq(e.variable_type@);
    if t == "text"@ {
        (VariableType::Text, Seq::empty())
    } else if t == "options"@ {
        if e.options@.len() == 0 {
            (
                VariableType::Text,
                seq![
                    var_msg(
                        tmpl,
                        var,
                        "' has type 'options' but no options provided, falling back to text"@,
                    ),
                ],
            )
        } else {
            (VariableType::Select(Select::Options(e.options)), Seq::empty())
        }
    } else if t == "command"@ {
        match e.command {
            Some(cmd) => (VariableType::Select(Select::Command(cmd)), Seq::empty()),
            None => (
                VariableType::Text,
                seq![
                    var_msg(
                        tmpl,
                        var,
                        "' has type 'command' but no command provided, falling back to text"@,
                    ),
                ],
            ),
        }
    } else if t == "dir"@ {
        if e.dirs@.len() == 0 {
            (
                VariableType::Text,
                seq![
                    var_msg(
                        tmpl,
                        var,
                        "' has type 'dir' but no dirs provided, falling back to text"@,
                    ),
                ],
            )
        } else {
            match e.depth {
                Some(0) => (
                    VariableType::Select(Select::Dirs { dirs: e.dirs, depth: 1 }),
                    seq![var_msg(tmpl, var, "' has depth=0, clamping to 1"@)],
                ),
                Some(d) => (VariableType::Select(Select::Dirs { dirs: e.dirs, depth: d }), Seq::empty()),
                None => (VariableType::Select(Select::Dirs { dirs: e.dirs, depth: 1 }), Seq::empty()),
            }
        }
    } else {
        (
            VariableType::Text,
            seq![
                "template '"@ + tmpl + "': unknown variable type '"@ + e.variable_type@ + "' for '"@
                    + var + "', defaulting to text"@,
            ],
        )
    }
}

/// Resolve a single template variable's type from its entry.
///
/// The `type` field (any case) determines the variable kind:
/// - `"text"` — free-form text input
/// - `"options"` — dropdown from a static list (`options` field)
/// - `"command"` — dropdown from shell command output (`command` field)
/// - `"dir"` — dropdown from directory scan (`dirs` + optional `depth` fields)
///
/// A kind whose source is missing falls back to text with a warning.
pub fn resolve_variable_type(template_name: &str, var_name: &str, entry: RawVariable) -> (r: (
    VariableType,
    Vec<String>,
))
    ensures
        r.0 == variable_type_spec(template_name@, var_name@, entry).0,
        r.1.deep_view() == variable_type_spec(template_name@, var_name@, entry).1,
{
    proof {
        reveal_strlit("");
        reveal_strlit("text");
        reveal_strlit("options");
        reveal_strlit("command");
        reveal_strlit("dir");
    }
    let t = to_ascii_lowercase(entry.variable_type.as_str());
    let mut w: Vec<String> = Vec::new();
    let prefix = join5("template '", template_name, "': variable '", var_name, "");
    if str_eq(t.as_str(), "text") {
        (VariableType::Text, w)
    } else if str_eq(t.as_str(), "options") {
        if entry.options.len() == 0 {
            w.push(join3(prefix.as_str(), "' has type 'options' but no options provided, falling back to text", ""));
            assert(w.deep_view() =~= variable_type_spec(template_name@, var_name@, entry).1);
            (VariableType::Text, w)
        } else {
            (VariableType::Select(Select::Options(entry.options)), w)
        }
    } else if str_eq(t.as_str(), "command") {
        match entry.command {
            Some(cmd) => (VariableType::Select(Select::Command(cmd)), w),
            None => {
                w.push(join3(prefix.as_str(), "' has type 'command' but no command provided, falling back to text", ""));
                assert(w.deep_view() =~= variable_type_spec(template_name@, var_name@, entry).1);
                (VariableType::Text, w)
            },
        }
    } else if str_eq(t.as_str(), "dir") {
        if entry.dirs.len() == 0 {
            w.push(join3(prefix.as_str(), "' has type 'dir' but no dirs provided, falling back to text", ""));
            assert(w.deep_view() =~= variable_type_spec(template_name@, var_name@, entry).1);
            (VariableType::Text, w)
        } else {
            let depth = match entry.depth {
                Some(0) => {
                    w.push(join3(prefix.as_str(), "' has depth=0, clamping to 1", ""));
                    assert(w.deep_view() =~= variable_type_spec(template_name@, var_name@, entry).1);
                    1
                },
                Some(d) => d,
                None => 1,
            };
            (VariableType::Select(Select::Dirs { dirs: entry.dirs, depth }), w)
        }
    } else {
        w.push(join5("template '", template_name, "': unknown variable type '", entry.variable_type.as_str(), ""));
        let last = w.pop().unwrap();
        w.push(join5(last.as_str(), "' for '", var_name, "', defaulting to text", ""));
        assert(w.deep_view() =~= variable_type_spec(template_name@, var_name@, entry).1);
        (VariableType::Text, w)
    }
}

// --- Programs that cannot be split ---

/// The warnings for `programs` that cannot be split into arguments.
pub open spec fn unbalanced_spec(context: Seq<char>, programs: Seq<Seq<char>>) -> Seq<Seq<char>>
    decreases programs.len(),
{
    if programs.len() == 0 {
        Seq::empty()
    } else {
        let rest = unbalanced_spec(context, programs.drop_last());
        if build_argv_spec(programs.last(), Seq::empty()) is None {
            rest.push(
                context + ": cannot split program `"@ + programs.last()
                    + "` (missing closing quote)"@,
            )
        } else {
            rest
        }
    }
}

/// Warn about each of `programs` that cannot be split into arguments; it
/// would fail when a workspace is created.
pub fn warn_unbalanced(context: &str, programs: &Vec<String>, warnings: &mut Vec<String>)
    ensures
        final(warnings).deep_view() == old(warnings).deep_view() + unbalanced_spec(
            context@,
            programs.deep_view(),
        ),
{
    let ghost start = warnings.deep_view();
    let empty: Vec<(String, String)> = Vec::new();
    proof {
        reveal_strlit("");
    }
    let mut i: usize = 0;
    while i < programs.len()
        invariant
            i <= programs.len(),
            empty@.len() == 0,
            warnings.deep_view() == start + unbalanced_spec(
                context@,
                programs.deep_view().take(i as int),
            ),
        decreases programs.len() - i,
    {
        assert(programs.deep_view().take(i + 1).drop_last() =~= programs.deep_view().take(i as int));
        assert(programs.deep_view().take(i + 1).last() == programs@[i as int]@);
        assert(crate::order::pairs_view(empty@) =~= Seq::empty());
        let ghost before = warnings.deep_view();
        proof {
            reveal_strlit("");
        }
        if build_argv(programs[i].as_str(), &empty).is_err() {
            let msg = join5(context, ": cannot split program `", programs[i].as_str(), "` (missing closing quote)", "");
            warnings.push(msg);
            assert(warnings.deep_view() =~= before.push(msg@));
        }
        i = i + 1;
    }
    assert(programs.deep_view().take(programs.len() as int) =~= programs.deep_view());
}

// --- Close keybinds ---

/// The keybinds of `close` that parse, with their warnings.
pub open spec fn close_binds_spec(close: Seq<Seq<char>>, keys: Seq<(String, crate::keybind::KeySym)>) -> (
    Seq<Keybind>,
    Seq<Seq<char>>,
)
    decreases close.len(),
{
    if close.len() == 0 {
        (Seq::empty(), Seq::empty())
    } else {
        let (binds, warns) = close_binds_spec(close.drop_last(), keys);
        let s = close.last();
        match parse_keybind_spec(s, keys) {
            Ok(kb) => (
                binds.push(kb),
                match shadowed_workspace_key_spec(kb) {
                    Some(ch) => warns.push(
                        "close keybind '"@ + s + "' shadows workspace key '"@ + seq![ch] + "'"@,
                    ),
                    None => warns,
                },
            ),
            Err(e) => (binds, warns.push("ignoring close keybind '"@ + s + "': "@ + e)),
        }
    }
}

/// The keybinds of `close` that parse, without warnings.
pub open spec fn parsed_binds_spec(close: Seq<Seq<char>>, keys: Seq<(String, crate::keybind::KeySym)>) -> Seq<Keybind>
    decreases close.len(),
{
    if close.len() == 0 {
        Seq::empty()
    } else {
        let binds = parsed_binds_spec(close.drop_last(), keys);
        match parse_keybind_spec(close.last(), keys) {
            Ok(kb) => binds.push(kb),
            Err(_) => binds,
        }
    }
}

/// The close keybinds a config gets: those of `close` that parse, or the
/// defaults when `close` names some and none parses.
pub open spec fn resolve_close_spec(close: Seq<Seq<char>>, keys: Seq<(String, crate::keybind::KeySym)>) -> (
    Seq<Keybind>,
    Seq<Seq<char>>,
) {
    let (binds, warns) = close_binds_spec(close, keys);
    if binds.len() == 0 && close.len() > 0 {
        (
            parsed_binds_spec(default_close_spec(), keys),
            warns.push("no valid close keybind, using the defaults"@),
        )
    } else {
        (binds, warns)
    }
}

/// The keybinds of `close` that parse, without warnings.
fn parsed_binds(close: &Vec<String>, keys: &KeyTable) -> (r: Vec<Keybind>)
    ensures
        r@ == parsed_binds_spec(close.deep_view(), keys.entries@),
{
    let mut binds: Vec<Keybind> = Vec::new();
    let mut i: usize = 0;
    while i < close.len()
        invariant
            i <= close.len(),
            binds@ == parsed_binds_spec(close.deep_view().take(i as int), keys.entries@),
        decreases close.len() - i,
    {
        assert(close.deep_view().take(i + 1).drop_last() =~= close.deep_view().take(i as int));
        assert(close.deep_view().take(i + 1).last() == close@[i as int]@);
        match parse_keybind(close[i].as_str(), keys) {
            Ok(kb) => binds.push(kb),
            Err(_) => {},
        }
        i = i + 1;
    }
    assert(close.deep_view().take(close.len() as int) =~= close.deep_view());
    binds
}

/// Parse the close keybinds, warning about each one that does not parse or
/// that shadows a workspace key.
pub fn resolve_close_keybinds(close: &Vec<String>, keys: &KeyTable) -> (r: (Vec<Keybind>, Vec<String>))
    ensures
        r.0@ == resolve_close_spec(close.deep_view(), keys.entries@).0,
        r.1.deep_view() == resolve_close_spec(close.deep_view(), keys.entries@).1,
{
    let mut binds: Vec<Keybind> = Vec::new();
    let mut warnings: Vec<String> = Vec::new();
    let mut i: usize = 0;
    while i < close.len()
        invariant
            i <= close.len(),
            binds@ == close_binds_spec(close.deep_view().take(i as int), keys.entries@).0,
            warnings.deep_view() == close_binds_spec(close.deep_view().take(i as int), keys.entries@).1,
        decreases close.len() - i,
    {
        assert(close.deep_view().take(i + 1).drop_last() =~= close.deep_view().take(i as int));
        assert(close.deep_view().take(i + 1).last() == close@[i as int]@);
        let s = close[i].as_str();
        let ghost before = warnings.deep_view();
        proof {
            reveal_strlit("");
        }
        match parse_keybind(s, keys) {
            Ok(kb) => {
                match shadowed_workspace_key(&kb) {
                    Some(ch) => {
                        let c = char_string(ch);
                        let msg = join5("close keybind '", s, "' shadows workspace key '", c.as_str(), "'");
                        warnings.push(msg);
                        assert(warnings.deep_view() =~= before.push(msg@));
                    },
                    None => {},
                }
                binds.push(kb);
            },
            Err(e) => {
                let msg = join5("ignoring close keybind '", s, "': ", e.as_str(), "");
                warnings.push(msg);
                assert(warnings.deep_view() =~= before.push(msg@));
            },
        }
        i = i + 1;
    }
    assert(close.deep_view().take(close.len() as int) =~= close.deep_view());
    if binds.len() == 0 && close.len() > 0 {
        let ghost before = warnings.deep_view();
        let msg = "no valid close keybind, using the defaults".to_string();
        warnings.push(msg);
        assert(warnings.deep_view() =~= before.push(msg@));
        let defaults = default_close();
        binds = parsed_binds(&defaults, keys);
    }
    (binds, warnings)
}

// --- Workspace prefix ---

/// The prefix a config gets: its own, or `dyn-` with a warning when it is
/// empty or blank.
pub open spec fn resolve_prefix_spec(prefix: Seq<char>) -> (Seq<char>, Seq<Seq<char>>) {
    if trim(prefix).len() == 0 {
        ("dyn-"@, seq!["workspace_prefix must not be empty, using 'dyn-'"@])
    } else {
        (prefix, Seq::empty())
    }
}

pub fn resolve_prefix(prefix: String) -> (r: (String, Vec<String>))
    ensures
        r.0@ == resolve_prefix_spec(prefix@).0,
        r.1.deep_view() == resolve_prefix_spec(prefix@).1,
{
    let v = chars_of(prefix.as_str());
    let (a, b) = trim_bounds(&v, 0, v.len());
    assert(v@.subrange(0, v@.len() as int) =~= prefix@);
    let mut w: Vec<String> = Vec::new();
    if a == b {
        w.push("workspace_prefix must not be empty, using 'dyn-'".to_string());
        assert(w.deep_view() =~= resolve_prefix_spec(prefix@).1);
        ("dyn-".to_string(), w)
    } else {
        (prefix, w)
    }
}

// --- Workspace tables ---

/// The maps the `[workspace.KEY]` tables build, and their warnings.
#[verifier::ext_equal]
pub struct WorkspaceMaps {
    pub programs: Map<char, Vec<String>>,
    pub names: Map<char, String>,
    pub statics: Map<char, String>,
    pub templates: Map<char, String>,
    pub warnings: Seq<Seq<char>>,
}

/// The heading of a workspace table, `[workspace.KEY]`.
pub open spec fn ws_ctx(key: Seq<char>) -> Seq<char> {
    "[workspace."@ + key + "]"@
}

/// What one `[workspace.KEY]` table adds for key `ch` once any `static`
/// target has been set aside: its programs (when there are any), its name,
/// and its template when `tnames` has one so named.
pub open spec fn ws_dynamic_step(acc: WorkspaceMaps, key: Seq<char>, ch: char, e: RawWorkspace, tnames: Seq<Seq<char>>) -> WorkspaceMaps {
    let acc = match e.template {
        Some(t) => if tnames.contains(t@) {
            WorkspaceMaps { templates: acc.templates.insert(ch, t), ..acc }
        } else {
            WorkspaceMaps {
                warnings: acc.warnings.push(ws_ctx(key) + ": unknown template '"@ + t@ + "', ignoring"@),
                ..acc
            }
        },
        None => acc,
    };
    let acc = if e.programs@.len() > 0 {
        WorkspaceMaps {
            programs: acc.programs.insert(ch, e.programs),
            warnings: acc.warnings + unbalanced_spec(ws_ctx(key), e.programs.deep_view()),
            ..acc
        }
    } else {
        acc
    };
    match e.name {
        Some(n) => WorkspaceMaps { names: acc.names.insert(ch, n), ..acc },
        None => acc,
    }
}

/// What one `[workspace.KEY]` table adds under `prefix`, with `tnames` the
/// names of the templates.
pub open spec fn ws_step(acc: WorkspaceMaps, key: Seq<char>, e: RawWorkspace, prefix: Seq<char>, tnames: Seq<Seq<char>>) -> WorkspaceMaps {
    match parse_workspace_char_spec(key) {
        None => WorkspaceMaps {
            warnings: acc.warnings.push(
                "ignoring [workspace] key '"@ + key
                    + "': must be a single workspace key (a-z or 0-9)"@,
            ),
            ..acc
        },
        Some(ch) => match e.static_workspace {
            Some(t) => if t@.len() == 0 {
                ws_dynamic_step(
                    WorkspaceMaps {
                        warnings: acc.warnings.push(ws_ctx(key) + ": 'static' is empty, ignoring"@),
                        ..acc
                    },
                    key,
                    ch,
                    e,
                    tnames,
                )
            } else if parse_dynamic_name_spec(lower_seq(t@), lower_seq(prefix)) is Some {
                ws_dynamic_step(
                    WorkspaceMaps {
                        warnings: acc.warnings.push(
                            ws_ctx(key) + ": 'static' target '"@ + t@
                                + "' is a dynamic workspace name, ignoring"@,
                        ),
                        ..acc
                    },
                    key,
                    ch,
                    e,
                    tnames,
                )
            } else {
                let warnings = if e.programs@.len() > 0 {
                    acc.warnings.push(
                        ws_ctx(key) + ": 'programs' are ignored for static workspaces"@,
                    )
                } else {
                    acc.warnings
                };
                let warnings = if e.template is Some {
                    warnings.push(ws_ctx(key) + ": 'template' is ignored for static workspaces"@)
                } else {
                    warnings
                };
                let names = match e.name {
                    Some(n) if n@.len() > 0 => acc.names.insert(ch, n),
                    _ => acc.names,
                };
                WorkspaceMaps { statics: acc.statics.insert(ch, t), names, warnings, ..acc }
            },
            None => ws_dynamic_step(acc, key, ch, e, tnames),
        },
    }
}

/// The maps the workspace tables `entries` build under `prefix`, with
/// `tnames` the names of the templates.
pub open spec fn workspaces_spec(entries: Seq<(String, RawWorkspace)>, prefix: Seq<char>, tnames: Seq<Seq<char>>) -> WorkspaceMaps
    decreases entries.len(),
{
    if entries.len() == 0 {
        WorkspaceMaps {
            programs: Map::empty(),
            names: Map::empty(),
            statics: Map::empty(),
            templates: Map::empty(),
            warnings: Seq::empty(),
        }
    } else {
        ws_step(
            workspaces_spec(entries.drop_last(), prefix, tnames),
            entries.last().0@,
            entries.last().1,
            prefix,
            tnames,
        )
    }
}

/// The tables the workspace entries build, as pair lists.
pub struct ResolvedWorkspaces {
    pub programs: Vec<(char, Vec<String>)>,
    pub names: Vec<(char, String)>,
    pub statics: Vec<(char, String)>,
    pub templates: Vec<(char, String)>,
    pub warnings: Vec<String>,
}

impl ResolvedWorkspaces {
    pub open spec fn wf(&self) -> bool {
        keys_unique(self.programs@) && keys_unique(self.names@) && keys_unique(self.statics@) && keys_unique(
            self.templates@,
        )
    }

    pub open spec fn matches(&self, m: WorkspaceMaps) -> bool {
        &&& assoc_map(self.programs@) == m.programs
        &&& assoc_map(self.names@) == m.names
        &&& assoc_map(self.statics@) == m.statics
        &&& assoc_map(self.templates@) == m.templates
        &&& self.warnings.deep_view() == m.warnings
    }

    pub open spec fn maps(&self) -> WorkspaceMaps {
        WorkspaceMaps {
            programs: assoc_map(self.programs@),
            names: assoc_map(self.names@),
            statics: assoc_map(self.statics@),
            templates: assoc_map(self.templates@),
            warnings: self.warnings.deep_view(),
        }
    }
}

/// Add the programs and name of a workspace table for key `ch`.
fn add_dynamic(out: &mut ResolvedWorkspaces, key: &str, ch: char, e: RawWorkspace, tnames: &Vec<String>)
    requires
        old(out).wf(),
    ensures
        final(out).wf(),
        final(out).maps() == ws_dynamic_step(old(out).maps(), key@, ch, e, tnames.deep_view()),
{
    proof {
        reveal_strlit("");
    }
    match e.template {
        Some(t) => {
            if contains_string(tnames, t.as_str()) {
                assoc_insert(&mut out.templates, ch, t);
            } else {
                let ctx = join3("[workspace.", key, "]");
                let msg = join5(ctx.as_str(), ": unknown template '", t.as_str(), "', ignoring", "");
                let ghost before = out.warnings.deep_view();
                out.warnings.push(msg);
                assert(out.warnings.deep_view() =~= before.push(msg@));
            }
        },
        None => {},
    }
    if e.programs.len() > 0 {
        let ctx = join3("[workspace.", key, "]");
        warn_unbalanced(ctx.as_str(), &e.programs, &mut out.warnings);
        assoc_insert(&mut out.programs, ch, e.programs);
    }
    match e.name {
        Some(n) => assoc_insert(&mut out.names, ch, n),
        None => {},
    }
}

/// Resolve the `[workspace.KEY]` tables under workspace prefix `prefix`.
///
/// A key must be one workspace character. A `static` target pins the key to
/// an existing niri workspace (ignoring its programs); an empty target, or
/// one that is itself a dynamic name, is ignored with a warning.
pub fn resolve_workspaces(entries: Vec<(String, RawWorkspace)>, prefix: &str, tnames: &Vec<String>) -> (r: ResolvedWorkspaces)
    ensures
        r.wf(),
        r.maps() == workspaces_spec(entries@, prefix@, tnames.deep_view()),
{
    proof {
        reveal_strlit("");
    }
    let ghost all = entries@;
    let lower_prefix = to_ascii_lowercase(prefix);
    let mut out = ResolvedWorkspaces {
        programs: Vec::new(),
        names: Vec::new(),
        statics: Vec::new(),
        templates: Vec::new(),
        warnings: Vec::new(),
    };
    assert(out.maps() == workspaces_spec(all.take(0), prefix@, tnames.deep_view())) by {
        assert(assoc_map(out.templates@) =~= Map::<char, String>::empty());
        assert(out.warnings.deep_view() =~= Seq::<Seq<char>>::empty());
        assert(assoc_map(out.programs@) =~= Map::<char, Vec<String>>::empty());
        assert(assoc_map(out.names@) =~= Map::<char, String>::empty());
        assert(assoc_map(out.statics@) =~= Map::<char, String>::empty());
    }
    let n = entries.len();
    let mut rest = entries;
    let mut i: usize = 0;
    assert(all.skip(0) =~= all);
    while rest.len() > 0
        invariant
            out.wf(),
            lower_prefix@ == lower_seq(prefix@),
            i <= all.len(),
            all.len() == n,
            rest@ == all.skip(i as int),
            out.maps() == workspaces_spec(all.take(i as int), prefix@, tnames.deep_view()),
        decreases rest@.len(),
    {
        let (key, e) = rest.remove(0);
        assert(rest@ =~= all.skip(i + 1));
        assert(all.take(i + 1).drop_last() =~= all.take(i as int));
        assert(all.take(i + 1).last() == all[i as int]);
        let ghost before = out.maps();
        let ghost eg = all[i as int].1;
        assert(rest@.len() == n - i - 1);
        proof {
            reveal_strlit("");
        }
        match parse_workspace_char(key.as_str()) {
            None => {
                let msg = join3("ignoring [workspace] key '", key.as_str(), "': must be a single workspace key (a-z or 0-9)");
                out.warnings.push(msg);
                assert(out.warnings.deep_view() =~= before.warnings.push(msg@));
            },
            Some(ch) => {
                let ctx = join3("[workspace.", key.as_str(), "]");
                match e.static_workspace {
                    Some(t) => {
                        let lower_t = to_ascii_lowercase(t.as_str());
                        if t.unicode_len() == 0 {
                            let msg = join3(ctx.as_str(), ": 'static' is empty, ignoring", "");
                            out.warnings.push(msg);
                            assert(out.warnings.deep_view() =~= before.warnings.push(msg@));
                            assert(out.maps() =~= WorkspaceMaps { warnings: before.warnings.push(msg@), ..before });
                            assert(eg == RawWorkspace { static_workspace: Some(t), ..e });
                            add_dynamic(&mut out, key.as_str(), ch, RawWorkspace { static_workspace: Some(t), ..e }, tnames);
                            assert(out.maps() == ws_step(before, key@, eg, prefix@, tnames.deep_view()));
                        } else if parse_dynamic_name(lower_t.as_str(), lower_prefix.as_str()).is_some() {
                            let msg = join5(ctx.as_str(), ": 'static' target '", t.as_str(), "' is a dynamic workspace name, ignoring", "");
                            out.warnings.push(msg);
                            assert(out.warnings.deep_view() =~= before.warnings.push(msg@));
                            assert(out.maps() =~= WorkspaceMaps { warnings: before.warnings.push(msg@), ..before });
                            assert(eg == RawWorkspace { static_workspace: Some(t), ..e });
                            add_dynamic(&mut out, key.as_str(), ch, RawWorkspace { static_workspace: Some(t), ..e }, tnames);
                            assert(out.maps() == ws_step(before, key@, eg, prefix@, tnames.deep_view()));
                        } else {
                            if e.programs.len() > 0 {
                                let msg = join3(ctx.as_str(), ": 'programs' are ignored for static workspaces", "");
                                out.warnings.push(msg);
                                assert(out.warnings.deep_view() =~= before.warnings.push(msg@));
                            }
                            let ghost w1 = out.warnings.deep_view();
                            if e.template.is_some() {
                                let msg = join3(ctx.as_str(), ": 'template' is ignored for static workspaces", "");
                                out.warnings.push(msg);
                                assert(out.warnings.deep_view() =~= w1.push(msg@));
                            }
                            assoc_insert(&mut out.statics, ch, t);
                            match e.name {
                                Some(n) => {
                                    if n.unicode_len() > 0 {
                                        assoc_insert(&mut out.names, ch, n);
                                    }
                                },
                                None => {},
                            }
                            assert(out.maps() == ws_step(before, key@, eg, prefix@, tnames.deep_view()));
                        }
                    },
                    None => {
                        add_dynamic(&mut out, key.as_str(), ch, RawWorkspace { static_workspace: None, ..e }, tnames);
                    },
                }
            },
        }
        i = i + 1;
    }
    assert(all.take(all.len() as int) =~= all);
    out
}

// --- Templates ---

/// `more` added to the end of `w`.
fn append_all(w: &mut Vec<String>, more: Vec<String>)
    ensures
        final(w).deep_view() == old(w).deep_view() + more.deep_view(),
{
    let mut more = more;
    let ghost a = w.deep_view();
    let ghost b = more.deep_view();
    w.append(&mut more);
    assert(w.deep_view() =~= a + b);
}

/// A message about template `name`.
pub open spec fn tmpl_msg(name: Seq<char>, rest: Seq<char>) -> Seq<char> {
    "template '"@ + name + "': "@ + rest
}

/// The names of `vars`.
pub open spec fn var_names(vars: Seq<TemplateVariable>) -> Seq<Seq<char>> {
    vars.map_values(|v: TemplateVariable| v.name@)
}

/// The variables a template's variable tables resolve to, with warnings.
pub open spec fn vars_spec(tname: Seq<char>, vars: Seq<(String, RawVariable)>) -> (
    Seq<TemplateVariable>,
    Seq<Seq<char>>,
)
    decreases vars.len(),
{
    if vars.len() == 0 {
        (Seq::empty(), Seq::empty())
    } else {
        let (vs, ws) = vars_spec(tname, vars.drop_last());
        let (vn, ve) = vars.last();
        let (ty, tw) = variable_type_spec(tname, vn@, ve);
        let (label, lw) = if ve.name@.len() == 0 {
            (vn, seq![var_msg(tname, vn@, "' has empty name, using key as label"@)])
        } else {
            (ve.name, Seq::empty())
        };
        (vs.push(TemplateVariable { name: vn, label, var_type: ty }), ws + tw + lw)
    }
}

/// Resolve a template's variable tables: each gets its type, and its key as
/// the label when its name is empty.
pub fn resolve_vars(tname: &str, vars: Vec<(String, RawVariable)>) -> (r: (Vec<TemplateVariable>, Vec<String>))
    ensures
        r.0@ == vars_spec(tname@, vars@).0,
        r.1.deep_view() == vars_spec(tname@, vars@).1,
{
    let ghost all = vars@;
    let n = vars.len();
    let mut rest = vars;
    let mut out: Vec<TemplateVariable> = Vec::new();
    let mut w: Vec<String> = Vec::new();
    let mut i: usize = 0;
    assert(all.skip(0) =~= all);
    while rest.len() > 0
        invariant
            all.len() == n,
            i <= n,
            rest@ == all.skip(i as int),
            out@ == vars_spec(tname@, all.take(i as int)).0,
            w.deep_view() == vars_spec(tname@, all.take(i as int)).1,
        decreases rest@.len(),
    {
        proof {
            reveal_strlit("");
        }
        let (vn, ve) = rest.remove(0);
        assert(rest@ =~= all.skip(i + 1));
        assert(all.take(i + 1).drop_last() =~= all.take(i as int));
        assert(all.take(i + 1).last() == all[i as int]);
        let empty_name = ve.name.unicode_len() == 0;
        let label = if empty_name { vn.clone() } else { ve.name.clone() };
        let (ty, mut tw) = resolve_variable_type(tname, vn.as_str(), ve);
        append_all(&mut w, tw);
        if empty_name {
            let ghost before = w.deep_view();
            let msg = join5("template '", tname, "': variable '", vn.as_str(), "' has empty name, using key as label");
            w.push(msg);
            assert(w.deep_view() =~= before.push(msg@));
        } else {
            assert(w.deep_view() =~= w.deep_view() + Seq::<Seq<char>>::empty());
        }
        out.push(TemplateVariable { name: vn, label, var_type: ty });
        i = i + 1;
    }
    assert(all.take(n as int) =~= all);
    (out, w)
}

/// The name of the last of `vars` whose hook variable is `env`.
pub open spec fn last_with_env(vars: Seq<TemplateVariable>, env: Seq<char>) -> Option<Seq<char>>
    decreases vars.len(),
{
    if vars.len() == 0 {
        None
    } else if hook_env_var_spec(vars.last().name@) == env {
        Some(vars.last().name@)
    } else {
        last_with_env(vars.drop_last(), env)
    }
}

/// A warning for each variable whose hook variable an earlier one already
/// has, naming the latest such one.
pub open spec fn env_warnings_spec(tname: Seq<char>, vars: Seq<TemplateVariable>) -> Seq<Seq<char>>
    decreases vars.len(),
{
    if vars.len() == 0 {
        Seq::empty()
    } else {
        let rest = env_warnings_spec(tname, vars.drop_last());
        let v = vars.last();
        let env = hook_env_var_spec(v.name@);
        match last_with_env(vars.drop_last(), env) {
            Some(other) => rest.push(
                tmpl_msg(
                    tname,
                    "variables '"@ + other + "' and '"@ + v.name@ + "' share hook variable "@ + env,
                ),
            ),
            None => rest,
        }
    }
}

/// Warn about variables whose values would overwrite each other in hooks.
pub fn env_warnings(tname: &str, vars: &Vec<TemplateVariable>) -> (r: Vec<String>)
    ensures
        r.deep_view() == env_warnings_spec(tname@, vars@),
{
    let mut envs: Vec<String> = Vec::new();
    let mut w: Vec<String> = Vec::new();
    let mut i: usize = 0;
    while i < vars.len()
        invariant
            i <= vars.len(),
            envs@.len() == i,
            forall|k: int| 0 <= k < i ==> #[trigger] envs@[k]@ == hook_env_var_spec(vars@[k].name@),
            w.deep_view() == env_warnings_spec(tname@, vars@.take(i as int)),
        decreases vars.len() - i,
    {
        proof {
            reveal_strlit("");
        }
        let env = hook_env_var(vars[i].name.as_str());
        let ghost pre = vars@.take(i as int);
        assert(vars@.take(i + 1).drop_last() =~= pre);
        assert(vars@.take(i + 1).last() == vars@[i as int]);
        // The latest earlier variable with the same hook variable.
        let mut j: usize = i;
        let mut found = false;
        assert(pre.take(j as int) =~= pre);
        while j > 0 && !found
            invariant
                j <= i,
                i < vars@.len(),
                envs@.len() == i,
                pre == vars@.take(i as int),
                forall|k: int| 0 <= k < i ==> #[trigger] envs@[k]@ == hook_env_var_spec(vars@[k].name@),
                !found ==> last_with_env(pre, env@) == last_with_env(pre.take(j as int), env@),
                found ==> j < i && last_with_env(pre, env@) == Some(vars@[j as int].name@),
            decreases j + if found { 0int } else { 1int },
        {
            assert(pre.take(j as int).last() == vars@[j - 1]);
            assert(pre.take(j as int).drop_last() =~= pre.take(j - 1));
            if str_eq(envs[j - 1].as_str(), env.as_str()) {
                found = true;
            }
            j = j - 1;
        }
        let other: Option<usize> = if found { Some(j) } else { None };
        let ghost before = w.deep_view();
        match other {
            Some(k) => {
                let m1 = join5("variables '", vars[k].name.as_str(), "' and '", vars[i].name.as_str(), "' share hook variable ");
                let msg = join5("template '", tname, "': ", m1.as_str(), env.as_str());
                assert(msg@ =~= tmpl_msg(tname@, "variables '"@ + vars@[k as int].name@ + "' and '"@ + vars@[i as int].name@ + "' share hook variable "@ + env@));
                assert(last_with_env(pre, env@) == Some(vars@[k as int].name@));
                w.push(msg);
                assert(w.deep_view() =~= before.push(msg@));
                assert(w.deep_view() == env_warnings_spec(tname@, vars@.take(i + 1)));
            },
            None => {
                assert(pre.take(0) =~= Seq::<TemplateVariable>::empty());
                assert(last_with_env(pre, env@) is None);
                assert(w.deep_view() == env_warnings_spec(tname@, vars@.take(i + 1)));
            },
        }
        envs.push(env);
        i = i + 1;
    }
    assert(vars@.take(vars.len() as int) =~= vars@);
    w
}

/// The placeholder names of `texts`, each once, in order of first occurrence.
pub open spec fn refs_of_texts(texts: Seq<Seq<char>>) -> Seq<Seq<char>>
    decreases texts.len(),
{
    if texts.len() == 0 {
        Seq::empty()
    } else {
        add_new(refs_of_texts(texts.drop_last()), refs_spec(segments_spec(texts.last())))
    }
}

/// `acc` followed by the names of `more` it does not hold yet.
pub open spec fn add_new(acc: Seq<Seq<char>>, more: Seq<Seq<char>>) -> Seq<Seq<char>>
    decreases more.len(),
{
    if more.len() == 0 {
        acc
    } else {
        let a = add_new(acc, more.drop_last());
        if a.contains(more.last()) {
            a
        } else {
            a.push(more.last())
        }
    }
}

/// Add the names of `more` that `acc` does not hold yet.
fn add_new_exec(acc: &mut Vec<String>, more: &Vec<String>)
    ensures
        final(acc).deep_view() == add_new(old(acc).deep_view(), more.deep_view()),
{
    let ghost start = acc.deep_view();
    let mut i: usize = 0;
    while i < more.len()
        invariant
            i <= more.len(),
            acc.deep_view() == add_new(start, more.deep_view().take(i as int)),
        decreases more.len() - i,
    {
        assert(more.deep_view().take(i + 1).drop_last() =~= more.deep_view().take(i as int));
        assert(more.deep_view().take(i + 1).last() == more@[i as int]@);
        if !contains_string(acc, more[i].as_str()) {
            let ghost before = acc.deep_view();
            acc.push(more[i].clone());
            assert(acc.deep_view() =~= before.push(more@[i as int]@));
        }
        i = i + 1;
    }
    assert(more.deep_view().take(more.len() as int) =~= more.deep_view());
}

/// The placeholder names of `texts`, each once, in order of first occurrence.
pub fn collect_refs(texts: &Vec<String>) -> (r: Vec<String>)
    ensures
        r.deep_view() == refs_of_texts(texts.deep_view()),
{
    let mut acc: Vec<String> = Vec::new();
    let mut i: usize = 0;
    assert(acc.deep_view() =~= Seq::<Seq<char>>::empty());
    while i < texts.len()
        invariant
            i <= texts.len(),
            acc.deep_view() == refs_of_texts(texts.deep_view().take(i as int)),
        decreases texts.len() - i,
    {
        assert(texts.deep_view().take(i + 1).drop_last() =~= texts.deep_view().take(i as int));
        assert(texts.deep_view().take(i + 1).last() == texts@[i as int]@);
        let refs = extract_variable_references(texts[i].as_str());
        add_new_exec(&mut acc, &refs);
        i = i + 1;
    }
    assert(texts.deep_view().take(texts.len() as int) =~= texts.deep_view());
    acc
}

/// A warning for each of `refs` that no variable declares.
pub open spec fn undefined_spec(tname: Seq<char>, what: Seq<char>, refs: Seq<Seq<char>>, declared: Seq<Seq<char>>) -> Seq<Seq<char>>
    decreases refs.len(),
{
    if refs.len() == 0 {
        Seq::empty()
    } else {
        let rest = undefined_spec(tname, what, refs.drop_last(), declared);
        if declared.contains(refs.last()) {
            rest
        } else {
            rest.push(tmpl_msg(tname, what + " references undefined variable '{{"@ + refs.last() + "}}'"@))
        }
    }
}

/// Whether some variable of `vars` is named `name`.
fn declares(vars: &Vec<TemplateVariable>, name: &str) -> (r: bool)
    ensures
        r == var_names(vars@).contains(name@),
{
    let mut i: usize = 0;
    while i < vars.len()
        invariant
            i <= vars.len(),
            forall|j: int| 0 <= j < i ==> vars@[j].name@ != name@,
        decreases vars.len() - i,
    {
        if str_eq(vars[i].name.as_str(), name) {
            assert(var_names(vars@)[i as int] == name@);
            return true;
        }
        i = i + 1;
    }
    proof {
        if var_names(vars@).contains(name@) {
            let j = choose|j: int| 0 <= j < var_names(vars@).len() && var_names(vars@)[j] == name@;
            assert(vars@[j].name@ == name@);
        }
    }
    false
}

/// Warn about each of `refs` that no variable declares.
pub fn undefined_warnings(tname: &str, what: &str, refs: &Vec<String>, vars: &Vec<TemplateVariable>) -> (r: Vec<String>)
    ensures
        r.deep_view() == undefined_spec(tname@, what@, refs.deep_view(), var_names(vars@)),
{
    let mut w: Vec<String> = Vec::new();
    let mut i: usize = 0;
    while i < refs.len()
        invariant
            i <= refs.len(),
            w.deep_view() == undefined_spec(tname@, what@, refs.deep_view().take(i as int), var_names(vars@)),
        decreases refs.len() - i,
    {
        assert(refs.deep_view().take(i + 1).drop_last() =~= refs.deep_view().take(i as int));
        assert(refs.deep_view().take(i + 1).last() == refs@[i as int]@);
        if !declares(vars, refs[i].as_str()) {
            let ghost before = w.deep_view();
            let m1 = join5(what, " references undefined variable '{{", refs[i].as_str(), "}}'", "");
            proof {
                reveal_strlit("");
            }
            let msg = join3("template '", tname, "': ");
            let msg = join3(msg.as_str(), m1.as_str(), "");
            w.push(msg);
            assert(w.deep_view() =~= before.push(msg@));
        }
        i = i + 1;
    }
    assert(refs.deep_view().take(refs.len() as int) =~= refs.deep_view());
    w
}

/// Some hook of `hooks` reads `env` as a whole word.
pub open spec fn any_mentions(hooks: Seq<Seq<char>>, env: Seq<char>) -> bool {
    exists|k: int| 0 <= k < hooks.len() && mentions_from(#[trigger] hooks[k], env, 0)
}

/// The names of `vars` that nothing reads: no `{{name}}` among `placeholders`,
/// no hook of `hooks` that reads its hook variable, and not the first one
/// while it fills in the title (`fills_title`).
pub open spec fn unused_spec(
    tname: Seq<char>,
    vars: Seq<TemplateVariable>,
    placeholders: Seq<Seq<char>>,
    hooks: Seq<Seq<char>>,
    fills_title: bool,
) -> Seq<Seq<char>>
    decreases vars.len(),
{
    if vars.len() == 0 {
        Seq::empty()
    } else {
        let rest = unused_spec(tname, vars.drop_last(), placeholders, hooks, fills_title);
        let i = vars.len() - 1;
        let v = vars.last();
        if !(i == 0 && fills_title) && !placeholders.contains(v.name@) && !any_mentions(
            hooks,
            hook_env_var_spec(v.name@),
        ) {
            rest.push(
                tmpl_msg(
                    tname,
                    "variable '"@ + v.name@ + "' is never referenced in programs, title or hooks"@,
                ),
            )
        } else {
            rest
        }
    }
}

/// Whether some hook of `hooks` reads `env` as a whole word.
fn any_mentions_exec(hooks: &Vec<String>, env: &str) -> (r: bool)
    ensures
        r == any_mentions(hooks.deep_view(), env@),
{
    let mut k: usize = 0;
    while k < hooks.len()
        invariant
            k <= hooks.len(),
            forall|j: int| 0 <= j < k ==> !mentions_from(#[trigger] hooks.deep_view()[j], env@, 0),
        decreases hooks.len() - k,
    {
        assert(hooks.deep_view()[k as int] == hooks@[k as int]@);
        if mentions_env_var(hooks[k].as_str(), env) {
            return true;
        }
        k = k + 1;
    }
    false
}

/// Warn about variables that nothing reads.
pub fn unused_warnings(
    tname: &str,
    vars: &Vec<TemplateVariable>,
    placeholders: &Vec<String>,
    hooks: &Vec<String>,
    fills_title: bool,
) -> (r: Vec<String>)
    ensures
        r.deep_view() == unused_spec(tname@, vars@, placeholders.deep_view(), hooks.deep_view(), fills_title),
{
    let mut w: Vec<String> = Vec::new();
    let mut i: usize = 0;
    while i < vars.len()
        invariant
            i <= vars.len(),
            w.deep_view() == unused_spec(tname@, vars@.take(i as int), placeholders.deep_view(), hooks.deep_view(), fills_title),
        decreases vars.len() - i,
    {
        assert(vars@.take(i + 1).drop_last() =~= vars@.take(i as int));
        assert(vars@.take(i + 1).last() == vars@[i as int]);
        let name = vars[i].name.as_str();
        let env = hook_env_var(name);
        if !(i == 0 && fills_title) && !contains_string(placeholders, name) && !any_mentions_exec(hooks, env.as_str()) {
            let ghost before = w.deep_view();
            let m1 = join3("variable '", name, "' is never referenced in programs, title or hooks");
            let msg = join3("template '", tname, "': ");
            let msg = join3(msg.as_str(), m1.as_str(), "");
            proof {
                reveal_strlit("");
            }
            w.push(msg);
            assert(w.deep_view() =~= before.push(msg@));
        }
        i = i + 1;
    }
    assert(vars@.take(vars.len() as int) =~= vars@);
    w
}

/// The hotkey a template's `key` gives, the hotkeys taken afterwards, and
/// the warning when the key is refused.
pub open spec fn key_spec(tname: Seq<char>, key: Option<String>, used: Seq<char>) -> (
    Option<char>,
    Seq<char>,
    Seq<Seq<char>>,
) {
    match key {
        None => (None, used, Seq::empty()),
        Some(k) => match parse_workspace_char_spec(k@) {
            None => (
                None,
                used,
                seq![tmpl_msg(tname, "invalid key '"@ + k@ + "' (must be a-z or 0-9)"@)],
            ),
            Some(ch) => if ch == '1' {
                (
                    None,
                    used,
                    seq![tmpl_msg(tname, "key '1' is reserved for the Empty option, ignoring key"@)],
                )
            } else if used.contains(ch) {
                (
                    None,
                    used,
                    seq![tmpl_msg(tname, "duplicate hotkey '"@ + seq![ch] + "', ignoring key"@)],
                )
            } else {
                (Some(ch), used.push(ch), Seq::empty())
            },
        },
    }
}

/// Whether `c` is among `v`.
fn has_key(v: &Vec<char>, c: char) -> (r: bool)
    ensures
        r == v@.contains(c),
{
    let mut i: usize = 0;
    while i < v.len()
        invariant
            i <= v.len(),
            forall|j: int| 0 <= j < i ==> v@[j] != c,
        decreases v.len() - i,
    {
        if v[i] == c {
            return true;
        }
        i = i + 1;
    }
    false
}

/// Take a template's explicit hotkey unless it is invalid, `1` (reserved for
/// the Empty option) or already taken.
pub fn resolve_key(tname: &str, key: Option<String>, used: &mut Vec<char>) -> (r: (Option<char>, Vec<String>))
    ensures
        r.0 == key_spec(tname@, key, old(used)@).0,
        final(used)@ == key_spec(tname@, key, old(used)@).1,
        r.1.deep_view() == key_spec(tname@, key, old(used)@).2,
{
    let mut w: Vec<String> = Vec::new();
    proof {
        reveal_strlit("");
    }
    match key {
        None => (None, w),
        Some(k) => match parse_workspace_char(k.as_str()) {
            None => {
                let m1 = join3("invalid key '", k.as_str(), "' (must be a-z or 0-9)");
                let msg = join5("template '", tname, "': ", m1.as_str(), "");
                w.push(msg);
                assert(w.deep_view() =~= key_spec(tname@, Some(k), used@).2);
                (None, w)
            },
            Some(ch) => {
                if ch == '1' {
                    let msg = join5("template '", tname, "': ", "key '1' is reserved for the Empty option, ignoring key", "");
                    w.push(msg);
                    assert(w.deep_view() =~= key_spec(tname@, Some(k), used@).2);
                    (None, w)
                } else if has_key(used, ch) {
                    let c = char_string(ch);
                    let m1 = join3("duplicate hotkey '", c.as_str(), "', ignoring key");
                    let msg = join5("template '", tname, "': ", m1.as_str(), "");
                    w.push(msg);
                    assert(w.deep_view() =~= key_spec(tname@, Some(k), used@).2);
                    (None, w)
                } else {
                    used.push(ch);
                    assert(w.deep_view() =~= Seq::<Seq<char>>::empty());
                    (Some(ch), w)
                }
            },
        },
    }
}

/// A template as a value: its variables as a sequence.
pub struct TemplateSpec {
    pub name: String,
    pub programs: Vec<String>,
    pub key: Option<char>,
    pub variables: Seq<TemplateVariable>,
    pub on_create: Vec<String>,
    pub title: Option<String>,
}

/// Template `t` is `s`.
pub open spec fn template_is(t: Template, s: TemplateSpec) -> bool {
    &&& t.name == s.name
    &&& t.programs == s.programs
    &&& t.key == s.key
    &&& t.variables@ == s.variables
    &&& t.on_create == s.on_create
    &&& t.title == s.title
}

/// Each of `ts` is the corresponding one of `ss`.
pub open spec fn templates_are(ts: Seq<Template>, ss: Seq<TemplateSpec>) -> bool {
    ts.len() == ss.len() && forall|i: int| 0 <= i < ts.len() ==> template_is(#[trigger] ts[i], ss[i])
}

/// The templates, hotkeys taken and warnings after resolving templates so far.
pub struct TemplatesAcc {
    pub templates: Seq<TemplateSpec>,
    pub used: Seq<char>,
    pub warnings: Seq<Seq<char>>,
}

/// What one `[template.NAME]` table adds, with the global `on_create` hooks
/// `global`.
pub open spec fn tmpl_step(acc: TemplatesAcc, name: String, e: RawTemplate, global: Seq<Seq<char>>) -> TemplatesAcc {
    if e.programs@.len() == 0 {
        TemplatesAcc {
            warnings: acc.warnings.push("ignoring template '"@ + name@ + "': programs list is empty"@),
            ..acc
        }
    } else {
        let w0 = unbalanced_spec("template '"@ + name@ + "'"@, e.programs.deep_view());
        let (key, used, wk) = key_spec(name@, e.key, acc.used);
        let (vars, wv) = vars_spec(name@, e.variables@);
        let we = env_warnings_spec(name@, vars);
        let prog_refs = refs_of_texts(e.programs.deep_view());
        let wr = undefined_spec(name@, "program"@, prog_refs, var_names(vars));
        let title_refs = match e.title {
            Some(t) => refs_spec(segments_spec(t@)),
            None => Seq::empty(),
        };
        let wu = unused_spec(name@, vars, prog_refs + title_refs, e.on_create.deep_view() + global, e.title is None);
        let wt = undefined_spec(name@, "title"@, title_refs, var_names(vars));
        TemplatesAcc {
            templates: acc.templates.push(
                TemplateSpec {
                    name,
                    programs: e.programs,
                    key,
                    variables: vars,
                    on_create: e.on_create,
                    title: e.title,
                },
            ),
            used,
            warnings: acc.warnings + w0 + wk + wv + we + wr + wu + wt,
        }
    }
}

/// The templates `entries` resolve to, before keys are assigned automatically.
pub open spec fn templates_spec(entries: Seq<(String, RawTemplate)>, global: Seq<Seq<char>>) -> TemplatesAcc
    decreases entries.len(),
{
    if entries.len() == 0 {
        TemplatesAcc { templates: Seq::empty(), used: seq!['1'], warnings: Seq::empty() }
    } else {
        tmpl_step(templates_spec(entries.drop_last(), global), entries.last().0, entries.last().1, global)
    }
}

/// The keys templates without one may get, in the order they are handed out.
pub open spec fn auto_candidates() -> Seq<char> {
    "23456789abcdefghijklmnopqrstuvwxyz"@
}

/// The templates with each keyless one given the next of `avail`.
pub open spec fn auto_keys(ts: Seq<TemplateSpec>, avail: Seq<char>) -> Seq<TemplateSpec>
    decreases ts.len(),
{
    if ts.len() == 0 {
        Seq::empty()
    } else if ts[0].key is None {
        let k = if avail.len() > 0 { Some(avail[0]) } else { None };
        seq![TemplateSpec { key: k, ..ts[0] }] + auto_keys(
            ts.drop_first(),
            if avail.len() > 0 { avail.drop_first() } else { avail },
        )
    } else {
        seq![ts[0]] + auto_keys(ts.drop_first(), avail)
    }
}

/// The candidates not taken by `used`.
pub open spec fn free_candidates(used: Seq<char>) -> Seq<char> {
    auto_candidates().filter(|c: char| !used.contains(c))
}

/// The templates a config gets, with their warnings.
pub open spec fn resolve_templates_spec(entries: Seq<(String, RawTemplate)>, global: Seq<Seq<char>>) -> (
    Seq<TemplateSpec>,
    Seq<Seq<char>>,
) {
    let acc = templates_spec(entries, global);
    (auto_keys(acc.templates, free_candidates(acc.used)), acc.warnings)
}

/// The candidates not taken by `used`, in order.
fn free_candidates_exec(used: &Vec<char>) -> (r: Vec<char>)
    ensures
        r@ == free_candidates(used@),
{
    let cands = chars_of("23456789abcdefghijklmnopqrstuvwxyz");
    let ghost cs = cands@;
    proof {
        reveal(Seq::filter);
        assert(cs.take(0) =~= Seq::<char>::empty());
    }
    let mut r: Vec<char> = Vec::new();
    let mut i: usize = 0;
    while i < cands.len()
        invariant
            cs == cands@,
            cs == auto_candidates(),
            i <= cands.len(),
            r@ == cs.take(i as int).filter(|c: char| !used@.contains(c)),
        decreases cands.len() - i,
    {
        proof {
            reveal(Seq::filter);
            assert(cs.take(i + 1).drop_last() =~= cs.take(i as int));
            assert(cs.take(i + 1).last() == cs[i as int]);
        }
        if !has_key(used, cands[i]) {
            r.push(cands[i]);
        }
        i = i + 1;
    }
    assert(cs.take(cands.len() as int) =~= cs);
    r
}

/// Give each template without a key the next free candidate.
fn assign_auto_keys(ts: Vec<Template>, avail: &Vec<char>, Ghost(ss): Ghost<Seq<TemplateSpec>>) -> (r: Vec<Template>)
    requires
        templates_are(ts@, ss),
    ensures
        templates_are(r@, auto_keys(ss, avail@)),
{
    let n = ts.len();
    let mut rest = ts;
    let mut out: Vec<Template> = Vec::new();
    let mut a: usize = 0;
    let mut i: usize = 0;
    let ghost mut done: Seq<TemplateSpec> = Seq::empty();
    assert(ss.skip(0) =~= ss);
    assert(avail@.skip(0) =~= avail@);
    assert(done + auto_keys(ss.skip(0), avail@.skip(0)) =~= auto_keys(ss, avail@));
    while rest.len() > 0
        invariant
            ss.len() == n,
            i <= n,
            a <= avail@.len(),
            rest@.len() == n - i,
            forall|j: int| 0 <= j < rest@.len() ==> template_is(#[trigger] rest@[j], ss[i + j]),
            templates_are(out@, done),
            done + auto_keys(ss.skip(i as int), avail@.skip(a as int)) == auto_keys(ss, avail@),
        decreases rest@.len(),
    {
        let ghost tail = ss.skip(i as int);
        let ghost av = avail@.skip(a as int);
        let ghost before = done;
        let t = rest.remove(0);
        assert(template_is(t, tail[0]));
        assert(tail.drop_first() =~= ss.skip(i + 1));
        if t.key.is_none() {
            if a < avail.len() {
                let k = avail[a];
                assert(av[0] == k);
                assert(av.drop_first() =~= avail@.skip(a + 1));
                out.push(Template { key: Some(k), ..t });
                proof {
                    done = done.push(TemplateSpec { key: Some(k), ..tail[0] });
                }
                a = a + 1;
            } else {
                out.push(Template { key: None, ..t });
                proof {
                    done = done.push(TemplateSpec { key: None, ..tail[0] });
                }
            }
        } else {
            out.push(t);
            proof {
                done = done.push(tail[0]);
            }
        }
        assert(done + auto_keys(ss.skip(i + 1), avail@.skip(a as int)) =~= before + auto_keys(tail, av));
        i = i + 1;
    }
    assert(ss.skip(n as int) =~= Seq::<TemplateSpec>::empty());
    assert(done =~= done + auto_keys(ss.skip(n as int), avail@.skip(a as int)));
    out
}

/// Resolve the `[template.NAME]` tables in declaration order: drop those
/// without programs, take explicit hotkeys, resolve variables, warn about
/// references and hook variables, then give keyless templates the free keys
/// `2`–`9`, `a`–`z` in order (`1` is the picker's Empty option).
pub fn resolve_templates(entries: Vec<(String, RawTemplate)>, global_on_create: &Vec<String>) -> (r: (Vec<Template>, Vec<String>))
    ensures
        templates_are(r.0@, resolve_templates_spec(entries@, global_on_create.deep_view()).0),
        r.1.deep_view() == resolve_templates_spec(entries@, global_on_create.deep_view()).1,
{
    let ghost all = entries@;
    let ghost global = global_on_create.deep_view();
    let n = entries.len();
    let mut rest = entries;
    let mut templates: Vec<Template> = Vec::new();
    let mut used: Vec<char> = vec!['1'];
    let mut w: Vec<String> = Vec::new();
    let mut i: usize = 0;
    assert(all.skip(0) =~= all);
    assert(used@ =~= seq!['1']);
    assert(w.deep_view() =~= Seq::<Seq<char>>::empty());
    while rest.len() > 0
        invariant
            all.len() == n,
            global == global_on_create.deep_view(),
            i <= n,
            rest@ == all.skip(i as int),
            templates_are(templates@, templates_spec(all.take(i as int), global).templates),
            used@ == templates_spec(all.take(i as int), global).used,
            w.deep_view() == templates_spec(all.take(i as int), global).warnings,
        decreases rest@.len(),
    {
        proof {
            reveal_strlit("");
        }
        let (name, e) = rest.remove(0);
        assert(rest@ =~= all.skip(i + 1));
        assert(all.take(i + 1).drop_last() =~= all.take(i as int));
        assert(all.take(i + 1).last() == all[i as int]);
        let ghost e0 = e;
        if e.programs.len() == 0 {
            let msg = join3("ignoring template '", name.as_str(), "': programs list is empty");
            let ghost before = w.deep_view();
            w.push(msg);
            assert(w.deep_view() =~= before.push(msg@));
        } else {
            let ctx = join3("template '", name.as_str(), "'");
            warn_unbalanced(ctx.as_str(), &e.programs, &mut w);
            let (key, wk) = resolve_key(name.as_str(), e.key, &mut used);
            append_all(&mut w, wk);
            let (vars, wv) = resolve_vars(name.as_str(), e.variables);
            append_all(&mut w, wv);
            let we = env_warnings(name.as_str(), &vars);
            append_all(&mut w, we);
            let prog_refs = collect_refs(&e.programs);
            let wr = undefined_warnings(name.as_str(), "program", &prog_refs, &vars);
            append_all(&mut w, wr);
            let title_refs = match &e.title {
                Some(t) => extract_variable_references(t.as_str()),
                None => Vec::new(),
            };
            let mut placeholders = prog_refs;
            let mut more = title_refs.clone();
            let ghost pr = placeholders.deep_view();
            placeholders.append(&mut more);
            assert(placeholders.deep_view() =~= pr + title_refs.deep_view());
            let mut hooks = crate::text::clone_strings(&e.on_create);
            let mut g = crate::text::clone_strings(global_on_create);
            let ghost hv = hooks.deep_view();
            hooks.append(&mut g);
            assert(hooks.deep_view() =~= hv + global);
            let wu = unused_warnings(name.as_str(), &vars, &placeholders, &hooks, e.title.is_none());
            append_all(&mut w, wu);
            let wt = undefined_warnings(name.as_str(), "title", &title_refs, &vars);
            append_all(&mut w, wt);
            proof {
                let title_spec = match e0.title {
                    Some(t) => refs_spec(segments_spec(t@)),
                    None => Seq::empty(),
                };
                assert(title_refs.deep_view() =~= title_spec);
            }
            templates.push(Template {
                name,
                programs: e.programs,
                key,
                variables: vars,
                on_create: e.on_create,
                title: e.title,
            });
        }
        i = i + 1;
    }
    assert(all.take(n as int) =~= all);
    let avail = free_candidates_exec(&used);
    let ghost ss = templates_spec(all, global).templates;
    let out = assign_auto_keys(templates, &avail, Ghost(ss));
    (out, w)
}

// --- The whole config ---

/// The names of templates `ss`, in order.
pub open spec fn spec_names(ss: Seq<TemplateSpec>) -> Seq<Seq<char>> {
    ss.map_values(|t: TemplateSpec| t.name@)
}

/// The names of the templates `ts`, in order.
fn template_names(ts: &Vec<Template>, Ghost(ss): Ghost<Seq<TemplateSpec>>) -> (r: Vec<String>)
    requires
        templates_are(ts@, ss),
    ensures
        r.deep_view() == spec_names(ss),
{
    let mut r: Vec<String> = Vec::new();
    let mut i: usize = 0;
    while i < ts.len()
        invariant
            templates_are(ts@, ss),
            i <= ts@.len(),
            r.deep_view() == spec_names(ss).take(i as int),
        decreases ts@.len() - i,
    {
        assert(template_is(ts@[i as int], ss[i as int]));
        let ghost before = r.deep_view();
        r.push(ts[i].name.clone());
        assert(r.deep_view() =~= before.push(spec_names(ss)[i as int]));
        assert(spec_names(ss).take(i + 1) =~= spec_names(ss).take(i as int).push(spec_names(ss)[i as int]));
        i = i + 1;
    }
    assert(spec_names(ss).take(ts@.len() as int) =~= spec_names(ss));
    r
}

/// The layout a config gets and its warning.
pub open spec fn resolve_layout_spec(name: Seq<char>) -> (LayoutId, Seq<Seq<char>>) {
    match lookup_layout_spec(name) {
        Some(id) => (id, Seq::empty()),
        None => (LayoutId::Qwerty, seq!["unknown layout '"@ + name + "', defaulting to qwerty"@]),
    }
}

/// The theme a config gets and its warning, with `home` as home directory.
pub open spec fn resolve_theme_spec(value: Seq<char>, home: Option<Seq<char>>) -> ((bool, Seq<char>), Seq<Seq<char>>) {
    match parse_theme_spec(value, home) {
        Ok(t) => (t, Seq::empty()),
        Err(w) => ((true, "gtk"@), seq![w]),
    }
}

/// The delete modifier a config gets and its warning.
pub open spec fn resolve_delete_modifier_spec(name: Seq<char>) -> (u32, Seq<Seq<char>>) {
    match parse_modifier_spec(name) {
        Some(m) => (m, Seq::empty()),
        None => (SHIFT_MASK, seq!["invalid delete_modifier '"@ + name + "', defaulting to Shift"@]),
    }
}

/// Every warning resolving `c` gives, in the order they are found.
pub open spec fn resolve_warnings_spec(c: RawConfig, keys: Seq<(String, crate::keybind::KeySym)>, home: Option<Seq<char>>) -> Seq<Seq<char>> {
    let prefix = resolve_prefix_spec(c.general.workspace_prefix@);
    resolve_close_spec(c.close.deep_view(), keys).1
        + prefix.1
        + workspaces_spec(c.workspace@, prefix.0, spec_names(resolve_templates_spec(c.template@, c.on_create.deep_view()).0)).warnings
        + resolve_layout_spec(c.general.layout@).1
        + resolve_theme_spec(c.general.theme@, home).1
        + unbalanced_spec("[general] default_programs"@, c.general.default_programs.deep_view())
        + resolve_templates_spec(c.template@, c.on_create.deep_view()).1
        + resolve_delete_modifier_spec(c.delete_modifier@).1
}

/// `r` is what resolving `c` gives.
pub open spec fn resolved_from(r: ResolvedConfig, c: RawConfig, keys: Seq<(String, crate::keybind::KeySym)>, home: Option<Seq<char>>) -> bool {
    let prefix = resolve_prefix_spec(c.general.workspace_prefix@).0;
    let ws = workspaces_spec(c.workspace@, prefix, spec_names(resolve_templates_spec(c.template@, c.on_create.deep_view()).0));
    let theme = resolve_theme_spec(c.general.theme@, home).0;
    &&& r.workspace_prefix@ == prefix
    &&& r.close_keybinds@ == resolve_close_spec(c.close.deep_view(), keys).0
    &&& r.default_programs == c.general.default_programs
    &&& keys_unique(r.workspace_programs@)
    &&& keys_unique(r.workspace_names@)
    &&& keys_unique(r.static_workspaces@)
    &&& assoc_map(r.workspace_programs@) == ws.programs
    &&& assoc_map(r.workspace_names@) == ws.names
    &&& assoc_map(r.static_workspaces@) == ws.statics
    &&& keys_unique(r.workspace_templates@)
    &&& assoc_map(r.workspace_templates@) == ws.templates
    &&& r.auto_delete_empty == c.general.auto_delete_empty
    &&& r.hover_preview == c.general.hover_preview
    &&& r.hide_empty_static == c.general.hide_empty_static
    &&& r.inhibit_compositor_shortcuts == c.general.inhibit_compositor_shortcuts
    &&& r.confirm_delete == c.general.confirm_delete
    &&& r.alt_variants == c.general.alt_variants
    &&& r.layout.is_layout(resolve_layout_spec(c.general.layout@).0)
    &&& r.card_layout == c.card_layout
    &&& r.delete_modifier == resolve_delete_modifier_spec(c.delete_modifier@).0
    &&& r.theme.is(theme.0, theme.1)
    &&& templates_are(r.templates@, resolve_templates_spec(c.template@, c.on_create.deep_view()).0)
    &&& r.hooks.on_create == c.on_create
    &&& r.hooks.on_delete == c.on_delete
    &&& r.diagnostics@.len() == 0
}

/// Resolve a config file's contents into the config to run on, and the
/// warnings for what was ignored or replaced. `keys` names the keys close
/// keybinds may use; `home` is the home directory a `~/` theme path expands to.
#[verifier::rlimit(40)]
#[verifier::spinoff_prover]
pub fn resolve(c: RawConfig, keys: &KeyTable, home: Option<&str>) -> (r: (ResolvedConfig, Vec<String>))
    ensures
        resolved_from(
            r.0,
            c,
            keys.entries@,
            match home {
                Some(h) => Some(h@),
                None => None,
            },
        ),
        r.1.deep_view() == resolve_warnings_spec(
            c,
            keys.entries@,
            match home {
                Some(h) => Some(h@),
                None => None,
            },
        ),
{
    proof {
        reveal_strlit("");
    }
    let (close_keybinds, mut warnings) = resolve_close_keybinds(&c.close, keys);
    let (prefix, wp) = resolve_prefix(c.general.workspace_prefix);
    append_all(&mut warnings, wp);
    let (templates, wt) = resolve_templates(c.template, &c.on_create);
    let ghost ss = resolve_templates_spec(c.template@, c.on_create.deep_view()).0;
    let tnames = template_names(&templates, Ghost(ss));
    let ws = resolve_workspaces(c.workspace, prefix.as_str(), &tnames);
    let ResolvedWorkspaces { programs, names, statics, templates: bound, warnings: ww } = ws;
    append_all(&mut warnings, ww);
    let layout = match lookup_layout(c.general.layout.as_str()) {
        Some(l) => l,
        None => {
            let msg = join3("unknown layout '", c.general.layout.as_str(), "', defaulting to qwerty");
            let ghost before = warnings.deep_view();
            warnings.push(msg);
            assert(warnings.deep_view() =~= before.push(msg@));
            KeyboardLayout::builtin(LayoutId::Qwerty)
        },
    };
    let theme = match Theme::parse_with_home(c.general.theme.as_str(), home) {
        Ok(t) => t,
        Err(w) => {
            let ghost before = warnings.deep_view();
            let ghost wv = w@;
            warnings.push(w);
            assert(warnings.deep_view() =~= before.push(wv));
            Theme::gtk()
        },
    };
    warn_unbalanced("[general] default_programs", &c.general.default_programs, &mut warnings);
    append_all(&mut warnings, wt);
    let delete_modifier = match parse_modifier(c.delete_modifier.as_str()) {
        Some(m) => m,
        None => {
            let msg = join3("invalid delete_modifier '", c.delete_modifier.as_str(), "', defaulting to Shift");
            let ghost before = warnings.deep_view();
            warnings.push(msg);
            assert(warnings.deep_view() =~= before.push(msg@));
            SHIFT_MASK
        },
    };
    let resolved = ResolvedConfig {
        workspace_prefix: prefix,
        close_keybinds,
        default_programs: c.general.default_programs,
        workspace_programs: programs,
        workspace_names: names,
        static_workspaces: statics,
        workspace_templates: bound,
        auto_delete_empty: c.general.auto_delete_empty,
        hover_preview: c.general.hover_preview,
        hide_empty_static: c.general.hide_empty_static,
        inhibit_compositor_shortcuts: c.general.inhibit_compositor_shortcuts,
        confirm_delete: c.general.confirm_delete,
        alt_variants: c.general.alt_variants,
        layout,
        card_layout: c.card_layout,
        delete_modifier,
        theme,
        templates,
        hooks: HookConfig { on_create: c.on_create, on_delete: c.on_delete },
        diagnostics: Vec::new(),
    };
    (resolved, warnings)
}

} // verus!
