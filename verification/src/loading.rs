//! What the config a file yields looks like once loading is done: the
//! defaults, diagnostics for what went wrong, and lookups on the result.

use vstd::prelude::*;

use crate::assoc::{assoc_get, assoc_map, keys_unique};
use crate::config::{Diagnostic, ResolvedConfig, Severity, Template};
use crate::keybind::KeyTable;
use crate::resolve::{resolve, resolved_from, resolve_warnings_spec, RawConfig};
use crate::text::{opt_view, split_char, split_char_spec, split_char_state, str_eq, str_starts_with, starts_with};
use crate::theme::Theme;

verus! {

/// `r` and `d` have the same settings; their diagnostics may differ.
pub open spec fn same_settings(r: ResolvedConfig, d: ResolvedConfig) -> bool {
    &&& r.workspace_prefix == d.workspace_prefix
    &&& r.close_keybinds == d.close_keybinds
    &&& r.default_programs == d.default_programs
    &&& r.workspace_programs == d.workspace_programs
    &&& r.workspace_names == d.workspace_names
    &&& r.static_workspaces == d.static_workspaces
    &&& r.workspace_templates == d.workspace_templates
    &&& r.auto_delete_empty == d.auto_delete_empty
    &&& r.hover_preview == d.hover_preview
    &&& r.hide_empty_static == d.hide_empty_static
    &&& r.inhibit_compositor_shortcuts == d.inhibit_compositor_shortcuts
    &&& r.confirm_delete == d.confirm_delete
    &&& r.alt_variants == d.alt_variants
    &&& r.layout == d.layout
    &&& r.card_layout == d.card_layout
    &&& r.delete_modifier == d.delete_modifier
    &&& r.theme == d.theme
    &&& r.templates == d.templates
    &&& r.hooks == d.hooks
}

/// `r` has the default settings: those resolving an empty config file
/// gives, with `keys` naming the close keys and `home` the home directory.
/// Among them: prefix `dyn-`, the default close keys, layout `qwerty`,
/// theme `gtk`, delete modifier Shift, the default card grid, no programs,
/// workspaces, templates or hooks, auto-delete, hover preview, compositor
/// shortcuts held back and delete confirmation on, empty static workspaces
/// shown and Alt variants off.
pub open spec fn has_default_settings(r: ResolvedConfig, keys: Seq<(String, crate::keybind::KeySym)>, home: Option<Seq<char>>) -> bool {
    exists|c: RawConfig, d: ResolvedConfig|
        #![trigger resolved_from(d, c, keys, home)]
        c.is_default() && resolved_from(d, c, keys, home) && same_settings(r, d)
}

/// The config with every setting at its default.
pub fn default_config(keys: &KeyTable, home: Option<&str>) -> (r: ResolvedConfig)
    ensures
        has_default_settings(r, keys.entries@, opt_view(home)),
        r.diagnostics@.len() == 0,
        r.workspace_prefix@ == "dyn-"@,
        r.default_programs@.len() == 0,
        assoc_map(r.workspace_programs@) == Map::<char, Vec<String>>::empty(),
        assoc_map(r.workspace_names@) == Map::<char, String>::empty(),
        assoc_map(r.static_workspaces@) == Map::<char, String>::empty(),
        assoc_map(r.workspace_templates@) == Map::<char, String>::empty(),
        r.auto_delete_empty,
        r.hover_preview,
        !r.hide_empty_static,
        r.inhibit_compositor_shortcuts,
        r.confirm_delete,
        !r.alt_variants,
        r.layout.is_layout(crate::layout::LayoutId::Qwerty),
        r.card_layout == crate::config::CardLayout::defaults_spec(),
        r.delete_modifier == crate::keybind::SHIFT_MASK,
        r.templates@.len() == 0,
        r.hooks.on_create@.len() == 0,
        r.hooks.on_delete@.len() == 0,
{
    let c = RawConfig::defaults();
    let ghost cg = c;
    let (r, _w) = resolve(c, keys, home);
    proof {
        reveal_strlit("dyn-");
        reveal_strlit("Shift");
        reveal_strlit("Ctrl");
        reveal_strlit("Control");
        assert(crate::keybind::parse_modifier_spec("Shift"@) == Some(crate::keybind::SHIFT_MASK));
        reveal_strlit("qwerty");
        assert(crate::text::lower_seq("qwerty"@) =~= "qwerty"@);
        assert(crate::layout::lookup_layout_spec("qwerty"@) == Some(crate::layout::LayoutId::Qwerty));
        assert(same_settings(r, r));
        assert(resolved_from(r, cg, keys.entries@, opt_view(home)));
    }
    r
}

/// The defaults with one error diagnostic: the file could not be used.
pub fn config_with_error(message: &str, keys: &KeyTable, home: Option<&str>) -> (r: ResolvedConfig)
    ensures
        has_default_settings(r, keys.entries@, opt_view(home)),
        r.workspace_prefix@ == "dyn-"@,
        r.diagnostics@.len() == 1,
        r.diagnostics@[0].severity == Severity::Error,
        r.diagnostics@[0].message@ == message@,
{
    let mut config = default_config(keys, home);
    let ghost before = config;
    config.diagnostics.push(Diagnostic::error(message));
    proof {
        assert(same_settings(config, before));
        let (c, d) = choose|c: RawConfig, d: ResolvedConfig|
            #![trigger resolved_from(d, c, keys.entries@, opt_view(home))]
            c.is_default() && resolved_from(d, c, keys.entries@, opt_view(home)) && same_settings(before, d);
        assert(same_settings(config, d));
    }
    config
}

/// `theme` read relative to directory `dir` (`Path::join`): an absolute
/// theme path stays as it is.
pub open spec fn anchor_spec(theme: Seq<char>, dir: Seq<char>) -> Seq<char> {
    if starts_with(theme, "/"@) {
        theme
    } else if dir.len() == 0 {
        theme
    } else if dir.last() == '/' {
        dir + theme
    } else {
        dir + "/"@ + theme
    }
}

/// The keys of `[general]`, which also parse at the top level without effect.
pub open spec fn general_keys_spec() -> Seq<Seq<char>> {
    seq![
        "workspace_prefix"@,
        "default_programs"@,
        "auto_delete_empty"@,
        "layout"@,
        "hover_preview"@,
        "hide_empty_static"@,
        "inhibit_compositor_shortcuts"@,
        "confirm_delete"@,
        "theme"@,
        "alt_variants"@,
    ]
}

/// The keys of `[general]`.
pub fn general_keys() -> (v: Vec<&'static str>)
    ensures
        v@.map_values(|s: &str| s@) == general_keys_spec(),
{
    let v = vec![
        "workspace_prefix",
        "default_programs",
        "auto_delete_empty",
        "layout",
        "hover_preview",
        "hide_empty_static",
        "inhibit_compositor_shortcuts",
        "confirm_delete",
        "theme",
        "alt_variants",
    ];
    assert(v@.map_values(|s: &str| s@) =~= general_keys_spec());
    v
}

/// The pieces of a dotted key path (`str::split('.')`).
pub open spec fn split_dots(s: Seq<char>) -> Seq<Seq<char>> {
    split_char_spec(s, '.')
}

/// The hint for an ignored key made of `parts`, if one fits.
pub open spec fn unknown_key_hint(parts: Seq<Seq<char>>) -> Option<Seq<char>> {
    if parts[0] == "workspaces"@ {
        Some("did you mean [workspace]?"@)
    } else if parts[0] == "templates"@ {
        Some("did you mean [template]?"@)
    } else if parts[0] == "hook"@ {
        Some("did you mean [hooks]?"@)
    } else if parts[0] == "keybind"@ {
        Some("did you mean [keybinds]?"@)
    } else if parts.len() == 1 && general_keys_spec().contains(parts[0]) {
        Some("general settings go under [general]"@)
    } else if parts.len() == 3 && parts[0] == "template"@ && parts[2] == "on_delete"@ {
        Some("templates only support on_create"@)
    } else {
        None
    }
}

/// The warning for an ignored key at dotted `path`.
pub open spec fn unknown_key_warning_spec(path: Seq<char>) -> Seq<char> {
    match unknown_key_hint(split_dots(path)) {
        Some(h) => "unknown key '"@ + path + "'; "@ + h,
        None => "unknown key '"@ + path + "'"@,
    }
}

/// The warning for an ignored key at dotted `path`, with a hint for the
/// likely mistakes.
pub fn unknown_key_warning(path: &str) -> (r: String)
    ensures
        r@ == unknown_key_warning_spec(path@),
{
    let parts = split_char(path, '.');
    let keys = general_keys();
    let first = parts[0].as_str();
    let hint: Option<&str> = if str_eq(first, "workspaces") {
        Some("did you mean [workspace]?")
    } else if str_eq(first, "templates") {
        Some("did you mean [template]?")
    } else if str_eq(first, "hook") {
        Some("did you mean [hooks]?")
    } else if str_eq(first, "keybind") {
        Some("did you mean [keybinds]?")
    } else if parts.len() == 1 && is_general_key(&keys, first) {
        Some("general settings go under [general]")
    } else if parts.len() == 3 && str_eq(first, "template") && str_eq(parts[2].as_str(), "on_delete") {
        Some("templates only support on_create")
    } else {
        None
    };
    let mut r = "unknown key '".to_string();
    r.append(path);
    match hint {
        Some(h) => {
            r.append("'; ");
            r.append(h);
        },
        None => {
            r.append("'");
        },
    }
    r
}

/// Whether `name` is a key of `[general]`.
fn is_general_key(keys: &Vec<&'static str>, name: &str) -> (r: bool)
    requires
        keys@.map_values(|s: &str| s@) == general_keys_spec(),
    ensures
        r == general_keys_spec().contains(name@),
{
    let mut i: usize = 0;
    while i < keys.len()
        invariant
            keys@.map_values(|s: &str| s@) == general_keys_spec(),
            i <= keys@.len(),
            forall|j: int| 0 <= j < i ==> general_keys_spec()[j] != name@,
        decreases keys@.len() - i,
    {
        assert(general_keys_spec()[i as int] == keys@[i as int]@);
        if str_eq(keys[i], name) {
            return true;
        }
        i = i + 1;
    }
    false
}

/// The diagnostics of a parsed file: its unknown keys, then what resolving
/// it warned about, all as warnings.
pub open spec fn loaded_diagnostics(unknown: Seq<Seq<char>>, warnings: Seq<Seq<char>>) -> Seq<Seq<char>> {
    unknown.map_values(|k: Seq<char>| unknown_key_warning_spec(k)) + warnings
}

/// Anchor `theme` at directory `dir`.
pub fn anchor_theme(theme: &str, dir: &str) -> (r: String)
    ensures
        r@ == anchor_spec(theme@, dir@),
{
    proof {
        reveal_strlit("/");
    }
    if str_starts_with(theme, "/") {
        return theme.to_string();
    }
    let n = dir.unicode_len();
    if n == 0 {
        return theme.to_string();
    }
    let mut r = dir.to_string();
    if dir.get_char(n - 1) != '/' {
        r.append("/");
    }
    r.append(theme);
    r
}

/// Resolve a parsed config file found in directory `dir`: keys it did not
/// know (`unknown`, as dotted paths) become warnings listed before those
/// resolving gives, and a theme file path is read relative to `dir`.
pub fn resolve_parsed(
    c: RawConfig,
    unknown: &Vec<String>,
    dir: Option<&str>,
    keys: &KeyTable,
    home: Option<&str>,
) -> (r: ResolvedConfig)
    ensures
        r.diagnostics@.map_values(|d: Diagnostic| d.message@) == loaded_diagnostics(
            unknown.deep_view(),
            resolve_warnings_spec(
                c,
                keys.entries@,
                opt_view(home),
            ),
        ),
        forall|i: int| 0 <= i < r.diagnostics@.len() ==> (#[trigger] r.diagnostics@[i]).severity == Severity::Warning,
        exists|t: crate::config::ResolvedConfig|
            #![trigger resolved_from(t, c, keys.entries@, opt_view(home))]
            resolved_from(
                t,
                c,
                keys.entries@,
                opt_view(home),
            ) && r.workspace_prefix == t.workspace_prefix && r.close_keybinds == t.close_keybinds
                && r.default_programs == t.default_programs
                && r.workspace_programs == t.workspace_programs && r.workspace_names
                == t.workspace_names && r.static_workspaces == t.static_workspaces && r.workspace_templates == t.workspace_templates
                && r.auto_delete_empty == t.auto_delete_empty && r.hover_preview
                == t.hover_preview && r.hide_empty_static == t.hide_empty_static
                && r.inhibit_compositor_shortcuts == t.inhibit_compositor_shortcuts
                && r.confirm_delete == t.confirm_delete && r.alt_variants == t.alt_variants && r.layout == t.layout && r.card_layout == t.card_layout && r.delete_modifier == t.delete_modifier && r.templates
                == t.templates && r.hooks == t.hooks && match (t.theme, dir) {
                (Theme::File(p), Some(d)) => r.theme is File && (r.theme->File_0)@ == anchor_spec(
                    p@,
                    d@,
                ),
                _ => r.theme == t.theme,
            },
{
    let (resolved, warnings) = resolve(c, keys, home);
    let mut diagnostics: Vec<Diagnostic> = Vec::new();
    let mut i: usize = 0;
    while i < unknown.len()
        invariant
            i <= unknown.len(),
            diagnostics@.len() == i,
            forall|k: int| 0 <= k < i ==> (#[trigger] diagnostics@[k]).message@ == unknown_key_warning_spec(unknown@[k]@),
            forall|j: int| 0 <= j < diagnostics@.len() ==> (#[trigger] diagnostics@[j]).severity == Severity::Warning,
        decreases unknown.len() - i,
    {
        let w = unknown_key_warning(unknown[i].as_str());
        diagnostics.push(Diagnostic::warning(w.as_str()));
        i = i + 1;
    }
    let ghost d0 = diagnostics@.map_values(|d: Diagnostic| d.message@);
    assert(d0 =~= unknown.deep_view().map_values(|k: Seq<char>| unknown_key_warning_spec(k)));
    let ghost n0 = diagnostics@.len();
    let mut j: usize = 0;
    while j < warnings.len()
        invariant
            j <= warnings.len(),
            diagnostics@.len() == n0 + j,
            n0 == d0.len(),
            forall|k: int| 0 <= k < n0 ==> (#[trigger] diagnostics@[k]).message@ == d0[k],
            forall|k: int| 0 <= k < j ==> (#[trigger] diagnostics@[n0 + k]).message@ == warnings@[k]@,
            forall|k: int| 0 <= k < diagnostics@.len() ==> (#[trigger] diagnostics@[k]).severity == Severity::Warning,
        decreases warnings.len() - j,
    {
        diagnostics.push(Diagnostic::warning(warnings[j].as_str()));
        j = j + 1;
    }
    let ghost all = diagnostics@.map_values(|d: Diagnostic| d.message@);
    assert forall|k: int| 0 <= k < all.len() implies all[k] == (d0 + warnings.deep_view())[k] by {
        if k >= n0 {
            assert(diagnostics@[n0 + (k - n0)].message@ == warnings@[k - n0]@);
        }
    }
    assert(diagnostics@.map_values(|d: Diagnostic| d.message@) =~= d0 + warnings.deep_view());
    let mut resolved = resolved;
    resolved.diagnostics = diagnostics;
    match (&resolved.theme, dir) {
        (Theme::File(p), Some(d)) => {
            let anchored = anchor_theme(p.as_str(), d);
            resolved.theme = Theme::File(anchored);
        },
        _ => {},
    }
    resolved
}

impl ResolvedConfig {
    /// The programs configured for workspace key `ch`, falling back to defaults.
    pub fn programs_for(&self, ch: char) -> (r: &Vec<String>)
        requires
            keys_unique(self.workspace_programs@),
        ensures
            assoc_map(self.workspace_programs@).dom().contains(ch) ==> *r == assoc_map(
                self.workspace_programs@,
            )[ch],
            !assoc_map(self.workspace_programs@).dom().contains(ch) ==> *r == self.default_programs,
    {
        match assoc_get(&self.workspace_programs, ch) {
            Some(p) => p,
            None => &self.default_programs,
        }
    }

    /// Whether the template picker should be shown for workspace key `ch`:
    /// templates are configured and the key has no programs of its own
    /// (which would bypass the picker).
    pub fn should_show_templates(&self, ch: char) -> (r: bool)
        requires
            keys_unique(self.workspace_programs@),
        ensures
            r == (self.templates@.len() > 0 && !assoc_map(self.workspace_programs@).dom().contains(ch)),
    {
        self.templates.len() > 0 && assoc_get(&self.workspace_programs, ch).is_none()
    }

    /// Whether loading fell back to the defaults for the whole file.
    pub fn has_errors(&self) -> (r: bool)
        ensures
            r == exists|i: int| 0 <= i < self.diagnostics@.len() && (#[trigger] self.diagnostics@[i]).severity == Severity::Error,
    {
        let mut i: usize = 0;
        while i < self.diagnostics.len()
            invariant
                i <= self.diagnostics@.len(),
                forall|j: int| 0 <= j < i ==> (#[trigger] self.diagnostics@[j]).severity != Severity::Error,
            decreases self.diagnostics@.len() - i,
        {
            if self.diagnostics[i].severity == Severity::Error {
                return true;
            }
            i = i + 1;
        }
        false
    }
}

/// The on-create hooks of the first of `templates` named `n`.
pub open spec fn template_hooks(templates: Seq<Template>, n: Seq<char>) -> Option<Seq<Seq<char>>>
    decreases templates.len(),
{
    if templates.len() == 0 {
        None
    } else if templates[0].name@ == n {
        Some(templates[0].on_create.deep_view())
    } else {
        template_hooks(templates.drop_first(), n)
    }
}

/// The on-create hooks of a workspace: the global ones, then those of
/// template `template_name` (the first template so named) when there is one.
pub open spec fn create_hooks_spec(global: Seq<Seq<char>>, templates: Seq<Template>, template_name: Option<Seq<char>>) -> Seq<Seq<char>> {
    match template_name {
        None => global,
        Some(n) => match template_hooks(templates, n) {
            Some(h) => global + h,
            None => global,
        },
    }
}

/// Collect all on-create hooks: global hooks followed by template-specific hooks.
pub fn collect_create_hooks(config: &ResolvedConfig, template_name: Option<&str>) -> (r: Vec<String>)
    ensures
        r.deep_view() == create_hooks_spec(
            config.hooks.on_create.deep_view(),
            config.templates@,
            opt_view(template_name),
        ),
{
    let mut hooks = crate::text::clone_strings(&config.hooks.on_create);
    match template_name {
        None => hooks,
        Some(name) => {
            let ghost ts = config.templates@;
            let mut i: usize = 0;
            assert(ts.skip(0) =~= ts);
            while i < config.templates.len()
                invariant
                    ts == config.templates@,
                    template_name == Some(name),
                    i <= config.templates@.len(),
                    hooks.deep_view() == config.hooks.on_create.deep_view(),
                    template_hooks(ts, name@) == template_hooks(ts.skip(i as int), name@),
                decreases config.templates@.len() - i,
            {
                assert(ts.skip(i as int)[0] == ts[i as int]);
                if str_eq(config.templates[i].name.as_str(), name) {
                    let mut more = crate::text::clone_strings(&config.templates[i].on_create);
                    let ghost a = hooks.deep_view();
                    let ghost b = more.deep_view();
                    hooks.append(&mut more);
                    assert(hooks.deep_view() =~= a + b);
                    assert(template_hooks(ts.skip(i as int), name@) == Some(ts[i as int].on_create.deep_view()));
                    return hooks;
                }
                assert(ts.skip(i as int).drop_first() =~= ts.skip(i + 1));
                i = i + 1;
            }
            hooks
        },
    }
}


/// The decimal digit for `d`.
pub open spec fn digit_char(d: nat) -> char {
    ((d + 48) as u32) as char
}

/// The decimal notation of `n`.
pub open spec fn decimal(n: nat) -> Seq<char>
    decreases n,
{
    if n < 10 {
        seq![digit_char(n)]
    } else {
        decimal(n / 10).push(digit_char(n % 10))
    }
}

/// `n` in decimal.
pub fn decimal_string(n: u128) -> (r: String)
    ensures
        r@ == decimal(n as nat),
    decreases n,
{
    if n < 10 {
        let mut s = String::new();
        crate::text::push_char(&mut s, char_for_digit(n));
        assert(s@ =~= decimal(n as nat));
        s
    } else {
        let mut s = decimal_string(n / 10);
        crate::text::push_char(&mut s, char_for_digit(n % 10));
        s
    }
}

/// The character of decimal digit `d`.
fn char_for_digit(d: u128) -> (c: char)
    requires
        d < 10,
    ensures
        c == digit_char(d as nat),
{
    if d == 0 { '0' } else if d == 1 { '1' } else if d == 2 { '2' } else if d == 3 { '3' } else if d == 4 { '4' } else if d
        == 5 { '5' } else if d == 6 { '6' } else if d == 7 { '7' } else if d == 8 { '8' } else { '9' }
}

/// The number of bytes `c` takes in UTF-8.
pub open spec fn utf8_len(c: char) -> int {
    if (c as u32) < 0x80 {
        1
    } else if (c as u32) < 0x800 {
        2
    } else if (c as u32) < 0x10000 {
        3
    } else {
        4
    }
}

/// The number of characters of `text` that take exactly `start` bytes in
/// UTF-8; none when `start` falls inside a character or past the end.
pub open spec fn char_boundary(text: Seq<char>, start: int) -> Option<int>
    decreases text.len(),
{
    if start == 0 {
        Some(0)
    } else if start < 0 || text.len() == 0 {
        None
    } else {
        match char_boundary(text.drop_first(), start - utf8_len(text[0])) {
            Some(k) => Some(k + 1),
            None => None,
        }
    }
}

/// How many times `c` occurs in `s`.
pub open spec fn count_char(s: Seq<char>, c: char) -> nat
    decreases s.len(),
{
    if s.len() == 0 {
        0
    } else {
        count_char(s.drop_last(), c) + if s.last() == c { 1nat } else { 0nat }
    }
}

/// `line L, column C: <message>` for a TOML error at byte `span_start` of
/// `text`, counting characters, not bytes; just the message when the error
/// has no position. A position inside a character counts from the start.
pub open spec fn error_summary_spec(message: Seq<char>, span_start: Option<usize>, text: Seq<char>) -> Seq<char> {
    match span_start {
        None => message,
        Some(start) => {
            let before = match char_boundary(text, start as int) {
                Some(k) => text.take(k),
                None => Seq::empty(),
            };
            "line "@ + decimal(count_char(before, '\n') + 1) + ", column "@ + decimal(
                split_char_spec(before, '\n').last().len() + 1,
            ) + ": "@ + message
        },
    }
}

/// The UTF-8 length of `c`.
fn utf8_len_exec(c: char) -> (r: usize)
    ensures
        r == utf8_len(c),
{
    let u = c as u32;
    if u < 0x80 {
        1
    } else if u < 0x800 {
        2
    } else if u < 0x10000 {
        3
    } else {
        4
    }
}

/// The error when the file at `path` does not parse, with the parser's `summary`.
pub open spec fn parse_failure_spec(path: Seq<char>, summary: Seq<char>) -> Seq<char> {
    "could not parse "@ + path + ": "@ + summary + ", using defaults"@
}

/// The error when the file at `path` does not parse, with the parser's `summary`.
pub fn parse_failure_message(path: &str, summary: &str) -> (r: String)
    ensures
        r@ == parse_failure_spec(path@, summary@),
{
    let mut r = "could not parse ".to_string();
    r.append(path);
    r.append(": ");
    r.append(summary);
    r.append(", using defaults");
    r
}

/// The summary of a TOML error with `message` at byte `span_start` of `text`.
pub fn toml_error_summary(message: &str, span_start: Option<usize>, text: &str) -> (r: String)
    ensures
        r@ == error_summary_spec(message@, span_start, text@),
{
    let start = match span_start {
        None => {
            return message.to_string();
        },
        Some(s) => s,
    };
    let v = crate::text::chars_of(text);
    let mut i: usize = 0;
    let mut bytes: usize = 0;
    let mut inside = false;
    assert(v@.skip(0) =~= v@);
    while i < v.len() && bytes < start && !inside
        invariant
            v@ == text@,
            i <= v@.len(),
            bytes <= start,
            !inside ==> char_boundary(v@, start as int) == match char_boundary(v@.skip(i as int), start - bytes) {
                Some(j) => Some(j + i),
                None => None::<int>,
            },
            inside ==> char_boundary(v@, start as int) is None,
        decreases v@.len() - i, (if inside { 0int } else { 1int }),
    {
        assert(v@.skip(i as int)[0] == v@[i as int]);
        assert(v@.skip(i as int).drop_first() =~= v@.skip(i + 1));
        let n = utf8_len_exec(v[i]);
        if n > start - bytes {
            assert(char_boundary(v@.skip(i as int).drop_first(), (start - bytes) - n) is None);
            assert(char_boundary(v@.skip(i as int), start - bytes) is None);
            inside = true;
        } else {
            bytes = bytes + n;
            i = i + 1;
        }
    }
    let k: usize = if !inside && bytes == start {
        i
    } else {
        0
    };
    proof {
        if !inside && bytes < start {
            assert(v@.skip(i as int).len() == 0);
        }
        if !inside && bytes == start {
            assert(char_boundary(v@, start as int) == Some(i as int));
        } else {
            assert(char_boundary(v@, start as int) is None);
            assert(v@.take(0) =~= Seq::<char>::empty());
        }
    }
    let ghost before = v@.take(k as int);
    let mut lines: usize = 0;
    let mut col: usize = 0;
    let mut j: usize = 0;
    while j < k
        invariant
            k <= v@.len(),
            before == v@.take(k as int),
            j <= k,
            lines == count_char(v@.take(j as int), '\n'),
            col == split_char_state(v@.take(j as int), '\n').1.len(),
            lines <= j,
            col <= j,
        decreases k - j,
    {
        assert(v@.take(j + 1).drop_last() =~= v@.take(j as int));
        assert(v@.take(j + 1).last() == v@[j as int]);
        if v[j] == '\n' {
            lines = lines + 1;
            col = 0;
        } else {
            col = col + 1;
        }
        j = j + 1;
    }
    assert(v@.take(j as int) =~= before);
    let mut r = "line ".to_string();
    let ls = decimal_string(lines as u128 + 1);
    r.append(ls.as_str());
    r.append(", column ");
    let cs = decimal_string(col as u128 + 1);
    r.append(cs.as_str());
    r.append(": ");
    r.append(message);
    r
}


/// What reading the config file gave.
pub enum ReadOutcome {
    /// The file's contents.
    Contents(String),
    /// There is no file.
    Missing,
    /// The file could not be read, and why.
    Failed(String),
}

/// Two reads gave the same thing.
pub open spec fn same_read(a: ReadOutcome, b: ReadOutcome) -> bool {
    match (a, b) {
        (ReadOutcome::Contents(x), ReadOutcome::Contents(y)) => x@ == y@,
        (ReadOutcome::Missing, ReadOutcome::Missing) => true,
        (ReadOutcome::Failed(x), ReadOutcome::Failed(y)) => x@ == y@,
        _ => false,
    }
}

/// Whether two reads gave the same thing.
fn same_read_exec(a: &ReadOutcome, b: &ReadOutcome) -> (r: bool)
    ensures
        r == same_read(*a, *b),
{
    match (a, b) {
        (ReadOutcome::Contents(x), ReadOutcome::Contents(y)) => str_eq(x.as_str(), y.as_str()),
        (ReadOutcome::Missing, ReadOutcome::Missing) => true,
        (ReadOutcome::Failed(x), ReadOutcome::Failed(y)) => str_eq(x.as_str(), y.as_str()),
        _ => false,
    }
}

/// Some diagnostic of `c` is an error.
pub open spec fn has_error_spec(c: ResolvedConfig) -> bool {
    exists|i: int| 0 <= i < c.diagnostics@.len() && (#[trigger] c.diagnostics@[i]).severity == Severity::Error
}

/// Follows the config file for the daemon: the file is read again on every
/// poll and reloaded when what was read changed; the last config that
/// loaded without errors is kept. Comparing contents rather than times also
/// catches symlink swaps that keep the time.
pub struct ConfigWatcher {
    /// What the last poll read.
    pub last_read: Option<ReadOutcome>,
    /// The newest config that loaded without errors.
    pub good: Option<ResolvedConfig>,
}

impl ConfigWatcher {
    /// A watcher that has read nothing yet, acting on `good` until a config loads.
    pub fn new(good: Option<ResolvedConfig>) -> (r: ConfigWatcher)
        ensures
            r.last_read is None,
            r.good == good,
    {
        ConfigWatcher { last_read: None, good }
    }

    /// Whether `read` differs from what the last poll read, so the config must load again.
    pub fn changed(&self, read: &ReadOutcome) -> (r: bool)
        ensures
            r == match self.last_read {
                Some(last) => !same_read(last, *read),
                None => true,
            },
    {
        match &self.last_read {
            Some(last) => !same_read_exec(last, read),
            None => true,
        }
    }

    /// Take in `config`, loaded from `read`: it becomes the config to act on
    /// unless it has errors, in which case the last good one stays. Returns
    /// whether it was taken.
    pub fn record(&mut self, read: ReadOutcome, config: ResolvedConfig) -> (r: bool)
        ensures
            r == !has_error_spec(config),
            final(self).last_read == Some(read),
            final(self).good == good_after(old(self).good, seq![config]),
    {
        let ok = !config.has_errors();
        let ghost cs = seq![config];
        proof {
            assert(cs.last() == config);
            assert(cs.drop_last() =~= Seq::<ResolvedConfig>::empty());
            assert(good_after(self.good, Seq::<ResolvedConfig>::empty()) == self.good);
            assert(has_error_spec(config) == !ok);
            assert(good_after(self.good, cs) == (if ok { Some(config) } else { self.good }));
        }
        if ok {
            self.good = Some(config);
        }
        self.last_read = Some(read);
        ok
    }

    /// The config to act on: the newest that loaded without errors, if any.
    pub fn current(&self) -> (r: Option<&ResolvedConfig>)
        ensures
            match r {
                Some(c) => self.good == Some(*c),
                None => self.good is None,
            },
    {
        match &self.good {
            Some(c) => Some(c),
            None => None,
        }
    }
}

/// The config a watcher acts on after it took in `configs` in order,
/// starting from `good`: each one that has no errors replaces it.
pub open spec fn good_after(good: Option<ResolvedConfig>, configs: Seq<ResolvedConfig>) -> Option<ResolvedConfig>
    decreases configs.len(),
{
    if configs.len() == 0 {
        good
    } else if has_error_spec(configs.last()) {
        good_after(good, configs.drop_last())
    } else {
        Some(configs.last())
    }
}

/// Across any run of polls, the config a watcher acts on is the last of the
/// loaded configs that had no errors; while none has loaded without errors,
/// it is the one it started with. A config that fails to load never replaces
/// a good one.
pub proof fn lemma_watcher_keeps_last_good(good: Option<ResolvedConfig>, configs: Seq<ResolvedConfig>)
    ensures
        (forall|i: int| 0 <= i < configs.len() ==> has_error_spec(#[trigger] configs[i])) ==> good_after(
            good,
            configs,
        ) == good,
        forall|j: int|
            0 <= j < configs.len() && !has_error_spec(#[trigger] configs[j]) && (forall|k: int|
                j < k < configs.len() ==> has_error_spec(#[trigger] configs[k])) ==> good_after(good, configs)
                == Some(configs[j]),
    decreases configs.len(),
{
    if configs.len() > 0 {
        let init = configs.drop_last();
        lemma_watcher_keeps_last_good(good, init);
        assert forall|j: int|
            0 <= j < configs.len() && !has_error_spec(#[trigger] configs[j]) && (forall|k: int|
                j < k < configs.len() ==> has_error_spec(#[trigger] configs[k])) implies good_after(good, configs)
                == Some(configs[j]) by {
            if j < configs.len() - 1 {
                assert(has_error_spec(configs[configs.len() - 1]));
                assert(init[j] == configs[j]);
                assert forall|k: int| j < k < init.len() implies has_error_spec(#[trigger] init[k]) by {
                    assert(init[k] == configs[k]);
                }
            }
        }
        if forall|i: int| 0 <= i < configs.len() ==> has_error_spec(#[trigger] configs[i]) {
            assert(has_error_spec(configs[configs.len() - 1]));
            assert forall|i: int| 0 <= i < init.len() implies has_error_spec(#[trigger] init[i]) by {
                assert(init[i] == configs[i]);
            }
        }
    }
}

/// What the cleanup daemon needs of the config.
pub struct CleanupConfig {
    pub prefix: String,
    pub on_delete: Vec<String>,
}

/// The cleanup settings of `config`: its prefix and on-delete hooks while
/// it enables deleting empty workspaces; none without a config or when it
/// disables that.
pub fn cleanup_config(config: Option<&ResolvedConfig>) -> (r: Option<CleanupConfig>)
    ensures
        match config {
            Some(c) if c.auto_delete_empty => r is Some && r->Some_0.prefix@ == c.workspace_prefix@
                && r->Some_0.on_delete.deep_view() == c.hooks.on_delete.deep_view(),
            _ => r is None,
        },
{
    match config {
        Some(c) => {
            if c.auto_delete_empty {
                Some(CleanupConfig {
                    prefix: c.workspace_prefix.clone(),
                    on_delete: crate::text::clone_strings(&c.hooks.on_delete),
                })
            } else {
                None
            }
        },
        None => None,
    }
}

/// The lines `check` reports for `config`, one per diagnostic, and its exit
/// status: 1 when there is any diagnostic, else 0.
pub fn check_report(config: &ResolvedConfig) -> (r: (Vec<String>, i32))
    ensures
        r.0@.len() == config.diagnostics@.len(),
        forall|i: int| 0 <= i < r.0@.len() ==> (#[trigger] r.0@[i])@ == Diagnostic::label_spec(
            config.diagnostics@[i].severity,
        ) + ": "@ + config.diagnostics@[i].message@,
        r.1 == if config.diagnostics@.len() > 0 { 1i32 } else { 0i32 },
{
    let mut lines: Vec<String> = Vec::new();
    let mut i: usize = 0;
    while i < config.diagnostics.len()
        invariant
            i <= config.diagnostics@.len(),
            lines@.len() == i,
            forall|j: int| 0 <= j < i ==> (#[trigger] lines@[j])@ == Diagnostic::label_spec(
                config.diagnostics@[j].severity,
            ) + ": "@ + config.diagnostics@[j].message@,
        decreases config.diagnostics@.len() - i,
    {
        lines.push(config.diagnostics[i].to_display_string());
        i = i + 1;
    }
    let status: i32 = if config.diagnostics.len() > 0 { 1 } else { 0 };
    (lines, status)
}

/// `path` resolved against `cwd`, the directory of the process that gave
/// it; an absolute path, or one without a `cwd`, stays as it is.
pub open spec fn absolutize_spec(path: Seq<char>, cwd: Option<Seq<char>>) -> Seq<char> {
    match cwd {
        Some(c) => anchor_spec(path, c),
        None => path,
    }
}

/// Resolve a relative `path` against `cwd`, the calling process's directory.
pub fn absolutize(path: &str, cwd: Option<&str>) -> (r: String)
    ensures
        r@ == absolutize_spec(path@, opt_view(cwd)),
{
    match cwd {
        Some(c) => anchor_theme(path, c),
        None => path.to_string(),
    }
}

} // verus!
