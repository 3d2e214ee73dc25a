//! The resolved configuration and the types it is made of.

use vstd::prelude::*;

use crate::keybind::Keybind;
use crate::layout::KeyboardLayout;
use crate::theme::Theme;

verus! {

/// How bad a config problem is.
#[derive(Clone, Copy, Debug, PartialEq, Eq, Structural)]
pub enum Severity {
    /// The file could not be used; the whole config fell back to defaults.
    Error,
    /// One setting was ignored or replaced by its default.
    Warning,
}

/// A config problem to show the user.
#[derive(Clone, Debug, PartialEq, Eq)]
pub struct Diagnostic {
    pub severity: Severity,
    pub message: String,
}

impl Diagnostic {
    /// An error diagnostic carrying `message`.
    pub fn error(message: &str) -> (d: Diagnostic)
        ensures
            d.severity == Severity::Error,
            d.message@ == message@,
    {
        Diagnostic { severity: Severity::Error, message: message.to_string() }
    }

    /// A warning diagnostic carrying `message`.
    pub fn warning(message: &str) -> (d: Diagnostic)
        ensures
            d.severity == Severity::Warning,
            d.message@ == message@,
    {
        Diagnostic { severity: Severity::Warning, message: message.to_string() }
    }

    /// The label of a diagnostic of severity `s`.
    pub open spec fn label_spec(s: Severity) -> Seq<char> {
        match s {
            Severity::Error => "config error"@,
            Severity::Warning => "config warning"@,
        }
    }

    /// How the diagnostic is shown: `config error: <message>` or
    /// `config warning: <message>`.
    pub fn to_display_string(&self) -> (r: String)
        ensures
            r@ == Self::label_spec(self.severity) + ": "@ + self.message@,
    {
        let label = match self.severity {
            Severity::Error => "config error",
            Severity::Warning => "config warning",
        };
        let mut r = label.to_string();
        r.append(": ");
        r.append(self.message.as_str());
        r
    }
}

/// How a template variable gets its value.
#[derive(Clone, Debug, PartialEq, Eq)]
pub enum VariableType {
    /// Free-form text.
    Text,
    /// A choice from a list.
    Select(Select),
}

/// Where the choices of a select variable come from.
#[derive(Clone, Debug, PartialEq, Eq)]
pub enum Select {
    /// A fixed list.
    Options(Vec<String>),
    /// The output lines of a shell command.
    Command(String),
    /// The directories under `dirs`, down to `depth` levels.
    Dirs { dirs: Vec<String>, depth: u32 },
}

/// A variable a template asks for before it creates a workspace.
#[derive(Clone, Debug)]
pub struct TemplateVariable {
    pub name: String,
    pub label: String,
    pub var_type: VariableType,
}

/// A named set of programs (with variables) to start a workspace with.
#[derive(Clone, Debug)]
pub struct Template {
    pub name: String,
    pub programs: Vec<String>,
    pub key: Option<char>,
    pub variables: Vec<TemplateVariable>,
    pub on_create: Vec<String>,
    pub title: Option<String>,
}

/// Shell commands run when workspaces are created or deleted.
#[derive(Clone, Debug)]
pub struct HookConfig {
    pub on_create: Vec<String>,
    pub on_delete: Vec<String>,
}

/// The card grid of the overlay: `[layout]`.
#[derive(Clone, Copy, Debug, PartialEq, Eq, Structural)]
pub struct CardLayout {
    /// Most columns in the card grid.
    pub max_columns: u32,
    /// Fewest columns in the card grid.
    pub min_columns: u32,
    /// Most windows listed on one card.
    pub max_windows_per_card: u32,
    /// App names are cut after this many characters.
    pub app_name_max_chars: u32,
    /// Window titles are cut after this many characters.
    pub window_title_max_chars: u32,
}

impl CardLayout {
    /// The settings of an empty `[layout]`, as a value.
    pub open spec fn defaults_spec() -> CardLayout {
        CardLayout {
            max_columns: 4,
            min_columns: 2,
            max_windows_per_card: 4,
            app_name_max_chars: 12,
            window_title_max_chars: 18,
        }
    }

    /// The settings of an empty `[layout]`.
    pub fn defaults() -> (l: CardLayout)
        ensures
            l == CardLayout::defaults_spec(),
    {
        CardLayout {
            max_columns: 4,
            min_columns: 2,
            max_windows_per_card: 4,
            app_name_max_chars: 12,
            window_title_max_chars: 18,
        }
    }
}

/// The configuration the overlay and the actions run on.
pub struct ResolvedConfig {
    pub workspace_prefix: String,
    pub close_keybinds: Vec<Keybind>,
    pub default_programs: Vec<String>,
    /// Programs per workspace key; no key appears twice.
    pub workspace_programs: Vec<(char, Vec<String>)>,
    /// Display names per workspace key; no key appears twice.
    pub workspace_names: Vec<(char, String)>,
    /// Keys pinned to existing (non-dynamic) niri workspaces by name; no key
    /// appears twice.
    pub static_workspaces: Vec<(char, String)>,
    /// Templates bound to workspace keys by name, so that creating the
    /// key's workspace skips the picker; no key appears twice.
    pub workspace_templates: Vec<(char, String)>,
    pub auto_delete_empty: bool,
    pub hover_preview: bool,
    /// Hide windowless workspaces from the static row (focused/urgent stay).
    pub hide_empty_static: bool,
    /// Suppress compositor keybinds while the overlay is open, so a held
    /// Mod+<key> reaches the overlay instead of firing niri binds.
    pub inhibit_compositor_shortcuts: bool,
    /// Delete mode asks for a second press before closing a workspace's windows.
    pub confirm_delete: bool,
    /// Alt+key in the overlay pulls the workspace onto the focused monitor
    /// (Switch mode) or moves the window without following it (Move Window).
    pub alt_variants: bool,
    pub layout: KeyboardLayout,
    /// The card grid.
    pub card_layout: CardLayout,
    /// The modifier that, held with a workspace key, deletes that workspace.
    pub delete_modifier: u32,
    pub theme: Theme,
    pub templates: Vec<Template>,
    pub hooks: HookConfig,
    /// Problems found while loading; the config falls back to defaults where they apply.
    pub diagnostics: Vec<Diagnostic>,
}

} // verus!
