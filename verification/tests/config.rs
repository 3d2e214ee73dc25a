use std::collections::BTreeSet;

use niri_dynamic_workspaces::config::{CardLayout, Diagnostic, Severity, Template};
use niri_dynamic_workspaces::keybind::{KeySym, KeyTable, ALT_MASK, SHIFT_MASK};
use niri_dynamic_workspaces::loading::{
    check_report, cleanup_config, collect_create_hooks, config_with_error, decimal_string,
    default_config, general_keys, parse_failure_message, resolve_parsed, toml_error_summary, unknown_key_warning,
    ConfigWatcher, ReadOutcome,
};
use niri_dynamic_workspaces::resolve::{RawConfig, RawGeneral, RawTemplate};
use niri_dynamic_workspaces::theme::Theme;

fn keys() -> KeyTable {
    KeyTable {
        entries: vec![
            ("Escape".to_string(), KeySym { keyval: 0xff1b, unicode: None }),
            ("c".to_string(), KeySym { keyval: 0x63, unicode: Some('c') }),
            ("w".to_string(), KeySym { keyval: 0x77, unicode: Some('w') }),
            ("q".to_string(), KeySym { keyval: 0x71, unicode: Some('q') }),
        ],
    }
}

#[test]
fn unknown_key_warning_hints() {
    assert_eq!(
        unknown_key_warning("workspaces"),
        "unknown key 'workspaces'; did you mean [workspace]?"
    );
    assert_eq!(
        unknown_key_warning("hook"),
        "unknown key 'hook'; did you mean [hooks]?"
    );
    assert_eq!(
        unknown_key_warning("keybind"),
        "unknown key 'keybind'; did you mean [keybinds]?"
    );
    assert_eq!(
        unknown_key_warning("theme"),
        "unknown key 'theme'; general settings go under [general]"
    );
    assert_eq!(
        unknown_key_warning("keybinds.theme"),
        "unknown key 'keybinds.theme'"
    );
    assert_eq!(
        unknown_key_warning("workspace.a.on_delete"),
        "unknown key 'workspace.a.on_delete'"
    );
}

#[test]
fn unknown_key_warning_template_on_delete_hint() {
    assert_eq!(
        unknown_key_warning("template.dev.on_delete"),
        "unknown key 'template.dev.on_delete'; templates only support on_create"
    );
    assert_eq!(
        unknown_key_warning("templates.dev"),
        "unknown key 'templates.dev'; did you mean [template]?"
    );
}

#[test]
fn general_keys_match_general_config() {
    // Every field of the [general] table, as the struct spells them.
    let general = RawGeneral {
        workspace_prefix: String::new(),
        default_programs: Vec::new(),
        auto_delete_empty: true,
        layout: String::new(),
        hover_preview: true,
        hide_empty_static: false,
        inhibit_compositor_shortcuts: true,
        confirm_delete: true,
        theme: String::new(),
        alt_variants: false,
    };
    let _ = general;
    let fields: BTreeSet<&str> = [
        "workspace_prefix",
        "default_programs",
        "auto_delete_empty",
        "layout",
        "hover_preview",
        "hide_empty_static",
        "inhibit_compositor_shortcuts",
        "confirm_delete",
        "theme",
        "alt_variants",
    ]
    .into_iter()
    .collect();
    let keys: BTreeSet<&str> = general_keys().into_iter().collect();
    assert_eq!(keys, fields);
}

#[test]
fn diagnostic_display_prefixes() {
    assert_eq!(
        Diagnostic::error("bad").to_display_string(),
        "config error: bad".to_string()
    );
    assert_eq!(
        Diagnostic::warning("odd").to_display_string(),
        "config warning: odd".to_string()
    );
}

fn builtin_name(theme: &Theme) -> Option<String> {
    match theme {
        Theme::Builtin(name) => Some(name.clone()),
        Theme::File(_) => None,
    }
}

#[test]
fn theme_parse_builtin_names() {
    assert_eq!(builtin_name(&Theme::gtk()), Some("gtk".to_string()));
    assert_eq!(builtin_name(&Theme::parse("gtk").unwrap()), Some("gtk".to_string()));
    assert_eq!(builtin_name(&Theme::parse("dark").unwrap()), Some("dark".to_string()));
    assert_eq!(builtin_name(&Theme::parse("Light").unwrap()), Some("light".to_string()));
}

#[test]
fn theme_parse_paths() {
    assert_eq!(Theme::parse("mine.css"), Ok(Theme::File("mine.css".into())));
    assert_eq!(
        Theme::parse("/etc/ndw/theme.CSS"),
        Ok(Theme::File("/etc/ndw/theme.CSS".into()))
    );
    assert_eq!(
        Theme::parse("themes/mine"),
        Ok(Theme::File("themes/mine".into()))
    );
}

#[test]
fn theme_parse_expands_tilde() {
    let Ok(Theme::File(path)) = Theme::parse("~/themes/mine.css") else {
        panic!("expected a file theme");
    };
    assert!(path.starts_with('/'), "{path}");
    assert!(path.ends_with("themes/mine.css"), "{path}");
}

#[test]
fn theme_parse_unknown_name() {
    assert!(Theme::parse("no-such-theme").is_err());
    assert!(Theme::parse("").is_err());
}

#[test]
fn theme_parse_with_home_is_exact() {
    assert_eq!(
        Theme::parse_with_home("~/t.css", Some("/home/me")),
        Ok(Theme::File("/home/me/t.css".into()))
    );
    assert_eq!(
        Theme::parse_with_home("~/t.css", None),
        Ok(Theme::File("~/t.css".into()))
    );
    let err = Theme::parse_with_home("nope", Some("/home/me")).unwrap_err();
    assert!(err.starts_with("unknown theme 'nope' (expected a .css path or one of: "), "{err}");
    assert!(err.ends_with("), defaulting to gtk"), "{err}");
}

#[test]
fn toml_error_summary_without_span_uses_message() {
    assert_eq!(toml_error_summary("boom", None, "anything"), "boom");
}

#[test]
fn toml_error_summary_counts_characters_not_bytes() {
    let text = "[general]\nlayout = \"æøå\" x\n";
    // The error sits at the `x`, byte 28: the three letters take two bytes each.
    let start = text.find(" x").unwrap() + 1;
    assert_eq!(start, 28);
    assert_eq!(
        toml_error_summary("expected newline", Some(start), text),
        "line 2, column 16: expected newline"
    );
}

#[test]
fn toml_error_summary_inside_a_character_counts_from_the_start() {
    let text = "é\nx";
    assert_eq!(toml_error_summary("m", Some(1), text), "line 1, column 1: m");
    assert_eq!(toml_error_summary("m", Some(0), text), "line 1, column 1: m");
    assert_eq!(toml_error_summary("m", Some(3), text), "line 2, column 1: m");
    assert_eq!(toml_error_summary("m", Some(99), text), "line 1, column 1: m");
}

#[test]
fn decimal_string_writes_digits() {
    assert_eq!(decimal_string(0), "0");
    assert_eq!(decimal_string(7), "7");
    assert_eq!(decimal_string(10), "10");
    assert_eq!(decimal_string(4096), "4096");
}

#[test]
fn default_config_has_defaults_and_no_diagnostics() {
    let config = default_config(&keys(), Some("/home/me"));
    assert_eq!(config.workspace_prefix, "dyn-");
    assert!(config.diagnostics.is_empty());
    assert!(!config.has_errors());
    assert_eq!(builtin_name(&config.theme), Some("gtk".to_string()));
    assert_eq!(config.close_keybinds.len(), 4);
}

#[test]
fn config_with_error_has_errors() {
    let config = config_with_error("line 1, column 2: bad", &keys(), None);
    assert!(config.has_errors());
    assert_eq!(config.diagnostics[0].severity, Severity::Error);
}

#[test]
fn resolve_parsed_lists_unknown_keys_first() {
    let mut raw = RawConfig::defaults();
    raw.general.layout = "klingon".to_string();
    let unknown = vec!["hook".to_string()];
    let config = resolve_parsed(raw, &unknown, Some("/cfg"), &keys(), None);
    let messages: Vec<&str> = config.diagnostics.iter().map(|d| d.message.as_str()).collect();
    assert_eq!(messages[0], "unknown key 'hook'; did you mean [hooks]?");
    assert_eq!(messages.len(), 2, "{messages:?}");
    assert!(config.diagnostics.iter().all(|d| d.severity == Severity::Warning));
}

#[test]
fn resolve_parsed_anchors_theme_file_at_config_dir() {
    let mut raw = RawConfig::defaults();
    raw.general.theme = "mine.css".to_string();
    let config = resolve_parsed(raw, &Vec::new(), Some("/cfg"), &keys(), None);
    assert_eq!(config.theme, Theme::File("/cfg/mine.css".into()));

    let mut raw = RawConfig::defaults();
    raw.general.theme = "/abs/mine.css".to_string();
    let config = resolve_parsed(raw, &Vec::new(), Some("/cfg"), &keys(), None);
    assert_eq!(config.theme, Theme::File("/abs/mine.css".into()));
}

fn template(name: &str, on_create: &[&str]) -> Template {
    Template {
        name: name.to_string(),
        programs: vec!["kitty".to_string()],
        key: None,
        variables: Vec::new(),
        on_create: on_create.iter().map(|s| s.to_string()).collect(),
        title: None,
    }
}

#[test]
fn collect_create_hooks_no_template() {
    let mut config = default_config(&keys(), None);
    config.hooks.on_create = vec!["notify-send 'created'".to_string()];
    assert_eq!(collect_create_hooks(&config, None), vec!["notify-send 'created'"]);
}

#[test]
fn collect_create_hooks_with_template() {
    let mut config = default_config(&keys(), None);
    config.hooks.on_create = vec!["global-hook".to_string()];
    config.templates = vec![template("dev", &["template-hook"])];
    assert_eq!(
        collect_create_hooks(&config, Some("dev")),
        vec!["global-hook", "template-hook"]
    );
}

#[test]
fn collect_create_hooks_unknown_template() {
    let mut config = default_config(&keys(), None);
    config.hooks.on_create = vec!["global-hook".to_string()];
    config.templates = vec![template("dev", &["template-hook"])];
    assert_eq!(collect_create_hooks(&config, Some("unknown")), vec!["global-hook"]);
}

#[test]
fn should_show_templates_cases() {
    let mut config = default_config(&keys(), None);
    assert!(!config.should_show_templates('a'));
    config.templates = vec![template("dev", &[])];
    assert!(config.should_show_templates('a'));
    config.workspace_programs = vec![('a', vec!["firefox".to_string()])];
    assert!(!config.should_show_templates('a'));
    assert!(config.should_show_templates('b'));
    assert_eq!(config.programs_for('a'), &vec!["firefox".to_string()]);
    config.default_programs = vec!["foot".to_string()];
    assert_eq!(config.programs_for('b'), &vec!["foot".to_string()]);
}

#[test]
fn resolve_templates_in_declaration_order() {
    let mut raw = RawConfig::defaults();
    let t = |programs: &[&str], key: Option<&str>| RawTemplate {
        programs: programs.iter().map(|s| s.to_string()).collect(),
        key: key.map(String::from),
        variables: Vec::new(),
        on_create: Vec::new(),
        title: None,
    };
    raw.template = vec![
        ("web".to_string(), t(&["firefox"], None)),
        ("dev".to_string(), t(&["code"], Some("d"))),
    ];
    let config = resolve_parsed(raw, &Vec::new(), None, &keys(), None);
    let names: Vec<&str> = config.templates.iter().map(|t| t.name.as_str()).collect();
    assert_eq!(names, ["web", "dev"]);
    assert_eq!(config.templates[1].key, Some('d'));
    // Key 1 stays for the empty option.
    assert!(config.templates.iter().all(|t| t.key != Some('1')));
    assert!(config.templates[0].key.is_some());
}

#[test]
fn config_watcher_reloads_only_on_change_and_keeps_last_good() {
    let mut watcher = ConfigWatcher::new(None);
    let read = ReadOutcome::Contents("a".to_string());
    assert!(watcher.changed(&read));
    assert!(watcher.record(read, default_config(&keys(), None)));
    assert!(!watcher.changed(&ReadOutcome::Contents("a".to_string())));
    assert!(watcher.changed(&ReadOutcome::Contents("b".to_string())));
    assert!(watcher.changed(&ReadOutcome::Missing));
    // A broken edit keeps the last config that loaded.
    let bad = config_with_error("broken", &keys(), None);
    assert!(!watcher.record(ReadOutcome::Contents("b".to_string()), bad));
    assert!(watcher.current().is_some());
    assert!(!watcher.current().unwrap().has_errors());
    assert!(!watcher.changed(&ReadOutcome::Contents("b".to_string())));
}

#[test]
fn config_watcher_broken_at_startup_has_no_config() {
    let mut watcher = ConfigWatcher::new(None);
    let bad = config_with_error("broken", &keys(), None);
    assert!(!watcher.record(ReadOutcome::Failed("denied".to_string()), bad));
    assert!(watcher.current().is_none());
    assert!(cleanup_config(watcher.current()).is_none());
}

#[test]
fn cleanup_config_follows_auto_delete() {
    let mut config = default_config(&keys(), None);
    config.hooks.on_delete = vec!["notify-send gone".to_string()];
    let c = cleanup_config(Some(&config)).unwrap();
    assert_eq!(c.prefix, "dyn-");
    assert_eq!(c.on_delete, vec!["notify-send gone"]);
    config.auto_delete_empty = false;
    assert!(cleanup_config(Some(&config)).is_none());
}

#[test]
fn check_report_exit_status_follows_diagnostics() {
    let config = default_config(&keys(), None);
    assert_eq!(check_report(&config), (Vec::new(), 0));
    let config = config_with_error("bad", &keys(), None);
    assert_eq!(check_report(&config), (vec!["config error: bad".to_string()], 1));
}

#[test]
fn readme_configuration_block_resolves_without_diagnostics() {
    let mut raw = RawConfig::defaults();
    raw.general.workspace_prefix = "dyn-".to_string();
    raw.card_layout = CardLayout {
        max_columns: 4,
        min_columns: 2,
        max_windows_per_card: 4,
        app_name_max_chars: 12,
        window_title_max_chars: 18,
    };
    raw.close = vec!["Escape".into(), "Ctrl+c".into(), "Ctrl+w".into(), "Ctrl+q".into()];
    raw.delete_modifier = "Shift".to_string();
    let config = resolve_parsed(raw, &Vec::new(), Some("/cfg"), &keys(), None);
    assert!(config.diagnostics.is_empty(), "{:?}", config.diagnostics);
    assert_eq!(config.card_layout, CardLayout::defaults());
    assert_eq!(config.delete_modifier, SHIFT_MASK);
}

#[test]
fn layout_and_delete_modifier_are_carried_over() {
    let mut raw = RawConfig::defaults();
    raw.card_layout.max_columns = 6;
    raw.card_layout.window_title_max_chars = 30;
    raw.delete_modifier = "Alt".to_string();
    let config = resolve_parsed(raw, &Vec::new(), None, &keys(), None);
    assert!(config.diagnostics.is_empty());
    assert_eq!(config.card_layout.max_columns, 6);
    assert_eq!(config.card_layout.min_columns, 2);
    assert_eq!(config.card_layout.window_title_max_chars, 30);
    assert_eq!(config.delete_modifier, ALT_MASK);
}

#[test]
fn invalid_delete_modifier_warns_and_falls_back_to_shift() {
    let mut raw = RawConfig::defaults();
    raw.delete_modifier = "Hyper".to_string();
    let config = resolve_parsed(raw, &Vec::new(), None, &keys(), None);
    let messages: Vec<&str> = config.diagnostics.iter().map(|d| d.message.as_str()).collect();
    assert_eq!(messages, vec!["invalid delete_modifier 'Hyper', defaulting to Shift"]);
    assert_eq!(config.delete_modifier, SHIFT_MASK);
}

#[test]
fn parse_failure_message_names_the_file() {
    assert_eq!(
        parse_failure_message("/c/config.toml", "expected `=`"),
        "could not parse /c/config.toml: expected `=`, using defaults"
    );
}

#[test]
fn alt_variants_is_a_general_setting() {
    let config = resolve_parsed(RawConfig::defaults(), &Vec::new(), None, &keys(), None);
    assert!(!config.alt_variants);
    let mut raw = RawConfig::defaults();
    raw.general.alt_variants = true;
    let config = resolve_parsed(raw, &Vec::new(), None, &keys(), None);
    assert!(config.alt_variants);
    assert!(config.diagnostics.is_empty());
    assert_eq!(
        unknown_key_warning("alt_variants"),
        "unknown key 'alt_variants'; general settings go under [general]"
    );
}

#[test]
fn config_with_error_keeps_the_default_settings() {
    let config = config_with_error("could not parse /cfg/config.toml: bad, using defaults", &keys(), None);
    assert_eq!(config.workspace_prefix, "dyn-");
    assert!(config.auto_delete_empty && config.hover_preview && config.confirm_delete);
    assert!(!config.hide_empty_static && !config.alt_variants);
    assert_eq!(config.delete_modifier, SHIFT_MASK);
    assert_eq!(config.card_layout, CardLayout::defaults());
    assert_eq!(config.theme, Theme::Builtin("gtk".into()));
    assert_eq!(config.diagnostics.len(), 1);
    assert_eq!(config.diagnostics[0].severity, Severity::Error);
    assert!(config.has_errors());
}
