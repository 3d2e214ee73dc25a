use niri_dynamic_workspaces::config::{ResolvedConfig, Template};
use niri_dynamic_workspaces::ipc::Workspace;
use niri_dynamic_workspaces::keybind::{KeySym, KeyTable};
use niri_dynamic_workspaces::loading::default_config;
use niri_dynamic_workspaces::overlay::{build_template_options, display_key_char, Mode};
use niri_dynamic_workspaces::session::{
    armed_after_refresh, confirm_delete_hint, diagnostics_summary, follow_output, key_action, needs_confirmation, wrap_index,
    Following, HoverPreview, KeyAction, KeyContext,
};

fn keys() -> KeyTable {
    KeyTable {
        entries: vec![("Escape".to_string(), KeySym { keyval: 0xff1b, unicode: None })],
    }
}

fn default_test_config() -> ResolvedConfig {
    default_config(&keys(), None)
}

// --- HoverPreview ---

#[test]
fn hover_preview_skips_the_focused_workspace() {
    let mut p = HoverPreview::new(Some(1));
    assert!(!p.should_focus(1));
    assert!(p.should_focus(2));
    p.focused(2);
    assert!(!p.should_focus(2));
    assert!(p.should_focus(1));
}

#[test]
fn hover_preview_restores_origin_once() {
    let mut p = HoverPreview::new(Some(1));
    assert_eq!(p.take_restore(), None);
    p.focused(2);
    p.focused(3);
    assert!(p.is_previewed(3));
    assert_eq!(p.take_restore(), Some(1));
    assert_eq!(p.take_restore(), None);
}

#[test]
fn hover_preview_back_on_origin_needs_no_restore() {
    let mut p = HoverPreview::new(Some(1));
    p.focused(2);
    p.focused(1);
    assert!(!p.is_previewed(1));
    assert_eq!(p.take_restore(), None);
}

#[test]
fn hover_preview_without_origin_never_restores() {
    let mut p = HoverPreview::new(None);
    assert!(p.should_focus(2));
    p.focused(2);
    assert!(p.is_previewed(2));
    assert_eq!(p.take_restore(), None);
}

#[test]
fn hover_preview_rebase_moves_the_baseline() {
    let mut p = HoverPreview::new(Some(1));
    p.focused(2);
    p.rebase(Some(7));
    assert_eq!(p.take_restore(), None);
    assert!(!p.should_focus(7));
    p.focused(2);
    assert_eq!(p.take_restore(), Some(7));
}

// --- wrap_index ---

#[test]
fn wrap_index_cycles_both_directions() {
    assert_eq!(wrap_index(0, 3, true), 1);
    assert_eq!(wrap_index(2, 3, true), 0);
    assert_eq!(wrap_index(0, 3, false), 2);
    assert_eq!(wrap_index(1, 3, false), 0);
}

#[test]
fn wrap_index_empty_len_is_total() {
    assert_eq!(wrap_index(0, 0, true), 0);
    assert_eq!(wrap_index(5, 0, false), 0);
}

// --- modes ---

#[test]
fn mod_mode_widget_name_roundtrip() {
    for mode in [Mode::Normal, Mode::Delete, Mode::MoveWindow] {
        let name = mode.widget_name();
        assert_eq!(Mode::from_widget_name(name), Some(mode));
    }
}

#[test]
fn mod_mode_from_unknown_widget_name() {
    assert_eq!(Mode::from_widget_name("unknown"), None);
}

#[test]
fn mod_mode_display_name() {
    assert_eq!(Mode::Normal.display_name(), "Switch");
    assert_eq!(Mode::Delete.display_name(), "Delete");
    assert_eq!(Mode::MoveWindow.display_name(), "Move Window");
}

#[test]
fn mod_mode_next_cycles() {
    assert_eq!(Mode::Normal.next(), Mode::Delete);
    assert_eq!(Mode::Delete.next(), Mode::MoveWindow);
    assert_eq!(Mode::MoveWindow.next(), Mode::Normal);
}

#[test]
fn mod_mode_prev_cycles() {
    assert_eq!(Mode::Normal.prev(), Mode::MoveWindow);
    assert_eq!(Mode::MoveWindow.prev(), Mode::Delete);
    assert_eq!(Mode::Delete.prev(), Mode::Normal);
}

#[test]
fn mode_hint_is_mode_specific() {
    // The theme gallery and README screenshot render Switch mode.
    assert_eq!(Mode::Normal.hint(), "press key to select");
    assert!(Mode::Delete.hint().contains("closes its windows"));
    let hints: Vec<&str> = Mode::all().into_iter().map(Mode::hint).collect();
    let (switch, delete, move_window) = (hints[0], hints[1], hints[2]);
    assert!(switch != delete && delete != move_window && move_window != switch);
}

#[test]
fn mod_mode_css_class() {
    assert_eq!(Mode::Normal.css_class(), "switch");
    assert_eq!(Mode::Delete.css_class(), "delete");
    assert_eq!(Mode::MoveWindow.css_class(), "move-window");
}

#[test]
fn mode_mode_widget_name_roundtrip() {
    for mode in [Mode::Normal, Mode::Delete, Mode::MoveWindow] {
        let name = mode.widget_name();
        assert_eq!(Mode::from_widget_name(name), Some(mode));
    }
}

#[test]
fn mode_mode_from_unknown_widget_name() {
    assert_eq!(Mode::from_widget_name("unknown"), None);
}

#[test]
fn mode_mode_display_name() {
    assert_eq!(Mode::Normal.display_name(), "Switch");
    assert_eq!(Mode::Delete.display_name(), "Delete");
    assert_eq!(Mode::MoveWindow.display_name(), "Move Window");
}

#[test]
fn mode_mode_next_cycles() {
    assert_eq!(Mode::Normal.next(), Mode::Delete);
    assert_eq!(Mode::Delete.next(), Mode::MoveWindow);
    assert_eq!(Mode::MoveWindow.next(), Mode::Normal);
}

#[test]
fn mode_mode_prev_cycles() {
    assert_eq!(Mode::Normal.prev(), Mode::MoveWindow);
    assert_eq!(Mode::MoveWindow.prev(), Mode::Delete);
    assert_eq!(Mode::Delete.prev(), Mode::Normal);
}

#[test]
fn mode_mode_css_class() {
    assert_eq!(Mode::Normal.css_class(), "switch");
    assert_eq!(Mode::Delete.css_class(), "delete");
    assert_eq!(Mode::MoveWindow.css_class(), "move-window");
}

#[test]
fn mode_container_css_class() {
    assert_eq!(Mode::Normal.container_css_class(), None);
    assert_eq!(Mode::Delete.container_css_class(), Some("delete-mode"));
    assert_eq!(Mode::MoveWindow.container_css_class(), Some("move-window-mode"));
}

#[test]
fn mode_all() {
    assert_eq!(Mode::all(), [Mode::Normal, Mode::Delete, Mode::MoveWindow]);
}

// --- delete confirmation ---

#[test]
fn needs_confirmation_arms_occupied_workspace() {
    assert!(needs_confirmation(true, 'a', 2, None));
}

#[test]
fn needs_confirmation_same_key_confirms() {
    assert!(!needs_confirmation(true, 'a', 2, Some('a')));
}

#[test]
fn needs_confirmation_other_key_rearms() {
    assert!(needs_confirmation(true, 'b', 1, Some('a')));
}

#[test]
fn needs_confirmation_skipped_when_empty_or_disabled() {
    assert!(!needs_confirmation(true, 'a', 0, None));
    assert!(!needs_confirmation(false, 'a', 3, None));
}

#[test]
fn confirm_delete_hint_counts_windows() {
    assert_eq!(confirm_delete_hint('a', 1), "press A again to close 1 window");
    assert_eq!(confirm_delete_hint('3', 3), "press 3 again to close 3 windows");
}

// --- diagnostics_summary ---

fn problems(n: usize) -> Vec<String> {
    (1..=n).map(|i| format!("config warning: problem {i}")).collect()
}

#[test]
fn diagnostics_summary_none_when_clean() {
    assert_eq!(diagnostics_summary(&vec![], 0), None);
}

#[test]
fn diagnostics_summary_single_is_the_problem() {
    assert_eq!(
        diagnostics_summary(&problems(1), 1),
        Some("config warning: problem 1".to_string())
    );
}

#[test]
fn diagnostics_summary_counts_the_rest() {
    assert_eq!(
        diagnostics_summary(&problems(3), 3),
        Some("config warning: problem 1 (+2 more, run `niri-dynamic-workspaces check`)".to_string())
    );
}

#[test]
fn diagnostics_summary_points_to_check_only_for_hidden_config_problems() {
    // `check` does not load the theme, so it would not list these.
    let theme = |i| format!("theme warning: problem {i}");
    let mixed = vec![problems(1).remove(0), theme(2), theme(3)];
    assert_eq!(
        diagnostics_summary(&mixed, 1),
        Some("config warning: problem 1 (+2 more)".to_string())
    );
    assert_eq!(
        diagnostics_summary(&vec![theme(1), theme(2)], 0),
        Some("theme warning: problem 1 (+1 more)".to_string())
    );
}

// --- display_key_char ---

#[test]
fn mod_display_key_char_letters() {
    assert_eq!(display_key_char('a'), "A");
    assert_eq!(display_key_char('z'), "Z");
    assert_eq!(display_key_char('m'), "M");
}

#[test]
fn mod_display_key_char_digits() {
    assert_eq!(display_key_char('0'), "0");
    assert_eq!(display_key_char('9'), "9");
}

#[test]
fn helpers_display_key_char_letters() {
    assert_eq!(display_key_char('a'), "A");
    assert_eq!(display_key_char('z'), "Z");
    assert_eq!(display_key_char('m'), "M");
}

#[test]
fn helpers_display_key_char_digits() {
    assert_eq!(display_key_char('0'), "0");
    assert_eq!(display_key_char('9'), "9");
}

// --- template picker ---

fn template(name: &str, program: &str, key: char) -> Template {
    Template {
        name: name.to_string(),
        programs: vec![program.to_string()],
        key: Some(key),
        variables: Vec::new(),
        on_create: Vec::new(),
        title: None,
    }
}

#[test]
fn picker_build_template_options_empty_first_with_key_1() {
    let mut config = default_test_config();
    config.default_programs = vec!["kitty".to_string()];
    config.templates = vec![template("dev", "code", 'd'), template("browser", "firefox", '2')];

    let opts = build_template_options(&config);

    assert_eq!(opts.len(), 3);
    // First option is always "Empty" with key '1'
    assert_eq!(opts[0].name, "Empty");
    assert_eq!(opts[0].key, Some('1'));
    assert_eq!(opts[0].programs, vec!["kitty"]);
    // Templates follow in config order
    assert_eq!(opts[1].name, "dev");
    assert_eq!(opts[1].key, Some('d'));
    assert_eq!(opts[2].name, "browser");
    assert_eq!(opts[2].key, Some('2'));
}

#[test]
fn ui_build_template_options_empty_first_with_key_1() {
    let mut config = default_test_config();
    config.default_programs = vec!["kitty".to_string()];
    config.templates = vec![template("dev", "code", 'd'), template("browser", "firefox", '2')];

    let opts = build_template_options(&config);

    assert_eq!(opts.len(), 3);
    assert_eq!(opts[0].name, "Empty");
    assert_eq!(opts[0].key, Some('1'));
    assert_eq!(opts[0].programs, vec!["kitty"]);
    assert_eq!(opts[1].name, "dev");
    assert_eq!(opts[1].key, Some('d'));
    assert_eq!(opts[2].name, "browser");
    assert_eq!(opts[2].key, Some('2'));
}

#[test]
fn picker_build_template_options_no_default_programs() {
    let mut config = default_test_config();
    config.templates = vec![template("dev", "code", '2')];

    let opts = build_template_options(&config);

    assert_eq!(opts.len(), 2);
    assert_eq!(opts[0].name, "Empty");
    assert!(opts[0].programs.is_empty());
}

#[test]
fn ui_build_template_options_no_default_programs() {
    let mut config = default_test_config();
    config.templates = vec![template("dev", "code", '2')];

    let opts = build_template_options(&config);

    assert_eq!(opts.len(), 2);
    assert_eq!(opts[0].name, "Empty");
    assert!(opts[0].programs.is_empty());
}

// --- what a key press does ---

fn live(id: u64, name: &str, window_count: usize) -> KeyContext {
    KeyContext {
        ws_id: Some(id),
        ws_name: Some(name.to_string()),
        is_uncreated: false,
        window_count,
    }
}

#[test]
fn key_action_static_key_cannot_be_deleted() {
    let mut config = default_test_config();
    config.static_workspaces.push(('q', "01".to_string()));
    let p = HoverPreview::new(None);
    match key_action(Mode::Delete, 'q', &config, None, &p, None, None) {
        KeyAction::Refuse(e) => assert_eq!(e, "'01' is a static workspace and cannot be deleted"),
        other => panic!("unexpected {other:?}"),
    }
}

#[test]
fn key_action_static_key_acts_by_id() {
    let mut config = default_test_config();
    config.static_workspaces.push(('q', "01".to_string()));
    let info = live(5, "01", 0);
    let mut p = HoverPreview::new(Some(1));
    assert!(matches!(
        key_action(Mode::Normal, 'q', &config, Some(&info), &p, None, None),
        KeyAction::FocusWorkspace(5)
    ));
    match key_action(Mode::MoveWindow, 'q', &config, Some(&info), &p, None, Some(9)) {
        KeyAction::MoveWindowTo { workspace_id, window_id } => assert_eq!((workspace_id, window_id), (5, 9)),
        other => panic!("unexpected {other:?}"),
    }
    p.focused(5);
    assert!(matches!(
        key_action(Mode::Normal, 'q', &config, Some(&info), &p, None, None),
        KeyAction::Close
    ));
    match key_action(Mode::Normal, 'q', &config, None, &p, None, None) {
        KeyAction::Refuse(e) => assert_eq!(e, "Failed: workspace '01' not found"),
        other => panic!("unexpected {other:?}"),
    }
}

#[test]
fn key_action_switch_starts_configured_programs() {
    let mut config = default_test_config();
    config.default_programs = vec!["kitty".to_string()];
    config.workspace_programs.push(('b', vec!["firefox".to_string()]));
    let p = HoverPreview::new(None);
    match key_action(Mode::Normal, 'b', &config, None, &p, None, None) {
        KeyAction::Switch { ws_name, programs } => {
            assert_eq!(ws_name, "dyn-b");
            assert_eq!(programs, vec!["firefox"]);
        },
        other => panic!("unexpected {other:?}"),
    }
    let info = live(3, "dyn-c Notes", 2);
    match key_action(Mode::Normal, 'c', &config, Some(&info), &p, None, None) {
        KeyAction::Switch { ws_name, programs } => {
            assert_eq!(ws_name, "dyn-c Notes");
            assert_eq!(programs, vec!["kitty"]);
        },
        other => panic!("unexpected {other:?}"),
    }
}

#[test]
fn key_action_uncreated_key_offers_templates() {
    let mut config = default_test_config();
    config.templates = vec![template("dev", "code", 'd')];
    let p = HoverPreview::new(None);
    assert!(matches!(
        key_action(Mode::Normal, 'x', &config, None, &p, None, None),
        KeyAction::PickTemplate
    ));
    let info = live(3, "dyn-x", 0);
    assert!(matches!(
        key_action(Mode::Normal, 'x', &config, Some(&info), &p, None, None),
        KeyAction::Switch { .. }
    ));
}

#[test]
fn key_action_previewed_workspace_just_closes() {
    let config = default_test_config();
    let mut p = HoverPreview::new(Some(1));
    p.focused(3);
    let info = live(3, "dyn-c", 1);
    assert!(matches!(
        key_action(Mode::Normal, 'c', &config, Some(&info), &p, None, None),
        KeyAction::Close
    ));
}

#[test]
fn key_action_delete_asks_twice_for_windows() {
    let config = default_test_config();
    assert!(config.confirm_delete);
    let p = HoverPreview::new(None);
    let info = live(3, "dyn-c", 2);
    assert!(matches!(
        key_action(Mode::Delete, 'c', &config, Some(&info), &p, None, None),
        KeyAction::ArmDelete
    ));
    assert!(matches!(
        key_action(Mode::Delete, 'c', &config, Some(&info), &p, Some('c'), None),
        KeyAction::Delete
    ));
    let empty = live(4, "dyn-d", 0);
    assert!(matches!(
        key_action(Mode::Delete, 'd', &config, Some(&empty), &p, None, None),
        KeyAction::Delete
    ));
}

#[test]
fn key_action_move_needs_the_window_that_had_focus() {
    let config = default_test_config();
    let p = HoverPreview::new(None);
    match key_action(Mode::MoveWindow, 'a', &config, None, &p, None, None) {
        KeyAction::Refuse(e) => assert_eq!(e, "Failed: no focused window to move"),
        other => panic!("unexpected {other:?}"),
    }
    match key_action(Mode::MoveWindow, 'a', &config, None, &p, None, Some(42)) {
        KeyAction::MoveWindow { ws_name, window_id } => {
            assert_eq!(ws_name, "dyn-a");
            assert_eq!(window_id, 42);
        },
        other => panic!("unexpected {other:?}"),
    }
}

#[test]
fn ui_mode_widget_name_roundtrip() {
    for mode in [Mode::Normal, Mode::Delete, Mode::MoveWindow] {
        let name = mode.widget_name();
        assert_eq!(Mode::from_widget_name(name), Some(mode));
    }
}

#[test]
fn ui_mode_from_unknown_widget_name() {
    assert_eq!(Mode::from_widget_name("unknown"), None);
}

#[test]
fn ui_mode_display_name() {
    assert_eq!(Mode::Normal.display_name(), "Switch");
    assert_eq!(Mode::Delete.display_name(), "Delete");
    assert_eq!(Mode::MoveWindow.display_name(), "Move Window");
}

#[test]
fn ui_mode_next_cycles() {
    assert_eq!(Mode::Normal.next(), Mode::Delete);
    assert_eq!(Mode::Delete.next(), Mode::MoveWindow);
    assert_eq!(Mode::MoveWindow.next(), Mode::Normal);
}

#[test]
fn ui_mode_prev_cycles() {
    assert_eq!(Mode::Normal.prev(), Mode::MoveWindow);
    assert_eq!(Mode::MoveWindow.prev(), Mode::Delete);
    assert_eq!(Mode::Delete.prev(), Mode::Normal);
}

#[test]
fn ui_mode_css_class() {
    assert_eq!(Mode::Normal.css_class(), "switch");
    assert_eq!(Mode::Delete.css_class(), "delete");
    assert_eq!(Mode::MoveWindow.css_class(), "move-window");
}

#[test]
fn ui_display_key_char_letters() {
    assert_eq!(display_key_char('a'), "A");
    assert_eq!(display_key_char('z'), "Z");
    assert_eq!(display_key_char('m'), "M");
}

#[test]
fn ui_display_key_char_digits() {
    assert_eq!(display_key_char('0'), "0");
    assert_eq!(display_key_char('9'), "9");
}

#[test]
fn types_build_template_options_empty_first_with_key_1() {
    let mut config = default_test_config();
    config.default_programs = vec!["kitty".to_string()];
    config.templates = vec![template("dev", "code", 'd'), template("browser", "firefox", '2')];

    let opts = build_template_options(&config);

    assert_eq!(opts.len(), 3);
    // First option is always "Empty" with key '1'
    assert_eq!(opts[0].name, "Empty");
    assert_eq!(opts[0].key, Some('1'));
    assert_eq!(opts[0].programs, vec!["kitty"]);
    // Templates follow in config order
    assert_eq!(opts[1].name, "dev");
    assert_eq!(opts[1].key, Some('d'));
    assert_eq!(opts[2].name, "browser");
    assert_eq!(opts[2].key, Some('2'));
}

#[test]
fn types_build_template_options_no_default_programs() {
    let mut config = default_test_config();
    config.templates = vec![template("dev", "code", '2')];

    let opts = build_template_options(&config);

    assert_eq!(opts.len(), 2);
    assert_eq!(opts[0].name, "Empty");
    assert!(opts[0].programs.is_empty());
}

fn workspace(id: u64, output: &str, is_focused: bool, active_window_id: Option<u64>) -> Workspace {
    Workspace {
        id,
        idx: 1,
        name: None,
        output: Some(output.to_string()),
        is_urgent: false,
        is_active: is_focused,
        is_focused,
        active_window_id,
    }
}

#[test]
fn follow_output_rebases_on_an_output_change_only() {
    let mut preview = HoverPreview::new(Some(1));
    preview.focused(2);
    let mut state = Following {
        tracked_output: Some("DP-1".to_string()),
        preview,
        origin_window: Some(10),
    };
    let same = vec![workspace(1, "DP-1", true, Some(11))];
    assert!(!follow_output(&mut state, &same));
    assert_eq!(state.preview.previewed, Some(2));
    assert_eq!(state.origin_window, Some(10));

    let moved = vec![workspace(1, "DP-1", false, Some(11)), workspace(7, "HDMI-1", true, Some(70))];
    assert!(follow_output(&mut state, &moved));
    assert_eq!(state.tracked_output.as_deref(), Some("HDMI-1"));
    assert_eq!(state.preview.origin, Some(7));
    assert_eq!(state.preview.previewed, None);
    assert_eq!(state.origin_window, Some(70));
}

#[test]
fn key_action_key_bound_to_a_template_skips_the_picker() {
    let mut config = default_test_config();
    config.templates = vec![template("dev", "code", 'd')];
    config.workspace_templates.push(('x', "dev".to_string()));
    let p = HoverPreview::new(None);
    match key_action(Mode::Normal, 'x', &config, None, &p, None, None) {
        KeyAction::UseTemplate(name) => assert_eq!(name, "dev"),
        other => panic!("unexpected {other:?}"),
    }
    let info = live(3, "dyn-x", 0);
    assert!(matches!(
        key_action(Mode::Normal, 'x', &config, Some(&info), &p, None, None),
        KeyAction::Switch { .. }
    ));
}

#[test]
fn armed_delete_survives_a_refresh_while_windows_remain() {
    let counts = vec![('a', 2), ('b', 0)];
    assert_eq!(armed_after_refresh(Some('a'), Mode::Delete, &counts), Some('a'));
    assert_eq!(armed_after_refresh(Some('b'), Mode::Delete, &counts), None);
    assert_eq!(armed_after_refresh(Some('c'), Mode::Delete, &counts), None);
    assert_eq!(armed_after_refresh(Some('a'), Mode::Normal, &counts), None);
    assert_eq!(armed_after_refresh(None, Mode::Delete, &counts), None);
}
