use niri_dynamic_workspaces::config::ResolvedConfig;
use niri_dynamic_workspaces::grid::{
    build_dyn_workspace_infos, build_full_keyboard_info, build_static_workspace_infos, focused_output_from, focused_window_from,
    focused_workspace_id_from, occupied_workspace_ids, urgent_workspace_ids,
};
use niri_dynamic_workspaces::ipc::{Window, Workspace};
use niri_dynamic_workspaces::keybind::{KeySym, KeyTable};
use niri_dynamic_workspaces::loading::default_config;

fn keys() -> KeyTable {
    KeyTable {
        entries: vec![("Escape".to_string(), KeySym { keyval: 0xff1b, unicode: None })],
    }
}

fn default_test_config() -> ResolvedConfig {
    let config = default_config(&keys(), None);
    assert_eq!(config.workspace_prefix, "dyn-");
    assert!(!config.hide_empty_static);
    config
}

fn test_workspace(id: u64, name: Option<&str>, is_focused: bool) -> Workspace {
    Workspace {
        id,
        idx: 1,
        name: name.map(String::from),
        output: Some("DP-1".to_string()),
        is_urgent: false,
        is_active: false,
        is_focused,
        active_window_id: None,
    }
}

fn test_window(id: u64, workspace_id: u64, app_id: &str) -> Window {
    Window {
        id,
        title: None,
        app_id: Some(app_id.to_string()),
        workspace_id: Some(workspace_id),
        is_focused: false,
        is_floating: false,
        is_urgent: false,
        column: None,
    }
}

// --- focused extraction helpers ---

#[test]
fn focused_output_from_returns_focused() {
    let workspaces = vec![
        test_workspace(1, Some("ws-1"), false),
        test_workspace(2, Some("ws-2"), true),
    ];
    assert_eq!(focused_output_from(&workspaces), Some("DP-1".to_string()));
}

#[test]
fn focused_output_from_returns_none_when_unfocused() {
    let workspaces = vec![test_workspace(1, Some("ws-1"), false)];
    assert_eq!(focused_output_from(&workspaces), None);
}

#[test]
fn focused_workspace_id_from_returns_focused() {
    let workspaces = vec![
        test_workspace(1, Some("ws-1"), false),
        test_workspace(2, None, true),
    ];
    assert_eq!(focused_workspace_id_from(&workspaces), Some(2));
}

#[test]
fn focused_workspace_id_from_returns_none_when_unfocused() {
    let workspaces = vec![test_workspace(1, Some("ws-1"), false)];
    assert_eq!(focused_workspace_id_from(&workspaces), None);
}

#[test]
fn focused_window_from_is_the_focused_workspaces_active_window() {
    let mut focused = test_workspace(2, None, true);
    focused.active_window_id = Some(7);
    let mut other = test_workspace(1, Some("ws-1"), false);
    other.active_window_id = Some(3);
    assert_eq!(focused_window_from(&vec![other.clone(), focused]), Some(7));
    assert_eq!(focused_window_from(&vec![other]), None);
}

#[test]
fn urgent_and_occupied_workspace_ids_follow_the_windows() {
    let mut urgent = test_window(2, 20, "slack");
    urgent.is_urgent = true;
    let mut floating_nowhere = test_window(3, 0, "x");
    floating_nowhere.workspace_id = None;
    let windows = vec![test_window(1, 10, "firefox"), urgent, floating_nowhere];
    assert_eq!(urgent_workspace_ids(&windows), vec![20]);
    let mut occupied = occupied_workspace_ids(&windows);
    occupied.sort();
    assert_eq!(occupied, vec![10, 20]);
}

// --- build_dyn_workspace_infos ---

#[test]
fn cards_build_dyn_workspace_infos_basic() {
    let workspaces = vec![
        test_workspace(10, Some("dyn-b"), false),
        test_workspace(20, Some("dyn-a"), true),
    ];
    let windows = vec![
        test_window(1, 20, "firefox"),
        test_window(2, 20, "kitty"),
        test_window(3, 10, "slack"),
    ];
    let config = default_test_config();

    let infos = build_dyn_workspace_infos(&workspaces, &windows, &config);

    assert_eq!(infos.len(), 2);
    // Sorted by char_id
    assert_eq!(infos[0].char_id, 'a');
    assert_eq!(infos[1].char_id, 'b');
}

#[test]
fn cards_build_dyn_workspace_infos_titled_workspace() {
    let workspaces = vec![
        test_workspace(10, Some("dyn-a My Project"), true),
        test_workspace(20, Some("dyn-b"), false),
    ];
    let windows = vec![];
    let config = default_test_config();

    let infos = build_dyn_workspace_infos(&workspaces, &windows, &config);

    assert_eq!(infos.len(), 2);
    assert_eq!(infos[0].char_id, 'a');
    assert_eq!(infos[0].name.as_deref(), Some("My Project"));
    assert_eq!(infos[0].ws_name.as_deref(), Some("dyn-a My Project"));
    // 'b' has no title, no configured name
    assert_eq!(infos[1].char_id, 'b');
    assert!(infos[1].name.is_none());
}

#[test]
fn cards_build_dyn_workspace_infos_configured_name_overrides_title() {
    let workspaces = vec![test_workspace(10, Some("dyn-a Some Title"), true)];
    let windows = vec![];
    let mut config = default_test_config();
    config.workspace_names.push(('a', "Configured".to_string()));

    let infos = build_dyn_workspace_infos(&workspaces, &windows, &config);

    assert_eq!(infos.len(), 1);
    // Configured name takes precedence over title from ws_name
    assert_eq!(infos[0].name.as_deref(), Some("Configured"));
}

#[test]
fn cards_build_dyn_workspace_infos_uncreated() {
    let workspaces = vec![test_workspace(10, Some("dyn-a"), true)];
    let windows = vec![];
    let mut config = default_test_config();
    config.workspace_names.push(('b', "Browser".to_string()));
    config.workspace_programs.push(('b', vec!["firefox".to_string()]));

    let infos = build_dyn_workspace_infos(&workspaces, &windows, &config);

    assert_eq!(infos.len(), 2);
    // 'a' is live, 'b' is uncreated
    assert!(!infos[0].is_uncreated);
    assert_eq!(infos[0].char_id, 'a');
    assert!(infos[1].is_uncreated);
    assert_eq!(infos[1].char_id, 'b');
    assert_eq!(infos[1].name.as_deref(), Some("Browser"));
}

#[test]
fn cards_build_dyn_workspace_infos_ignores_non_prefix() {
    let workspaces = vec![
        test_workspace(10, Some("dyn-a"), true),
        test_workspace(20, Some("other-b"), false),
        test_workspace(30, None, false),
    ];
    let windows = vec![];
    let config = default_test_config();

    let infos = build_dyn_workspace_infos(&workspaces, &windows, &config);

    assert_eq!(infos.len(), 1);
    assert_eq!(infos[0].char_id, 'a');
}

#[test]
fn cards_build_dyn_workspace_infos_urgency() {
    let workspaces = vec![
        test_workspace(10, Some("dyn-a"), true),
        test_workspace(20, Some("dyn-b"), false),
    ];
    let mut urgent_window = test_window(1, 20, "slack");
    urgent_window.is_urgent = true;
    let windows = vec![test_window(2, 10, "firefox"), urgent_window];
    let config = default_test_config();

    let infos = build_dyn_workspace_infos(&workspaces, &windows, &config);

    assert_eq!(infos.len(), 2);
    assert!(!infos[0].is_urgent); // 'a' — no urgent windows
    assert!(infos[1].is_urgent); // 'b' — has an urgent window
}

#[test]
fn cards_build_dyn_workspace_infos_focused_and_active() {
    let mut ws_active = test_workspace(20, Some("dyn-b"), false);
    ws_active.is_active = true;
    let workspaces = vec![
        test_workspace(10, Some("dyn-a"), true),  // focused
        ws_active,                                // active but not focused
        test_workspace(30, Some("dyn-c"), false), // neither
    ];
    let windows = vec![];
    let config = default_test_config();

    let infos = build_dyn_workspace_infos(&workspaces, &windows, &config);

    assert_eq!(infos.len(), 3);
    // 'a' — focused
    assert!(infos[0].is_focused);
    assert!(!infos[0].is_active);
    // 'b' — active (not focused)
    assert!(!infos[1].is_focused);
    assert!(infos[1].is_active);
    // 'c' — neither
    assert!(!infos[2].is_focused);
    assert!(!infos[2].is_active);
}

#[test]
fn build_dyn_workspace_infos_static_mapping_live() {
    let mut ws = test_workspace(5, Some("01"), true);
    ws.is_active = true;
    let workspaces = vec![ws];
    let mut config = default_test_config();
    config.static_workspaces.push(('q', "01".to_string()));

    let infos = build_dyn_workspace_infos(&workspaces, &vec![], &config);

    assert_eq!(infos.len(), 1);
    let info = &infos[0];
    assert_eq!(info.char_id, 'q');
    assert!(info.is_static);
    assert!(!info.is_uncreated);
    assert!(info.is_focused);
    assert!(!info.is_active); // focused trumps active
    assert_eq!(info.ws_name.as_deref(), Some("01"));
    // No configured display name → no name label
    assert_eq!(info.name, None);
    assert_eq!(info.output.as_deref(), Some("DP-1"));
    // No windows → empty
    assert!(info.is_empty);
}

#[test]
fn build_dyn_workspace_infos_static_mapping_occupied_not_empty() {
    let workspaces = vec![test_workspace(5, Some("01"), false)];
    let windows = vec![test_window(1, 5, "firefox")];
    let mut config = default_test_config();
    config.static_workspaces.push(('q', "01".to_string()));

    let infos = build_dyn_workspace_infos(&workspaces, &windows, &config);

    assert!(!infos[0].is_empty);
}

#[test]
fn build_dyn_workspace_infos_static_mapping_workspace_urgency_flag() {
    let mut ws = test_workspace(5, Some("01"), false);
    ws.is_urgent = true;
    let mut config = default_test_config();
    config.static_workspaces.push(('q', "01".to_string()));

    // Urgency from the workspace flag alone, without any urgent window
    let infos = build_dyn_workspace_infos(&vec![ws], &vec![], &config);

    assert!(infos[0].is_urgent);
}

#[test]
fn build_dyn_workspace_infos_workspace_urgency_flag() {
    let mut ws = test_workspace(10, Some("dyn-a"), false);
    ws.is_urgent = true;
    let config = default_test_config();

    let infos = build_dyn_workspace_infos(&vec![ws], &vec![], &config);

    assert!(infos[0].is_urgent);
}

#[test]
fn build_dyn_workspace_infos_static_mapping_missing_target() {
    let mut config = default_test_config();
    config.static_workspaces.push(('q', "01".to_string()));
    config.workspace_names.push(('q', "Main".to_string()));

    let infos = build_dyn_workspace_infos(&vec![], &vec![], &config);

    assert_eq!(infos.len(), 1);
    assert!(infos[0].is_static);
    assert!(infos[0].is_uncreated);
    // Configured display name overrides the target workspace name
    assert_eq!(infos[0].name.as_deref(), Some("Main"));
}

#[test]
fn build_dyn_workspace_infos_static_mapping_wins_over_dyn() {
    let workspaces = vec![
        test_workspace(1, Some("dyn-q"), false),
        test_workspace(2, Some("01"), true),
    ];
    let mut config = default_test_config();
    config.static_workspaces.push(('q', "01".to_string()));

    let infos = build_dyn_workspace_infos(&workspaces, &vec![], &config);

    assert_eq!(infos.len(), 1);
    assert!(infos[0].is_static);
    assert_eq!(infos[0].ws_name.as_deref(), Some("01"));
}

#[test]
fn build_dyn_workspace_infos_static_mapping_urgency() {
    let workspaces = vec![test_workspace(5, Some("01"), false)];
    let mut win = test_window(1, 5, "slack");
    win.is_urgent = true;
    let mut config = default_test_config();
    config.static_workspaces.push(('q', "01".to_string()));

    let infos = build_dyn_workspace_infos(&workspaces, &vec![win], &config);

    assert!(infos[0].is_urgent);
}

#[test]
fn build_dyn_workspace_infos_orders_digits_before_letters() {
    let workspaces = vec![
        test_workspace(1, Some("dyn-z"), false),
        test_workspace(2, Some("dyn-3"), false),
        test_workspace(3, Some("dyn-a"), false),
        test_workspace(4, Some("dyn-A"), false),
        test_workspace(5, Some("dyn-"), false),
    ];
    let infos = build_dyn_workspace_infos(&workspaces, &vec![], &default_test_config());
    let keys: Vec<char> = infos.iter().map(|i| i.char_id).collect();
    assert_eq!(keys, vec!['3', 'a', 'z']);
}

#[test]
fn build_dyn_workspace_infos_keeps_every_workspace_on_a_key_in_order() {
    let workspaces = vec![
        test_workspace(1, Some("dyn-a one"), false),
        test_workspace(2, Some("dyn-a"), false),
    ];
    let infos = build_dyn_workspace_infos(&workspaces, &vec![], &default_test_config());
    assert_eq!(infos.len(), 2);
    assert_eq!(infos[0].name.as_deref(), Some("one"));
    assert_eq!(infos[1].ws_name.as_deref(), Some("dyn-a"));
    assert_eq!(infos[1].name, None);
}

#[test]
fn lookalike_names_belong_to_the_static_row() {
    let workspaces = vec![
        test_workspace(1, Some("dyn-alpha"), true),
        test_workspace(2, Some("dyn-b"), false),
    ];
    let config = default_test_config();
    let infos = build_dyn_workspace_infos(&workspaces, &vec![], &config);
    assert_eq!(infos.len(), 1);
    assert_eq!(infos[0].char_id, 'b');
    let row = build_static_workspace_infos(&workspaces, &vec![], &config);
    assert_eq!(row.len(), 1);
    assert_eq!(row[0].name, "dyn-alpha");
}

#[test]
fn pins_match_names_ignoring_case() {
    let workspaces = vec![test_workspace(5, Some("main"), true), test_workspace(6, Some("mail"), false)];
    let mut config = default_test_config();
    config.static_workspaces.push(('q', "Main".to_string()));
    let infos = build_dyn_workspace_infos(&workspaces, &vec![], &config);
    assert_eq!(infos.len(), 1);
    assert!(!infos[0].is_uncreated);
    assert!(infos[0].is_focused);
    let row = build_static_workspace_infos(&workspaces, &vec![], &config);
    assert_eq!(row.len(), 1);
    assert_eq!(row[0].name, "mail");
}

// --- build_static_workspace_infos ---

#[test]
fn static_infos_excludes_pinned_workspaces() {
    let workspaces = vec![
        test_workspace(1, Some("01"), true),
        test_workspace(2, Some("browser"), false),
    ];
    let mut config = default_test_config();
    config.static_workspaces.push(('q', "01".to_string()));

    let infos = build_static_workspace_infos(&workspaces, &vec![], &config);
    assert_eq!(infos.len(), 1);
    assert_eq!(infos[0].name, "browser");
}

#[test]
fn static_infos_filters_out_dynamic() {
    let workspaces = vec![
        test_workspace(1, Some("dyn-a"), true),
        test_workspace(2, Some("browser"), false),
        test_workspace(3, Some("dyn-b"), false),
    ];
    let config = default_test_config();
    let infos = build_static_workspace_infos(&workspaces, &vec![], &config);
    assert_eq!(infos.len(), 1);
    assert_eq!(infos[0].name, "browser");
}

#[test]
fn static_infos_only_focused_output() {
    let mut ws1 = test_workspace(1, Some("browser"), true);
    ws1.output = Some("DP-1".to_string());
    let mut ws2 = test_workspace(2, Some("mail"), false);
    ws2.output = Some("HDMI-1".to_string());
    let workspaces = vec![ws1, ws2];
    let config = default_test_config();

    let infos = build_static_workspace_infos(&workspaces, &vec![], &config);
    assert_eq!(infos.len(), 1);
    assert_eq!(infos[0].name, "browser");
}

#[test]
fn static_infos_unnamed_falls_back_to_idx() {
    let mut ws = test_workspace(1, None, true);
    ws.idx = 3;
    let workspaces = vec![ws];
    let config = default_test_config();

    let infos = build_static_workspace_infos(&workspaces, &vec![], &config);
    assert_eq!(infos.len(), 1);
    assert_eq!(infos[0].name, "3");
}

#[test]
fn static_infos_urgency_from_workspace_flag() {
    let mut ws = test_workspace(1, Some("browser"), true);
    ws.is_urgent = true;
    let config = default_test_config();

    let infos = build_static_workspace_infos(&vec![ws], &vec![], &config);
    assert!(infos[0].is_urgent);
}

#[test]
fn static_infos_urgency_from_windows() {
    let workspaces = vec![test_workspace(1, Some("browser"), true)];
    let mut win = test_window(100, 1, "firefox");
    win.is_urgent = true;
    let config = default_test_config();

    let infos = build_static_workspace_infos(&workspaces, &vec![win], &config);
    assert_eq!(infos.len(), 1);
    assert!(infos[0].is_urgent);
}

#[test]
fn static_infos_empty_when_all_dynamic() {
    let workspaces = vec![
        test_workspace(1, Some("dyn-a"), true),
        test_workspace(2, Some("dyn-b"), false),
    ];
    let config = default_test_config();
    let infos = build_static_workspace_infos(&workspaces, &vec![], &config);
    assert!(infos.is_empty());
}

#[test]
fn static_infos_focused_and_active() {
    let mut ws1 = test_workspace(1, Some("browser"), true);
    ws1.is_active = true;
    let mut ws2 = test_workspace(2, Some("mail"), false);
    ws2.is_active = true;
    let workspaces = vec![ws1, ws2];
    let config = default_test_config();

    let infos = build_static_workspace_infos(&workspaces, &vec![], &config);
    assert_eq!(infos.len(), 2);
    assert!(infos[0].is_focused);
    assert!(!infos[0].is_active); // focused trumps active
    assert!(!infos[1].is_focused);
    assert!(infos[1].is_active);
}

#[test]
fn static_infos_empty_without_windows() {
    let workspaces = vec![
        test_workspace(1, Some("browser"), true),
        test_workspace(2, Some("mail"), false),
    ];
    let windows = vec![test_window(100, 1, "firefox")];
    let config = default_test_config();

    let infos = build_static_workspace_infos(&workspaces, &windows, &config);
    assert!(!infos[0].is_empty); // has a window
    assert!(infos[1].is_empty); // no windows
}

#[test]
fn static_infos_hide_empty_filters_windowless() {
    let workspaces = vec![
        test_workspace(1, Some("browser"), true),
        test_workspace(2, Some("mail"), false),
    ];
    let windows = vec![test_window(100, 1, "firefox")];
    let mut config = default_test_config();
    config.hide_empty_static = true;

    let infos = build_static_workspace_infos(&workspaces, &windows, &config);
    assert_eq!(infos.len(), 1);
    assert_eq!(infos[0].name, "browser");
}

#[test]
fn static_infos_hide_empty_keeps_focused() {
    let workspaces = vec![
        test_workspace(1, Some("browser"), true),
        test_workspace(2, Some("mail"), false),
    ];
    let mut config = default_test_config();
    config.hide_empty_static = true;

    let infos = build_static_workspace_infos(&workspaces, &vec![], &config);
    assert_eq!(infos.len(), 1);
    assert_eq!(infos[0].name, "browser");
    assert!(infos[0].is_focused);
}

#[test]
fn static_infos_hide_empty_keeps_urgent() {
    let mut urgent_ws = test_workspace(2, Some("mail"), false);
    urgent_ws.is_urgent = true;
    let workspaces = vec![test_workspace(1, Some("browser"), true), urgent_ws];
    let mut config = default_test_config();
    config.hide_empty_static = true;

    let infos = build_static_workspace_infos(&workspaces, &vec![], &config);
    assert_eq!(infos.len(), 2);
    assert!(infos[1].is_urgent);
}

#[test]
fn static_infos_hide_empty_can_empty_the_row() {
    // Focused elsewhere (dyn workspace) → every empty static hides.
    let workspaces = vec![
        test_workspace(1, Some("dyn-a"), true),
        test_workspace(2, Some("mail"), false),
        test_workspace(3, Some("scratch"), false),
    ];
    let mut config = default_test_config();
    config.hide_empty_static = true;

    let infos = build_static_workspace_infos(&workspaces, &vec![], &config);
    assert!(infos.is_empty());
}

#[test]
fn ui_build_dyn_workspace_infos_basic() {
    let workspaces = vec![
        test_workspace(10, Some("dyn-b"), false),
        test_workspace(20, Some("dyn-a"), true),
    ];
    let windows = vec![
        test_window(1, 20, "firefox"),
        test_window(2, 20, "kitty"),
        test_window(3, 10, "slack"),
    ];
    let config = default_test_config();

    let infos = build_dyn_workspace_infos(&workspaces, &windows, &config);

    assert_eq!(infos.len(), 2);
    // Sorted by char_id
    assert_eq!(infos[0].char_id, 'a');
    assert_eq!(infos[1].char_id, 'b');
}

#[test]
fn ui_build_dyn_workspace_infos_titled_workspace() {
    let workspaces = vec![
        test_workspace(10, Some("dyn-a My Project"), true),
        test_workspace(20, Some("dyn-b"), false),
    ];
    let windows = vec![];
    let config = default_test_config();

    let infos = build_dyn_workspace_infos(&workspaces, &windows, &config);

    assert_eq!(infos.len(), 2);
    assert_eq!(infos[0].char_id, 'a');
    assert_eq!(infos[0].name.as_deref(), Some("My Project"));
    assert_eq!(infos[0].ws_name.as_deref(), Some("dyn-a My Project"));
    // 'b' has no title, no configured name
    assert_eq!(infos[1].char_id, 'b');
    assert!(infos[1].name.is_none());
}

#[test]
fn ui_build_dyn_workspace_infos_configured_name_overrides_title() {
    let workspaces = vec![test_workspace(10, Some("dyn-a Some Title"), true)];
    let windows = vec![];
    let mut config = default_test_config();
    config.workspace_names.push(('a', "Configured".to_string()));

    let infos = build_dyn_workspace_infos(&workspaces, &windows, &config);

    assert_eq!(infos.len(), 1);
    // Configured name takes precedence over title from ws_name
    assert_eq!(infos[0].name.as_deref(), Some("Configured"));
}

#[test]
fn ui_build_dyn_workspace_infos_uncreated() {
    let workspaces = vec![test_workspace(10, Some("dyn-a"), true)];
    let windows = vec![];
    let mut config = default_test_config();
    config.workspace_names.push(('b', "Browser".to_string()));
    config.workspace_programs.push(('b', vec!["firefox".to_string()]));

    let infos = build_dyn_workspace_infos(&workspaces, &windows, &config);

    assert_eq!(infos.len(), 2);
    // 'a' is live, 'b' is uncreated
    assert!(!infos[0].is_uncreated);
    assert_eq!(infos[0].char_id, 'a');
    assert!(infos[1].is_uncreated);
    assert_eq!(infos[1].char_id, 'b');
    assert_eq!(infos[1].name.as_deref(), Some("Browser"));
}

#[test]
fn ui_build_dyn_workspace_infos_ignores_non_prefix() {
    let workspaces = vec![
        test_workspace(10, Some("dyn-a"), true),
        test_workspace(20, Some("other-b"), false),
        test_workspace(30, None, false),
    ];
    let windows = vec![];
    let config = default_test_config();

    let infos = build_dyn_workspace_infos(&workspaces, &windows, &config);

    assert_eq!(infos.len(), 1);
    assert_eq!(infos[0].char_id, 'a');
}

#[test]
fn ui_build_dyn_workspace_infos_urgency() {
    let workspaces = vec![
        test_workspace(10, Some("dyn-a"), true),
        test_workspace(20, Some("dyn-b"), false),
    ];
    let mut urgent_window = test_window(1, 20, "slack");
    urgent_window.is_urgent = true;
    let windows = vec![test_window(2, 10, "firefox"), urgent_window];
    let config = default_test_config();

    let infos = build_dyn_workspace_infos(&workspaces, &windows, &config);

    assert_eq!(infos.len(), 2);
    assert!(!infos[0].is_urgent); // 'a' — no urgent windows
    assert!(infos[1].is_urgent); // 'b' — has an urgent window
}

#[test]
fn ui_build_dyn_workspace_infos_focused_and_active() {
    let mut ws_active = test_workspace(20, Some("dyn-b"), false);
    ws_active.is_active = true;
    let workspaces = vec![
        test_workspace(10, Some("dyn-a"), true),  // focused
        ws_active,                                // active but not focused
        test_workspace(30, Some("dyn-c"), false), // neither
    ];
    let windows = vec![];
    let config = default_test_config();

    let infos = build_dyn_workspace_infos(&workspaces, &windows, &config);

    assert_eq!(infos.len(), 3);
    // 'a' — focused
    assert!(infos[0].is_focused);
    assert!(!infos[0].is_active);
    // 'b' — active (not focused)
    assert!(!infos[1].is_focused);
    assert!(infos[1].is_active);
    // 'c' — neither
    assert!(!infos[2].is_focused);
    assert!(!infos[2].is_active);
}

#[test]
fn types_build_dyn_workspace_infos_ignores_non_prefix() {
    let workspaces = vec![
        test_workspace(10, Some("dyn-a"), true),
        test_workspace(20, Some("other-b"), false),
        test_workspace(30, None, false),
    ];
    let windows = vec![];
    let config = default_test_config();

    let infos = build_dyn_workspace_infos(&workspaces, &windows, &config);

    assert_eq!(infos.len(), 1);
    assert_eq!(infos[0].char_id, 'a');
}

#[test]
fn types_build_dyn_workspace_infos_urgency() {
    let workspaces = vec![
        test_workspace(10, Some("dyn-a"), true),
        test_workspace(20, Some("dyn-b"), false),
    ];
    let mut urgent_window = test_window(1, 20, "slack");
    urgent_window.is_urgent = true;
    let windows = vec![test_window(2, 10, "firefox"), urgent_window];
    let config = default_test_config();

    let infos = build_dyn_workspace_infos(&workspaces, &windows, &config);

    assert_eq!(infos.len(), 2);
    assert!(!infos[0].is_urgent); // 'a' — no urgent windows
    assert!(infos[1].is_urgent); // 'b' — has an urgent window
}

#[test]
fn types_build_dyn_workspace_infos_focused_and_active() {
    let mut ws_active = test_workspace(20, Some("dyn-b"), false);
    ws_active.is_active = true;
    let workspaces = vec![
        test_workspace(10, Some("dyn-a"), true),  // focused
        ws_active,                                // active but not focused
        test_workspace(30, Some("dyn-c"), false), // neither
    ];
    let windows = vec![];
    let config = default_test_config();

    let infos = build_dyn_workspace_infos(&workspaces, &windows, &config);

    assert_eq!(infos.len(), 3);
    // 'a' — focused
    assert!(infos[0].is_focused);
    assert!(!infos[0].is_active);
    // 'b' — active (not focused)
    assert!(!infos[1].is_focused);
    assert!(infos[1].is_active);
    // 'c' — neither
    assert!(!infos[2].is_focused);
    assert!(!infos[2].is_active);
}

#[test]
fn full_keyboard_info_covers_every_layout_key() {
    let workspaces = vec![
        test_workspace(1, Some("dyn-a one"), true),
        test_workspace(2, Some("dyn-a two"), false),
    ];
    let mut config = default_test_config();
    config.workspace_names.push(('b', "Browser".to_string()));
    let map = build_full_keyboard_info(&workspaces, &vec![], &config);
    // 36 layout keys, each once.
    assert_eq!(map.len(), 36);
    let get = |ch: char| &map.iter().find(|(k, _)| *k == ch).unwrap().1;
    // The last workspace on a key wins.
    assert_eq!(get('a').ws_name.as_deref(), Some("dyn-a two"));
    assert!(!get('a').is_uncreated);
    assert_eq!(get('b').name.as_deref(), Some("Browser"));
    assert!(get('b').is_uncreated);
    assert!(get('z').is_uncreated);
    assert_eq!(get('z').name, None);
}
