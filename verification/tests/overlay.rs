use std::collections::VecDeque;

use niri_dynamic_workspaces::actions::{
    build_commands, delete_workspace, move_window, run_cleanup_hooks, switch_workspace, HookInfo,
};
use niri_dynamic_workspaces::config::{Template, TemplateVariable, VariableType};
use niri_dynamic_workspaces::ipc::{Action, NiriClient, Request, Response, Session, Workspace, WorkspaceRef};
use niri_dynamic_workspaces::keybind::{KeySym, KeyTable};
use niri_dynamic_workspaces::loading::default_config;
use niri_dynamic_workspaces::overlay::{
    card_disabled, hover_preview_enabled, key_card_classes, status_text,
    build_template_options, display_key_char, format_workspace_display, DynWorkspaceInfo, Mode,
};

fn keys() -> KeyTable {
    KeyTable {
        entries: vec![("Escape".to_string(), KeySym { keyval: 0xff1b, unicode: None })],
    }
}

#[test]
fn mode_widget_name_roundtrip() {
    for mode in Mode::all() {
        assert_eq!(Mode::from_widget_name(mode.widget_name()), Some(mode));
    }
}

#[test]
fn mode_from_unknown_widget_name() {
    assert_eq!(Mode::from_widget_name("mode-unknown"), None);
    assert_eq!(Mode::from_widget_name(""), None);
}

#[test]
fn mode_display_name() {
    assert_eq!(Mode::Normal.display_name(), "Switch");
    assert_eq!(Mode::Delete.display_name(), "Delete");
    assert_eq!(Mode::MoveWindow.display_name(), "Move Window");
}

#[test]
fn mode_next_cycles() {
    assert_eq!(Mode::Normal.next(), Mode::Delete);
    assert_eq!(Mode::Delete.next(), Mode::MoveWindow);
    assert_eq!(Mode::MoveWindow.next(), Mode::Normal);
}

#[test]
fn mode_prev_cycles() {
    assert_eq!(Mode::Normal.prev(), Mode::MoveWindow);
    assert_eq!(Mode::Delete.prev(), Mode::Normal);
    assert_eq!(Mode::MoveWindow.prev(), Mode::Delete);
    for mode in Mode::all() {
        assert_eq!(mode.next().prev(), mode);
        assert_eq!(mode.next().next().next(), mode);
    }
}

#[test]
fn mode_css_class() {
    assert_eq!(Mode::Normal.css_class(), "switch");
    assert_eq!(Mode::Delete.css_class(), "delete");
    assert_eq!(Mode::MoveWindow.css_class(), "move-window");
    assert_eq!(Mode::Normal.container_css_class(), None);
    assert_eq!(Mode::Delete.container_css_class(), Some("delete-mode"));
    assert_eq!(Mode::MoveWindow.container_css_class(), Some("move-window-mode"));
}

#[test]
fn display_key_char_letters() {
    assert_eq!(display_key_char('a'), "A");
    assert_eq!(display_key_char('z'), "Z");
}

#[test]
fn display_key_char_digits() {
    assert_eq!(display_key_char('1'), "1");
    assert_eq!(display_key_char('0'), "0");
    assert_eq!(display_key_char('é'), "é");
}

#[test]
fn format_workspace_display_with_and_without_name() {
    let mut config = default_config(&keys(), None);
    config.workspace_names = vec![('b', "Browser".to_string())];
    assert_eq!(format_workspace_display('b', &config), "B (Browser)");
    assert_eq!(format_workspace_display('c', &config), "C");
}

#[test]
fn build_template_options_carry_variables_and_title() {
    let mut config = default_config(&keys(), None);
    config.default_programs = vec!["kitty".to_string()];
    config.templates = vec![Template {
        name: "dev".to_string(),
        programs: vec!["code .".to_string()],
        key: Some('d'),
        variables: vec![TemplateVariable {
            name: "path".to_string(),
            label: "Path".to_string(),
            var_type: VariableType::Text,
        }],
        on_create: Vec::new(),
        title: Some("{{path}}".to_string()),
    }];
    let options = build_template_options(&config);
    assert_eq!(options.len(), 2);
    assert_eq!(options[0].key, Some('1'));
    assert_eq!(options[0].name, "Empty");
    assert_eq!(options[0].programs, vec!["kitty"]);
    assert!(options[0].variables.is_empty());
    assert_eq!(options[1].key, Some('d'));
    assert_eq!(options[1].name, "dev");
    assert_eq!(options[1].programs, vec!["code ."]);
    assert_eq!(options[1].variables[0].name, "path");
    assert_eq!(options[1].title.as_deref(), Some("{{path}}"));
}

#[test]
fn uncreated_key_has_nothing_behind_it() {
    let info = DynWorkspaceInfo::uncreated('x');
    assert_eq!(info.char_id, 'x');
    assert!(info.is_uncreated);
    assert!(!info.is_focused && !info.is_active && !info.is_urgent);
    assert!(info.name.is_none() && info.ws_name.is_none());
}

struct MockClient {
    responses: VecDeque<Response>,
    sent: Vec<Request>,
}

impl NiriClient for MockClient {
    fn send(&mut self, request: Request) -> Result<Response, String> {
        self.sent.push(request);
        self.responses.pop_front().ok_or_else(|| "no scripted response left".to_string())
    }
}

fn session(responses: Vec<Response>) -> Session<MockClient> {
    Session::new(MockClient { responses: responses.into(), sent: Vec::new() })
}

fn workspaces_with_trailing_empty() -> Vec<Workspace> {
    let focused = Workspace {
        id: 1,
        idx: 1,
        name: Some("browser".to_string()),
        output: Some("DP-1".to_string()),
        is_urgent: false,
        is_active: true,
        is_focused: true,
        active_window_id: Some(100),
    };
    let mut empty = focused.clone();
    empty.id = 2;
    empty.idx = 2;
    empty.name = None;
    empty.is_active = false;
    empty.is_focused = false;
    empty.active_window_id = None;
    vec![focused, empty]
}

#[test]
fn build_commands_fails_on_a_malformed_program() {
    let vals = vec![("p".to_string(), "a b".to_string())];
    assert_eq!(
        build_commands(&vec!["code {{p}}".to_string()], &vals).unwrap(),
        vec![vec!["code".to_string(), "a b".to_string()]]
    );
    assert_eq!(
        build_commands(&vec!["ok".to_string(), "bad 'quote".to_string()], &vals).unwrap_err(),
        "failed to parse command 'bad 'quote': missing closing quote"
    );
}

#[test]
fn switch_action_runs_create_hooks_after_creating() {
    let mut config = default_config(&keys(), None);
    config.hooks.on_create = vec!["echo made".to_string()];
    let mut s = session(vec![
        Response::Workspaces(workspaces_with_trailing_empty()),
        Response::Handled,
        Response::Handled,
        Response::Handled,
        Response::Handled,
    ]);
    let info = HookInfo {
        template_name: None,
        variables: vec![("x".to_string(), "1".to_string())],
    };
    let reorder = switch_workspace(&mut s, &config, 'a', "dyn-a", &vec!["foot {{x}}".to_string()], &info).unwrap();
    assert!(reorder.is_none());
    let sent = &s.client.sent;
    assert_eq!(sent.len(), 5);
    assert_eq!(
        sent[3],
        Request::Action(Action::Spawn { command: vec!["foot".to_string(), "1".to_string()] })
    );
    let Request::Action(Action::Spawn { command }) = &sent[4] else {
        panic!("expected the hook spawn");
    };
    assert_eq!(command[0], "env");
    assert!(command.contains(&"NDW_VAR_X=1".to_string()));
    assert_eq!(command.last().map(String::as_str), Some("echo made"));
}

#[test]
fn switch_action_malformed_program_sends_nothing() {
    let config = default_config(&keys(), None);
    let mut s = session(vec![]);
    let err = switch_workspace(&mut s, &config, 'a', "dyn-a", &vec!["x 'y".to_string()], &HookInfo::empty())
        .unwrap_err();
    assert!(err.starts_with("failed to parse command"), "{err}");
    assert!(s.client.sent.is_empty());
}

#[test]
fn delete_action_runs_delete_hooks() {
    let mut config = default_config(&keys(), None);
    config.hooks.on_delete = vec!["echo gone".to_string()];
    let mut dyn_a = workspaces_with_trailing_empty()[1].clone();
    dyn_a.name = Some("dyn-a".to_string());
    let mut s = session(vec![
        Response::Workspaces(vec![dyn_a]),
        Response::Windows(vec![]),
        Response::Handled,
        Response::Handled,
    ]);
    delete_workspace(&mut s, &config, 'a', "dyn-a").unwrap();
    assert_eq!(s.client.sent.len(), 4);
    assert_eq!(
        s.client.sent[2],
        Request::Action(Action::UnsetWorkspaceName { reference: Some(WorkspaceRef::Name("dyn-a".to_string())) })
    );
}

#[test]
fn move_action_runs_create_hooks_only_when_created() {
    let mut config = default_config(&keys(), None);
    config.hooks.on_create = vec!["echo made".to_string()];
    let mut s = session(vec![
        Response::Workspaces(workspaces_with_trailing_empty()),
        Response::Handled,
        Response::Handled,
        Response::Handled,
    ]);
    move_window(&mut s, &config, 'a', "dyn-a", None).unwrap();
    assert_eq!(s.client.sent.len(), 4);

    let mut existing = workspaces_with_trailing_empty();
    existing[1].name = Some("dyn-a".to_string());
    let mut s = session(vec![Response::Workspaces(existing), Response::Handled]);
    move_window(&mut s, &config, 'a', "dyn-a", None).unwrap();
    assert_eq!(s.client.sent.len(), 2);
}

#[test]
fn cleanup_runs_delete_hooks_for_each_removed_dynamic_workspace() {
    let mut s = session(vec![Response::Handled, Response::Handled]);
    let hooks = vec!["echo gone".to_string()];
    let removed = vec!["dyn-a".to_string(), "mail".to_string(), "dyn-b notes".to_string()];
    run_cleanup_hooks(&mut s, "dyn-", &hooks, &removed);
    assert_eq!(s.client.sent.len(), 2);
    for req in &s.client.sent {
        match req {
            Request::Action(Action::Spawn { command }) => {
                assert_eq!(command[0], "env");
                assert!(command.iter().any(|w| w == "echo gone"));
            }
            other => panic!("unexpected request {other:?}"),
        }
    }
    match &s.client.sent[1] {
        Request::Action(Action::Spawn { command }) => {
            assert!(command.iter().any(|w| w == "NDW_WORKSPACE_KEY=b"));
        }
        _ => unreachable!(),
    }
}

#[test]
fn cleanup_without_delete_hooks_launches_nothing() {
    let mut s = session(vec![]);
    run_cleanup_hooks(&mut s, "dyn-", &Vec::new(), &vec!["dyn-a".to_string()]);
    assert!(s.client.sent.is_empty());
}

fn card(ch: char) -> DynWorkspaceInfo {
    let mut info = DynWorkspaceInfo::uncreated(ch);
    info.is_uncreated = false;
    info
}

#[test]
fn key_card_classes_follow_the_workspace_state() {
    let mut info = card('a');
    info.is_static = true;
    info.is_focused = true;
    info.is_urgent = true;
    assert_eq!(
        key_card_classes(&info, Mode::Normal),
        vec!["keyboard-key", "static-workspace", "active", "urgent"]
    );
    assert_eq!(
        key_card_classes(&info, Mode::Delete),
        vec!["keyboard-key", "static-workspace", "active", "urgent", "disabled"]
    );
    let plain = card('b');
    assert_eq!(key_card_classes(&plain, Mode::MoveWindow), vec!["keyboard-key"]);
    assert_eq!(
        key_card_classes(&DynWorkspaceInfo::uncreated('c'), Mode::Normal),
        vec!["keyboard-key", "disabled"]
    );
}

#[test]
fn card_disabled_rules_per_mode() {
    let mut focused = card('a');
    focused.is_focused = true;
    assert!(card_disabled(&focused, Mode::MoveWindow));
    assert!(!card_disabled(&focused, Mode::Normal));
    let mut pinned_empty = card('b');
    pinned_empty.is_static = true;
    pinned_empty.is_empty = true;
    assert!(card_disabled(&pinned_empty, Mode::Normal));
    assert!(card_disabled(&pinned_empty, Mode::Delete));
    assert!(!card_disabled(&pinned_empty, Mode::MoveWindow));
}

#[test]
fn hover_preview_only_on_the_focused_output_in_normal_mode() {
    assert!(hover_preview_enabled(false, Mode::Normal, true, Some("DP-1"), Some("DP-1")));
    assert!(!hover_preview_enabled(false, Mode::Normal, true, Some("DP-1"), Some("HDMI-1")));
    assert!(!hover_preview_enabled(false, Mode::Normal, true, None, Some("DP-1")));
    assert!(!hover_preview_enabled(true, Mode::Normal, true, Some("DP-1"), Some("DP-1")));
    assert!(!hover_preview_enabled(false, Mode::Delete, true, Some("DP-1"), Some("DP-1")));
    assert!(!hover_preview_enabled(false, Mode::Normal, false, Some("DP-1"), Some("DP-1")));
}

#[test]
fn status_text_cases() {
    assert_eq!(status_text(true, true, false, 3).as_deref(), Some("focused"));
    assert_eq!(status_text(false, true, false, 3).as_deref(), Some("active"));
    assert_eq!(status_text(false, false, false, 0).as_deref(), Some("empty"));
    assert_eq!(status_text(false, false, false, 1).as_deref(), Some("1 win"));
    assert_eq!(status_text(false, false, false, 12).as_deref(), Some("12 win"));
    assert_eq!(status_text(false, false, true, 0), None);
}
