use std::collections::VecDeque;

use niri_dynamic_workspaces::commands::{
    cleanup_candidates, cleanup_confirmed, delete_workspace, focus_or_create,
    move_window_to_workspace, run_hooks, switch_workspace, workspace_id_by_name, ColumnOrder,
    Progress, ReorderRequest, Settler, DELETE_POLLS,
};
use niri_dynamic_workspaces::ipc::{
    Action, NiriClient, Request, Response, Session, Window, Workspace, WorkspaceRef,
};
use niri_dynamic_workspaces::niri::{
    app_id_matches, basename, classify_event, find_workspace_by_char, focused_window_id,
    hook_spawn_command, match_windows, new_workspace_windows, triggers_cleanup, word_matches,
    Debouncer, EventKind, OverlayEvent,
};

const HOOK_RUNNER: &str = r#"for hook in "$@"; do sh -c "$hook"; done"#;

/// Scripted client that records every request it receives.
struct MockClient {
    responses: VecDeque<Response>,
    sent: Vec<Request>,
}

impl MockClient {
    fn new(responses: Vec<Response>) -> Self {
        Self {
            responses: responses.into(),
            sent: Vec::new(),
        }
    }
}

impl NiriClient for MockClient {
    fn send(&mut self, request: Request) -> Result<Response, String> {
        self.sent.push(request);
        self.responses
            .pop_front()
            .ok_or_else(|| "no scripted response left".to_string())
    }
}

fn session(responses: Vec<Response>) -> Session<MockClient> {
    Session::new(MockClient::new(responses))
}

fn test_workspace(id: u64, name: Option<&str>, is_focused: bool) -> Workspace {
    Workspace {
        id,
        idx: 1,
        name: name.map(String::from),
        output: Some("DP-1".to_string()),
        is_urgent: false,
        is_active: false,
        is_focused,
        active_window_id: None,
    }
}

fn test_window(id: u64, workspace_id: u64, app_id: &str) -> Window {
    Window {
        id,
        title: None,
        app_id: Some(app_id.to_string()),
        workspace_id: Some(workspace_id),
        is_focused: false,
        is_floating: false,
        is_urgent: false,
        column: None,
    }
}

fn test_tiled_window(id: u64, workspace_id: u64, app_id: &str, column: usize) -> Window {
    let mut w = test_window(id, workspace_id, app_id);
    w.column = Some(column);
    w
}

/// Focused workspace (id 1, idx 1) plus the trailing empty unnamed
/// workspace (id 2, idx 2) that niri keeps on every output.
fn workspaces_with_trailing_empty() -> Vec<Workspace> {
    let mut focused = test_workspace(1, Some("browser"), true);
    focused.active_window_id = Some(100);
    let mut empty = test_workspace(2, None, false);
    empty.idx = 2;
    vec![focused, empty]
}

fn commands(argvs: &[&[&str]]) -> Vec<Vec<String>> {
    argvs
        .iter()
        .map(|argv| argv.iter().map(|word| (*word).to_string()).collect())
        .collect()
}

fn strings(words: &[&str]) -> Vec<String> {
    words.iter().map(|word| (*word).to_string()).collect()
}

fn env_pairs(pairs: &[(&str, &str)]) -> Vec<(String, String)> {
    pairs
        .iter()
        .map(|(name, value)| ((*name).to_string(), (*value).to_string()))
        .collect()
}

fn is_spawn(request: &Request) -> bool {
    matches!(request, Request::Action(Action::Spawn { .. }))
}

#[test]
fn focus_or_create_focuses_existing_by_full_name() {
    let mut s = session(vec![
        Response::Workspaces(vec![test_workspace(1, Some("dyn-a My Project"), false)]),
        Response::Handled,
    ]);
    let created = focus_or_create(&mut s, "dyn-", 'a', "dyn-a").unwrap();
    assert_eq!(created, None);
    assert_eq!(s.client.sent.len(), 2);
    assert_eq!(
        s.client.sent[1],
        Request::Action(Action::FocusWorkspace {
            reference: WorkspaceRef::Name("dyn-a My Project".to_string()),
        })
    );
}

#[test]
fn focus_or_create_focuses_trailing_empty_by_id_then_names() {
    let mut s = session(vec![
        Response::Workspaces(workspaces_with_trailing_empty()),
        Response::Handled,
        Response::Handled,
    ]);
    let created = focus_or_create(&mut s, "dyn-", 'a', "dyn-a").unwrap();
    assert_eq!(created, Some(2));
    assert_eq!(s.client.sent.len(), 3);
    assert_eq!(
        s.client.sent[1],
        Request::Action(Action::FocusWorkspace { reference: WorkspaceRef::Id(2) })
    );
    assert_eq!(
        s.client.sent[2],
        Request::Action(Action::SetWorkspaceName {
            name: "dyn-a".to_string(),
            workspace: Some(WorkspaceRef::Id(2)),
        })
    );
}

#[test]
fn focus_or_create_errors_when_trailing_workspace_not_empty() {
    let mut ws = test_workspace(1, Some("browser"), true);
    ws.active_window_id = Some(100);
    let mut s = session(vec![Response::Workspaces(vec![ws])]);
    let err = focus_or_create(&mut s, "dyn-", 'a', "dyn-a").unwrap_err();
    assert!(err.contains("no empty workspace"));
    assert_eq!(s.client.sent.len(), 1);
}

#[test]
fn focus_or_create_picks_trailing_on_focused_output_only() {
    // Sorted by output then index: HDMI-1's workspaces do not count.
    let mut focused = test_workspace(1, Some("mail"), true);
    focused.active_window_id = Some(5);
    let mut other = test_workspace(7, None, false);
    other.output = Some("HDMI-1".to_string());
    other.idx = 9;
    let mut empty = test_workspace(3, None, false);
    empty.idx = 2;
    let mut s = session(vec![
        Response::Workspaces(vec![empty, other, focused]),
        Response::Handled,
        Response::Handled,
    ]);
    assert_eq!(focus_or_create(&mut s, "dyn-", 'k', "dyn-k").unwrap(), Some(3));
}

#[test]
fn focus_or_create_passes_on_transport_and_unexpected_errors() {
    let mut s = session(vec![]);
    assert_eq!(
        focus_or_create(&mut s, "dyn-", 'a', "dyn-a").unwrap_err(),
        "no scripted response left"
    );
    let mut s = session(vec![Response::Handled]);
    assert_eq!(
        focus_or_create(&mut s, "dyn-", 'a', "dyn-a").unwrap_err(),
        "unexpected response"
    );
    let mut s = session(vec![
        Response::Workspaces(workspaces_with_trailing_empty()),
        Response::Other,
    ]);
    assert_eq!(
        focus_or_create(&mut s, "dyn-", 'a', "dyn-a").unwrap_err(),
        "unexpected response"
    );
    assert_eq!(s.client.sent.len(), 2);
}

#[test]
fn switch_workspace_creates_then_spawns_in_order() {
    let mut s = session(vec![
        Response::Workspaces(workspaces_with_trailing_empty()),
        Response::Handled,
        Response::Handled,
        Response::Handled,
        Response::Handled,
    ]);
    let (created, reorder) =
        switch_workspace(&mut s, "dyn-", 'a', "dyn-a", &commands(&[&["foot"], &["kitty"]])).unwrap();
    assert_eq!(created, Some(2));
    let reorder = reorder.unwrap();
    assert_eq!(reorder.workspace_id, 2);
    assert_eq!(reorder.commands.len(), 2);
    let sent = &s.client.sent;
    assert_eq!(sent.len(), 5);
    assert_eq!(
        sent[1],
        Request::Action(Action::FocusWorkspace { reference: WorkspaceRef::Id(2) })
    );
    assert!(matches!(
        &sent[2],
        Request::Action(Action::SetWorkspaceName { workspace: Some(WorkspaceRef::Id(2)), .. })
    ));
    assert_eq!(sent[3], Request::Action(Action::Spawn { command: strings(&["foot"]) }));
    assert_eq!(sent[4], Request::Action(Action::Spawn { command: strings(&["kitty"]) }));
}

#[test]
fn switch_workspace_existing_spawns_nothing() {
    let mut s = session(vec![
        Response::Workspaces(vec![test_workspace(1, Some("dyn-a"), false)]),
        Response::Handled,
    ]);
    let (created, reorder) =
        switch_workspace(&mut s, "dyn-", 'a', "dyn-a", &commands(&[&["foot"], &["kitty"]])).unwrap();
    assert_eq!(created, None);
    assert!(reorder.is_none());
    assert_eq!(s.client.sent.len(), 2);
    assert!(!s.client.sent.iter().any(is_spawn));
}

#[test]
fn switch_workspace_one_program_needs_no_reorder() {
    let mut s = session(vec![
        Response::Workspaces(workspaces_with_trailing_empty()),
        Response::Handled,
        Response::Handled,
        Response::Handled,
    ]);
    let (created, reorder) =
        switch_workspace(&mut s, "dyn-", 'a', "dyn-a", &commands(&[&[], &["foot"]])).unwrap();
    assert_eq!(created, Some(2));
    assert!(reorder.is_none());
    assert_eq!(s.client.sent.iter().filter(|r| is_spawn(r)).count(), 1);
}

#[test]
fn switch_workspace_stops_at_a_failed_spawn() {
    let mut s = session(vec![
        Response::Workspaces(workspaces_with_trailing_empty()),
        Response::Handled,
        Response::Handled,
        Response::Other,
    ]);
    let err = switch_workspace(&mut s, "dyn-", 'a', "dyn-a", &commands(&[&["foot"], &["kitty"]]))
        .unwrap_err();
    assert_eq!(err, "failed to spawn 'foot': unexpected response");
    assert_eq!(s.client.sent.len(), 4);
}

/// Waits for the windows, then moves their columns, as the program does
/// with pauses between the steps; within 3 listings for the windows to
/// appear, 6 in all.
fn reorder(argvs: &[&[&str]], script: Vec<Response>) -> MockClient {
    let mut s = session(script);
    let request = ReorderRequest {
        workspace_id: 2,
        commands: commands(argvs),
    };
    let mut settler = Settler::new(request.workspace_id, request.commands.len(), 3, 6);
    while !settler.advance(&mut s).unwrap() {}
    let windows = settler.settled();
    if !windows.is_empty() {
        let ordered = match_windows(&request.commands, &windows);
        let mut order = ColumnOrder::new(request.workspace_id, ordered);
        while order.advance(&mut s).unwrap() == Progress::Pause {}
    }
    assert!(s.client.responses.is_empty(), "unused: {:?}", s.client.responses);
    s.client
}

#[derive(Debug, PartialEq)]
enum Step {
    Focus(u64),
    Move(usize),
}

fn reorder_steps(sent: &[Request]) -> Vec<Step> {
    sent.iter()
        .filter_map(|request| match request {
            Request::Action(Action::FocusWindow { id }) => Some(Step::Focus(*id)),
            Request::Action(Action::MoveColumnToIndex { index }) => Some(Step::Move(*index)),
            _ => None,
        })
        .collect()
}

fn settle_listings(sent: &[Request]) -> usize {
    sent.iter()
        .take_while(|r| !matches!(r, Request::FocusedWindow))
        .filter(|r| matches!(r, Request::Windows))
        .count()
}

fn repeat(item: &Response, n: usize) -> Vec<Response> {
    std::iter::repeat_n(item, n).cloned().collect()
}

fn focus_on(focused: u64) -> Response {
    Response::Workspaces(vec![
        test_workspace(1, Some("dyn-b"), focused == 1),
        test_workspace(2, Some("dyn-c"), focused == 2),
    ])
}

fn kitty_then_foot(others: &[Window]) -> Response {
    let mut windows = vec![
        test_tiled_window(11, 2, "kitty", 1),
        test_tiled_window(10, 2, "foot", 2),
    ];
    windows.extend_from_slice(others);
    Response::Windows(windows)
}

fn foot_then_kitty(others: &[Window]) -> Response {
    let mut windows = vec![
        test_tiled_window(10, 2, "foot", 1),
        test_tiled_window(11, 2, "kitty", 2),
    ];
    windows.extend_from_slice(others);
    Response::Windows(windows)
}

fn chain(parts: Vec<Vec<Response>>) -> Vec<Response> {
    parts.into_iter().flatten().collect()
}

#[test]
fn reorder_moves_windows_into_command_order() {
    let firefox = [test_tiled_window(12, 1, "firefox", 1)];
    let before = kitty_then_foot(&firefox);
    let client = reorder(
        &[&["foot"], &["kitty"]],
        chain(vec![
            repeat(&before, 4),
            vec![
                Response::FocusedWindow(Some(test_tiled_window(11, 2, "kitty", 1))),
                focus_on(2),
                before.clone(),
                Response::Handled,
                Response::Handled,
                focus_on(2),
                foot_then_kitty(&firefox),
                focus_on(2),
                Response::Handled,
            ],
        ]),
    );
    assert_eq!(client.sent.len(), 13);
    assert_eq!(
        reorder_steps(&client.sent),
        [Step::Focus(10), Step::Move(1), Step::Focus(11)]
    );
}

#[test]
fn reorder_waits_for_a_late_window() {
    let both = kitty_then_foot(&[]);
    let client = reorder(
        &[&["foot"], &["kitty"]],
        chain(vec![
            vec![Response::Windows(vec![test_tiled_window(10, 2, "foot", 1)])],
            repeat(&both, 4),
            vec![
                Response::FocusedWindow(None),
                focus_on(2),
                both.clone(),
                Response::Handled,
                Response::Handled,
                focus_on(2),
                foot_then_kitty(&[]),
            ],
        ]),
    );
    assert_eq!(settle_listings(&client.sent), 5);
    assert_eq!(reorder_steps(&client.sent), [Step::Focus(10), Step::Move(1)]);
}

#[test]
fn reorder_settles_for_the_windows_that_appeared() {
    let foot = Response::Windows(vec![test_tiled_window(10, 2, "foot", 1)]);
    let client = reorder(
        &[&["foot"], &["kitty"]],
        chain(vec![
            repeat(&foot, 6),
            vec![Response::FocusedWindow(None), focus_on(2), foot.clone()],
        ]),
    );
    assert_eq!(settle_listings(&client.sent), 6);
    assert_eq!(reorder_steps(&client.sent), []);
}

#[test]
fn reorder_restarts_stability_when_windows_change() {
    let firefox = [test_tiled_window(12, 2, "firefox", 3)];
    let three = kitty_then_foot(&firefox);
    let client = reorder(
        &[&["foot"], &["kitty"]],
        chain(vec![
            repeat(&kitty_then_foot(&[]), 2),
            repeat(&three, 4),
            vec![
                Response::FocusedWindow(None),
                focus_on(2),
                three.clone(),
                Response::Handled,
                Response::Handled,
                focus_on(2),
                foot_then_kitty(&firefox),
            ],
        ]),
    );
    assert_eq!(settle_listings(&client.sent), 6);
    assert_eq!(reorder_steps(&client.sent), [Step::Focus(10), Step::Move(1)]);
}

#[test]
fn reorder_gives_duplicate_programs_distinct_windows() {
    let windows = Response::Windows(vec![
        test_tiled_window(10, 2, "foot", 2),
        test_tiled_window(11, 2, "foot", 1),
    ]);
    let client = reorder(
        &[&["foot"], &["foot"]],
        chain(vec![
            repeat(&windows, 4),
            vec![
                Response::FocusedWindow(None),
                focus_on(2),
                windows.clone(),
                Response::Handled,
                Response::Handled,
                focus_on(2),
                Response::Windows(vec![
                    test_tiled_window(10, 2, "foot", 1),
                    test_tiled_window(11, 2, "foot", 2),
                ]),
            ],
        ]),
    );
    assert_eq!(reorder_steps(&client.sent), [Step::Focus(10), Step::Move(1)]);
}

#[test]
fn reorder_does_nothing_after_user_left() {
    let client = reorder(
        &[&["foot"], &["kitty"]],
        chain(vec![
            repeat(&kitty_then_foot(&[]), 4),
            vec![
                Response::FocusedWindow(Some(test_tiled_window(20, 1, "firefox", 1))),
                focus_on(1),
            ],
        ]),
    );
    assert_eq!(reorder_steps(&client.sent), []);
}

#[test]
fn reorder_stops_when_user_leaves_midway() {
    let client = reorder(
        &[&["foot"], &["kitty"]],
        chain(vec![
            repeat(&kitty_then_foot(&[]), 4),
            vec![
                Response::FocusedWindow(Some(test_tiled_window(11, 2, "kitty", 1))),
                focus_on(2),
                kitty_then_foot(&[]),
                Response::Handled,
                Response::Handled,
                focus_on(1),
            ],
        ]),
    );
    assert_eq!(reorder_steps(&client.sent), [Step::Focus(10), Step::Move(1)]);
}

#[test]
fn reorder_skips_windows_already_in_place() {
    let windows = foot_then_kitty(&[]);
    let client = reorder(
        &[&["foot"], &["kitty"]],
        chain(vec![
            repeat(&windows, 4),
            vec![
                Response::FocusedWindow(Some(test_tiled_window(11, 2, "kitty", 2))),
                focus_on(2),
                windows.clone(),
                focus_on(2),
                windows.clone(),
            ],
        ]),
    );
    assert_eq!(reorder_steps(&client.sent), []);
}

#[test]
fn reorder_skips_floating_windows() {
    let mut floating = test_window(10, 2, "foot");
    floating.is_floating = true;
    let windows = Response::Windows(vec![test_tiled_window(11, 2, "kitty", 1), floating]);
    let client = reorder(
        &[&["kitty"], &["foot"]],
        chain(vec![
            repeat(&windows, 4),
            vec![
                Response::FocusedWindow(None),
                focus_on(2),
                windows.clone(),
                focus_on(2),
                windows.clone(),
            ],
        ]),
    );
    assert_eq!(reorder_steps(&client.sent), []);
}

#[test]
fn reorder_refocuses_the_users_window() {
    let firefox = [test_tiled_window(12, 2, "firefox", 3)];
    let before = kitty_then_foot(&firefox);
    let client = reorder(
        &[&["foot"], &["kitty"]],
        chain(vec![
            repeat(&before, 4),
            vec![
                Response::FocusedWindow(Some(firefox[0].clone())),
                focus_on(2),
                before.clone(),
                Response::Handled,
                Response::Handled,
                focus_on(2),
                foot_then_kitty(&firefox),
                focus_on(2),
                Response::Handled,
            ],
        ]),
    );
    assert_eq!(
        reorder_steps(&client.sent),
        [Step::Focus(10), Step::Move(1), Step::Focus(12)]
    );
}

#[test]
fn move_window_to_existing_workspace_moves_directly() {
    let mut focused = test_workspace(2, Some("browser"), true);
    focused.active_window_id = Some(100);
    let mut s = session(vec![
        Response::Workspaces(vec![test_workspace(1, Some("dyn-a My Project"), false), focused]),
        Response::Handled,
    ]);
    let created = move_window_to_workspace(&mut s, "dyn-", 'a', "dyn-a", None).unwrap();
    assert!(!created);
    assert_eq!(s.client.sent.len(), 2);
    assert_eq!(
        s.client.sent[1],
        Request::Action(Action::MoveWindowToWorkspace {
            window_id: Some(100),
            reference: WorkspaceRef::Name("dyn-a My Project".to_string()),
            focus: true,
        })
    );
}

#[test]
fn move_window_creates_target_without_focus_change() {
    let mut s = session(vec![
        Response::Workspaces(workspaces_with_trailing_empty()),
        Response::Handled,
        Response::Handled,
    ]);
    let created = move_window_to_workspace(&mut s, "dyn-", 'a', "dyn-a", None).unwrap();
    assert!(created);
    assert_eq!(s.client.sent.len(), 3);
    assert_eq!(
        s.client.sent[1],
        Request::Action(Action::SetWorkspaceName {
            name: "dyn-a".to_string(),
            workspace: Some(WorkspaceRef::Id(2)),
        })
    );
    assert_eq!(
        s.client.sent[2],
        Request::Action(Action::MoveWindowToWorkspace {
            window_id: Some(100),
            reference: WorkspaceRef::Id(2),
            focus: true,
        })
    );
    assert!(!s
        .client
        .sent
        .iter()
        .any(|r| matches!(r, Request::Action(Action::FocusWorkspace { .. }))));
}

#[test]
fn move_window_without_focused_window_errors_before_naming() {
    let mut workspaces = workspaces_with_trailing_empty();
    workspaces[0].active_window_id = None;
    let mut s = session(vec![Response::Workspaces(workspaces)]);
    let err = move_window_to_workspace(&mut s, "dyn-", 'x', "dyn-x", None).unwrap_err();
    assert!(err.contains("no focused window"), "{err}");
    assert_eq!(s.client.sent.len(), 1);
}

#[test]
fn move_window_moves_given_window() {
    let mut s = session(vec![
        Response::Workspaces(workspaces_with_trailing_empty()),
        Response::Handled,
        Response::Handled,
    ]);
    move_window_to_workspace(&mut s, "dyn-", 'a', "dyn-a", Some(7)).unwrap();
    assert_eq!(s.client.sent.len(), 3);
    assert_eq!(
        s.client.sent[2],
        Request::Action(Action::MoveWindowToWorkspace {
            window_id: Some(7),
            reference: WorkspaceRef::Id(2),
            focus: true,
        })
    );
}

#[test]
fn move_window_given_window_needs_no_focused_one() {
    let mut workspaces = workspaces_with_trailing_empty();
    workspaces[0].active_window_id = None;
    let mut s = session(vec![
        Response::Workspaces(workspaces),
        Response::Handled,
        Response::Handled,
    ]);
    move_window_to_workspace(&mut s, "dyn-", 'a', "dyn-a", Some(7)).unwrap();
    assert_eq!(s.client.sent.len(), 3);
}

#[test]
fn workspace_id_by_name_ignores_ascii_case() {
    let mut s = session(vec![Response::Workspaces(vec![
        test_workspace(4, Some("dyn-a"), false),
        test_workspace(5, Some("Mail"), false),
    ])]);
    assert_eq!(workspace_id_by_name(&mut s, "mail").unwrap(), 5);
}

#[test]
fn workspace_id_by_name_errors_when_missing() {
    let mut s = session(vec![Response::Workspaces(vec![test_workspace(1, None, true)])]);
    let err = workspace_id_by_name(&mut s, "mail").unwrap_err();
    assert!(err.contains("'mail' not found"), "{err}");
    assert_eq!(s.client.sent.len(), 1);
}

#[test]
fn focused_window_id_is_focused_workspaces_active_window() {
    assert_eq!(focused_window_id(&workspaces_with_trailing_empty()).unwrap(), 100);

    let mut no_window = workspaces_with_trailing_empty();
    no_window[0].active_window_id = None;
    assert!(focused_window_id(&no_window).is_err());

    let mut unfocused = workspaces_with_trailing_empty();
    unfocused[0].is_focused = false;
    assert!(focused_window_id(&unfocused).is_err());
}

#[test]
fn delete_workspace_closes_windows_then_unsets_name() {
    let mut s = session(vec![
        Response::Workspaces(vec![test_workspace(10, Some("dyn-a"), false)]),
        Response::Windows(vec![test_window(1, 10, "firefox"), test_window(2, 20, "kitty")]),
        Response::Handled,
        Response::Windows(vec![test_window(2, 20, "kitty")]),
        Response::Handled,
    ]);
    delete_workspace(&mut s, "dyn-", 'a').unwrap();
    assert_eq!(s.client.sent.len(), 5);
    assert_eq!(s.client.sent[2], Request::Action(Action::CloseWindow { id: Some(1) }));
    assert_eq!(s.client.sent[3], Request::Windows);
    assert_eq!(
        s.client.sent[4],
        Request::Action(Action::UnsetWorkspaceName {
            reference: Some(WorkspaceRef::Name("dyn-a".to_string())),
        })
    );
}

#[test]
fn delete_workspace_without_windows_unsets_at_once() {
    let mut s = session(vec![
        Response::Workspaces(vec![test_workspace(10, Some("dyn-a"), false)]),
        Response::Windows(vec![test_window(2, 20, "kitty")]),
        Response::Handled,
    ]);
    delete_workspace(&mut s, "dyn-", 'a').unwrap();
    assert_eq!(s.client.sent.len(), 3);
}

#[test]
fn delete_workspace_waits_for_a_slow_window() {
    let mut s = session(vec![
        Response::Workspaces(vec![test_workspace(10, Some("dyn-a"), false)]),
        Response::Windows(vec![test_window(1, 10, "firefox")]),
        Response::Handled,
        Response::Windows(vec![test_window(1, 10, "firefox")]),
        Response::Windows(vec![test_window(1, 10, "firefox")]),
        Response::Windows(vec![]),
        Response::Handled,
    ]);
    delete_workspace(&mut s, "dyn-", 'a').unwrap();
    assert_eq!(s.client.sent.len(), 7);
    assert!(matches!(s.client.sent[6], Request::Action(Action::UnsetWorkspaceName { .. })));
}

#[test]
fn delete_workspace_keeps_the_name_when_a_window_stays_open() {
    let mut responses = vec![
        Response::Workspaces(vec![test_workspace(10, Some("dyn-a"), false)]),
        Response::Windows(vec![test_window(1, 10, "editor")]),
        Response::Handled,
    ];
    for _ in 0..DELETE_POLLS {
        responses.push(Response::Windows(vec![test_window(1, 10, "editor")]));
    }
    let mut s = session(responses);
    let err = delete_workspace(&mut s, "dyn-", 'a').unwrap_err();
    assert_eq!(err, "workspace 'dyn-a' still has open windows; it keeps its name");
    assert_eq!(s.client.sent.len(), 3 + DELETE_POLLS as usize);
    assert!(s
        .client
        .sent
        .iter()
        .all(|r| !matches!(r, Request::Action(Action::UnsetWorkspaceName { .. }))));
}

#[test]
fn delete_workspace_missing_errors_without_actions() {
    let mut s = session(vec![Response::Workspaces(vec![])]);
    let err = delete_workspace(&mut s, "dyn-", 'a').unwrap_err();
    assert!(err.contains("not found"));
    assert_eq!(err, "workspace 'dyn-a' not found");
    assert_eq!(s.client.sent.len(), 1);
}

#[test]
fn delete_workspace_stops_at_a_failed_close() {
    let mut s = session(vec![
        Response::Workspaces(vec![test_workspace(10, Some("dyn-a Notes"), false)]),
        Response::Windows(vec![test_window(1, 10, "foot"), test_window(2, 10, "kitty")]),
        Response::Other,
    ]);
    assert_eq!(delete_workspace(&mut s, "dyn-", 'a').unwrap_err(), "unexpected response");
    assert_eq!(s.client.sent.len(), 3);
}

#[test]
fn hook_spawn_command_is_none_without_hooks() {
    assert_eq!(
        hook_spawn_command(&Vec::new(), &env_pairs(&[("NDW_WORKSPACE_KEY", "a")])),
        None
    );
}

#[test]
fn hook_spawn_command_sets_env_then_runs_hooks_in_order() {
    let env = env_pairs(&[
        ("NDW_WORKSPACE_NAME", "dyn-a My Project"),
        ("NDW_WORKSPACE_KEY", "a"),
    ]);
    let command = hook_spawn_command(&strings(&["h1", "h2"]), &env).unwrap();
    assert_eq!(
        command,
        strings(&[
            "env",
            "NDW_WORKSPACE_NAME=dyn-a My Project",
            "NDW_WORKSPACE_KEY=a",
            "sh",
            "-c",
            HOOK_RUNNER,
            "niri-dynamic-workspaces",
            "h1",
            "h2",
        ])
    );
}

#[test]
fn run_hooks_with_sends_one_spawn_action() {
    let hooks = strings(&["h1", "h2"]);
    let env = env_pairs(&[("NDW_WORKSPACE_KEY", "a")]);
    let mut s = session(vec![Response::Handled]);
    assert!(run_hooks(&mut s, &hooks, &env));
    assert_eq!(s.client.sent.len(), 1);
    let expected = hook_spawn_command(&hooks, &env).unwrap();
    assert_eq!(s.client.sent[0], Request::Action(Action::Spawn { command: expected }));
}

#[test]
fn run_hooks_with_skips_ipc_without_hooks() {
    let mut s = session(vec![]);
    assert!(!run_hooks(&mut s, &Vec::new(), &env_pairs(&[("NDW_WORKSPACE_KEY", "a")])));
    assert!(s.client.sent.is_empty());
}

#[test]
fn run_hooks_with_survives_ipc_failure() {
    let mut s = session(vec![]);
    assert!(!run_hooks(&mut s, &strings(&["h1"]), &Vec::new()));
    assert_eq!(s.client.sent.len(), 1);
}

/// Both cleanup passes, with no pause between them.
fn cleanup(s: &mut Session<MockClient>, prefix: &str) -> Result<(), String> {
    let candidates = cleanup_candidates(s, prefix)?;
    if candidates.is_empty() {
        return Ok(());
    }
    cleanup_confirmed(s, prefix, &candidates).map(|_| ())
}

#[test]
fn cleanup_skips_focused_active_and_occupied() {
    let mut occupied = test_workspace(1, Some("dyn-a"), false);
    occupied.active_window_id = Some(100);
    let focused = test_workspace(2, Some("dyn-b"), true);
    let mut active = test_workspace(3, Some("dyn-c"), false);
    active.is_active = true;
    let empty = test_workspace(4, Some("dyn-d"), false);
    let non_dyn = test_workspace(5, Some("static"), false);

    let workspaces = vec![occupied, focused, active, empty, non_dyn];
    let windows = vec![test_window(100, 1, "firefox")];
    let mut s = session(vec![
        Response::Workspaces(workspaces.clone()),
        Response::Windows(windows.clone()),
        Response::Workspaces(workspaces),
        Response::Windows(windows),
        Response::Handled,
    ]);
    cleanup(&mut s, "dyn-").unwrap();
    assert_eq!(s.client.sent.len(), 5);
    assert_eq!(
        s.client.sent[4],
        Request::Action(Action::UnsetWorkspaceName {
            reference: Some(WorkspaceRef::Name("dyn-d".to_string())),
        })
    );
}

#[test]
fn cleanup_skips_second_pass_when_no_candidates() {
    let mut occupied = test_workspace(1, Some("dyn-a"), false);
    occupied.active_window_id = Some(100);
    let mut s = session(vec![
        Response::Workspaces(vec![occupied]),
        Response::Windows(vec![test_window(100, 1, "firefox")]),
    ]);
    cleanup(&mut s, "dyn-").unwrap();
    assert_eq!(s.client.sent.len(), 2);
}

#[test]
fn cleanup_spares_workspaces_that_change_between_passes() {
    let pass1 = vec![test_workspace(1, Some("dyn-a"), false)];
    let mut focused_now = test_workspace(1, Some("dyn-a"), true);
    focused_now.active_window_id = Some(100);
    let pass2 = vec![focused_now, test_workspace(2, Some("dyn-b"), false)];
    let mut s = session(vec![
        Response::Workspaces(pass1),
        Response::Windows(vec![]),
        Response::Workspaces(pass2),
        Response::Windows(vec![test_window(100, 1, "kitty")]),
    ]);
    cleanup(&mut s, "dyn-").unwrap();
    assert_eq!(s.client.sent.len(), 4);
    assert!(!s
        .client
        .sent
        .iter()
        .any(|r| matches!(r, Request::Action(Action::UnsetWorkspaceName { .. }))));
}

#[test]
fn basename_strips_leading_path() {
    assert_eq!(basename("firefox"), "firefox");
    assert_eq!(basename("/usr/bin/firefox"), "firefox");
    assert_eq!(basename("/opt/my apps/firefox"), "firefox");
    assert_eq!(basename("/home/me/dev/"), "");
}

#[test]
fn niri_app_id_matches_variants() {
    assert!(app_id_matches("org.mozilla.firefox", "firefox"));
    assert!(app_id_matches("org.mozilla.Firefox", "firefox"));
    assert!(app_id_matches("firefox", "firefox"));
    assert!(!app_id_matches("org.mozilla.firefox", "chrome"));
    assert!(!app_id_matches("org.mozilla.firefox", "fire"));
}

#[test]
fn word_matches_segments_and_whole_ids() {
    assert!(word_matches("org.mozilla.firefox", "/usr/bin/firefox"));
    assert!(word_matches("com.slack.Slack", "com.slack.slack"));
    assert!(word_matches(
        "com.slack.Slack",
        "/var/lib/flatpak/exports/bin/com.slack.Slack"
    ));
    assert!(!word_matches("", "/home/me/dev/"));
    assert!(!word_matches("org.mozilla.firefox", "--"));
}

#[test]
fn match_windows_finds_wrapped_programs() {
    let windows = vec![
        test_window(14, 2, "Alacritty"),
        test_window(13, 2, "org.mozilla.firefox"),
        test_window(12, 2, "foot"),
        test_window(11, 2, "kitty"),
        test_window(10, 2, "com.slack.Slack"),
    ];
    let slots = match_windows(
        &commands(&[
            &["flatpak", "run", "com.slack.Slack"],
            &["uwsm", "app", "--", "kitty"],
            &["env", "FOO=1", "foot"],
            &["app2unit", "firefox"],
            &["sh", "-c", "sleep 1; exec alacritty"],
        ]),
        &windows,
    );
    assert_eq!(slots, [Some(10), Some(11), Some(12), Some(13), Some(14)]);
}

#[test]
fn match_windows_prefers_executable_matches() {
    let windows = vec![test_window(10, 2, "kitty"), test_window(11, 2, "kitty")];
    let slots = match_windows(&commands(&[&["uwsm", "app", "--", "kitty"], &["kitty"]]), &windows);
    assert_eq!(slots, [Some(11), Some(10)]);
}

#[test]
fn match_windows_ignores_empty_basenames_and_missing_app_ids() {
    let mut no_app_id = test_window(10, 2, "");
    no_app_id.app_id = None;
    let windows = vec![no_app_id, test_window(11, 2, "")];
    let slots = match_windows(&commands(&[&["code", "/home/me/dev/"]]), &windows);
    assert_eq!(slots, [None]);
}

#[test]
fn match_windows_leaves_renamed_binaries_unmatched() {
    let windows = vec![test_window(10, 2, "org.gnome.TextEditor")];
    let slots = match_windows(&commands(&[&["gnome-text-editor"]]), &windows);
    assert_eq!(slots, [None]);
}

#[test]
fn niri_new_workspace_windows_filters_correctly() {
    let windows = vec![
        test_window(1, 10, "firefox"),
        test_window(2, 10, "kitty"),
        test_window(3, 20, "slack"),
        test_window(4, 10, "code"),
    ];
    let result: Vec<u64> = new_workspace_windows(&windows, 10).iter().map(|w| w.id).collect();
    assert_eq!(result, vec![1, 2, 4]);
}

#[test]
fn niri_new_workspace_windows_empty() {
    let windows = vec![test_window(1, 20, "firefox"), test_window(2, 30, "kitty")];
    let result = new_workspace_windows(&windows, 10);
    assert!(result.is_empty());
}

#[test]
fn find_workspace_by_char_basic() {
    let workspaces = vec![
        test_workspace(1, Some("dyn-a"), false),
        test_workspace(2, Some("dyn-b My Project"), true),
        test_workspace(3, None, false),
    ];
    assert_eq!(find_workspace_by_char(&workspaces, "dyn-", 'a').map(|w| w.id), Some(1));
    assert_eq!(find_workspace_by_char(&workspaces, "dyn-", 'b').map(|w| w.id), Some(2));
    assert!(find_workspace_by_char(&workspaces, "dyn-", 'z').is_none());
    assert!(find_workspace_by_char(&workspaces, "dyn-", 'c').is_none());
}

#[test]
fn find_workspace_by_char_ignores_lookalike_names() {
    let workspaces = vec![test_workspace(1, Some("dyn-alpha"), false)];
    assert!(find_workspace_by_char(&workspaces, "dyn-", 'a').is_none());
}

fn test_debouncer() -> Debouncer {
    Debouncer::new(500, 2000)
}

#[test]
fn debouncer_idle_is_never_due() {
    let debouncer = test_debouncer();
    assert!(!debouncer.due(60_000));
}

#[test]
fn debouncer_fires_after_quiet_period_without_further_events() {
    let mut debouncer = test_debouncer();
    let t0 = 1_000;
    debouncer.on_event(t0);
    assert!(!debouncer.due(t0 + 499));
    assert!(debouncer.due(t0 + 500));
}

#[test]
fn debouncer_events_extend_the_quiet_period() {
    let mut debouncer = test_debouncer();
    let t0 = 1_000;
    debouncer.on_event(t0);
    debouncer.on_event(t0 + 400);
    assert!(!debouncer.due(t0 + 600));
    assert!(debouncer.due(t0 + 900));
}

#[test]
fn debouncer_busy_stream_fires_at_max_wait() {
    let mut debouncer = test_debouncer();
    let t0 = 1_000;
    for i in 0..=20 {
        debouncer.on_event(t0 + i * 100);
    }
    assert!(debouncer.due(t0 + 2000));
}

#[test]
fn debouncer_clear_resets_pending() {
    let mut debouncer = test_debouncer();
    let t0 = 1_000;
    debouncer.on_event(t0);
    debouncer.clear();
    assert!(!debouncer.due(t0 + 10_000));
}

#[test]
fn events_that_trigger_cleanup_and_overlay_updates() {
    assert!(triggers_cleanup(EventKind::WindowClosed));
    assert!(triggers_cleanup(EventKind::WorkspaceActivated));
    assert!(!triggers_cleanup(EventKind::WindowFocusChanged));
    assert!(!triggers_cleanup(EventKind::Other));
    assert_eq!(classify_event(EventKind::WindowUrgencyChanged), Some(OverlayEvent::StructureChanged));
    assert_eq!(classify_event(EventKind::WindowFocusChanged), Some(OverlayEvent::FocusChanged));
    assert_eq!(classify_event(EventKind::ConfigLoaded), None);
}

#[test]
fn cleanup_confirmed_returns_the_names_it_unset() {
    let empty = test_workspace(4, Some("dyn-d"), false);
    let alpha = test_workspace(5, Some("dyn-alpha"), false);
    let mut s = session(vec![
        Response::Workspaces(vec![empty, alpha]),
        Response::Windows(vec![]),
        Response::Handled,
    ]);
    let removed = cleanup_confirmed(&mut s, "dyn-", &vec![4, 5]).unwrap();
    assert_eq!(removed, vec!["dyn-d".to_string()]);
    assert_eq!(s.client.sent.len(), 3);
}
