use std::cell::RefCell;
use std::collections::VecDeque;

use niri_dynamic_workspaces::backend::{
    apply_column_order, cleanup_empty_workspaces_inner, delete_workspace, reorder_target, executable_name, find_workspace_by_name,
    fresh_pairs, new_workspace_windows, order_windows, snapshot_workspace_window_ids, switch_workspace,
    Backend, DebouncedCleanup, Recorder, ReorderWait, WindowInfo, WorkspaceInfo,
};
use niri_dynamic_workspaces::niri::app_id_matches;

fn test_window(id: u64, workspace_id: u64, app_id: &str) -> WindowInfo {
    WindowInfo {
        id,
        workspace_id: Some(workspace_id),
        app_id: Some(app_id.to_string()),
        is_urgent: false,
    }
}

fn test_workspace(id: u64, name: Option<&str>, is_focused: bool) -> WorkspaceInfo {
    WorkspaceInfo {
        id,
        idx: 1,
        name: name.map(String::from),
        output: Some("DP-1".to_string()),
        is_focused,
        is_active: false,
    }
}

#[test]
fn executable_name_variants() {
    assert_eq!(executable_name("firefox"), "firefox");
    assert_eq!(executable_name("firefox --private-window"), "firefox");
    assert_eq!(executable_name("/usr/bin/firefox"), "firefox");
    assert_eq!(executable_name("/usr/bin/firefox --private-window"), "firefox");
    assert_eq!(executable_name("  "), "  ");
}

#[test]
fn mod_app_id_matches_variants() {
    assert!(app_id_matches("org.mozilla.firefox", "firefox"));
    assert!(app_id_matches("org.mozilla.Firefox", "firefox"));
    assert!(app_id_matches("firefox", "firefox"));
    assert!(!app_id_matches("org.mozilla.firefox", "chrome"));
    assert!(!app_id_matches("org.mozilla.firefox", "fire"));
}

#[test]
fn mod_new_workspace_windows_filters_correctly() {
    let windows = vec![
        test_window(1, 10, "firefox"),
        test_window(2, 10, "kitty"),
        test_window(3, 20, "slack"),
        test_window(4, 10, "code"),
    ];
    let existing = vec![1];
    let result: Vec<u64> = new_workspace_windows(&windows, 10, &existing)
        .iter()
        .map(|w| w.id)
        .collect();
    assert_eq!(result, vec![2, 4]);
}

#[test]
fn mod_new_workspace_windows_empty() {
    let windows = vec![test_window(1, 20, "firefox"), test_window(2, 30, "kitty")];
    let result = new_workspace_windows(&windows, 10, &Vec::new());
    assert!(result.is_empty());
}

#[test]
fn find_workspace_by_name_variants() {
    let workspaces = vec![
        test_workspace(1, Some("dyn-a"), false),
        test_workspace(2, Some("dyn-b"), true),
        test_workspace(3, None, false),
    ];
    assert_eq!(find_workspace_by_name(&workspaces, "dyn-a").map(|w| w.id), Some(1));
    assert!(find_workspace_by_name(&workspaces, "dyn-z").is_none());
    assert!(find_workspace_by_name(&workspaces, "").is_none());
}

#[test]
fn order_windows_gives_each_window_once() {
    let windows = vec![
        (7, "org.mozilla.firefox".to_string()),
        (8, "kitty".to_string()),
        (9, "kitty".to_string()),
    ];
    let commands = vec![
        "kitty".to_string(),
        "/usr/bin/firefox --new".to_string(),
        "kitty -e htop".to_string(),
        "slack".to_string(),
    ];
    assert_eq!(order_windows(&commands, &windows), [Some(8), Some(7), Some(9), None]);
}

#[derive(Debug, PartialEq)]
enum Call {
    ListWorkspaces,
    ListWindows,
    FocusOrCreate(String),
    Spawn(Vec<String>),
    Close(u64),
    Remove(String),
    Focus(u64),
    MoveTo(usize),
}

enum Answer {
    Workspaces(Vec<WorkspaceInfo>),
    Windows(Vec<WindowInfo>),
    Created(bool),
    Done,
    Fail(&'static str),
}

/// Scripted backend that records every call.
struct MockBackend {
    answers: RefCell<VecDeque<Answer>>,
    calls: RefCell<Vec<Call>>,
    /// A window that cannot be focused.
    unfocusable: Option<u64>,
}

impl MockBackend {
    fn new(answers: Vec<Answer>) -> Self {
        Self {
            answers: RefCell::new(answers.into()),
            calls: RefCell::new(Vec::new()),
            unfocusable: None,
        }
    }

    fn next(&self, call: Call) -> Answer {
        self.calls.borrow_mut().push(call);
        self.answers.borrow_mut().pop_front().unwrap_or(Answer::Fail("no answer"))
    }

    fn unit(&self, call: Call) -> Result<(), String> {
        match self.next(call) {
            Answer::Done => Ok(()),
            Answer::Fail(e) => Err(e.to_string()),
            _ => Err("wrong answer".to_string()),
        }
    }
}

impl Backend for MockBackend {
    fn list_workspaces(&self) -> Result<Vec<WorkspaceInfo>, String> {
        match self.next(Call::ListWorkspaces) {
            Answer::Workspaces(ws) => Ok(ws),
            Answer::Fail(e) => Err(e.to_string()),
            _ => Err("wrong answer".to_string()),
        }
    }

    fn list_windows(&self) -> Result<Vec<WindowInfo>, String> {
        match self.next(Call::ListWindows) {
            Answer::Windows(ws) => Ok(ws),
            Answer::Fail(e) => Err(e.to_string()),
            _ => Err("wrong answer".to_string()),
        }
    }

    fn focus_or_create_workspace(&self, name: &str) -> Result<bool, String> {
        match self.next(Call::FocusOrCreate(name.to_string())) {
            Answer::Created(b) => Ok(b),
            Answer::Fail(e) => Err(e.to_string()),
            _ => Err("wrong answer".to_string()),
        }
    }

    fn spawn_program(&self, command: &Vec<String>) -> Result<(), String> {
        self.unit(Call::Spawn(command.clone()))
    }

    fn close_window(&self, id: u64) -> Result<(), String> {
        self.unit(Call::Close(id))
    }

    fn focus_window(&self, id: u64) -> Result<(), String> {
        self.calls.borrow_mut().push(Call::Focus(id));
        if self.unfocusable == Some(id) {
            Err("gone".to_string())
        } else {
            Ok(())
        }
    }

    fn move_window_to_position(&self, index: usize) -> Result<(), String> {
        self.calls.borrow_mut().push(Call::MoveTo(index));
        Ok(())
    }

    fn move_window_to_workspace(&self, _name: &str) -> Result<(), String> {
        Ok(())
    }

    fn remove_workspace(&self, name: &str) -> Result<(), String> {
        self.unit(Call::Remove(name.to_string()))
    }

    fn run_event_cleanup(&self, _prefix: &str) {}
}

fn strings(words: &[&str]) -> Vec<String> {
    words.iter().map(|w| w.to_string()).collect()
}

#[test]
fn switch_creates_snapshots_and_spawns_split_programs() {
    let mut rec = Recorder::new(MockBackend::new(vec![
        Answer::Created(true),
        Answer::Workspaces(vec![test_workspace(4, Some("dyn-a"), true)]),
        Answer::Windows(vec![test_window(1, 4, "foot"), test_window(1, 4, "foot"), test_window(2, 9, "x")]),
        Answer::Done,
        Answer::Done,
    ]));
    let programs = strings(&["kitty -e htop", "   ", "firefox"]);
    let (created, reorder) = switch_workspace(&mut rec, "dyn-a", &programs).unwrap();
    assert!(created);
    let reorder = reorder.unwrap();
    assert_eq!(reorder.workspace_name, "dyn-a");
    assert_eq!(reorder.commands, programs);
    assert_eq!(reorder.existing_window_ids, vec![1]);
    assert_eq!(
        *rec.backend.calls.borrow(),
        vec![
            Call::FocusOrCreate("dyn-a".to_string()),
            Call::ListWorkspaces,
            Call::ListWindows,
            Call::Spawn(strings(&["kitty", "-e", "htop"])),
            Call::Spawn(strings(&["firefox"])),
        ]
    );
}

#[test]
fn switch_to_existing_spawns_nothing() {
    let mut rec = Recorder::new(MockBackend::new(vec![Answer::Created(false)]));
    let (created, reorder) = switch_workspace(&mut rec, "dyn-a", &strings(&["foot"])).unwrap();
    assert!(!created);
    assert!(reorder.is_none());
    assert_eq!(rec.backend.calls.borrow().len(), 1);
}

#[test]
fn switch_reports_the_program_that_failed() {
    let mut rec = Recorder::new(MockBackend::new(vec![Answer::Created(true), Answer::Fail("denied")]));
    let err = switch_workspace(&mut rec, "dyn-a", &strings(&["foot --server"])).unwrap_err();
    assert_eq!(err, "failed to spawn 'foot --server': denied");
}

#[test]
fn snapshot_gives_nothing_on_failure() {
    let mut rec = Recorder::new(MockBackend::new(vec![Answer::Fail("down")]));
    assert!(snapshot_workspace_window_ids(&mut rec, "dyn-a").is_empty());
    let mut rec = Recorder::new(MockBackend::new(vec![Answer::Workspaces(vec![])]));
    assert!(snapshot_workspace_window_ids(&mut rec, "dyn-a").is_empty());
}

#[test]
fn delete_closes_windows_then_removes() {
    let mut rec = Recorder::new(MockBackend::new(vec![
        Answer::Workspaces(vec![test_workspace(3, Some("dyn-c"), false)]),
        Answer::Windows(vec![test_window(5, 3, "a"), test_window(6, 1, "b"), test_window(7, 3, "c")]),
        Answer::Done,
        Answer::Done,
        Answer::Done,
    ]));
    delete_workspace(&mut rec, "dyn-c").unwrap();
    assert_eq!(
        *rec.backend.calls.borrow(),
        vec![
            Call::ListWorkspaces,
            Call::ListWindows,
            Call::Close(5),
            Call::Close(7),
            Call::Remove("dyn-c".to_string()),
        ]
    );
}

#[test]
fn delete_missing_workspace_fails() {
    let mut rec = Recorder::new(MockBackend::new(vec![Answer::Workspaces(vec![])]));
    assert_eq!(
        delete_workspace(&mut rec, "dyn-q").unwrap_err(),
        "workspace 'dyn-q' not found"
    );
}

#[test]
fn cleanup_removes_empty_unfocused_dynamic_workspaces() {
    let mut busy = test_workspace(1, Some("dyn-a"), false);
    busy.idx = 1;
    let focused = test_workspace(2, Some("dyn-b"), true);
    let mut active = test_workspace(3, Some("dyn-c"), false);
    active.is_active = true;
    let empty = test_workspace(4, Some("dyn-d"), false);
    let other = test_workspace(5, Some("mail"), false);
    let mut rec = Recorder::new(MockBackend::new(vec![
        Answer::Workspaces(vec![busy, focused, active, empty, other]),
        Answer::Windows(vec![test_window(9, 1, "foot")]),
        Answer::Done,
    ]));
    cleanup_empty_workspaces_inner(&mut rec, "dyn-").unwrap();
    assert_eq!(
        rec.backend.calls.borrow().last(),
        Some(&Call::Remove("dyn-d".to_string()))
    );
    assert_eq!(rec.backend.calls.borrow().len(), 3);
}

#[test]
fn cleanup_keeps_names_that_only_start_with_the_prefix() {
    let alpha = test_workspace(1, Some("dyn-alpha"), false);
    let titled = test_workspace(2, Some("dyn-e notes"), false);
    let mut rec = Recorder::new(MockBackend::new(vec![
        Answer::Workspaces(vec![alpha, titled]),
        Answer::Windows(vec![]),
        Answer::Done,
    ]));
    cleanup_empty_workspaces_inner(&mut rec, "dyn-").unwrap();
    assert_eq!(
        rec.backend.calls.borrow().last(),
        Some(&Call::Remove("dyn-e notes".to_string()))
    );
    assert_eq!(rec.backend.calls.borrow().len(), 3);
}

#[test]
fn debounced_cleanup_waits_for_the_pause() {
    let mut rec = Recorder::new(MockBackend::new(vec![
        Answer::Workspaces(vec![]),
        Answer::Windows(vec![]),
    ]));
    let mut cleanup = DebouncedCleanup::new(1_000);
    assert!(!cleanup.flush_if_ready(&mut rec, "dyn-", 5_000));
    cleanup.mark_pending();
    assert!(!cleanup.flush_if_ready(&mut rec, "dyn-", 1_499));
    assert!(cleanup.flush_if_ready(&mut rec, "dyn-", 1_500));
    assert!(!cleanup.pending);
    assert_eq!(cleanup.last_cleanup, 1_500);
    assert_eq!(rec.backend.calls.borrow().len(), 2);
}

#[test]
fn reorder_wait_waits_for_windows_then_for_them_to_settle() {
    // Window 1 was there before; two programs are starting on workspace 5.
    let mut wait = ReorderWait::new(5, 2, vec![1]);
    let before = vec![test_window(1, 5, "kitty")];
    assert!(!wait.observe(&before, 200));
    assert!(!wait.settling);
    let both = vec![test_window(1, 5, "kitty"), test_window(2, 5, "firefox"), test_window(3, 5, "slack")];
    // Both appeared: now settling.
    assert!(!wait.observe(&both, 400));
    assert!(wait.settling);
    assert!(!wait.observe(&both, 600));
    assert!(!wait.observe(&both, 800));
    // Third unchanged listing in a row.
    assert!(wait.observe(&both, 1000));
}

#[test]
fn reorder_wait_gives_up_after_the_timeouts() {
    let mut wait = ReorderWait::new(5, 3, vec![]);
    let one = vec![test_window(2, 5, "firefox")];
    assert!(!wait.observe(&one, 4800));
    // Not all appeared, but time is up for appearing.
    assert!(!wait.observe(&one, 5000));
    assert!(wait.settling);
    let two = vec![test_window(2, 5, "firefox"), test_window(3, 5, "kitty")];
    assert!(!wait.observe(&two, 5200));
    assert_eq!(wait.stable, 0);
    // Time is up for settling.
    assert!(wait.observe(&two, 8000));
}

#[test]
fn fresh_pairs_lists_new_windows_with_app_ids() {
    let mut no_app = test_window(4, 5, "");
    no_app.app_id = None;
    let windows = vec![test_window(1, 5, "kitty"), test_window(2, 6, "firefox"), no_app, test_window(3, 5, "slack")];
    assert_eq!(
        fresh_pairs(&windows, 5, &vec![1]),
        vec![(4, String::new()), (3, "slack".to_string())]
    );
    let ordered = order_windows(&vec!["slack".to_string(), "kitty".to_string()], &fresh_pairs(&windows, 5, &vec![1]));
    assert_eq!(ordered, vec![Some(3), None]);
}

#[test]
fn reorder_target_finds_the_workspace_by_name() {
    let mut rec = Recorder::new(MockBackend::new(vec![Answer::Workspaces(vec![
        test_workspace(3, Some("dyn-a"), false),
        test_workspace(7, Some("dyn-b"), true),
    ])]));
    assert_eq!(reorder_target(&mut rec, "dyn-b"), Ok(7));
    let mut rec = Recorder::new(MockBackend::new(vec![Answer::Workspaces(vec![])]));
    assert_eq!(reorder_target(&mut rec, "dyn-b"), Err("workspace 'dyn-b' not found".to_string()));
}

#[test]
fn apply_column_order_focuses_then_moves_each_window() {
    let mut backend = MockBackend::new(vec![]);
    backend.unfocusable = Some(9);
    let mut rec = Recorder::new(backend);
    apply_column_order(&mut rec, &vec![Some(8), None, Some(9), Some(7)]);
    assert_eq!(
        *rec.backend.calls.borrow(),
        vec![Call::Focus(8), Call::MoveTo(1), Call::Focus(9), Call::Focus(7), Call::MoveTo(4)]
    );
}
