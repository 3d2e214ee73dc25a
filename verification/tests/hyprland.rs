use niri_dynamic_workspaces::hyprland::{
    close_window_dispatch, dispatch_argv, exec_dispatch, focus_window_dispatch, focus_workspace_dispatch,
    format_address, move_to_workspace_dispatch, parse_address, position_moves, triggers_cleanup,
    window_from_client, workspace_infos,
};

#[test]
fn parse_address_reads_hex_with_or_without_0x() {
    assert_eq!(parse_address("0x55a1b2c3"), 0x55a1_b2c3);
    assert_eq!(parse_address("55a1b2c3"), 0x55a1_b2c3);
    assert_eq!(parse_address("0xFF"), 255);
    assert_eq!(parse_address("+ff"), 255);
}

#[test]
fn parse_address_is_zero_when_not_an_address() {
    assert_eq!(parse_address(""), 0);
    assert_eq!(parse_address("0x"), 0);
    assert_eq!(parse_address("0xzz"), 0);
    assert_eq!(parse_address("-1"), 0);
    // Too large for 64 bits.
    assert_eq!(parse_address("0x1ffffffffffffffff"), 0);
    assert_eq!(parse_address("0xffffffffffffffff"), u64::MAX);
}

#[test]
fn format_address_round_trips() {
    assert_eq!(format_address(0x55a1_b2c3), "0x55a1b2c3");
    assert_eq!(format_address(0), "0x0");
    for id in [0, 1, 15, 16, 0xdead_beef, u64::MAX] {
        assert_eq!(parse_address(&format_address(id)), id);
    }
}

#[test]
fn dispatch_strings() {
    assert_eq!(focus_workspace_dispatch("dyn-a"), "workspace name:dyn-a");
    assert_eq!(move_to_workspace_dispatch("dyn-a"), "movetoworkspace name:dyn-a");
    assert_eq!(close_window_dispatch(255), "closewindow address:0xff");
    assert_eq!(focus_window_dispatch(16), "focuswindow address:0x10");
    assert_eq!(
        exec_dispatch(&vec!["kitty".to_string(), "--title".to_string(), "x".to_string()]),
        "exec kitty --title x"
    );
    assert_eq!(exec_dispatch(&vec![]), "exec ");
}

#[test]
fn dispatch_argv_splits_on_whitespace() {
    assert_eq!(
        dispatch_argv("  workspace   name:dyn-a "),
        vec!["dispatch", "--", "workspace", "name:dyn-a"]
    );
    assert_eq!(dispatch_argv(""), vec!["dispatch", "--"]);
}

#[test]
fn position_moves_go_left_then_right() {
    let moves = position_moves(3);
    assert_eq!(moves.len(), 22);
    assert!(moves[..20].iter().all(|m| *m == "movewindoworgroup l"));
    assert!(moves[20..].iter().all(|m| *m == "movewindoworgroup r"));
    assert_eq!(position_moves(0).len(), 20);
    assert_eq!(position_moves(1).len(), 20);
}

#[test]
fn triggers_cleanup_reads_the_event_type() {
    assert!(triggers_cleanup("workspace>>dyn-a"));
    assert!(triggers_cleanup("openwindow>>55a1,2,kitty,x"));
    assert!(triggers_cleanup("closewindow>>55a1"));
    assert!(triggers_cleanup("movewindow>>55a1,3"));
    assert!(triggers_cleanup("destroyworkspace>>dyn-a"));
    assert!(!triggers_cleanup("activewindow>>kitty,x"));
    assert!(!triggers_cleanup("workspacev2>>3,dyn-a"));
    assert!(!triggers_cleanup("workspace"));
    assert!(!triggers_cleanup(""));
}

#[test]
fn window_from_client_maps_fields() {
    let w = window_from_client("0x10", 3, "kitty".to_string(), true);
    assert_eq!(w.id, 16);
    assert_eq!(w.workspace_id, Some(3));
    assert_eq!(w.app_id.as_deref(), Some("kitty"));
    assert!(w.is_urgent);
    let special = window_from_client("0x11", -98, String::new(), false);
    assert_eq!(special.workspace_id, None);
    assert_eq!(special.app_id, None);
}

#[test]
fn workspace_infos_mark_focus_and_sort_by_output_then_index() {
    let workspaces = vec![
        (1, "dyn-a".to_string(), "HDMI-1".to_string()),
        (2, "mail".to_string(), "DP-1".to_string()),
        (3, "dyn-b".to_string(), "DP-1".to_string()),
    ];
    // DP-1 shows workspace 3 and has focus; HDMI-1 shows workspace 1.
    let monitors = vec![(true, 3), (false, 1)];
    let infos = workspace_infos(&workspaces, &monitors);
    let order: Vec<u64> = infos.iter().map(|i| i.id).collect();
    assert_eq!(order, vec![2, 3, 1]);
    assert_eq!(infos[0].idx, 2);
    assert_eq!(infos[1].idx, 3);
    assert_eq!(infos[2].idx, 1);
    assert!(infos[1].is_focused && !infos[1].is_active);
    assert!(!infos[2].is_focused && infos[2].is_active);
    assert!(!infos[0].is_focused && !infos[0].is_active);
    assert_eq!(infos[0].name.as_deref(), Some("mail"));
    assert_eq!(infos[0].output.as_deref(), Some("DP-1"));
}
