use niri_groom::niri::{
    close_window, focus_monitor, focus_window, focus_workspace_by_id, focused_window_id, focused_workspace_id,
    move_column, move_column_to_index, move_column_to_monitor, move_column_to_workspace, move_workspace,
    move_workspace_to_index, move_workspace_to_monitor, move_workspace_to_monitor_named, rename_focused_workspace,
    unset_workspace_name, Layout, NiriAction, Window, Workspace,
};

fn args(a: &NiriAction) -> Vec<&str> {
    a.args.iter().map(|s| s.as_str()).collect()
}

fn plan(p: &[NiriAction]) -> Vec<Vec<&str>> {
    p.iter().map(args).collect()
}

fn workspace(id: u64, idx: i64, name: Option<&str>, output: Option<&str>) -> Workspace {
    Workspace {
        id,
        idx,
        name: name.map(str::to_string),
        output: output.map(str::to_string),
        is_active: false,
        is_focused: false,
        is_urgent: false,
    }
}

fn window(id: u64, title: Option<&str>, app_id: Option<&str>) -> Window {
    Window {
        id,
        title: title.map(str::to_string),
        app_id: app_id.map(str::to_string),
        workspace_id: None,
        is_focused: false,
        is_floating: false,
        is_urgent: false,
        layout: None,
    }
}

#[test]
fn single_requests_carry_their_arguments() {
    assert_eq!(args(&close_window(42)), ["close-window", "--id", "42"]);
    assert_eq!(args(&focus_window(7)), ["focus-window", "--id", "7"]);
    assert_eq!(args(&focus_monitor("eDP-1")), ["focus-monitor", "eDP-1"]);
    assert_eq!(args(&unset_workspace_name("code")), ["unset-workspace-name", "code"]);
    assert_eq!(args(&move_workspace_to_monitor(true)), ["move-workspace-to-monitor-left"]);
    assert_eq!(args(&move_workspace_to_monitor(false)), ["move-workspace-to-monitor-right"]);
    assert_eq!(args(&move_workspace_to_monitor_named("HDMI-A-1")), ["move-workspace-to-monitor", "HDMI-A-1"]);
    assert_eq!(args(&move_workspace_to_index(-3)), ["move-workspace-to-index", "-3"]);
    assert_eq!(args(&move_column_to_index(2)), ["move-column-to-index", "2"]);
    assert_eq!(args(&move_column_to_workspace("4")), ["move-column-to-workspace", "4"]);
    assert_eq!(args(&move_column_to_monitor("DP-2")), ["move-column-to-monitor", "DP-2"]);
    assert!(!close_window(1).best_effort);
}

#[test]
fn a_workspace_is_focused_on_its_output_by_its_current_index() {
    let wss = vec![workspace(1, 1, None, Some("eDP-1")), workspace(9, 4, Some("web"), Some("HDMI-A-1"))];
    let p = focus_workspace_by_id(&wss, 9).expect("known workspace");
    assert_eq!(plan(&p), [vec!["focus-monitor", "HDMI-A-1"], vec!["focus-workspace", "4"]]);
    let wss = vec![workspace(3, 2, None, None)];
    let p = focus_workspace_by_id(&wss, 3).expect("known workspace");
    assert_eq!(plan(&p), [vec!["focus-workspace", "2"]]);
}

#[test]
fn focusing_a_vanished_workspace_is_an_error() {
    let wss = vec![workspace(1, 1, None, Some("eDP-1"))];
    assert_eq!(focus_workspace_by_id(&wss, 5).err(), Some("workspace 5 no longer exists".to_string()));
}

#[test]
fn renaming_goes_through_a_scratch_name_and_an_empty_name_unsets() {
    let p = rename_focused_workspace("Code");
    assert_eq!(plan(&p), [vec!["set-workspace-name", "\u{200b}Code"], vec!["set-workspace-name", "Code"]]);
    assert!(p[0].best_effort);
    assert!(!p[1].best_effort);
    let p = rename_focused_workspace("");
    assert_eq!(plan(&p), [vec!["unset-workspace-name"]]);
}

#[test]
fn moves_focus_first_then_act() {
    assert_eq!(plan(&move_column(5, true)), [vec!["focus-window", "--id", "5"], vec!["move-column-right"]]);
    assert_eq!(plan(&move_column(5, false)), [vec!["focus-window", "--id", "5"], vec!["move-column-left"]]);
    assert_eq!(
        plan(&move_workspace("eDP-1", 3, true)),
        [vec!["focus-monitor", "eDP-1"], vec!["focus-workspace", "3"], vec!["move-workspace-down"]]
    );
    assert_eq!(
        plan(&move_workspace("eDP-1", 3, false)),
        [vec!["focus-monitor", "eDP-1"], vec!["focus-workspace", "3"], vec!["move-workspace-up"]]
    );
}

#[test]
fn labels_fall_back_in_order() {
    assert_eq!(window(3, Some("Editor"), Some("code")).label(), "Editor");
    assert_eq!(window(3, Some(""), Some("code")).label(), "code");
    assert_eq!(window(3, None, None).label(), "window 3");
    assert_eq!(workspace(1, 2, Some("web"), None).label(), "2 web");
    assert_eq!(workspace(1, 2, Some(""), None).label(), "workspace 2");
    assert_eq!(workspace(1, -1, None, None).label(), "workspace -1");
}

#[test]
fn a_window_without_a_scrolling_position_is_in_column_one() {
    let mut w = window(1, None, None);
    assert_eq!((w.column(), w.row()), (1, 1));
    w.layout = Some(Layout { pos_in_scrolling_layout: Some([4, 2]) });
    assert_eq!((w.column(), w.row()), (4, 2));
    w.layout = Some(Layout { pos_in_scrolling_layout: None });
    assert_eq!((w.column(), w.row()), (1, 1));
}

#[test]
fn the_focused_window_and_workspace_are_found() {
    let mut ws = vec![window(1, None, None), window(2, None, None), window(3, None, None)];
    assert_eq!(focused_window_id(&ws), None);
    ws[1].is_focused = true;
    ws[2].is_focused = true;
    assert_eq!(focused_window_id(&ws), Some(2));
    let mut wss = vec![workspace(4, 1, None, None), workspace(5, 2, None, None)];
    assert_eq!(focused_workspace_id(&wss), None);
    wss[1].is_focused = true;
    assert_eq!(focused_workspace_id(&wss), Some(5));
}

#[test]
fn a_failed_request_ends_a_sequence_unless_it_is_best_effort() {
    let required = NiriAction { args: vec!["focus-window".to_string()], best_effort: false };
    let optional = NiriAction { args: vec!["move-column-to-index".to_string()], best_effort: true };
    assert!(required.continues_after(true));
    assert!(!required.continues_after(false));
    assert!(optional.continues_after(true));
    assert!(optional.continues_after(false));
}
