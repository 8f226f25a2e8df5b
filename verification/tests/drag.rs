use niri_groom::autoshow::Target;
use niri_groom::drag::{drop_fits_map, plan_drop, DragKind, DropTarget};
use niri_groom::model::Model;
use niri_groom::niri::{Layout, Logical, NiriAction, Output, Window, Workspace};
use niri_groom::snapshot::model_from;

fn ws(id: u64, idx: i64, output: &str) -> Workspace {
    Workspace {
        id,
        idx,
        name: Some(format!("ws{id}")),
        output: Some(output.to_string()),
        is_active: false,
        is_focused: false,
        is_urgent: false,
    }
}

fn win(id: u64, ws_id: u64, column: i64) -> Window {
    Window {
        id,
        title: None,
        app_id: None,
        workspace_id: Some(ws_id),
        is_focused: false,
        is_floating: false,
        is_urgent: false,
        layout: Some(Layout { pos_in_scrolling_layout: Some([column, 1]) }),
    }
}

fn out(name: &str, x: i64) -> Output {
    Output { name: name.to_string(), logical: Some(Logical { x, y: 0, width: 1920, height: 1080 }) }
}

/// eDP-1 holds workspaces 1 (idx 1) and 2 (idx 3; niri's idx 2 is an unnamed
/// empty one, off the map); HDMI-A-1 holds workspace 3. Workspace 1 has
/// windows in columns 1, 2 (twice) and 4.
fn map() -> Model {
    model_from(
        vec![ws(1, 1, "eDP-1"), ws(2, 3, "eDP-1"), ws(3, 1, "HDMI-A-1")],
        vec![win(10, 1, 1), win(11, 1, 2), win(12, 1, 2), win(13, 1, 4), win(20, 2, 1), win(30, 3, 1)],
        vec![out("eDP-1", 0), out("HDMI-A-1", 1920)],
    )
}

fn plan(p: &[NiriAction]) -> Vec<Vec<&str>> {
    p.iter().map(|a| a.args.iter().map(|s| s.as_str()).collect()).collect()
}

#[test]
fn a_workspace_dropped_on_its_own_output_moves_to_the_slots_index() {
    let p = plan_drop(&map(), DragKind::Workspace { id: 1 }, DropTarget::Workspace { o: 0, idx: 1 }).expect("plan");
    assert_eq!(p.focus, Target::Workspace(1));
    // Without the dragged one, slot 1 is past the last shown workspace (idx 3).
    assert_eq!(plan(&p.moves), [vec!["move-workspace-to-index", "4"]]);
    assert!(p.moves.iter().all(|a| a.best_effort));
    let p = plan_drop(&map(), DragKind::Workspace { id: 2 }, DropTarget::Workspace { o: 0, idx: 0 }).expect("plan");
    assert_eq!(plan(&p.moves), [vec!["move-workspace-to-index", "1"]]);
}

#[test]
fn a_workspace_dropped_on_another_output_moves_there_first() {
    let p = plan_drop(&map(), DragKind::Workspace { id: 1 }, DropTarget::Workspace { o: 1, idx: 0 }).expect("plan");
    assert_eq!(
        plan(&p.moves),
        [vec!["move-workspace-to-monitor", "HDMI-A-1"], vec!["move-workspace-to-index", "1"]]
    );
}

#[test]
fn a_column_moves_among_the_distinct_columns_of_its_workspace() {
    let kind = DragKind::Column { ws_id: 1, col: 2, win_id: 11 };
    let p = plan_drop(&map(), kind, DropTarget::Column { o: 0, wi: 0, idx: 1 }).expect("plan");
    assert_eq!(p.focus, Target::Window(11));
    // Columns 1, 2, 4 without the dragged 2: slot 1 is column 4.
    assert_eq!(plan(&p.moves), [vec!["move-column-to-index", "4"]]);
    let p = plan_drop(&map(), kind, DropTarget::Column { o: 0, wi: 0, idx: 5 }).expect("plan");
    assert_eq!(plan(&p.moves), [vec!["move-column-to-index", "5"]]);
}

#[test]
fn a_column_moves_to_another_workspace_on_the_same_or_another_output() {
    let kind = DragKind::Column { ws_id: 1, col: 1, win_id: 10 };
    let p = plan_drop(&map(), kind, DropTarget::Column { o: 0, wi: 1, idx: 0 }).expect("plan");
    assert_eq!(plan(&p.moves), [vec!["move-column-to-workspace", "3"]]);
    let p = plan_drop(&map(), kind, DropTarget::Column { o: 1, wi: 0, idx: 0 }).expect("plan");
    assert_eq!(
        plan(&p.moves),
        [vec!["move-column-to-monitor", "HDMI-A-1"], vec!["move-column-to-workspace", "1"]]
    );
}

#[test]
fn a_drop_of_the_wrong_kind_does_nothing() {
    assert!(plan_drop(&map(), DragKind::Workspace { id: 1 }, DropTarget::Column { o: 0, wi: 0, idx: 0 }).is_none());
    let kind = DragKind::Column { ws_id: 1, col: 1, win_id: 10 };
    assert!(plan_drop(&map(), kind, DropTarget::Workspace { o: 0, idx: 0 }).is_none());
}

#[test]
fn a_drop_on_a_slot_off_the_map_does_not_fit() {
    let m = map();
    let wk = DragKind::Workspace { id: 1 };
    let ck = DragKind::Column { ws_id: 1, col: 1, win_id: 10 };
    assert!(drop_fits_map(&m, wk, DropTarget::Workspace { o: 1, idx: 7 }));
    assert!(!drop_fits_map(&m, wk, DropTarget::Workspace { o: 2, idx: 0 }));
    assert!(drop_fits_map(&m, ck, DropTarget::Column { o: 0, wi: 1, idx: 0 }));
    assert!(!drop_fits_map(&m, ck, DropTarget::Column { o: 0, wi: 2, idx: 0 }));
    // A drop of the wrong kind reads nothing, so any slot fits.
    assert!(drop_fits_map(&m, wk, DropTarget::Column { o: 9, wi: 9, idx: 0 }));
    assert!(drop_fits_map(&m, ck, DropTarget::Workspace { o: 9, idx: 0 }));
}

#[test]
fn only_the_slot_past_the_last_can_overflow() {
    let m = model_from(
        vec![ws(1, 1, "eDP-1"), ws(2, i64::MAX, "eDP-1")],
        vec![win(10, 1, 1), win(11, 1, i64::MAX)],
        vec![out("eDP-1", 0)],
    );
    let wk = DragKind::Workspace { id: 1 };
    // A slot at an existing workspace lands on its index, whatever it is.
    assert!(drop_fits_map(&m, wk, DropTarget::Workspace { o: 0, idx: 0 }));
    let p = plan_drop(&m, wk, DropTarget::Workspace { o: 0, idx: 0 }).expect("plan");
    assert_eq!(plan(&p.moves), vec![vec!["move-workspace-to-index", "9223372036854775807"]]);
    // One past the last would need index i64::MAX + 1.
    assert!(!drop_fits_map(&m, wk, DropTarget::Workspace { o: 0, idx: 1 }));
    let ck = DragKind::Column { ws_id: 1, col: 1, win_id: 10 };
    assert!(drop_fits_map(&m, ck, DropTarget::Column { o: 0, wi: 0, idx: 0 }));
    assert!(!drop_fits_map(&m, ck, DropTarget::Column { o: 0, wi: 0, idx: 1 }));
}
