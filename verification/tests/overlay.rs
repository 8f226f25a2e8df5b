use niri_groom::autoshow::Target;
use niri_groom::model::Model;
use niri_groom::niri::{Layout, Logical, Output, Window, Workspace};
use niri_groom::overlay::{dismisses_overlay, is_bound_key, usable_mark_kinds, Command, Key, KeyName, State};
use niri_groom::snapshot::model_from;

fn ws(id: u64, idx: i64, name: Option<&str>, output: &str) -> Workspace {
    Workspace {
        id,
        idx,
        name: name.map(str::to_string),
        output: Some(output.to_string()),
        is_active: false,
        is_focused: false,
        is_urgent: false,
    }
}

fn win(id: u64, ws_id: u64, column: i64) -> Window {
    Window {
        id,
        title: None,
        app_id: None,
        workspace_id: Some(ws_id),
        is_focused: false,
        is_floating: false,
        is_urgent: false,
        layout: Some(Layout { pos_in_scrolling_layout: Some([column, 1]) }),
    }
}

fn out(name: &str, x: i64) -> Output {
    Output { name: name.to_string(), logical: Some(Logical { x, y: 0, width: 1920, height: 1080 }) }
}

/// eDP-1 holds "code" (windows 10, 11) and "web" (window 20); HDMI-A-1 holds
/// "chat" (window 30).
fn map() -> Model {
    model_from(
        vec![ws(1, 1, Some("code"), "eDP-1"), ws(2, 2, Some("web"), "eDP-1"), ws(3, 1, Some("chat"), "HDMI-A-1")],
        vec![win(10, 1, 1), win(11, 1, 2), win(20, 2, 1), win(30, 3, 1)],
        vec![out("eDP-1", 0), out("HDMI-A-1", 1920)],
    )
}

fn state() -> State {
    State::open(map(), &None, 0, 9, vec!['m', 'j'])
}

fn ch(c: char) -> Key {
    Key { name: KeyName::Other, ch: Some(c), ctrl: false, alt: false }
}

fn named(name: KeyName) -> Key {
    Key { name, ch: None, ctrl: false, alt: false }
}

fn ctrl(c: char) -> Key {
    Key { name: KeyName::Other, ch: Some(c), ctrl: true, alt: false }
}

#[test]
fn j_and_k_walk_the_workspaces_across_outputs() {
    let mut s = state();
    assert!(matches!(s.handle_key(ch('j')), Command::Redraw));
    assert!(matches!(s.handle_key(named(KeyName::Down)), Command::Redraw));
    assert_eq!(s.selected_ws_id(), Some(3));
    assert!(matches!(s.handle_key(ch('j')), Command::Ignore));
    assert!(matches!(s.handle_key(ch('k')), Command::Redraw));
    assert_eq!(s.selected_ws_id(), Some(2));
}

#[test]
fn h_and_l_walk_the_windows_and_clamp() {
    let mut s = state();
    assert!(matches!(s.handle_key(ch('h')), Command::Ignore));
    assert!(matches!(s.handle_key(ch('l')), Command::Redraw));
    assert_eq!(s.selected_win_id(), Some(11));
    assert!(matches!(s.handle_key(named(KeyName::Right)), Command::Ignore));
    // Moving to another workspace starts at its first window.
    s.handle_key(ch('j'));
    assert_eq!(s.selected_win_id(), Some(20));
}

#[test]
fn tab_jumps_between_outputs_and_solo_follows() {
    let mut s = state();
    assert!(matches!(s.handle_key(ch('s')), Command::Redraw));
    assert_eq!(s.solo, Some(0));
    assert!(matches!(s.handle_key(named(KeyName::Tab)), Command::Redraw));
    assert_eq!(s.selected_ws_id(), Some(3));
    assert_eq!(s.solo, Some(1));
    assert!(matches!(s.handle_key(named(KeyName::IsoLeftTab)), Command::Redraw));
    assert_eq!(s.selected_ws_id(), Some(1));
    s.handle_key(ch('s'));
    assert_eq!(s.solo, None);
}

#[test]
fn the_legend_toggles_and_escape_closes_it_before_quitting() {
    let mut s = state();
    s.handle_key(ch('?'));
    assert!(s.show_help);
    assert!(matches!(s.handle_key(named(KeyName::Escape)), Command::Redraw));
    assert!(!s.show_help);
    assert!(matches!(s.handle_key(named(KeyName::Escape)), Command::Quit));
    assert!(matches!(s.handle_key(ch('q')), Command::Quit));
}

#[test]
fn killing_names_the_windows_and_the_workspace() {
    let mut s = state();
    match s.handle_key(ch('w')) {
        Command::KillWorkspace { windows, name } => {
            assert_eq!(windows, vec![10, 11]);
            assert_eq!(name.as_deref(), Some("code"));
        }
        _ => panic!("expected a kill"),
    }
    match s.handle_key(ch('x')) {
        Command::CloseWindow { window } => assert_eq!(window, 10),
        _ => panic!("expected a close"),
    }
}

#[test]
fn moves_name_their_targets() {
    let mut s = state();
    match s.handle_key(ch('J')) {
        Command::MoveWorkspace { output, idx, down } => {
            assert_eq!((output.as_str(), idx, down), ("eDP-1", 1, true));
        }
        _ => panic!("expected a workspace move"),
    }
    match s.handle_key(ctrl('L')) {
        Command::MoveColumn { window, right } => assert_eq!((window, right), (10, true)),
        _ => panic!("expected a column move"),
    }
    match s.handle_key(ch('H')) {
        Command::MoveWorkspaceToMonitor { workspace, left } => assert_eq!((workspace, left), (1, true)),
        _ => panic!("expected a monitor move"),
    }
}

#[test]
fn enter_activates_the_selected_window_on_its_output() {
    let mut s = state();
    match s.handle_key(named(KeyName::Return)) {
        Command::Activate { window, workspace, output } => {
            assert_eq!(window, Some(10));
            assert_eq!(workspace, Some(1));
            assert_eq!(output.as_deref(), Some("eDP-1"));
        }
        _ => panic!("expected an activation"),
    }
    assert!(dismisses_overlay(&Some("eDP-1".to_string()), &Some("eDP-1".to_string())));
    assert!(!dismisses_overlay(&Some("eDP-1".to_string()), &Some("HDMI-A-1".to_string())));
    assert!(dismisses_overlay(&None, &Some("HDMI-A-1".to_string())));
}

#[test]
fn renaming_edits_inline_and_commits_the_trimmed_name() {
    let mut s = state();
    assert!(matches!(s.handle_key(ch('r')), Command::Redraw));
    assert_eq!(s.editing.as_ref().map(|e| e.text()), Some("code".to_string()));
    // While the field is open, letters type instead of navigating.
    s.handle_key(ch('j'));
    s.handle_key(Key { name: KeyName::BackSpace, ch: None, ctrl: false, alt: true });
    s.handle_key(ch(' '));
    s.handle_key(ch('x'));
    s.handle_key(ch(' '));
    match s.handle_key(named(KeyName::Return)) {
        Command::Rename { workspace, name } => {
            assert_eq!(workspace, Some(1));
            assert_eq!(name, "x");
        }
        _ => panic!("expected a rename"),
    }
    assert!(s.editing.is_none());
}

#[test]
fn escape_or_ctrl_g_abandons_the_rename() {
    let mut s = state();
    s.handle_key(ch('r'));
    s.handle_key(ctrl('G'));
    assert!(s.editing.is_none());
    s.handle_key(ch('r'));
    assert!(matches!(s.handle_key(named(KeyName::Escape)), Command::Redraw));
    assert!(s.editing.is_none());
    assert_eq!(s.selected_ws_id(), Some(1));
}

#[test]
fn the_rename_field_ignores_control_characters_and_unbound_chords() {
    let mut s = state();
    s.handle_key(ch('r'));
    assert!(matches!(s.handle_key(ch('\u{7}')), Command::Ignore));
    assert!(matches!(s.handle_key(ctrl('z')), Command::Ignore));
    assert!(matches!(s.handle_key(ctrl('a')), Command::Redraw));
    assert_eq!(s.editing.as_ref().map(|e| e.cursor), Some(0));
}

#[test]
fn the_picker_wraps_and_saves_or_reverts() {
    let mut s = state();
    s.handle_key(ch('t'));
    assert_eq!(s.picker, Some(0));
    assert!(matches!(s.handle_key(named(KeyName::Up)), Command::Redraw));
    assert_eq!(s.picker, Some(8));
    assert_eq!(s.shown_theme(), 8);
    s.handle_key(ch('j'));
    assert_eq!(s.picker, Some(0));
    s.handle_key(ch('j'));
    match s.handle_key(named(KeyName::KpEnter)) {
        Command::SaveTheme { index } => assert_eq!(index, 1),
        _ => panic!("expected a save"),
    }
    assert_eq!((s.theme_idx, s.picker), (1, None));
    s.handle_key(ch('t'));
    s.handle_key(ch('j'));
    s.handle_key(ch('q'));
    assert_eq!((s.theme_idx, s.picker, s.shown_theme()), (1, None, 1));
}

#[test]
fn a_mark_key_toggles_a_named_workspace_and_renames_an_unnamed_one() {
    let mut s = state();
    match s.handle_key(ch('m')) {
        Command::ToggleMark { kind, workspace } => assert_eq!((kind, workspace.as_str()), (0, "code")),
        _ => panic!("expected a mark toggle"),
    }
    // `j` is a built-in binding, so the kind declared on it is ignored.
    assert!(matches!(s.handle_key(ch('j')), Command::Redraw));
    let m = model_from(vec![ws(5, 1, None, "eDP-1")], vec![win(50, 5, 1)], vec![out("eDP-1", 0)]);
    let mut s = State::open(m, &None, 0, 9, vec!['m']);
    assert!(matches!(s.handle_key(ch('m')), Command::Redraw));
    assert_eq!(s.editing.as_ref().map(|e| e.text()), Some(String::new()));
    let mut s = state();
    assert!(matches!(s.handle_key(ch('f')), Command::ToggleAutoShow));
    assert!(matches!(s.handle_key(ch('z')), Command::Ignore));
}

#[test]
fn the_overlay_opens_on_the_soloed_output_or_the_focused_workspace() {
    let s = State::open(map(), &Some("HDMI-A-1".to_string()), 0, 9, Vec::new());
    assert_eq!(s.solo, Some(1));
    assert_eq!(s.selected_ws_id(), Some(3));
    let mut wss = vec![ws(1, 1, Some("code"), "eDP-1"), ws(2, 2, Some("web"), "eDP-1")];
    wss[1].is_focused = true;
    let m = model_from(wss, vec![win(10, 1, 1)], vec![out("eDP-1", 0)]);
    let s = State::open(m, &Some("DP-9".to_string()), 0, 9, Vec::new());
    assert_eq!(s.solo, None);
    assert_eq!(s.selected_ws_id(), Some(2));
    assert_eq!(s.selection_target(), Some(Target::Workspace(2)));
}

#[test]
fn a_refresh_keeps_the_selection_on_the_same_workspace_and_window() {
    let mut s = state();
    s.handle_key(ch('l'));
    assert_eq!(s.selected_win_id(), Some(11));
    // A new workspace appears before "code": the selection follows by id.
    let fresh = model_from(
        vec![ws(9, 1, Some("new"), "eDP-1"), ws(1, 2, Some("code"), "eDP-1")],
        vec![win(90, 9, 1), win(11, 1, 1), win(10, 1, 2)],
        vec![out("eDP-1", 0)],
    );
    s.refresh(Some(fresh));
    assert_eq!(s.selected_ws_id(), Some(1));
    assert_eq!(s.selected_win_id(), Some(11));
    assert_eq!(s.sel_win, 0);
    // The workspace disappears: the selection stays on the map.
    let fresh = model_from(vec![ws(9, 1, Some("new"), "eDP-1")], vec![win(90, 9, 1)], vec![out("eDP-1", 0)]);
    s.refresh(Some(fresh));
    assert_eq!((s.sel_nav, s.sel_win), (0, 0));
    s.refresh(None);
    assert_eq!(s.selected_ws_id(), Some(9));
}

#[test]
fn only_mark_kinds_a_key_can_toggle_are_usable() {
    assert!(is_bound_key('j'));
    assert!(is_bound_key('?'));
    assert!(!is_bound_key('m'));
    assert!(!is_bound_key('b'));
    // 'j' is a built-in key; the second 'm' is shadowed by the first.
    let keys = vec!['m', 'j', 'b', 'm', 'x', 'c'];
    assert_eq!(usable_mark_kinds(&keys), vec![0, 2, 5]);
    assert!(usable_mark_kinds(&Vec::new()).is_empty());
}
