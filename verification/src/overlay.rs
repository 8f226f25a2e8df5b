//! The overlay's keyboard rules: what a keystroke does to the selection, the
//! rename field and the theme picker, and which request it leaves for the
//! application to carry out. Talking to niri, to the config file and to the
//! badge commands happens around the library; each key handler returns a
//! [`Command`] naming that work, and the application hands a fresh model back
//! through [`State::refresh`].

use vstd::prelude::*;
use crate::autoshow::{AutoShow, Target, target_for};
use crate::edit::{Edit, prev_word_of, next_word_of};
use crate::model::{
    Model, WsShape, WsView, model_shape, nav_step, clamp, output_step, first_nav_of,
    step_nav, step_output, step_win,
};
use crate::text::{is_control, char_is_control, trim, trim_chars, string_of};

verus! {

/// The keys the overlay tells apart by name.
#[derive(Clone, Copy, PartialEq, Eq, Debug, Structural)]
pub enum KeyName {
    Escape,
    Return,
    KpEnter,
    Up,
    Down,
    Left,
    Right,
    Tab,
    IsoLeftTab,
    BackSpace,
    Delete,
    Home,
    End,
    Other,
}

/// A keystroke: the key, the character it types (if any), and whether Ctrl
/// or Alt is held.
#[derive(Clone, Copy, PartialEq, Eq, Debug, Structural)]
pub struct Key {
    pub name: KeyName,
    pub ch: Option<char>,
    pub ctrl: bool,
    pub alt: bool,
}

/// The overlay's state apart from drawing: the map, the selection on it, and
/// the open modal, if any.
pub struct State {
    pub model: Model,
    /// Index into `model.nav`: the selected workspace.
    pub sel_nav: usize,
    /// Index into the selected workspace's windows.
    pub sel_win: usize,
    /// When renaming, the line editor for the selected workspace.
    pub editing: Option<Edit>,
    /// How many themes the picker offers, and the index of the saved one.
    pub theme_count: usize,
    pub theme_idx: usize,
    /// When the theme picker is open, the highlighted theme (applied live).
    pub picker: Option<usize>,
    /// Whether the key legend is shown.
    pub show_help: bool,
    /// When `Some(o)`, solo mode: only output `o` is shown, full-width.
    pub solo: Option<usize>,
    /// The auto-show mode's bookkeeping.
    pub auto_show: AutoShow,
    /// The keys of the declared mark kinds, in config order.
    pub mark_keys: Vec<char>,
}

/// Whether `b` keeps all of `a` but the selection and solo mode.
pub open spec fn same_but_selection(a: State, b: State) -> bool {
    &&& b.model == a.model
    &&& b.editing == a.editing
    &&& b.picker == a.picker
    &&& b.theme_idx == a.theme_idx
    &&& b.theme_count == a.theme_count
    &&& b.show_help == a.show_help
    &&& b.mark_keys == a.mark_keys
    &&& b.auto_show == a.auto_show
}

/// The selected workspace of the map, if the selection points at one.
pub open spec fn selected(m: Model, sel_nav: usize) -> Option<WsShape> {
    let shapes = model_shape(m);
    if sel_nav < m.nav@.len() {
        let (o, w) = m.nav@[sel_nav as int];
        if o < shapes.len() && w < shapes[o as int].1.len() {
            Some(shapes[o as int].1[w as int])
        } else {
            None
        }
    } else {
        None
    }
}

/// The id of the selected workspace.
pub open spec fn selected_ws_id(m: Model, sel_nav: usize) -> Option<u64> {
    match selected(m, sel_nav) {
        Some(v) => Some(v.0.id),
        None => None,
    }
}

/// The id of the selected window.
pub open spec fn selected_win_id(m: Model, sel_nav: usize, sel_win: usize) -> Option<u64> {
    match selected(m, sel_nav) {
        Some(v) => if sel_win < v.1.len() { Some(v.1[sel_win as int].id) } else { None },
        None => None,
    }
}

/// How many windows the selected workspace holds.
pub open spec fn selected_count(m: Model, sel_nav: usize) -> int {
    match selected(m, sel_nav) {
        Some(v) => v.1.len() as int,
        None => 0,
    }
}

/// Whether nav entry `i` is niri's focused workspace.
pub open spec fn nav_focused(m: Model, i: int) -> bool {
    let shapes = model_shape(m);
    let (o, w) = m.nav@[i];
    o < shapes.len() && w < shapes[o as int].1.len() && shapes[o as int].1[w as int].0.is_focused
}

/// The output of the selection (the first when there is none).
pub open spec fn selected_output(m: Model, sel_nav: usize) -> usize {
    if sel_nav < m.nav@.len() {
        m.nav@[sel_nav as int].0
    } else {
        0
    }
}

impl State {
    /// The selected workspace, if any.
    pub fn sel_ws(&self) -> (r: Option<&WsView>)
        ensures
            match r {
                Some(v) => selected(self.model, self.sel_nav) == Some(crate::model::ws_shape(*v)),
                None => selected(self.model, self.sel_nav) is None,
            },
    {
        if self.sel_nav >= self.model.nav.len() {
            return None;
        }
        let (o, w) = self.model.nav[self.sel_nav];
        if o >= self.model.outputs.len() {
            return None;
        }
        assert(model_shape(self.model)[o as int] == crate::model::output_shape(self.model.outputs@[o as int]));
        if w >= self.model.outputs[o].workspaces.len() {
            return None;
        }
        Some(&self.model.outputs[o].workspaces[w])
    }

    /// The id of the selected workspace.
    pub fn selected_ws_id(&self) -> (r: Option<u64>)
        ensures
            r == selected_ws_id(self.model, self.sel_nav),
    {
        match self.sel_ws() {
            Some(v) => Some(v.ws.id),
            None => None,
        }
    }

    /// The id of the selected window.
    pub fn selected_win_id(&self) -> (r: Option<u64>)
        ensures
            r == selected_win_id(self.model, self.sel_nav, self.sel_win),
    {
        match self.sel_ws() {
            Some(v) => if self.sel_win < v.windows.len() { Some(v.windows[self.sel_win].id) } else { None },
            None => None,
        }
    }

    /// The output of the selection.
    pub fn sel_output(&self) -> (r: usize)
        ensures
            r == selected_output(self.model, self.sel_nav),
    {
        if self.sel_nav < self.model.nav.len() {
            self.model.nav[self.sel_nav].0
        } else {
            0
        }
    }

    /// The focus target of the selection: its window, or the workspace when
    /// it holds none.
    pub fn selection_target(&self) -> (r: Option<Target>)
        ensures
            r == (match (selected_win_id(self.model, self.sel_nav, self.sel_win), selected_ws_id(self.model, self.sel_nav)) {
                (Some(id), _) => Some(Target::Window(id)),
                (None, Some(id)) => Some(Target::Workspace(id)),
                (None, None) => None::<Target>,
            }),
    {
        target_for(self.selected_win_id(), self.selected_ws_id())
    }

    /// The nav index of niri's focused workspace, so the overlay opens where
    /// the user is looking (the first workspace when none is focused).
    pub fn focused_nav(&self) -> (r: usize)
        ensures
            r == 0 || (r < self.model.nav@.len() && nav_focused(self.model, r as int)),
            forall|i: int| 0 <= i < r ==> !#[trigger] nav_focused(self.model, i),
            r == 0 && !(self.model.nav@.len() > 0 && nav_focused(self.model, 0))
                ==> forall|i: int| 0 <= i < self.model.nav@.len() ==> !#[trigger] nav_focused(self.model, i),
    {
        let ghost shapes = model_shape(self.model);
        let mut i: usize = 0;
        while i < self.model.nav.len()
            invariant
                i <= self.model.nav@.len(),
                shapes == model_shape(self.model),
                forall|j: int| 0 <= j < i ==> !#[trigger] nav_focused(self.model, j),
            decreases self.model.nav.len() - i,
        {
            let (o, w) = self.model.nav[i];
            if o < self.model.outputs.len() {
                assert(shapes[o as int] == crate::model::output_shape(self.model.outputs@[o as int]));
                if w < self.model.outputs[o].workspaces.len() {
                    assert(shapes[o as int].1[w as int] == crate::model::ws_shape(self.model.outputs@[o as int].workspaces@[w as int]));
                    if self.model.outputs[o].workspaces[w].ws.is_focused {
                        return i;
                    }
                }
            }
            i += 1;
        }
        0
    }

    /// Step the workspace selection by `delta` over the nav order (see
    /// `step_nav`); a new selection starts at its first window. True when the
    /// selection moved.
    pub fn move_ws(&mut self, delta: i32) -> (moved: bool)
        ensures
            same_but_selection(*old(self), *final(self)),
            final(self).solo == old(self).solo,
            match nav_step(old(self).model.nav@, old(self).sel_nav as int, delta as int, old(self).solo) {
                Some(n) if n != old(self).sel_nav => {
                    &&& moved
                    &&& final(self).sel_nav == n
                    &&& final(self).sel_win == 0
                },
                _ => {
                    &&& !moved
                    &&& final(self).sel_nav == old(self).sel_nav
                    &&& final(self).sel_win == old(self).sel_win
                },
            },
    {
        match step_nav(self.model.nav.as_slice(), self.sel_nav, delta, self.solo) {
            Some(n) => {
                if n != self.sel_nav {
                    self.sel_nav = n;
                    self.sel_win = 0;
                    true
                } else {
                    false
                }
            },
            None => false,
        }
    }

    /// Step the window selection by `delta` within the selected workspace;
    /// both ends clamp. True when the selection moved.
    pub fn move_win(&mut self, delta: i32) -> (moved: bool)
        ensures
            same_but_selection(*old(self), *final(self)),
            final(self).sel_nav == old(self).sel_nav,
            final(self).solo == old(self).solo,
            ({
                let count = selected_count(old(self).model, old(self).sel_nav);
                let next = clamp(old(self).sel_win + delta, 0, count - 1);
                if count > 0 && next != old(self).sel_win {
                    moved && final(self).sel_win == next
                } else {
                    !moved && final(self).sel_win == old(self).sel_win
                }
            }),
    {
        let count = match self.sel_ws() {
            Some(v) => v.windows.len(),
            None => 0,
        };
        if count == 0 {
            return false;
        }
        let next = step_win(count, self.sel_win, delta);
        if next != self.sel_win {
            self.sel_win = next;
            true
        } else {
            false
        }
    }

    /// Jump the selection to the first workspace of the next or previous
    /// output, wrapping around; in solo mode the shown output follows. True
    /// when the selection moved.
    pub fn move_output(&mut self, delta: i32) -> (moved: bool)
        ensures
            same_but_selection(*old(self), *final(self)),
            ({
                let n_out = old(self).model.outputs@.len();
                let next = output_step(selected_output(old(self).model, old(self).sel_nav) as int, delta as int, n_out as int);
                let target = first_nav_of(old(self).model.nav@, next as usize);
                if n_out >= 2 && target is Some && target->0 != old(self).sel_nav {
                    &&& moved
                    &&& final(self).sel_nav == target->0
                    &&& final(self).sel_win == 0
                    &&& final(self).solo == (if old(self).solo is Some { Some(next as usize) } else { None })
                } else {
                    &&& !moved
                    &&& final(self).sel_nav == old(self).sel_nav
                    &&& final(self).sel_win == old(self).sel_win
                    &&& final(self).solo == old(self).solo
                }
            }),
    {
        let n_out = self.model.outputs.len();
        match step_output(self.model.nav.as_slice(), self.sel_nav, n_out, delta) {
            Some((idx, next)) => {
                if idx != self.sel_nav {
                    self.sel_nav = idx;
                    self.sel_win = 0;
                    if self.solo.is_some() {
                        self.solo = Some(next);
                    }
                    true
                } else {
                    false
                }
            },
            None => false,
        }
    }
}

/// The id of the workspace at nav index `i`.
pub open spec fn ws_id_at(m: Model, i: int) -> Option<u64> {
    if 0 <= i < m.nav@.len() { selected_ws_id(m, i as usize) } else { None }
}

/// The first nav index whose workspace has id `id`.
pub open spec fn nav_index_of(m: Model, id: u64) -> Option<usize> {
    if exists|i: int| 0 <= i < m.nav@.len() && #[trigger] ws_id_at(m, i) == Some(id) {
        Some((choose|i: int| 0 <= i < m.nav@.len() && #[trigger] ws_id_at(m, i) == Some(id)
            && forall|j: int| 0 <= j < i ==> #[trigger] ws_id_at(m, j) != Some(id)) as usize)
    } else {
        None
    }
}

/// The first position of the window with id `id`.
pub open spec fn window_index_of(ws: Seq<crate::niri::Window>, id: u64) -> Option<usize> {
    if exists|i: int| 0 <= i < ws.len() && ws[i].id == id {
        Some((choose|i: int| 0 <= i < ws.len() && ws[i].id == id
            && forall|j: int| 0 <= j < i ==> ws[j].id != id) as usize)
    } else {
        None
    }
}

/// The workspace selection after the map `m` replaces the one of `old`: the
/// previously selected workspace wherever it now is, else the same index,
/// held within the map.
pub open spec fn reselected_nav(m: Model, prev_ws: Option<u64>, sel_nav: usize) -> usize {
    let found = match prev_ws {
        Some(id) => match nav_index_of(m, id) {
            Some(i) => i,
            None => sel_nav,
        },
        None => sel_nav,
    };
    if found >= m.nav@.len() {
        if m.nav@.len() == 0 { 0 } else { (m.nav@.len() - 1) as usize }
    } else {
        found
    }
}

/// The window selection after a refresh: the previously selected window
/// wherever it now is in the selected workspace, else the same index, held
/// within the workspace.
pub open spec fn reselected_win(m: Model, nav: usize, prev_win: Option<u64>, sel_win: usize) -> usize {
    let count = selected_count(m, nav);
    let found = match (prev_win, selected(m, nav)) {
        (Some(id), Some(v)) => match window_index_of(v.1, id) {
            Some(k) => k,
            None => sel_win,
        },
        _ => sel_win,
    };
    if count == 0 {
        0
    } else if found >= count {
        (count - 1) as usize
    } else {
        found
    }
}

impl State {
    fn nav_index_of(&self, id: u64) -> (r: Option<usize>)
        ensures
            r == nav_index_of(self.model, id),
    {
        let mut i: usize = 0;
        while i < self.model.nav.len()
            invariant
                i <= self.model.nav@.len(),
                forall|j: int| 0 <= j < i ==> #[trigger] ws_id_at(self.model, j) != Some(id),
            decreases self.model.nav.len() - i,
        {
            let probe = State::ws_id_at(&self.model, i);
            if probe == Some(id) {
                assert(nav_index_of(self.model, id) == Some(i)) by {
                    assert(ws_id_at(self.model, i as int) == Some(id));
                    let k = choose|k: int| 0 <= k < self.model.nav@.len() && #[trigger] ws_id_at(self.model, k) == Some(id)
                        && forall|j: int| 0 <= j < k ==> #[trigger] ws_id_at(self.model, j) != Some(id);
                    if k < i { } else if k > i { }
                }
                return Some(i);
            }
            i += 1;
        }
        None
    }

    fn ws_id_at(m: &Model, i: usize) -> (r: Option<u64>)
        ensures
            r == selected_ws_id(*m, i),
    {
        if i >= m.nav.len() {
            return None;
        }
        let (o, w) = m.nav[i];
        if o >= m.outputs.len() {
            return None;
        }
        assert(model_shape(*m)[o as int] == crate::model::output_shape(m.outputs@[o as int]));
        if w >= m.outputs[o].workspaces.len() {
            return None;
        }
        assert(model_shape(*m)[o as int].1[w as int] == crate::model::ws_shape(m.outputs@[o as int].workspaces@[w as int]));
        Some(m.outputs[o].workspaces[w].ws.id)
    }

    fn reselect_nav(&self, prev_ws: Option<u64>) -> (r: usize)
        ensures
            r == reselected_nav(self.model, prev_ws, self.sel_nav),
    {
        let found = match prev_ws {
            Some(id) => match self.nav_index_of(id) {
                Some(i) => i,
                None => self.sel_nav,
            },
            None => self.sel_nav,
        };
        if found >= self.model.nav.len() {
            if self.model.nav.len() == 0 { 0 } else { self.model.nav.len() - 1 }
        } else {
            found
        }
    }

    fn window_index(v: &WsView, id: u64) -> (r: Option<usize>)
        ensures
            r == window_index_of(v.windows@, id),
    {
        let mut k: usize = 0;
        while k < v.windows.len()
            invariant
                k <= v.windows@.len(),
                forall|j: int| 0 <= j < k ==> v.windows@[j].id != id,
            decreases v.windows.len() - k,
        {
            if v.windows[k].id == id {
                assert(window_index_of(v.windows@, id) == Some(k)) by {
                    let c = choose|c: int| 0 <= c < v.windows@.len() && v.windows@[c].id == id
                        && forall|j: int| 0 <= j < c ==> v.windows@[j].id != id;
                    if c < k { } else if c > k { }
                }
                return Some(k);
            }
            k += 1;
        }
        None
    }

    fn reselect_win(&self, prev_win: Option<u64>) -> (r: usize)
        ensures
            r == reselected_win(self.model, self.sel_nav, prev_win, self.sel_win),
    {
        let sel = self.sel_ws();
        let count = match sel {
            Some(v) => v.windows.len(),
            None => 0,
        };
        let found = match (prev_win, sel) {
            (Some(id), Some(v)) => match State::window_index(v, id) {
                Some(k) => k,
                None => self.sel_win,
            },
            _ => self.sel_win,
        };
        if count == 0 {
            0
        } else if found >= count {
            count - 1
        } else {
            found
        }
    }

    /// Take in a fresh map (or keep the current one when niri could not be
    /// read), keeping the selection on the same workspace and window by id
    /// where they still exist, and within the map otherwise.
    pub fn refresh(&mut self, fresh: Option<Model>)
        ensures
            final(self).model == (match fresh {
                Some(m) => m,
                None => old(self).model,
            }),
            final(self).sel_nav == reselected_nav(final(self).model, selected_ws_id(old(self).model, old(self).sel_nav), old(self).sel_nav),
            final(self).sel_win == reselected_win(final(self).model, final(self).sel_nav,
                selected_win_id(old(self).model, old(self).sel_nav, old(self).sel_win), old(self).sel_win),
            final(self).editing == old(self).editing,
            final(self).picker == old(self).picker,
            final(self).theme_idx == old(self).theme_idx,
            final(self).theme_count == old(self).theme_count,
            final(self).show_help == old(self).show_help,
            final(self).solo == old(self).solo,
            final(self).mark_keys == old(self).mark_keys,
            final(self).auto_show == old(self).auto_show,
    {
        let prev_ws = self.selected_ws_id();
        let prev_win = self.selected_win_id();
        match fresh {
            Some(m) => {
                self.model = m;
            },
            None => {},
        }
        self.sel_nav = self.reselect_nav(prev_ws);
        self.sel_win = self.reselect_win(prev_win);
    }
}

/// What a keystroke leaves for the application to do.
#[allow(inconsistent_fields)]
pub enum Command {
    /// Nothing changed: no redraw.
    Ignore,
    /// The state changed: redraw.
    Redraw,
    /// Close the overlay.
    Quit,
    /// Focus the selected window (or, with none, the selected workspace),
    /// then close the overlay when the target is on the overlay's own output
    /// (or either output is unknown); else keep it as a map and redraw.
    Activate { window: Option<u64>, workspace: Option<u64>, output: Option<String> },
    /// Close a window, refresh, redraw.
    CloseWindow { window: u64 },
    /// Close every window of the selected workspace, then unset its name when
    /// it has one (so niri reclaims it), refresh, redraw.
    KillWorkspace { windows: Vec<u64>, name: Option<String> },
    /// Move a workspace up or down within its output (`niri::move_workspace`),
    /// with niri's focus restored afterwards; refresh, redraw.
    MoveWorkspace { output: String, idx: i64, down: bool },
    /// Move a window's column left or right (`niri::move_column`), with niri's
    /// focus restored afterwards; refresh, redraw.
    MoveColumn { window: u64, right: bool },
    /// Focus a workspace and move it to the output on the left or right, with
    /// niri's focus restored afterwards; refresh, redraw.
    MoveWorkspaceToMonitor { workspace: u64, left: bool },
    /// Focus the workspace (when there is one) and rename it, with niri's
    /// focus restored afterwards; refresh, redraw.
    Rename { workspace: Option<u64>, name: String },
    /// Save the theme at this index to the config; redraw.
    SaveTheme { index: usize },
    /// Run the command of the mark kind at this index on the named
    /// workspace, refresh, redraw.
    ToggleMark { kind: usize, workspace: String },
    /// Switch auto-show off, or on seeded with niri's current focus; redraw.
    ToggleAutoShow,
}

/// A command as plain values.
#[allow(inconsistent_fields)]
pub enum CommandShape {
    Ignore,
    Redraw,
    Quit,
    Activate { window: Option<u64>, workspace: Option<u64>, output: Option<Seq<char>> },
    CloseWindow { window: u64 },
    KillWorkspace { windows: Seq<u64>, name: Option<Seq<char>> },
    MoveWorkspace { output: Seq<char>, idx: i64, down: bool },
    MoveColumn { window: u64, right: bool },
    MoveWorkspaceToMonitor { workspace: u64, left: bool },
    Rename { workspace: Option<u64>, name: Seq<char> },
    SaveTheme { index: usize },
    ToggleMark { kind: usize, workspace: Seq<char> },
    ToggleAutoShow,
}

pub open spec fn opt_text(t: Option<String>) -> Option<Seq<char>> {
    match t {
        Some(s) => Some(s@),
        None => None,
    }
}

pub open spec fn command_shape(c: Command) -> CommandShape {
    match c {
        Command::Ignore => CommandShape::Ignore,
        Command::Redraw => CommandShape::Redraw,
        Command::Quit => CommandShape::Quit,
        Command::Activate { window, workspace, output } =>
            CommandShape::Activate { window, workspace, output: opt_text(output) },
        Command::CloseWindow { window } => CommandShape::CloseWindow { window },
        Command::KillWorkspace { windows, name } =>
            CommandShape::KillWorkspace { windows: windows@, name: opt_text(name) },
        Command::MoveWorkspace { output, idx, down } => CommandShape::MoveWorkspace { output: output@, idx, down },
        Command::MoveColumn { window, right } => CommandShape::MoveColumn { window, right },
        Command::MoveWorkspaceToMonitor { workspace, left } => CommandShape::MoveWorkspaceToMonitor { workspace, left },
        Command::Rename { workspace, name } => CommandShape::Rename { workspace, name: name@ },
        Command::SaveTheme { index } => CommandShape::SaveTheme { index },
        Command::ToggleMark { kind, workspace } => CommandShape::ToggleMark { kind, workspace: workspace@ },
        Command::ToggleAutoShow => CommandShape::ToggleAutoShow,
    }
}

/// The parts of the state a keystroke can change, as plain values: the
/// selection, the rename field (its text and cursor), the picker, the saved
/// theme, the legend and solo mode.
pub struct Ui {
    pub sel_nav: usize,
    pub sel_win: usize,
    pub editing: Option<(Seq<char>, int)>,
    pub picker: Option<usize>,
    pub theme_idx: usize,
    pub show_help: bool,
    pub solo: Option<usize>,
}

pub open spec fn edit_shape(e: Option<Edit>) -> Option<(Seq<char>, int)> {
    match e {
        Some(e) => Some((e.buf@, e.cursor as int)),
        None => None,
    }
}

pub open spec fn ui_of(s: State) -> Ui {
    Ui {
        sel_nav: s.sel_nav,
        sel_win: s.sel_win,
        editing: edit_shape(s.editing),
        picker: s.picker,
        theme_idx: s.theme_idx,
        show_help: s.show_help,
        solo: s.solo,
    }
}

/// `c` with an ASCII capital made small, as `char::to_ascii_lowercase` does.
pub open spec fn ascii_lower(c: char) -> char {
    if 'A' <= c && c <= 'Z' {
        (c as u32 + 32) as char
    } else {
        c
    }
}

pub open spec fn lower(ch: Option<char>) -> Option<char> {
    match ch {
        Some(c) => Some(ascii_lower(c)),
        None => None,
    }
}

fn lowered(ch: Option<char>) -> (r: Option<char>)
    ensures
        r == lower(ch),
{
    match ch {
        Some(c) => {
            if 'A' <= c && c <= 'Z' {
                let b = (c as u8) + 32;
                assert((c as u32 + 32) as char == (b as char));
                Some(b as char)
            } else {
                Some(c)
            }
        },
        None => None,
    }
}


/// What an editing key does to the rename field's text and cursor, with
/// readline (Emacs) bindings; nothing when the key is not one of them.
pub open spec fn edit_op(e: (Seq<char>, int), k: Key) -> Option<(Seq<char>, int)> {
    let b = e.0;
    let c = e.1;
    let lc = lower(k.ch);
    let left = (b, if c > 0 { c - 1 } else { 0 });
    let right = (b, if c < b.len() { c + 1 } else { c });
    let backspace = if c > 0 { (b.remove(c - 1), c - 1) } else { e };
    let delete = if c < b.len() { (b.remove(c), c) } else { e };
    let start = prev_word_of(b, c);
    let kill_word_left = (b.take(start) + b.skip(c), start);
    if k.ctrl {
        if lc == Some('a') {
            Some((b, 0))
        } else if lc == Some('e') {
            Some((b, b.len() as int))
        } else if lc == Some('b') {
            Some(left)
        } else if lc == Some('f') {
            Some(right)
        } else if lc == Some('d') {
            Some(delete)
        } else if lc == Some('h') {
            Some(backspace)
        } else if lc == Some('k') {
            Some((b.take(c), c))
        } else if lc == Some('u') {
            Some((b.skip(c), 0int))
        } else if lc == Some('w') {
            Some(kill_word_left)
        } else {
            None
        }
    } else if k.alt {
        if lc == Some('b') {
            Some((b, start))
        } else if lc == Some('f') {
            Some((b, next_word_of(b, c)))
        } else if lc == Some('d') {
            Some((b.take(c) + b.skip(next_word_of(b, c)), c))
        } else if k.name == KeyName::BackSpace {
            Some(kill_word_left)
        } else {
            None
        }
    } else {
        match k.name {
            KeyName::BackSpace => Some(backspace),
            KeyName::Delete => Some(delete),
            KeyName::Left => Some(left),
            KeyName::Right => Some(right),
            KeyName::Home => Some((b, 0)),
            KeyName::End => Some((b, b.len() as int)),
            _ => match k.ch {
                Some(ch) => if !is_control(ch) && b.len() < usize::MAX {
                    Some((b.insert(c, ch), c + 1))
                } else {
                    None
                },
                None => None,
            },
        }
    }
}

/// A keystroke while the rename field is open. Esc or C-g closes it; Enter
/// closes it and renames the selected workspace to the trimmed text; any
/// other key edits the text.
pub open spec fn edit_outcome(s: State, k: Key) -> (Ui, CommandShape) {
    let ui = ui_of(s);
    if k.name == KeyName::Escape || (k.ctrl && lower(k.ch) == Some('g')) {
        (Ui { editing: None, ..ui }, CommandShape::Redraw)
    } else if k.name == KeyName::Return || k.name == KeyName::KpEnter {
        let text = match ui.editing {
            Some(e) => e.0,
            None => seq![],
        };
        (Ui { editing: None, ..ui }, CommandShape::Rename { workspace: selected_ws_id(s.model, s.sel_nav), name: trim(text) })
    } else {
        match ui.editing {
            None => (ui, CommandShape::Ignore),
            Some(e) => match edit_op(e, k) {
                Some(e2) => (Ui { editing: Some(e2), ..ui }, CommandShape::Redraw),
                None => (ui, CommandShape::Ignore),
            },
        }
    }
}

/// Whether the rename field, when open, keeps its cursor within its text.
pub open spec fn editing_wf(s: State) -> bool {
    s.editing matches Some(e) ==> e.wf()
}

/// Apply an editing key to the editor; false when the key is not an editing
/// key.
fn apply_edit(e: &mut Edit, k: Key) -> (handled: bool)
    requires
        old(e).wf(),
    ensures
        final(e).wf(),
        match edit_op((old(e).buf@, old(e).cursor as int), k) {
            Some(r) => handled && (final(e).buf@, final(e).cursor as int) == r,
            None => !handled && final(e).buf@ == old(e).buf@ && final(e).cursor == old(e).cursor,
        },
{
    let lc = lowered(k.ch);
    if k.ctrl {
        if lc == Some('a') {
            e.home();
        } else if lc == Some('e') {
            e.end();
        } else if lc == Some('b') {
            e.left();
        } else if lc == Some('f') {
            e.right();
        } else if lc == Some('d') {
            e.delete();
        } else if lc == Some('h') {
            e.backspace();
        } else if lc == Some('k') {
            e.kill_to_end();
        } else if lc == Some('u') {
            e.kill_to_start();
        } else if lc == Some('w') {
            e.kill_word_left();
        } else {
            return false;
        }
        return true;
    }
    if k.alt {
        if lc == Some('b') {
            e.word_left();
        } else if lc == Some('f') {
            e.word_right();
        } else if lc == Some('d') {
            e.kill_word_right();
        } else if k.name == KeyName::BackSpace {
            e.kill_word_left();
        } else {
            return false;
        }
        return true;
    }
    match k.name {
        KeyName::BackSpace => e.backspace(),
        KeyName::Delete => e.delete(),
        KeyName::Left => e.left(),
        KeyName::Right => e.right(),
        KeyName::Home => e.home(),
        KeyName::End => e.end(),
        _ => {
            match k.ch {
                Some(c) => {
                    if !char_is_control(c) && e.buf.len() < usize::MAX {
                        e.insert(c);
                    } else {
                        return false;
                    }
                },
                None => {
                    return false;
                },
            }
        },
    }
    true
}

impl State {
    /// Handle a keystroke while the rename field is open.
    pub fn handle_edit_key(&mut self, k: Key) -> (r: Command)
        requires
            editing_wf(*old(self)),
        ensures
            editing_wf(*final(self)),
            (ui_of(*final(self)), command_shape(r)) == edit_outcome(*old(self), k),
            final(self).model == old(self).model,
            final(self).theme_count == old(self).theme_count,
            final(self).mark_keys == old(self).mark_keys,
            final(self).auto_show == old(self).auto_show,
    {
        let lc = lowered(k.ch);
        if k.name == KeyName::Escape || (k.ctrl && lc == Some('g')) {
            self.editing = None;
            return Command::Redraw;
        }
        if k.name == KeyName::Return || k.name == KeyName::KpEnter {
            let target = self.selected_ws_id();
            let text: Vec<char> = match &self.editing {
                Some(e) => {
                    let mut t: Vec<char> = Vec::new();
                    let mut i: usize = 0;
                    while i < e.buf.len()
                        invariant
                            i <= e.buf@.len(),
                            t@ == e.buf@.take(i as int),
                        decreases e.buf.len() - i,
                    {
                        t.push(e.buf[i]);
                        assert(e.buf@.take(i + 1) =~= e.buf@.take(i as int).push(e.buf@[i as int]));
                        i += 1;
                    }
                    assert(e.buf@.take(e.buf@.len() as int) =~= e.buf@);
                    t
                },
                None => Vec::new(),
            };
            let trimmed = trim_chars(text.as_slice());
            let name = string_of(trimmed.as_slice());
            self.editing = None;
            proof {
                if old(self).editing is None {
                    assert(text@ =~= Seq::<char>::empty());
                }
            }
            return Command::Rename { workspace: target, name };
        }
        match self.editing.take() {
            None => Command::Ignore,
            Some(e) => {
                let mut e = e;
                let handled = apply_edit(&mut e, k);
                self.editing = Some(e);
                if handled {
                    Command::Redraw
                } else {
                    Command::Ignore
                }
            },
        }
    }
}

/// The picker highlight after `delta` steps, wrapping around the themes.
pub open spec fn picker_moved(s: State, delta: int) -> (Ui, CommandShape) {
    let ui = ui_of(s);
    match s.picker {
        Some(cur) => {
            let next = output_step(cur as int, delta, s.theme_count as int);
            if next != cur {
                (Ui { picker: Some(next as usize), ..ui }, CommandShape::Redraw)
            } else {
                (ui, CommandShape::Ignore)
            }
        },
        None => (ui, CommandShape::Ignore),
    }
}

/// A keystroke while the theme picker is open. Up/Down (or k/j) move the
/// highlight, which the drawing applies live; Enter saves it; Esc (or q)
/// closes the picker, reverting to the saved theme.
pub open spec fn picker_outcome(s: State, k: Key) -> (Ui, CommandShape) {
    let ui = ui_of(s);
    match k.name {
        KeyName::Escape => (Ui { picker: None, ..ui }, CommandShape::Redraw),
        KeyName::Return | KeyName::KpEnter => match s.picker {
            Some(i) => (Ui { theme_idx: i, picker: None, ..ui }, CommandShape::SaveTheme { index: i }),
            None => (ui, CommandShape::Redraw),
        },
        KeyName::Down => picker_moved(s, 1),
        KeyName::Up => picker_moved(s, -1),
        _ => if k.ch == Some('j') {
            picker_moved(s, 1)
        } else if k.ch == Some('k') {
            picker_moved(s, -1)
        } else if k.ch == Some('q') {
            (Ui { picker: None, ..ui }, CommandShape::Redraw)
        } else {
            (ui, CommandShape::Ignore)
        },
    }
}

/// Workspace navigation by `delta` steps.
pub open spec fn ws_moved(s: State, delta: int) -> (Ui, CommandShape) {
    let ui = ui_of(s);
    match nav_step(s.model.nav@, s.sel_nav as int, delta, s.solo) {
        Some(n) => if n != s.sel_nav {
            (Ui { sel_nav: n, sel_win: 0, ..ui }, CommandShape::Redraw)
        } else {
            (ui, CommandShape::Ignore)
        },
        None => (ui, CommandShape::Ignore),
    }
}

/// Window navigation by `delta` steps within the selected workspace.
pub open spec fn win_moved(s: State, delta: int) -> (Ui, CommandShape) {
    let ui = ui_of(s);
    let count = selected_count(s.model, s.sel_nav);
    let next = clamp(s.sel_win + delta, 0, count - 1);
    if count > 0 && next != s.sel_win {
        (Ui { sel_win: next as usize, ..ui }, CommandShape::Redraw)
    } else {
        (ui, CommandShape::Ignore)
    }
}

/// Output navigation by `delta` steps, wrapping around.
pub open spec fn output_moved(s: State, delta: int) -> (Ui, CommandShape) {
    let ui = ui_of(s);
    let n_out = s.model.outputs@.len();
    let next = output_step(selected_output(s.model, s.sel_nav) as int, delta, n_out as int);
    let target = first_nav_of(s.model.nav@, next as usize);
    if n_out >= 2 && target is Some && target->0 != s.sel_nav {
        (Ui {
            sel_nav: target->0,
            sel_win: 0,
            solo: if s.solo is Some { Some(next as usize) } else { None },
            ..ui
        }, CommandShape::Redraw)
    } else {
        (ui, CommandShape::Ignore)
    }
}

/// What a mark key does: toggle the kind on the selected workspace by name,
/// or, on an unnamed one, open the rename field first (marks are keyed by
/// name).
pub open spec fn mark_outcome(s: State, kind: usize) -> (Ui, CommandShape) {
    let ui = ui_of(s);
    match selected(s.model, s.sel_nav) {
        Some(v) => match v.0.name {
            Some(n) => if n@.len() > 0 {
                (ui, CommandShape::ToggleMark { kind, workspace: n@ })
            } else {
                (Ui { editing: Some((n@, n@.len() as int)), ..ui }, CommandShape::Redraw)
            },
            None => (Ui { editing: Some((seq![], 0)), ..ui }, CommandShape::Redraw),
        },
        None => (ui, CommandShape::Ignore),
    }
}

/// The first declared mark kind on key `c`.
pub open spec fn mark_kind_on(keys: Seq<char>, c: char) -> Option<usize> {
    if exists|i: int| 0 <= i < keys.len() && keys[i] == c {
        Some((choose|i: int| 0 <= i < keys.len() && keys[i] == c
            && forall|j: int| 0 <= j < i ==> keys[j] != c) as usize)
    } else {
        None
    }
}

/// A keystroke on the map itself (no modal open).
pub open spec fn main_outcome(s: State, k: Key) -> (Ui, CommandShape) {
    let ui = ui_of(s);
    let ch = k.ch;
    let m = s.model;
    if ch == Some('?') {
        (Ui { show_help: !s.show_help, ..ui }, CommandShape::Redraw)
    } else if s.show_help && k.name == KeyName::Escape {
        (Ui { show_help: false, ..ui }, CommandShape::Redraw)
    } else if k.ctrl && (lower(ch) == Some('h') || lower(ch) == Some('l')) {
        match selected_win_id(m, s.sel_nav, s.sel_win) {
            Some(id) => (ui, CommandShape::MoveColumn { window: id, right: lower(ch) == Some('l') }),
            None => (ui, CommandShape::Ignore),
        }
    } else if ch == Some('q') || k.name == KeyName::Escape {
        (ui, CommandShape::Quit)
    } else if ch == Some('r') {
        match selected(m, s.sel_nav) {
            Some(v) => {
                let name = match v.0.name {
                    Some(n) => n@,
                    None => seq![],
                };
                (Ui { editing: Some((name, name.len() as int)), ..ui }, CommandShape::Redraw)
            },
            None => (ui, CommandShape::Redraw),
        }
    } else if ch == Some('t') {
        (Ui { picker: Some(s.theme_idx), ..ui }, CommandShape::Redraw)
    } else if ch == Some('s') {
        (Ui { solo: if s.solo is Some { None } else { Some(selected_output(m, s.sel_nav)) }, ..ui }, CommandShape::Redraw)
    } else if k.name == KeyName::Return || k.name == KeyName::KpEnter {
        (ui, CommandShape::Activate {
            window: selected_win_id(m, s.sel_nav, s.sel_win),
            workspace: selected_ws_id(m, s.sel_nav),
            output: match selected(m, s.sel_nav) {
                Some(v) => opt_text(v.0.output),
                None => None,
            },
        })
    } else if ch == Some('j') || k.name == KeyName::Down {
        ws_moved(s, 1)
    } else if ch == Some('k') || k.name == KeyName::Up {
        ws_moved(s, -1)
    } else if ch == Some('J') || ch == Some('K') {
        match selected(m, s.sel_nav) {
            Some(v) => match v.0.output {
                Some(o) => (ui, CommandShape::MoveWorkspace { output: o@, idx: v.0.idx, down: ch == Some('J') }),
                None => (ui, CommandShape::Ignore),
            },
            None => (ui, CommandShape::Ignore),
        }
    } else if ch == Some('l') || k.name == KeyName::Right {
        win_moved(s, 1)
    } else if ch == Some('h') || k.name == KeyName::Left {
        win_moved(s, -1)
    } else if ch == Some('L') || ch == Some('H') {
        match selected_ws_id(m, s.sel_nav) {
            Some(id) => (ui, CommandShape::MoveWorkspaceToMonitor { workspace: id, left: ch == Some('H') }),
            None => (ui, CommandShape::Ignore),
        }
    } else if k.name == KeyName::Tab {
        output_moved(s, 1)
    } else if k.name == KeyName::IsoLeftTab {
        output_moved(s, -1)
    } else if ch == Some('x') {
        match selected_win_id(m, s.sel_nav, s.sel_win) {
            Some(id) => (ui, CommandShape::CloseWindow { window: id }),
            None => (ui, CommandShape::Redraw),
        }
    } else if ch == Some('w') {
        match selected(m, s.sel_nav) {
            Some(v) => (ui, CommandShape::KillWorkspace {
                windows: v.1.map_values(|w: crate::niri::Window| w.id),
                name: match v.0.name {
                    Some(n) => if n@.len() > 0 { Some(n@) } else { None },
                    None => None,
                },
            }),
            None => (ui, CommandShape::KillWorkspace { windows: seq![], name: None }),
        }
    } else if ch == Some('f') {
        (ui, CommandShape::ToggleAutoShow)
    } else {
        match ch {
            Some(c) => match mark_kind_on(s.mark_keys@, c) {
                Some(i) => mark_outcome(s, i),
                None => (ui, CommandShape::Ignore),
            },
            None => (ui, CommandShape::Ignore),
        }
    }
}

/// A keystroke: the rename field or the picker captures it while open.
pub open spec fn key_outcome(s: State, k: Key) -> (Ui, CommandShape) {
    if s.editing is Some {
        edit_outcome(s, k)
    } else if s.picker is Some {
        picker_outcome(s, k)
    } else {
        main_outcome(s, k)
    }
}

/// The index `delta` steps from `cur` among `count`, wrapping around.
fn wrap_index(cur: usize, delta: i32, count: usize) -> (r: usize)
    requires
        count > 0,
    ensures
        r == output_step(cur as int, delta as int, count as int),
        r < count,
{
    if count == 1 {
        assert(output_step(cur as int, delta as int, 1) == 0) by {
            vstd::arithmetic::div_mod::lemma_mod_bound(cur + delta, 1);
        }
        return 0;
    }
    let m = count as u128;
    let base = (cur as u128) % m;
    let next: u128 = if delta >= 0 {
        (base + (delta as u128)) % m
    } else {
        let back = ((-(delta as i64)) as u128) % m;
        (base + m - back) % m
    };
    proof {
        crate::model::lemma_output_step(cur as int, delta as int, count as int, base as int, next as int);
    }
    next as usize
}

impl State {
    /// Move the picker highlight by `delta`, wrapping around. True when it
    /// moved.
    pub fn move_picker(&mut self, delta: i32) -> (moved: bool)
        requires
            old(self).theme_count > 0,
        ensures
            (ui_of(*final(self)), if moved { CommandShape::Redraw } else { CommandShape::Ignore })
                == picker_moved(*old(self), delta as int),
            final(self).model == old(self).model,
            final(self).editing == old(self).editing,
            final(self).theme_count == old(self).theme_count,
            final(self).mark_keys == old(self).mark_keys,
            final(self).auto_show == old(self).auto_show,
    {
        match self.picker {
            Some(cur) => {
                let next = wrap_index(cur, delta, self.theme_count);
                if next != cur {
                    self.picker = Some(next);
                    return true;
                }
                false
            },
            None => false,
        }
    }

    /// Handle a keystroke while the theme picker is open.
    pub fn handle_picker_key(&mut self, k: Key) -> (r: Command)
        requires
            old(self).theme_count > 0,
        ensures
            (ui_of(*final(self)), command_shape(r)) == picker_outcome(*old(self), k),
            final(self).model == old(self).model,
            final(self).editing == old(self).editing,
            final(self).theme_count == old(self).theme_count,
            final(self).mark_keys == old(self).mark_keys,
            final(self).auto_show == old(self).auto_show,
    {
        match k.name {
            KeyName::Escape => {
                self.picker = None;
                Command::Redraw
            },
            KeyName::Return | KeyName::KpEnter => {
                match self.picker {
                    Some(i) => {
                        self.theme_idx = i;
                        self.picker = None;
                        Command::SaveTheme { index: i }
                    },
                    None => Command::Redraw,
                }
            },
            KeyName::Down => if self.move_picker(1) { Command::Redraw } else { Command::Ignore },
            KeyName::Up => if self.move_picker(-1) { Command::Redraw } else { Command::Ignore },
            _ => {
                if k.ch == Some('j') {
                    if self.move_picker(1) { Command::Redraw } else { Command::Ignore }
                } else if k.ch == Some('k') {
                    if self.move_picker(-1) { Command::Redraw } else { Command::Ignore }
                } else if k.ch == Some('q') {
                    self.picker = None;
                    Command::Redraw
                } else {
                    Command::Ignore
                }
            },
        }
    }

    fn mark_kind_on(&self, c: char) -> (r: Option<usize>)
        ensures
            r == mark_kind_on(self.mark_keys@, c),
    {
        let mut i: usize = 0;
        while i < self.mark_keys.len()
            invariant
                i <= self.mark_keys@.len(),
                forall|j: int| 0 <= j < i ==> self.mark_keys@[j] != c,
            decreases self.mark_keys.len() - i,
        {
            if self.mark_keys[i] == c {
                assert(mark_kind_on(self.mark_keys@, c) == Some(i)) by {
                    let k = choose|k: int| 0 <= k < self.mark_keys@.len() && self.mark_keys@[k] == c
                        && forall|j: int| 0 <= j < k ==> self.mark_keys@[j] != c;
                    if k < i { } else if k > i { }
                }
                return Some(i);
            }
            i += 1;
        }
        None
    }

    fn open_rename(&mut self, name: &Option<String>)
        ensures
            ui_of(*final(self)) == (Ui {
                editing: Some(match *name {
                    Some(n) => (n@, n@.len() as int),
                    None => (seq![], 0),
                }),
                ..ui_of(*old(self))
            }),
            editing_wf(*final(self)),
            final(self).model == old(self).model,
            final(self).theme_count == old(self).theme_count,
            final(self).mark_keys == old(self).mark_keys,
            final(self).auto_show == old(self).auto_show,
    {
        let e = match name {
            Some(n) => Edit::new(n.as_str()),
            None => Edit::new(""),
        };
        proof {
            if name is None {
                reveal_strlit("");
                assert(e.buf@ =~= Seq::<char>::empty());
            }
        }
        self.editing = Some(e);
    }

    fn mark_key(&mut self, kind: usize) -> (r: Command)
        ensures
            (ui_of(*final(self)), command_shape(r)) == mark_outcome(*old(self), kind),
            old(self).editing is None ==> editing_wf(*final(self)),
            final(self).model == old(self).model,
            final(self).theme_count == old(self).theme_count,
            final(self).mark_keys == old(self).mark_keys,
            final(self).auto_show == old(self).auto_show,
    {
        let name: Option<String> = match self.sel_ws() {
            Some(v) => match &v.ws.name {
                Some(n) => Some(n.clone()),
                None => None,
            },
            None => {
                return Command::Ignore;
            },
        };
        match name {
            Some(n) => {
                if n.as_str().is_empty() {
                    self.open_rename(&Some(n));
                    Command::Redraw
                } else {
                    Command::ToggleMark { kind, workspace: n }
                }
            },
            None => {
                self.open_rename(&None);
                Command::Redraw
            },
        }
    }

    fn kill_workspace(&self) -> (r: Command)
        ensures
            command_shape(r) == main_outcome(*self, (Key { name: KeyName::Other, ch: Some('w'), ctrl: false, alt: false })).1,
    {
        match self.sel_ws() {
            Some(v) => {
                let mut ids: Vec<u64> = Vec::new();
                let mut i: usize = 0;
                while i < v.windows.len()
                    invariant
                        i <= v.windows@.len(),
                        ids@ == v.windows@.take(i as int).map_values(|w: crate::niri::Window| w.id),
                    decreases v.windows.len() - i,
                {
                    ids.push(v.windows[i].id);
                    assert(v.windows@.take(i + 1).map_values(|w: crate::niri::Window| w.id)
                        =~= v.windows@.take(i as int).map_values(|w: crate::niri::Window| w.id).push(v.windows@[i as int].id));
                    i += 1;
                }
                assert(v.windows@.take(v.windows@.len() as int) =~= v.windows@);
                let name = match &v.ws.name {
                    Some(n) => if n.as_str().is_empty() { None } else { Some(n.clone()) },
                    None => None,
                };
                Command::KillWorkspace { windows: ids, name }
            },
            None => {
                let ids: Vec<u64> = Vec::new();
                assert(ids@ =~= Seq::<u64>::empty());
                Command::KillWorkspace { windows: ids, name: None }
            },
        }
    }

    /// Handle a keystroke on the map itself (no modal open).
    pub fn handle_map_key(&mut self, k: Key) -> (r: Command)
        requires
            old(self).editing is None,
        ensures
            (ui_of(*final(self)), command_shape(r)) == main_outcome(*old(self), k),
            editing_wf(*final(self)),
            final(self).model == old(self).model,
            final(self).theme_count == old(self).theme_count,
            final(self).mark_keys == old(self).mark_keys,
            final(self).auto_show == old(self).auto_show,
    {
        let ch = k.ch;
        let lc = lowered(ch);
        if ch == Some('?') {
            self.show_help = !self.show_help;
            return Command::Redraw;
        }
        if self.show_help && k.name == KeyName::Escape {
            self.show_help = false;
            return Command::Redraw;
        }
        if k.ctrl && (lc == Some('h') || lc == Some('l')) {
            return match self.selected_win_id() {
                Some(id) => Command::MoveColumn { window: id, right: lc == Some('l') },
                None => Command::Ignore,
            };
        }
        if ch == Some('q') || k.name == KeyName::Escape {
            return Command::Quit;
        }
        if ch == Some('r') {
            let name: Option<Option<String>> = match self.sel_ws() {
                Some(v) => Some(match &v.ws.name {
                    Some(n) => Some(n.clone()),
                    None => None,
                }),
                None => None,
            };
            match name {
                Some(n) => self.open_rename(&n),
                None => {},
            }
            return Command::Redraw;
        }
        if ch == Some('t') {
            self.picker = Some(self.theme_idx);
            return Command::Redraw;
        }
        if ch == Some('s') {
            self.solo = if self.solo.is_some() { None } else { Some(self.sel_output()) };
            return Command::Redraw;
        }
        if k.name == KeyName::Return || k.name == KeyName::KpEnter {
            let window = self.selected_win_id();
            let workspace = self.selected_ws_id();
            let output = match self.sel_ws() {
                Some(v) => match &v.ws.output {
                    Some(o) => Some(o.clone()),
                    None => None,
                },
                None => None,
            };
            return Command::Activate { window, workspace, output };
        }
        if ch == Some('j') || k.name == KeyName::Down {
            return if self.move_ws(1) { Command::Redraw } else { Command::Ignore };
        }
        if ch == Some('k') || k.name == KeyName::Up {
            return if self.move_ws(-1) { Command::Redraw } else { Command::Ignore };
        }
        if ch == Some('J') || ch == Some('K') {
            return match self.sel_ws() {
                Some(v) => match &v.ws.output {
                    Some(o) => Command::MoveWorkspace { output: o.clone(), idx: v.ws.idx, down: ch == Some('J') },
                    None => Command::Ignore,
                },
                None => Command::Ignore,
            };
        }
        if ch == Some('l') || k.name == KeyName::Right {
            return if self.move_win(1) { Command::Redraw } else { Command::Ignore };
        }
        if ch == Some('h') || k.name == KeyName::Left {
            return if self.move_win(-1) { Command::Redraw } else { Command::Ignore };
        }
        if ch == Some('L') || ch == Some('H') {
            return match self.selected_ws_id() {
                Some(id) => Command::MoveWorkspaceToMonitor { workspace: id, left: ch == Some('H') },
                None => Command::Ignore,
            };
        }
        if k.name == KeyName::Tab {
            return if self.move_output(1) { Command::Redraw } else { Command::Ignore };
        }
        if k.name == KeyName::IsoLeftTab {
            return if self.move_output(-1) { Command::Redraw } else { Command::Ignore };
        }
        if ch == Some('x') {
            return match self.selected_win_id() {
                Some(id) => Command::CloseWindow { window: id },
                None => Command::Redraw,
            };
        }
        if ch == Some('w') {
            return self.kill_workspace();
        }
        if ch == Some('f') {
            return Command::ToggleAutoShow;
        }
        match ch {
            Some(c) => match self.mark_kind_on(c) {
                Some(i) => self.mark_key(i),
                None => Command::Ignore,
            },
            None => Command::Ignore,
        }
    }

    /// Handle a keystroke: the rename field or the theme picker captures the
    /// keyboard while open.
    pub fn handle_key(&mut self, k: Key) -> (r: Command)
        requires
            editing_wf(*old(self)),
            old(self).theme_count > 0,
        ensures
            (ui_of(*final(self)), command_shape(r)) == key_outcome(*old(self), k),
            editing_wf(*final(self)),
            final(self).model == old(self).model,
            final(self).theme_count == old(self).theme_count,
            final(self).mark_keys == old(self).mark_keys,
            final(self).auto_show == old(self).auto_show,
    {
        if self.editing.is_some() {
            return self.handle_edit_key(k);
        }
        if self.picker.is_some() {
            return self.handle_picker_key(k);
        }
        self.handle_map_key(k)
    }
}

proof fn lemma_first_nav_exists(m: Model, id: u64, i0: int)
    requires
        0 <= i0 < m.nav@.len(),
        ws_id_at(m, i0) == Some(id),
    ensures
        exists|i: int| 0 <= i < m.nav@.len() && #[trigger] ws_id_at(m, i) == Some(id)
            && forall|j: int| 0 <= j < i ==> #[trigger] ws_id_at(m, j) != Some(id),
    decreases i0,
{
    if exists|j: int| 0 <= j < i0 && #[trigger] ws_id_at(m, j) == Some(id) {
        let j = choose|j: int| 0 <= j < i0 && #[trigger] ws_id_at(m, j) == Some(id);
        lemma_first_nav_exists(m, id, j);
    } else {
        assert(forall|j: int| 0 <= j < i0 ==> #[trigger] ws_id_at(m, j) != Some(id));
    }
}

proof fn lemma_first_window_exists(ws: Seq<crate::niri::Window>, id: u64, i0: int)
    requires
        0 <= i0 < ws.len(),
        ws[i0].id == id,
    ensures
        exists|i: int| 0 <= i < ws.len() && ws[i].id == id
            && forall|j: int| 0 <= j < i ==> ws[j].id != id,
    decreases i0,
{
    if exists|j: int| 0 <= j < i0 && ws[j].id == id {
        let j = choose|j: int| 0 <= j < i0 && ws[j].id == id;
        lemma_first_window_exists(ws, id, j);
    }
}

/// A refresh keeps the selection on the workspace it was on, wherever that
/// workspace now sits on the map.
pub proof fn lemma_refresh_follows_workspace(m: Model, prev: u64, sel_nav: usize)
    requires
        nav_index_of(m, prev) is Some,
    ensures
        selected_ws_id(m, reselected_nav(m, Some(prev), sel_nav)) == Some(prev),
{
    let w = choose|i: int| 0 <= i < m.nav@.len() && #[trigger] ws_id_at(m, i) == Some(prev);
    lemma_first_nav_exists(m, prev, w);
    let c = choose|i: int| 0 <= i < m.nav@.len() && #[trigger] ws_id_at(m, i) == Some(prev)
        && forall|j: int| 0 <= j < i ==> #[trigger] ws_id_at(m, j) != Some(prev);
    assert(nav_index_of(m, prev) == Some(c as usize));
    assert(0 <= c < m.nav@.len() && ws_id_at(m, c) == Some(prev));
    assert(reselected_nav(m, Some(prev), sel_nav) == c as usize);
}

/// A refresh keeps the selection on the window it was on, when that window
/// is still in the selected workspace.
pub proof fn lemma_refresh_follows_window(m: Model, nav: usize, prev: u64, sel_win: usize)
    requires
        selected(m, nav) is Some,
        window_index_of(selected(m, nav).unwrap().1, prev) is Some,
    ensures
        selected_win_id(m, nav, reselected_win(m, nav, Some(prev), sel_win)) == Some(prev),
{
    let v = selected(m, nav).unwrap();
    let ws = v.1;
    let (o, x) = m.nav@[nav as int];
    let wv = m.outputs@[o as int].workspaces@[x as int];
    assert(model_shape(m)[o as int] == crate::model::output_shape(m.outputs@[o as int]));
    assert(model_shape(m)[o as int].1[x as int] == crate::model::ws_shape(wv));
    assert(ws == wv.windows@);
    assert(wv.windows.len() == ws.len());
    let w = choose|i: int| 0 <= i < ws.len() && ws[i].id == prev;
    lemma_first_window_exists(ws, prev, w);
    let k = choose|i: int| 0 <= i < ws.len() && ws[i].id == prev
        && forall|j: int| 0 <= j < i ==> ws[j].id != prev;
    assert(window_index_of(ws, prev) == Some(k as usize));
    assert(0 <= k < ws.len() && ws[k].id == prev);
    assert(selected_count(m, nav) == ws.len());
    assert(reselected_win(m, nav, Some(prev), sel_win) == k as usize);
}

/// After a refresh the selection is on the map: on a workspace of the nav
/// order when there is one, and on one of its windows when it holds any.
pub proof fn lemma_refresh_stays_on_the_map(m: Model, prev_ws: Option<u64>, sel_nav: usize, prev_win: Option<u64>, sel_win: usize)
    ensures
        m.nav@.len() > 0 ==> reselected_nav(m, prev_ws, sel_nav) < m.nav@.len(),
        ({
            let nav = reselected_nav(m, prev_ws, sel_nav);
            let count = selected_count(m, nav);
            &&& count > 0 ==> reselected_win(m, nav, prev_win, sel_win) < count
            &&& count == 0 ==> reselected_win(m, nav, prev_win, sel_win) == 0
        }),
{
    match prev_ws {
        Some(id) => match nav_index_of(m, id) {
            Some(i) => {
                let c = choose|c: int| 0 <= c < m.nav@.len() && #[trigger] ws_id_at(m, c) == Some(id)
                    && forall|j: int| 0 <= j < c ==> #[trigger] ws_id_at(m, j) != Some(id);
            },
            None => {},
        },
        None => {},
    }
    let nav = reselected_nav(m, prev_ws, sel_nav);
    match (prev_win, selected(m, nav)) {
        (Some(id), Some(v)) => match window_index_of(v.1, id) {
            Some(k) => {
                let c = choose|c: int| 0 <= c < v.1.len() && v.1[c].id == id
                    && forall|j: int| 0 <= j < c ==> v.1[j].id != id;
            },
            None => {},
        },
        _ => {},
    }
}

/// The picker highlight wraps around the themes: it always stays on one of
/// them, and stepping past the last returns to the first.
pub proof fn lemma_picker_wraps(cur: usize, delta: int, count: usize)
    requires
        count > 0,
    ensures
        0 <= output_step(cur as int, delta, count as int) < count,
        cur + 1 == count ==> output_step(cur as int, 1, count as int) == 0,
        cur == 0 ==> output_step(cur as int, -1, count as int) == count - 1,
{
    vstd::arithmetic::div_mod::lemma_mod_bound(cur + delta, count as int);
    if cur + 1 == count {
        vstd::arithmetic::div_mod::lemma_mod_self_0(count as int);
    }
    if cur == 0 {
        vstd::arithmetic::div_mod::lemma_mod_add_multiples_vanish(-1, count as int);
        vstd::arithmetic::div_mod::lemma_small_mod((count - 1) as nat, count as nat);
    }
}

/// Shift+J moves the selected workspace down its output and Shift+K moves it
/// up: the request names the workspace's output and current index, and the
/// two keys differ only in the direction.
pub proof fn lemma_shift_j_moves_down_and_shift_k_moves_up(s: State, k: Key)
    requires
        s.editing is None,
        s.picker is None,
        k.name == KeyName::Other,
        k.ch == Some('J') || k.ch == Some('K'),
        selected(s.model, s.sel_nav) matches Some(v) && v.0.output is Some,
    ensures
        ({
            let v = selected(s.model, s.sel_nav)->0;
            &&& k.ch == Some('J') ==> key_outcome(s, k) == (ui_of(s), CommandShape::MoveWorkspace {
                output: v.0.output->0@, idx: v.0.idx, down: true })
            &&& k.ch == Some('K') ==> key_outcome(s, k) == (ui_of(s), CommandShape::MoveWorkspace {
                output: v.0.output->0@, idx: v.0.idx, down: false })
        }),
{
}

/// Outside solo mode, j (or Down) selects the next workspace of the nav
/// order and k (or Up) the previous one, staying put at either end; moving
/// to another workspace selects its first window.
pub proof fn lemma_j_and_k_step_through_the_workspaces(s: State, k: Key)
    requires
        s.editing is None,
        s.picker is None,
        s.solo is None,
        s.sel_nav < s.model.nav@.len(),
        s.model.nav@.len() <= usize::MAX,
        (k.name == KeyName::Other && (k.ch == Some('j') || k.ch == Some('k')))
            || (k.ch is None && (k.name == KeyName::Down || k.name == KeyName::Up)),
    ensures
        ({
            let n = s.model.nav@.len();
            let forward = k.ch == Some('j') || k.name == KeyName::Down;
            let next = if forward {
                if s.sel_nav + 1 < n { s.sel_nav + 1 } else { s.sel_nav as int }
            } else {
                if s.sel_nav > 0 { s.sel_nav - 1 } else { s.sel_nav as int }
            };
            &&& key_outcome(s, k).0.sel_nav == next
            &&& next != s.sel_nav ==> key_outcome(s, k) == (Ui { sel_nav: next as usize, sel_win: 0, ..ui_of(s) }, CommandShape::Redraw)
            &&& next == s.sel_nav ==> key_outcome(s, k) == (ui_of(s), CommandShape::Ignore)
        }),
{
    let forward = k.ch == Some('j') || k.name == KeyName::Down;
    crate::model::lemma_nav_step_without_solo(s.model.nav@, s.sel_nav as int, if forward { 1 } else { -1 });
}

/// l (or Right) selects the next window of the selected workspace and h (or
/// Left) the previous one, staying put at either end.
pub proof fn lemma_h_and_l_step_through_the_windows(s: State, k: Key)
    requires
        s.editing is None,
        s.picker is None,
        !k.ctrl,
        (k.name == KeyName::Other && (k.ch == Some('l') || k.ch == Some('h')))
            || (k.ch is None && (k.name == KeyName::Right || k.name == KeyName::Left)),
        s.sel_win < selected_count(s.model, s.sel_nav),
        selected_count(s.model, s.sel_nav) <= usize::MAX,
    ensures
        ({
            let n = selected_count(s.model, s.sel_nav);
            let forward = k.ch == Some('l') || k.name == KeyName::Right;
            let next = if forward {
                if s.sel_win + 1 < n { s.sel_win + 1 } else { s.sel_win as int }
            } else {
                if s.sel_win > 0 { s.sel_win - 1 } else { s.sel_win as int }
            };
            &&& key_outcome(s, k).0.sel_win == next
            &&& key_outcome(s, k).0.sel_nav == s.sel_nav
            &&& next != s.sel_win ==> key_outcome(s, k).1 == CommandShape::Redraw
            &&& next == s.sel_win ==> key_outcome(s, k).1 == CommandShape::Ignore
        }),
{
    let forward = k.ch == Some('l') || k.name == KeyName::Right;
    let n = selected_count(s.model, s.sel_nav);
    let delta: int = if forward { 1 } else { -1 };
    assert(key_outcome(s, k) == win_moved(s, delta));
}

/// Ctrl+l moves the selected window's column right and Ctrl+h left; Shift+L
/// sends the selected workspace to the monitor on the right and Shift+H to
/// the one on the left.
pub proof fn lemma_column_and_monitor_moves_follow_the_key(s: State, k: Key)
    requires
        s.editing is None,
        s.picker is None,
        k.name == KeyName::Other,
    ensures
        k.ctrl && (k.ch == Some('l') || k.ch == Some('L')) ==> (
            selected_win_id(s.model, s.sel_nav, s.sel_win) matches Some(w)
            ==> key_outcome(s, k).1 == (CommandShape::MoveColumn { window: w, right: true })),
        k.ctrl && (k.ch == Some('h') || k.ch == Some('H')) ==> (
            selected_win_id(s.model, s.sel_nav, s.sel_win) matches Some(w)
            ==> key_outcome(s, k).1 == (CommandShape::MoveColumn { window: w, right: false })),
        !k.ctrl && k.ch == Some('L') ==> (selected_ws_id(s.model, s.sel_nav) matches Some(w)
            ==> key_outcome(s, k).1 == (CommandShape::MoveWorkspaceToMonitor { workspace: w, left: false })),
        !k.ctrl && k.ch == Some('H') ==> (selected_ws_id(s.model, s.sel_nav) matches Some(w)
            ==> key_outcome(s, k).1 == (CommandShape::MoveWorkspaceToMonitor { workspace: w, left: true })),
{
}

/// The single-letter keys of the map do what the legend says: `?` shows or
/// hides the legend, q quits, t opens the picker on the saved theme, s
/// toggles solo mode on the selection's output, r opens the rename field on
/// the workspace's name with the cursor at its end, x closes the selected
/// window, w kills the selected workspace (its windows, and its name when it
/// has one), and f toggles auto-show.
pub proof fn lemma_letter_keys_do_what_the_legend_says(s: State, k: Key)
    requires
        s.editing is None,
        s.picker is None,
        k.name == KeyName::Other,
        !k.ctrl,
    ensures
        k.ch == Some('?') ==> key_outcome(s, k) == (Ui { show_help: !s.show_help, ..ui_of(s) }, CommandShape::Redraw),
        k.ch == Some('q') ==> key_outcome(s, k) == (ui_of(s), CommandShape::Quit),
        k.ch == Some('t') ==> key_outcome(s, k) == (Ui { picker: Some(s.theme_idx), ..ui_of(s) }, CommandShape::Redraw),
        k.ch == Some('s') ==> key_outcome(s, k).0.solo == (if s.solo is Some { None } else {
            Some(selected_output(s.model, s.sel_nav)) }),
        k.ch == Some('r') ==> (selected(s.model, s.sel_nav) matches Some(v) ==> key_outcome(s, k).0.editing == Some(
            match v.0.name { Some(n) => (n@, n@.len() as int), None => (seq![], 0) })),
        k.ch == Some('x') ==> (selected_win_id(s.model, s.sel_nav, s.sel_win) matches Some(w)
            ==> key_outcome(s, k) == (ui_of(s), CommandShape::CloseWindow { window: w })),
        k.ch == Some('w') ==> (selected(s.model, s.sel_nav) matches Some(v) ==> key_outcome(s, k).1 == (CommandShape::KillWorkspace {
            windows: v.1.map_values(|w: crate::niri::Window| w.id),
            name: match v.0.name { Some(n) => if n@.len() > 0 { Some(n@) } else { None }, None => None },
        })),
        k.ch == Some('f') ==> key_outcome(s, k) == (ui_of(s), CommandShape::ToggleAutoShow),
{
}

/// Enter focuses the selection (its window, workspace and output); Escape
/// closes the legend when it is shown and otherwise quits.
pub proof fn lemma_enter_activates_and_escape_quits(s: State, k: Key)
    requires
        s.editing is None,
        s.picker is None,
        k.ch is None,
        !k.ctrl,
    ensures
        k.name == KeyName::Return || k.name == KeyName::KpEnter ==> key_outcome(s, k) == (ui_of(s), CommandShape::Activate {
            window: selected_win_id(s.model, s.sel_nav, s.sel_win),
            workspace: selected_ws_id(s.model, s.sel_nav),
            output: match selected(s.model, s.sel_nav) { Some(v) => opt_text(v.0.output), None => None },
        }),
        k.name == KeyName::Escape && s.show_help ==> key_outcome(s, k) == (Ui { show_help: false, ..ui_of(s) }, CommandShape::Redraw),
        k.name == KeyName::Escape && !s.show_help ==> key_outcome(s, k) == (ui_of(s), CommandShape::Quit),
{
}

/// A refresh that no longer finds the selected workspace (or had none
/// selected) keeps the selection's place in the nav order, held within the
/// fresh map: the workspace that took its place, or the last one.
pub proof fn lemma_refresh_keeps_the_place_of_a_vanished_workspace(m: Model, prev_ws: Option<u64>, sel_nav: usize)
    requires
        m.nav@.len() > 0,
        prev_ws matches Some(id) ==> forall|i: int| 0 <= i < m.nav@.len() ==> #[trigger] ws_id_at(m, i) != Some(id),
    ensures
        reselected_nav(m, prev_ws, sel_nav) == if sel_nav < m.nav@.len() { sel_nav as int } else { m.nav@.len() - 1 },
{
}

/// A refresh that no longer finds the selected window in the selected
/// workspace (or had none selected) keeps the window selection's place, held
/// within the workspace's windows (the first place when it has none).
pub proof fn lemma_refresh_keeps_the_place_of_a_vanished_window(m: Model, nav: usize, prev_win: Option<u64>, sel_win: usize)
    requires
        selected(m, nav) matches Some(v) ==> (prev_win matches Some(id) ==> forall|i: int| 0 <= i < v.1.len() ==> (#[trigger] v.1[i]).id != id),
    ensures
        ({
            let count = selected_count(m, nav);
            reselected_win(m, nav, prev_win, sel_win) == if count == 0 { 0 } else if sel_win < count { sel_win as int } else { count - 1 }
        }),
{
}

/// Tab moves the selection to the first workspace of the next output, and
/// Shift+Tab to that of the previous one, wrapping around the outputs; in
/// solo mode the soloed output follows.
pub proof fn lemma_tab_moves_between_outputs(s: State, k: Key, r: int)
    requires
        s.editing is None,
        s.picker is None,
        k.ch is None,
        !k.ctrl,
        k.name == KeyName::Tab || k.name == KeyName::IsoLeftTab,
        s.model.outputs@.len() >= 2,
        s.model.nav@.len() <= usize::MAX,
        ({
            let n = s.model.outputs@.len() as int;
            let o = selected_output(s.model, s.sel_nav) as int;
            let next = if k.name == KeyName::Tab { (o + 1) % n } else { (o + n - 1) % n };
            &&& 0 <= r < s.model.nav@.len()
            &&& s.model.nav@[r].0 == next
            &&& forall|j: int| 0 <= j < r ==> (#[trigger] s.model.nav@[j]).0 != next
        }),
    ensures
        ({
            let n = s.model.outputs@.len() as int;
            let o = selected_output(s.model, s.sel_nav) as int;
            let next = if k.name == KeyName::Tab { (o + 1) % n } else { (o + n - 1) % n };
            &&& r != s.sel_nav ==> key_outcome(s, k) == (Ui {
                sel_nav: r as usize,
                sel_win: 0,
                solo: if s.solo is Some { Some(next as usize) } else { None },
                ..ui_of(s)
            }, CommandShape::Redraw)
            &&& r == s.sel_nav ==> key_outcome(s, k) == (ui_of(s), CommandShape::Ignore)
        }),
{
    let n = s.model.outputs@.len() as int;
    let o = selected_output(s.model, s.sel_nav) as int;
    let next = if k.name == KeyName::Tab { (o + 1) % n } else { (o + n - 1) % n };
    let delta: int = if k.name == KeyName::Tab { 1 } else { -1 };
    vstd::arithmetic::div_mod::lemma_mod_add_multiples_vanish(o - 1, n);
    assert(output_step(o, delta, n) == next);
    vstd::arithmetic::div_mod::lemma_mod_bound(o + delta, n);
    assert(exists|i: int| 0 <= i < s.model.nav@.len() && s.model.nav@[i].0 == next as usize);
    let c = choose|i: int| 0 <= i < s.model.nav@.len() && s.model.nav@[i].0 == next as usize
        && forall|j: int| 0 <= j < i ==> s.model.nav@[j].0 != next as usize;
    if c < r {
        assert(s.model.nav@[c].0 != next);
    }
    if r < c {
        assert(s.model.nav@[r].0 != next as usize);
    }
    assert(first_nav_of(s.model.nav@, next as usize) == Some(r as usize));
    assert(key_outcome(s, k) == output_moved(s, delta));
}

/// With the picker open on theme `i` of `n`, Down (or j) highlights theme
/// `(i + 1) % n` and Up (or k) theme `(i + n - 1) % n`, without saving;
/// Enter saves the highlighted theme and closes the picker; Escape (or q)
/// closes it and keeps the saved theme.
pub proof fn lemma_picker_keys(s: State, k: Key)
    requires
        s.editing is None,
        s.picker matches Some(i) && i < s.theme_count,
    ensures
        ({
            let i = s.picker->0;
            let n = s.theme_count as int;
            &&& (k.name == KeyName::Down || (k.name == KeyName::Other && k.ch == Some('j')))
                ==> key_outcome(s, k).0 == Ui { picker: Some(((i + 1) % n) as usize), ..ui_of(s) }
            &&& (k.name == KeyName::Up || (k.name == KeyName::Other && k.ch == Some('k')))
                ==> key_outcome(s, k).0 == Ui { picker: Some(((i + n - 1) % n) as usize), ..ui_of(s) }
            &&& (k.name == KeyName::Return || k.name == KeyName::KpEnter)
                ==> key_outcome(s, k) == (Ui { theme_idx: i, picker: None, ..ui_of(s) }, CommandShape::SaveTheme { index: i })
            &&& (k.name == KeyName::Escape || (k.name == KeyName::Other && k.ch == Some('q')))
                ==> key_outcome(s, k) == (Ui { picker: None, ..ui_of(s) }, CommandShape::Redraw)
        }),
{
    let i = s.picker->0;
    let n = s.theme_count as int;
    vstd::arithmetic::div_mod::lemma_small_mod(i as nat, n as nat);
    vstd::arithmetic::div_mod::lemma_mod_bound(i + 1, n);
    vstd::arithmetic::div_mod::lemma_mod_add_multiples_vanish(i - 1, n);
    vstd::arithmetic::div_mod::lemma_mod_bound(i - 1, n);
    if i + 1 < n {
        vstd::arithmetic::div_mod::lemma_small_mod((i + 1) as nat, n as nat);
    } else {
        vstd::arithmetic::div_mod::lemma_mod_self_0(n);
    }
    if i > 0 {
        vstd::arithmetic::div_mod::lemma_small_mod((i - 1) as nat, n as nat);
    }
}

/// In the rename field the motion keys move the cursor and leave the text
/// as it is: C-a and Home to the start, C-e and End to the end, C-b and Left
/// one back, C-f and Right one forward, never past either end.
pub proof fn lemma_rename_motions(s: State, k: Key)
    requires
        edit_shape(s.editing) matches Some(e) && 0 <= e.1 <= e.0.len(),
        !k.alt,
    ensures
        ({
            let (b, c) = edit_shape(s.editing)->0;
            let lc = lower(k.ch);
            let named = !k.ctrl && k.ch is None;
            let ctl = k.ctrl && k.name == KeyName::Other;
            &&& (ctl && lc == Some('a')) || (named && k.name == KeyName::Home)
                ==> key_outcome(s, k) == (Ui { editing: Some((b, 0int)), ..ui_of(s) }, CommandShape::Redraw)
            &&& (ctl && lc == Some('e')) || (named && k.name == KeyName::End)
                ==> key_outcome(s, k) == (Ui { editing: Some((b, b.len() as int)), ..ui_of(s) }, CommandShape::Redraw)
            &&& (ctl && lc == Some('b')) || (named && k.name == KeyName::Left)
                ==> key_outcome(s, k).0.editing == Some((b, if c > 0 { c - 1 } else { 0 }))
            &&& (ctl && lc == Some('f')) || (named && k.name == KeyName::Right)
                ==> key_outcome(s, k).0.editing == Some((b, if c < b.len() { c + 1 } else { c }))
        }),
{
}

/// In the rename field the deleting keys remove text around the cursor:
/// C-d and Delete the character after it, C-h and BackSpace the one before
/// it, C-k everything after it and C-u everything before it; typing a
/// printable character puts it in at the cursor and steps past it.
pub proof fn lemma_rename_edits(s: State, k: Key)
    requires
        edit_shape(s.editing) matches Some(e) && 0 <= e.1 <= e.0.len(),
        !k.alt,
    ensures
        ({
            let (b, c) = edit_shape(s.editing)->0;
            let lc = lower(k.ch);
            let named = !k.ctrl && k.ch is None;
            let ctl = k.ctrl && k.name == KeyName::Other;
            &&& (ctl && lc == Some('d')) || (named && k.name == KeyName::Delete)
                ==> key_outcome(s, k).0.editing == Some(if c < b.len() { (b.take(c) + b.skip(c + 1), c) } else { (b, c) })
            &&& (ctl && lc == Some('h')) || (named && k.name == KeyName::BackSpace)
                ==> key_outcome(s, k).0.editing == Some(if c > 0 { (b.take(c - 1) + b.skip(c), c - 1) } else { (b, c) })
            &&& ctl && lc == Some('k') ==> key_outcome(s, k).0.editing == Some((b.take(c), c))
            &&& ctl && lc == Some('u') ==> key_outcome(s, k).0.editing == Some((b.skip(c), 0int))
            &&& (!k.ctrl && k.name == KeyName::Other && k.ch is Some && !is_control(k.ch->0) && b.len() < usize::MAX)
                ==> key_outcome(s, k) == (Ui { editing: Some((b.take(c) + seq![k.ch->0] + b.skip(c), c + 1)), ..ui_of(s) },
                    CommandShape::Redraw)
        }),
{
    let (b, c) = edit_shape(s.editing)->0;
    if c < b.len() {
        assert(b.remove(c) =~= b.take(c) + b.skip(c + 1));
    }
    if c > 0 {
        assert(b.remove(c - 1) =~= b.take(c - 1) + b.skip(c));
    }
    if k.ch is Some {
        assert(b.insert(c, k.ch->0) =~= b.take(c) + seq![k.ch->0] + b.skip(c));
    }
}

/// In the rename field the word keys work on the word boundaries (see
/// `lemma_word_motions_land_on_word_ends`): M-b moves the cursor back to the
/// start of the word before it and M-f forward to the end of the word after
/// it, leaving the text; C-w and M-BackSpace delete back to that start, and
/// M-d deletes forward to that end, leaving the cursor where the deletion
/// begins.
pub proof fn lemma_rename_word_keys(s: State, k: Key)
    requires
        edit_shape(s.editing) matches Some(e) && 0 <= e.1 <= e.0.len(),
    ensures
        ({
            let (b, c) = edit_shape(s.editing)->0;
            let lc = lower(k.ch);
            let p = prev_word_of(b, c);
            let n = next_word_of(b, c);
            let meta = k.alt && !k.ctrl && k.name == KeyName::Other;
            &&& meta && lc == Some('b') ==> key_outcome(s, k).0.editing == Some((b, p))
            &&& meta && lc == Some('f') ==> key_outcome(s, k).0.editing == Some((b, n))
            &&& meta && lc == Some('d') ==> key_outcome(s, k).0.editing == Some((b.take(c) + b.skip(n), c))
            &&& (k.ctrl && k.name == KeyName::Other && lc == Some('w'))
                || (k.alt && !k.ctrl && k.ch is None && k.name == KeyName::BackSpace)
                ==> key_outcome(s, k).0.editing == Some((b.take(p) + b.skip(c), p))
        }),
{
}

/// Enter closes the rename field and renames the selected workspace to the
/// text with surrounding white space trimmed; Escape and C-g close it
/// without renaming.
pub proof fn lemma_rename_commit_and_cancel(s: State, k: Key)
    requires
        edit_shape(s.editing) matches Some(e),
    ensures
        (k.name == KeyName::Return || k.name == KeyName::KpEnter) && k.ch is None ==> key_outcome(s, k) == (
            Ui { editing: None, ..ui_of(s) },
            CommandShape::Rename { workspace: selected_ws_id(s.model, s.sel_nav), name: trim((edit_shape(s.editing)->0).0) }),
        k.name == KeyName::Escape || (k.ctrl && (k.ch == Some('g') || k.ch == Some('G')))
            ==> key_outcome(s, k) == (Ui { editing: None, ..ui_of(s) }, CommandShape::Redraw),
{
}

/// Whether focusing a target closes the overlay: only when the target is on
/// the overlay's own output, or either output is unknown; otherwise the
/// overlay stays up as a map on its screen.
pub fn dismisses_overlay(overlay_output: &Option<String>, target_output: &Option<String>) -> (r: bool)
    ensures
        r == match (*overlay_output, *target_output) {
            (Some(a), Some(b)) => a@ == b@,
            _ => true,
        },
{
    match (overlay_output, target_output) {
        (Some(a), Some(b)) => crate::text::same_text(a.as_str(), b.as_str()),
        _ => true,
    }
}

/// The output named `name`, first found.
pub open spec fn output_named(m: Model, name: Seq<char>) -> Option<usize> {
    if exists|o: int| 0 <= o < m.outputs@.len() && #[trigger] m.outputs@[o].name@ == name {
        Some((choose|o: int| 0 <= o < m.outputs@.len() && #[trigger] m.outputs@[o].name@ == name
            && forall|p: int| 0 <= p < o ==> #[trigger] m.outputs@[p].name@ != name) as usize)
    } else {
        None
    }
}

impl State {
    /// The theme to draw with: the picker's live highlight while it is open,
    /// else the saved one, held within the themes.
    pub fn shown_theme(&self) -> (r: usize)
        requires
            self.theme_count > 0,
        ensures
            ({
                let i = match self.picker {
                    Some(p) => p,
                    None => self.theme_idx,
                };
                r == if i < self.theme_count { i } else { (self.theme_count - 1) as usize }
            }),
    {
        let i = match self.picker {
            Some(p) => p,
            None => self.theme_idx,
        };
        if i < self.theme_count { i } else { self.theme_count - 1 }
    }

    fn output_named(m: &Model, name: &str) -> (r: Option<usize>)
        ensures
            r == output_named(*m, name@),
    {
        let mut o: usize = 0;
        while o < m.outputs.len()
            invariant
                o <= m.outputs@.len(),
                forall|p: int| 0 <= p < o ==> #[trigger] m.outputs@[p].name@ != name@,
            decreases m.outputs.len() - o,
        {
            if crate::text::same_text(m.outputs[o].name.as_str(), name) {
                assert(output_named(*m, name@) == Some(o)) by {
                    assert(m.outputs@[o as int].name@ == name@);
                    let c = choose|c: int| 0 <= c < m.outputs@.len() && #[trigger] m.outputs@[c].name@ == name@
                        && forall|p: int| 0 <= p < c ==> #[trigger] m.outputs@[p].name@ != name@;
                    if c < o { } else if c > o { }
                }
                return Some(o);
            }
            o += 1;
        }
        None
    }

    /// The state the overlay opens with. `--solo <name>` shows only that
    /// output when the map has it; the selection starts on the soloed output's
    /// first workspace, else on niri's focused workspace.
    pub fn open(model: Model, solo_monitor: &Option<String>, theme_idx: usize, theme_count: usize, mark_keys: Vec<char>) -> (s: State)
        ensures
            s.model == model,
            s.solo == match *solo_monitor {
                Some(n) => output_named(model, n@),
                None => None,
            },
            match s.solo {
                Some(o) if first_nav_of(model.nav@, o) is Some => s.sel_nav == first_nav_of(model.nav@, o)->0,
                _ => {
                    &&& s.sel_nav == 0 || (s.sel_nav < model.nav@.len() && nav_focused(model, s.sel_nav as int))
                    &&& forall|i: int| 0 <= i < s.sel_nav ==> !#[trigger] nav_focused(model, i)
                    &&& s.sel_nav == 0 && !(model.nav@.len() > 0 && nav_focused(model, 0))
                        ==> forall|i: int| 0 <= i < model.nav@.len() ==> !#[trigger] nav_focused(model, i)
                },
            },
            s.sel_win == 0,
            s.editing is None,
            s.picker is None,
            !s.show_help,
            s.theme_idx == theme_idx,
            s.theme_count == theme_count,
            s.mark_keys == mark_keys,
            s.auto_show@ == crate::autoshow::initial_state(),
    {
        let solo = match solo_monitor {
            Some(n) => State::output_named(&model, n.as_str()),
            None => None,
        };
        let mut s = State {
            model,
            sel_nav: 0,
            sel_win: 0,
            editing: None,
            theme_count,
            theme_idx,
            picker: None,
            show_help: false,
            solo,
            auto_show: AutoShow::default(),
            mark_keys,
        };
        let start = match solo {
            Some(o) => match step_output_first(&s.model, o) {
                Some(i) => i,
                None => s.focused_nav(),
            },
            None => s.focused_nav(),
        };
        s.sel_nav = start;
        s
    }
}

/// The nav index of the first workspace on output `o`.
fn step_output_first(m: &Model, o: usize) -> (r: Option<usize>)
    ensures
        r == first_nav_of(m.nav@, o),
{
    let mut i: usize = 0;
    while i < m.nav.len()
        invariant
            i <= m.nav@.len(),
            forall|j: int| 0 <= j < i ==> m.nav@[j].0 != o,
        decreases m.nav.len() - i,
    {
        if m.nav[i].0 == o {
            assert(first_nav_of(m.nav@, o) == Some(i)) by {
                let k = choose|k: int| 0 <= k < m.nav@.len() && m.nav@[k].0 == o
                    && forall|j: int| 0 <= j < k ==> m.nav@[j].0 != o;
                assert(m.nav@[i as int].0 == o);
                if k < i { } else if k > i { }
            }
            return Some(i);
        }
        i += 1;
    }
    None
}

/// The characters the map binds to its own keys.
pub open spec fn bound_char(c: char) -> bool {
    ||| c == '?' || c == 'q' || c == 'r' || c == 't' || c == 's' || c == 'f'
    ||| c == 'j' || c == 'k' || c == 'J' || c == 'K'
    ||| c == 'h' || c == 'l' || c == 'H' || c == 'L'
    ||| c == 'x' || c == 'w'
}

/// Whether the map binds the key `c` to a built-in action.
pub fn is_bound_key(c: char) -> (r: bool)
    ensures
        r == bound_char(c),
{
    c == '?' || c == 'q' || c == 'r' || c == 't' || c == 's' || c == 'f'
        || c == 'j' || c == 'k' || c == 'J' || c == 'K'
        || c == 'h' || c == 'l' || c == 'H' || c == 'L'
        || c == 'x' || c == 'w'
}

/// The mark kind at `i` is the one its key toggles: the key is not bound to
/// a built-in action and no earlier kind is declared on it.
pub open spec fn mark_kind_usable(keys: Seq<char>, i: int) -> bool {
    &&& !bound_char(keys[i])
    &&& forall|j: int| 0 <= j < i ==> keys[j] != keys[i]
}

/// The indices, in order, of the usable kinds among the first `n`.
pub open spec fn usable_kinds(keys: Seq<char>, n: nat) -> Seq<usize>
    decreases n,
{
    if n == 0 {
        seq![]
    } else {
        let before = usable_kinds(keys, (n - 1) as nat);
        if mark_kind_usable(keys, n - 1) {
            before.push((n - 1) as usize)
        } else {
            before
        }
    }
}

/// The declared mark kinds (given by their keys) that a keystroke can
/// toggle, by index in declaration order; these are the ones worth listing.
pub fn usable_mark_kinds(keys: &Vec<char>) -> (r: Vec<usize>)
    ensures
        r@ == usable_kinds(keys@, keys@.len()),
{
    let mut r: Vec<usize> = Vec::new();
    let mut i: usize = 0;
    while i < keys.len()
        invariant
            i <= keys@.len(),
            r@ == usable_kinds(keys@, i as nat),
        decreases keys.len() - i,
    {
        let c = keys[i];
        let mut first = true;
        let mut j: usize = 0;
        while j < i
            invariant
                j <= i,
                i < keys@.len(),
                c == keys@[i as int],
                first <==> forall|k: int| 0 <= k < j ==> keys@[k] != c,
            decreases i - j,
        {
            if keys[j] == c {
                first = false;
            }
            j += 1;
        }
        if first && !is_bound_key(c) {
            r.push(i);
        }
        i += 1;
    }
    r
}

/// A listed kind is exactly the one its key selects: a kind is usable if and
/// only if the lookup of its key finds it and the key is not bound.
pub proof fn lemma_usable_kind_is_found_by_its_key(keys: Seq<char>, i: int)
    requires
        0 <= i < keys.len(),
        keys.len() <= usize::MAX,
    ensures
        mark_kind_usable(keys, i) <==> (!bound_char(keys[i]) && mark_kind_on(keys, keys[i]) == Some(i as usize)),
{
    let c = keys[i];
    assert(keys[i] == c);
    lemma_first_key(keys, c, i);
    let k = choose|k: int| 0 <= k < keys.len() && keys[k] == c
        && forall|j: int| 0 <= j < k ==> keys[j] != c;
    assert(mark_kind_on(keys, c) == Some(k as usize));
    if k > i {
        assert(keys[i] != c);
    }
    if forall|j: int| 0 <= j < i ==> keys[j] != c {
        if k < i {
            assert(keys[k] != c);
        }
        assert(k == i);
    }
    if k == i {
        assert(forall|j: int| 0 <= j < i ==> keys[j] != c);
    }
}

proof fn lemma_first_key(keys: Seq<char>, c: char, i: int)
    requires
        0 <= i < keys.len(),
        keys[i] == c,
    ensures
        exists|k: int| 0 <= k < keys.len() && keys[k] == c
            && forall|j: int| 0 <= j < k ==> keys[j] != c,
    decreases i,
{
    if exists|j: int| 0 <= j < i && keys[j] == c {
        let j = choose|j: int| 0 <= j < i && keys[j] == c;
        lemma_first_key(keys, c, j);
    } else {
        assert(forall|j: int| 0 <= j < i ==> keys[j] != c);
    }
}

/// The key of a usable mark kind toggles that kind on the selected
/// workspace, by its name; on a workspace without a name it opens the rename
/// field instead, since marks are kept by name.
pub proof fn lemma_mark_key_toggles_its_kind(s: State, k: Key, i: int)
    requires
        s.editing is None,
        s.picker is None,
        k.name == KeyName::Other,
        !k.ctrl,
        0 <= i < s.mark_keys@.len(),
        s.mark_keys@.len() <= usize::MAX,
        mark_kind_usable(s.mark_keys@, i),
        k.ch == Some(s.mark_keys@[i]),
    ensures
        selected(s.model, s.sel_nav) matches Some(v) ==> (match v.0.name {
            Some(n) => if n@.len() > 0 {
                key_outcome(s, k) == (ui_of(s), CommandShape::ToggleMark { kind: i as usize, workspace: n@ })
            } else {
                key_outcome(s, k) == (Ui { editing: Some((n@, 0int)), ..ui_of(s) }, CommandShape::Redraw)
            },
            None => key_outcome(s, k) == (Ui { editing: Some((seq![], 0int)), ..ui_of(s) }, CommandShape::Redraw),
        }),
{
    lemma_usable_kind_is_found_by_its_key(s.mark_keys@, i);
}

/// A mark kind declared on a key that the map already binds is ignored: the
/// key keeps its built-in meaning and never toggles a mark.
pub proof fn lemma_bound_keys_win_over_marks(s: State, k: Key)
    requires
        k.ch matches Some(c) && bound_char(c),
    ensures
        !(main_outcome(s, k).1 is ToggleMark),
{
}

} // verus!
