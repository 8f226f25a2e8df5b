//! What niri reports about its workspaces, windows and outputs, and the
//! `niri msg action` requests the overlay sends back. Reading the JSON and
//! running the `niri` binary happen around the library; here the snapshot is
//! plain data and a request is the argument list of one `niri msg action`.

use vstd::prelude::*;
use crate::text::{decimal, i64_text, u64_text};

verus! {

pub struct Workspace {
    pub id: u64,
    pub idx: i64,
    pub name: Option<String>,
    pub output: Option<String>,
    pub is_active: bool,
    pub is_focused: bool,
    pub is_urgent: bool,
}

pub struct Layout {
    /// 1-based `[column, row]` of the window inside the scrolling layout.
    /// Absent for floating windows.
    pub pos_in_scrolling_layout: Option<[i64; 2]>,
}

pub struct Window {
    pub id: u64,
    pub title: Option<String>,
    pub app_id: Option<String>,
    pub workspace_id: Option<u64>,
    pub is_focused: bool,
    pub is_floating: bool,
    pub is_urgent: bool,
    pub layout: Option<Layout>,
}

/// An output's position and size in niri's logical coordinate space, which
/// niri reports in whole logical pixels.
pub struct Logical {
    pub x: i64,
    pub y: i64,
    pub width: i64,
    pub height: i64,
}

pub struct Output {
    pub name: String,
    /// Absent when the output is disabled/off.
    pub logical: Option<Logical>,
}

/// The scrolling-layout column of a window: the first coordinate of its
/// position, 1 when unknown or floating.
pub open spec fn column_of(w: Window) -> i64 {
    match w.layout {
        Some(l) => match l.pos_in_scrolling_layout {
            Some(p) => p@[0],
            None => 1,
        },
        None => 1,
    }
}

/// The row of a window within its column, 1 when unknown or floating.
pub open spec fn row_of(w: Window) -> i64 {
    match w.layout {
        Some(l) => match l.pos_in_scrolling_layout {
            Some(p) => p@[1],
            None => 1,
        },
        None => 1,
    }
}

/// The label of a window: its title when present and non-empty, else its app
/// id, else `window <id>`.
pub open spec fn window_label(w: Window) -> Seq<char> {
    match w.title {
        Some(t) if t@.len() > 0 => t@,
        _ => match w.app_id {
            Some(a) => a@,
            None => "window "@ + decimal(w.id as int),
        },
    }
}

/// The label of a workspace: `<idx> <name>` when it has a non-empty name, else
/// `workspace <idx>`.
pub open spec fn workspace_label(w: Workspace) -> Seq<char> {
    match w.name {
        Some(n) if n@.len() > 0 => decimal(w.idx as int) + " "@ + n@,
        _ => "workspace "@ + decimal(w.idx as int),
    }
}

impl Window {
    /// A human label: the title, falling back to the app id.
    pub fn label(&self) -> (r: String)
        ensures
            r@ == window_label(*self),
    {
        match &self.title {
            Some(t) if !t.as_str().is_empty() => {
                return t.clone();
            },
            _ => {},
        }
        match &self.app_id {
            Some(a) => a.clone(),
            None => {
                let mut s = "window ".to_string();
                let n = u64_text(self.id);
                s.append(n.as_str());
                s
            },
        }
    }

    /// 1-based column in the scrolling layout (1 if unknown / floating).
    pub fn column(&self) -> (c: i64)
        ensures
            c == column_of(*self),
    {
        match &self.layout {
            Some(l) => match l.pos_in_scrolling_layout {
                Some(p) => p[0],
                None => 1,
            },
            None => 1,
        }
    }

    /// 1-based row within the column (1 if unknown / floating).
    pub fn row(&self) -> (r: i64)
        ensures
            r == row_of(*self),
    {
        match &self.layout {
            Some(l) => match l.pos_in_scrolling_layout {
                Some(p) => p[1],
                None => 1,
            },
            None => 1,
        }
    }
}

impl Workspace {
    /// A human label: the name, falling back to the index.
    pub fn label(&self) -> (r: String)
        ensures
            r@ == workspace_label(*self),
    {
        match &self.name {
            Some(n) if !n.as_str().is_empty() => {
                let mut s = i64_text(self.idx);
                s.append(" ");
                s.append(n.as_str());
                s
            },
            _ => {
                let mut s = "workspace ".to_string();
                let i = i64_text(self.idx);
                s.append(i.as_str());
                s
            },
        }
    }
}

fn copy_text(t: &Option<String>) -> (r: Option<String>)
    ensures
        r == *t,
{
    match t {
        Some(s) => Some(s.clone()),
        None => None,
    }
}

impl Workspace {
    /// An identical copy of the workspace.
    pub(crate) fn duplicate(&self) -> (r: Workspace)
        ensures
            r == *self,
    {
        Workspace {
            id: self.id,
            idx: self.idx,
            name: copy_text(&self.name),
            output: copy_text(&self.output),
            is_active: self.is_active,
            is_focused: self.is_focused,
            is_urgent: self.is_urgent,
        }
    }
}

impl Window {
    /// An identical copy of the window.
    pub(crate) fn duplicate(&self) -> (r: Window)
        ensures
            r == *self,
    {
        let layout = match &self.layout {
            Some(l) => Some(Layout { pos_in_scrolling_layout: l.pos_in_scrolling_layout }),
            None => None,
        };
        Window {
            id: self.id,
            title: copy_text(&self.title),
            app_id: copy_text(&self.app_id),
            workspace_id: self.workspace_id,
            is_focused: self.is_focused,
            is_floating: self.is_floating,
            is_urgent: self.is_urgent,
            layout,
        }
    }
}

/// One `niri msg action` request: its arguments, and whether a failure of it
/// is ignored rather than ending the sequence it belongs to.
pub struct NiriAction {
    pub args: Vec<String>,
    pub best_effort: bool,
}

impl NiriAction {
    /// Whether a sequence of requests goes on after this one has run, `ok`
    /// telling whether it succeeded: a failure ends the sequence unless the
    /// request is best effort.
    pub fn continues_after(&self, ok: bool) -> (b: bool)
        ensures
            b == (ok || self.best_effort),
    {
        ok || self.best_effort
    }
}

/// The arguments of an action, as text.
pub open spec fn args_of(a: NiriAction) -> Seq<Seq<char>> {
    a.args.deep_view()
}

/// The arguments of each action of a sequence, as text.
pub open spec fn plan_args(p: Seq<NiriAction>) -> Seq<Seq<Seq<char>>> {
    p.map_values(|a: NiriAction| args_of(a))
}

/// Whether every action of a sequence must succeed.
pub open spec fn all_required(p: Seq<NiriAction>) -> bool {
    forall|i: int| 0 <= i < p.len() ==> !#[trigger] p[i].best_effort
}

fn request(args: Vec<String>) -> (a: NiriAction)
    ensures
        a.args == args,
        !a.best_effort,
{
    NiriAction { args, best_effort: false }
}

fn words1(a: &str) -> (v: Vec<String>)
    ensures
        v.deep_view() == seq![a@],
{
    let mut v = Vec::new();
    v.push(a.to_string());
    assert(v.deep_view() =~= seq![a@]);
    v
}

fn words2(a: &str, b: &str) -> (v: Vec<String>)
    ensures
        v.deep_view() == seq![a@, b@],
{
    let mut v = Vec::new();
    v.push(a.to_string());
    v.push(b.to_string());
    assert(v.deep_view() =~= seq![a@, b@]);
    v
}

fn words3(a: &str, b: &str, c: &str) -> (v: Vec<String>)
    ensures
        v.deep_view() == seq![a@, b@, c@],
{
    let mut v = Vec::new();
    v.push(a.to_string());
    v.push(b.to_string());
    v.push(c.to_string());
    assert(v.deep_view() =~= seq![a@, b@, c@]);
    v
}

/// Close a single window by id (no confirmation).
pub fn close_window(id: u64) -> (a: NiriAction)
    ensures
        args_of(a) == seq!["close-window"@, "--id"@, decimal(id as int)],
        !a.best_effort,
{
    let n = u64_text(id);
    request(words3("close-window", "--id", n.as_str()))
}

/// Drop a workspace's name (by index or name reference). niri keeps named
/// workspaces around forever, so once a named workspace is emptied its name is
/// unset and niri reclaims the now-empty, unnamed workspace.
pub fn unset_workspace_name(reference: &str) -> (a: NiriAction)
    ensures
        args_of(a) == seq!["unset-workspace-name"@, reference@],
        !a.best_effort,
{
    request(words2("unset-workspace-name", reference))
}

/// Focus a window by its (stable) id.
pub fn focus_window(id: u64) -> (a: NiriAction)
    ensures
        args_of(a) == seq!["focus-window"@, "--id"@, decimal(id as int)],
        !a.best_effort,
{
    let n = u64_text(id);
    request(words3("focus-window", "--id", n.as_str()))
}

/// Focus an output by its connector name.
pub fn focus_monitor(output: &str) -> (a: NiriAction)
    ensures
        args_of(a) == seq!["focus-monitor"@, output@],
        !a.best_effort,
{
    request(words2("focus-monitor", output))
}

/// The position of the first workspace with the given id.
pub open spec fn first_with_id(wss: Seq<Workspace>, id: u64) -> int
    recommends
        exists|i: int| 0 <= i < wss.len() && wss[i].id == id,
{
    choose|i: int| 0 <= i < wss.len() && wss[i].id == id
        && forall|j: int| 0 <= j < i ==> wss[j].id != id
}

/// The actions that focus workspace `w`: its output first, when it has one,
/// then the workspace by its index on that output.
pub open spec fn focus_workspace_args(w: Workspace) -> Seq<Seq<Seq<char>>> {
    match w.output {
        Some(o) => seq![seq!["focus-monitor"@, o@], seq!["focus-workspace"@, decimal(w.idx as int)]],
        None => seq![seq!["focus-workspace"@, decimal(w.idx as int)]],
    }
}

/// Focus a workspace by its stable id, given a fresh list of niri's
/// workspaces. `focus-workspace` only takes an index or a name, and indices
/// can shift after a reorder, so the workspace's output and current index are
/// looked up in the fresh list.
pub fn focus_workspace_by_id(wss: &Vec<Workspace>, id: u64) -> (r: Result<Vec<NiriAction>, String>)
    ensures
        match r {
            Ok(p) => {
                &&& exists|i: int| 0 <= i < wss@.len() && wss@[i].id == id
                &&& plan_args(p@) == focus_workspace_args(wss@[first_with_id(wss@, id)])
                &&& all_required(p@)
            },
            Err(e) => {
                &&& forall|i: int| 0 <= i < wss@.len() ==> wss@[i].id != id
                &&& e@ == "workspace "@ + decimal(id as int) + " no longer exists"@
            },
        },
{
    let mut i: usize = 0;
    while i < wss.len()
        invariant
            i <= wss.len(),
            forall|j: int| 0 <= j < i ==> wss@[j].id != id,
        decreases wss.len() - i,
    {
        if wss[i].id == id {
            let w = &wss[i];
            let mut plan: Vec<NiriAction> = Vec::new();
            match &w.output {
                Some(o) => {
                    plan.push(focus_monitor(o.as_str()));
                },
                None => {},
            }
            let n = i64_text(w.idx);
            plan.push(request(words2("focus-workspace", n.as_str())));
            assert(first_with_id(wss@, id) == i as int) by {
                let k = first_with_id(wss@, id);
                assert(0 <= k < wss@.len() && wss@[k].id == id
                    && forall|j: int| 0 <= j < k ==> wss@[j].id != id);
                if k < i { } else if k > i { }
            }
            assert(plan_args(plan@) =~= focus_workspace_args(wss@[i as int]));
            return Ok(plan);
        }
        i += 1;
    }
    let mut e = "workspace ".to_string();
    let n = u64_text(id);
    e.append(n.as_str());
    e.append(" no longer exists");
    Err(e)
}

/// The text niri would keep as an intermediate name while renaming to `name`:
/// the name behind a zero-width space.
pub open spec fn scratch_name(name: Seq<char>) -> Seq<char> {
    seq!['\u{200b}'] + name
}

/// Rename the *focused* workspace. An empty name unsets it (so niri reclaims an
/// emptied workspace). niri ignores `set-workspace-name` when the new name
/// matches the current one case-insensitively, so a non-empty name is set
/// through a throwaway intermediate name that differs either way; a failure of
/// that first step is ignored.
pub fn rename_focused_workspace(name: &str) -> (p: Vec<NiriAction>)
    ensures
        name@.len() == 0 ==> plan_args(p@) == seq![seq!["unset-workspace-name"@]] && all_required(p@),
        name@.len() > 0 ==> {
            &&& plan_args(p@) == seq![
                seq!["set-workspace-name"@, scratch_name(name@)],
                seq!["set-workspace-name"@, name@],
            ]
            &&& p@[0].best_effort
            &&& !p@[1].best_effort
        },
{
    let mut p: Vec<NiriAction> = Vec::new();
    if name.is_empty() {
        p.push(request(words1("unset-workspace-name")));
        assert(plan_args(p@) =~= seq![seq!["unset-workspace-name"@]]);
        return p;
    }
    let mut scratch = String::new();
    crate::text::push_char(&mut scratch, '\u{200b}');
    scratch.append(name);
    p.push(NiriAction { args: words2("set-workspace-name", scratch.as_str()), best_effort: true });
    p.push(request(words2("set-workspace-name", name)));
    assert(plan_args(p@) =~= seq![
        seq!["set-workspace-name"@, scratch_name(name@)],
        seq!["set-workspace-name"@, name@],
    ]);
    p
}

/// Move the column containing `window_id` left or right within its
/// workspace. `move-column-left`/`-right` act on the focused column, so a
/// window in the column is focused first; niri clamps the move at the ends.
pub fn move_column(window_id: u64, right: bool) -> (p: Vec<NiriAction>)
    ensures
        plan_args(p@) == seq![
            seq!["focus-window"@, "--id"@, decimal(window_id as int)],
            seq![if right { "move-column-right"@ } else { "move-column-left"@ }],
        ],
        all_required(p@),
{
    let mut p: Vec<NiriAction> = Vec::new();
    p.push(focus_window(window_id));
    if right {
        p.push(request(words1("move-column-right")));
    } else {
        p.push(request(words1("move-column-left")));
    }
    assert(plan_args(p@) =~= seq![
        seq!["focus-window"@, "--id"@, decimal(window_id as int)],
        seq![if right { "move-column-right"@ } else { "move-column-left"@ }],
    ]);
    p
}

/// Move a workspace up or down within its output's stack.
///
/// `move-workspace-up`/`-down` only act on the *focused* workspace, and
/// `focus-workspace` only resolves within the focused output, so the output is
/// focused first, then the workspace by its (per-output) index, then it moves.
pub fn move_workspace(output: &str, idx: i64, down: bool) -> (p: Vec<NiriAction>)
    ensures
        plan_args(p@) == seq![
            seq!["focus-monitor"@, output@],
            seq!["focus-workspace"@, decimal(idx as int)],
            seq![if down { "move-workspace-down"@ } else { "move-workspace-up"@ }],
        ],
        all_required(p@),
{
    let mut p: Vec<NiriAction> = Vec::new();
    p.push(focus_monitor(output));
    let n = i64_text(idx);
    p.push(request(words2("focus-workspace", n.as_str())));
    if down {
        p.push(request(words1("move-workspace-down")));
    } else {
        p.push(request(words1("move-workspace-up")));
    }
    assert(plan_args(p@) =~= seq![
        seq!["focus-monitor"@, output@],
        seq!["focus-workspace"@, decimal(idx as int)],
        seq![if down { "move-workspace-down"@ } else { "move-workspace-up"@ }],
    ]);
    p
}

/// Move the focused workspace to the output on the left or right.
pub fn move_workspace_to_monitor(left: bool) -> (a: NiriAction)
    ensures
        args_of(a) == seq![if left { "move-workspace-to-monitor-left"@ } else { "move-workspace-to-monitor-right"@ }],
        !a.best_effort,
{
    if left {
        request(words1("move-workspace-to-monitor-left"))
    } else {
        request(words1("move-workspace-to-monitor-right"))
    }
}

/// Move the focused workspace to the named output.
pub fn move_workspace_to_monitor_named(output: &str) -> (a: NiriAction)
    ensures
        args_of(a) == seq!["move-workspace-to-monitor"@, output@],
        !a.best_effort,
{
    request(words2("move-workspace-to-monitor", output))
}

/// Move the focused workspace to a 1-based index on its output.
pub fn move_workspace_to_index(idx: i64) -> (a: NiriAction)
    ensures
        args_of(a) == seq!["move-workspace-to-index"@, decimal(idx as int)],
        !a.best_effort,
{
    let n = i64_text(idx);
    request(words2("move-workspace-to-index", n.as_str()))
}

/// Move the focused column to a 1-based column index in its workspace.
pub fn move_column_to_index(idx: i64) -> (a: NiriAction)
    ensures
        args_of(a) == seq!["move-column-to-index"@, decimal(idx as int)],
        !a.best_effort,
{
    let n = i64_text(idx);
    request(words2("move-column-to-index", n.as_str()))
}

/// Move the focused column to the workspace with the given reference (an
/// index on the focused output, or a name).
pub fn move_column_to_workspace(reference: &str) -> (a: NiriAction)
    ensures
        args_of(a) == seq!["move-column-to-workspace"@, reference@],
        !a.best_effort,
{
    request(words2("move-column-to-workspace", reference))
}

/// Move the focused column to the named output.
pub fn move_column_to_monitor(output: &str) -> (a: NiriAction)
    ensures
        args_of(a) == seq!["move-column-to-monitor"@, output@],
        !a.best_effort,
{
    request(words2("move-column-to-monitor", output))
}

/// The id of the first window niri reports as focused.
pub fn focused_window_id(windows: &Vec<Window>) -> (r: Option<u64>)
    ensures
        match r {
            Some(id) => exists|i: int| 0 <= i < windows@.len() && windows@[i].is_focused && windows@[i].id == id
                && forall|j: int| 0 <= j < i ==> !#[trigger] windows@[j].is_focused,
            None => forall|i: int| 0 <= i < windows@.len() ==> !#[trigger] windows@[i].is_focused,
        },
{
    let mut i: usize = 0;
    while i < windows.len()
        invariant
            i <= windows@.len(),
            forall|j: int| 0 <= j < i ==> !#[trigger] windows@[j].is_focused,
        decreases windows.len() - i,
    {
        if windows[i].is_focused {
            assert(windows@[i as int].is_focused);
            return Some(windows[i].id);
        }
        i += 1;
    }
    None
}

/// The id of the first workspace niri reports as focused.
pub fn focused_workspace_id(workspaces: &Vec<Workspace>) -> (r: Option<u64>)
    ensures
        match r {
            Some(id) => exists|i: int| 0 <= i < workspaces@.len() && workspaces@[i].is_focused && workspaces@[i].id == id
                && forall|j: int| 0 <= j < i ==> !#[trigger] workspaces@[j].is_focused,
            None => forall|i: int| 0 <= i < workspaces@.len() ==> !#[trigger] workspaces@[i].is_focused,
        },
{
    let mut i: usize = 0;
    while i < workspaces.len()
        invariant
            i <= workspaces@.len(),
            forall|j: int| 0 <= j < i ==> !#[trigger] workspaces@[j].is_focused,
        decreases workspaces.len() - i,
    {
        if workspaces[i].is_focused {
            assert(workspaces@[i as int].is_focused);
            return Some(workspaces[i].id);
        }
        i += 1;
    }
    None
}

} // verus!
