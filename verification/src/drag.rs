//! What a mouse drop asks of niri. A workspace is dragged by its header onto
//! a slot among the workspaces of an output; a column is dragged onto a slot
//! among the columns of a workspace. The slot is a position among what the map
//! shows, which has to be turned into niri's own (1-based) index: hidden
//! workspaces and the dragged item itself must not shift it.

use vstd::prelude::*;
use crate::autoshow::Target;
use crate::model::{Model, OutputShape, WsShape, model_shape, output_shape, ws_shape};
use crate::niri::{
    NiriAction, Window, column_of, plan_args, move_column_to_index, move_column_to_monitor,
    move_column_to_workspace, move_workspace_to_index, move_workspace_to_monitor_named,
};
use crate::snapshot::insert_ordered;
use crate::text::{decimal, i64_text};

verus! {

/// What the pointer is dragging.
#[derive(Clone, Copy, PartialEq, Eq, Debug, Structural)]
pub enum DragKind {
    /// A whole workspace (grabbed by its header), identified by id.
    Workspace { id: u64 },
    /// A column within a workspace: the source workspace, the niri column
    /// index, and a window of the column to focus it by.
    Column { ws_id: u64, col: i64, win_id: u64 },
}

/// Where a drag would land if dropped now.
#[derive(Clone, Copy, PartialEq, Eq, Debug, Structural)]
pub enum DropTarget {
    /// Insert the workspace into output `o` at slot `idx` (0-based among the
    /// other workspaces there).
    Workspace { o: usize, idx: usize },
    /// Insert the column into workspace `wi` of output `o` at column slot `idx`.
    Column { o: usize, wi: usize, idx: usize },
}

/// A drop as niri requests: focus the dragged item, then (when that
/// succeeded) run the moves, whose failures are ignored.
pub struct DropPlan {
    pub focus: Target,
    pub moves: Vec<NiriAction>,
}

/// Whether output `o` shows workspace `id`.
pub open spec fn shows(shapes: Seq<OutputShape>, o: int, id: u64) -> bool {
    exists|w: int| 0 <= w < shapes[o].1.len() && #[trigger] shapes[o].1[w].0.id == id
}

/// The first output that shows workspace `id`.
pub open spec fn output_holding(shapes: Seq<OutputShape>, id: u64) -> Option<int> {
    if exists|o: int| 0 <= o < shapes.len() && #[trigger] shows(shapes, o, id) {
        Some(choose|o: int| 0 <= o < shapes.len() && #[trigger] shows(shapes, o, id)
            && forall|p: int| 0 <= p < o ==> !#[trigger] shows(shapes, p, id))
    } else {
        None
    }
}

/// The niri indices of the workspaces shown, other than workspace `id`.
pub open spec fn other_indices(wss: Seq<WsShape>, id: u64) -> Seq<i64>
    decreases wss.len(),
{
    if wss.len() == 0 {
        seq![]
    } else if wss.last().0.id != id {
        other_indices(wss.drop_last(), id).push(wss.last().0.idx)
    } else {
        other_indices(wss.drop_last(), id)
    }
}

/// The niri index a drop at slot `idx` among items with niri indices
/// `others` lands on: that of the item at the slot, or one past the last item,
/// or 1 when there are none.
pub open spec fn slot_index(others: Seq<i64>, idx: int) -> int {
    if idx < others.len() {
        others[idx] as int
    } else if others.len() > 0 {
        others.last() + 1
    } else {
        1
    }
}

pub open spec fn less_order() -> spec_fn(i64, i64) -> bool {
    |a: i64, b: i64| a < b
}

/// The distinct columns of some windows, in increasing order.
pub open spec fn columns_of(ws: Seq<Window>) -> Seq<i64>
    decreases ws.len(),
{
    if ws.len() == 0 {
        seq![]
    } else {
        let c = columns_of(ws.drop_last());
        let k = column_of(ws.last());
        if c.contains(k) { c } else { insert_ordered(c, k, less_order()) }
    }
}

/// The columns a dragged column can land among: those of the target
/// workspace, without the dragged column itself when it stays in its
/// workspace.
pub open spec fn landing_columns(ws: Seq<Window>, same_ws: bool, col: i64) -> Seq<i64> {
    if same_ws {
        without(columns_of(ws), col)
    } else {
        columns_of(ws)
    }
}

/// `s` without the items equal to `x`.
pub open spec fn without(s: Seq<i64>, x: i64) -> Seq<i64>
    decreases s.len(),
{
    if s.len() == 0 {
        seq![]
    } else if s.last() != x {
        without(s.drop_last(), x).push(s.last())
    } else {
        without(s.drop_last(), x)
    }
}

/// Whether `p` is the plan for dropping `kind` on `target` over the map of
/// outputs `shapes`.
pub open spec fn drop_plan_of(shapes: Seq<OutputShape>, kind: DragKind, target: DropTarget) -> Option<(Target, Seq<Seq<Seq<char>>>)> {
    match (kind, target) {
        (DragKind::Workspace { id }, DropTarget::Workspace { o, idx }) => {
            let out = shapes[o as int];
            let niri_idx = slot_index(other_indices(out.1, id), idx as int);
            let to_index = seq![seq!["move-workspace-to-index"@, decimal(niri_idx)]];
            let moves = if output_holding(shapes, id) == Some(o as int) {
                to_index
            } else {
                seq![seq!["move-workspace-to-monitor"@, out.0]] + to_index
            };
            Some((Target::Workspace(id), moves))
        },
        (DragKind::Column { ws_id, col, win_id }, DropTarget::Column { o, wi, idx }) => {
            let out = shapes[o as int];
            let ws = out.1[wi as int];
            let same_ws = ws.0.id == ws_id;
            let col_niri = slot_index(landing_columns(ws.1, same_ws, col), idx as int);
            let to_ws = seq!["move-column-to-workspace"@, decimal(ws.0.idx as int)];
            let moves = if same_ws {
                seq![seq!["move-column-to-index"@, decimal(col_niri)]]
            } else if output_holding(shapes, ws_id) == Some(o as int) {
                seq![to_ws]
            } else {
                seq![seq!["move-column-to-monitor"@, out.0], to_ws]
            };
            Some((Target::Window(win_id), moves))
        },
        _ => None,
    }
}

/// Whether the niri index of a drop at slot `idx` among items with niri
/// indices `others` can be written down: only the slot one past the last item
/// adds to an index.
pub open spec fn slot_fits(others: Seq<i64>, idx: int) -> bool {
    idx < others.len() || others.len() == 0 || others.last() < i64::MAX
}

/// Whether dropping `kind` on `target` can be planned: the slot names an
/// output (and a workspace of it) that the map shows, and the niri index it
/// lands on can be written down. A drop of a workspace on a column slot, or
/// of a column on a workspace slot, reads nothing and always fits.
pub open spec fn drop_fits(shapes: Seq<OutputShape>, kind: DragKind, target: DropTarget) -> bool {
    match (kind, target) {
        (DragKind::Workspace { id }, DropTarget::Workspace { o, idx }) => {
            &&& o < shapes.len()
            &&& slot_fits(other_indices(shapes[o as int].1, id), idx as int)
        },
        (DragKind::Column { ws_id, col, win_id }, DropTarget::Column { o, wi, idx }) => {
            &&& o < shapes.len()
            &&& wi < shapes[o as int].1.len()
            &&& slot_fits(
                landing_columns(
                    shapes[o as int].1[wi as int].1,
                    shapes[o as int].1[wi as int].0.id == ws_id,
                    col,
                ),
                idx as int,
            )
        },
        _ => true,
    }
}

pub open spec fn all_best_effort(p: Seq<NiriAction>) -> bool {
    forall|i: int| 0 <= i < p.len() ==> #[trigger] p[i].best_effort
}

fn best_effort(a: NiriAction) -> (r: NiriAction)
    ensures
        r.args == a.args,
        r.best_effort,
{
    NiriAction { args: a.args, best_effort: true }
}

fn shows_workspace(wss: &Vec<crate::model::WsView>, id: u64) -> (r: bool)
    ensures
        r == exists|w: int| 0 <= w < wss@.len() && #[trigger] ws_shape(wss@[w]).0.id == id,
{
    let mut w: usize = 0;
    while w < wss.len()
        invariant
            w <= wss@.len(),
            forall|v: int| 0 <= v < w ==> #[trigger] ws_shape(wss@[v]).0.id != id,
        decreases wss.len() - w,
    {
        if wss[w].ws.id == id {
            assert(ws_shape(wss@[w as int]).0.id == id);
            return true;
        }
        w += 1;
    }
    false
}

fn output_holding_of(m: &Model, id: u64) -> (r: Option<usize>)
    ensures
        match r {
            Some(o) => output_holding(model_shape(*m), id) == Some(o as int),
            None => output_holding(model_shape(*m), id) is None,
        },
{
    let ghost shapes = model_shape(*m);
    let mut o: usize = 0;
    while o < m.outputs.len()
        invariant
            o <= m.outputs@.len(),
            shapes == model_shape(*m),
            forall|p: int| 0 <= p < o ==> !#[trigger] shows(shapes, p, id),
        decreases m.outputs.len() - o,
    {
        assert(shapes[o as int] == output_shape(m.outputs@[o as int]));
        let found = shows_workspace(&m.outputs[o].workspaces, id);
        assert(found == shows(shapes, o as int, id)) by {
            let wss = m.outputs@[o as int].workspaces@;
            if found {
                let w = choose|w: int| 0 <= w < wss.len() && #[trigger] ws_shape(wss[w]).0.id == id;
                assert(shapes[o as int].1[w] == ws_shape(wss[w]));
            }
            if shows(shapes, o as int, id) {
                let w = choose|w: int| 0 <= w < shapes[o as int].1.len() && #[trigger] shapes[o as int].1[w].0.id == id;
                assert(shapes[o as int].1[w] == ws_shape(wss[w]));
            }
        }
        if found {
            assert(output_holding(shapes, id) == Some(o as int)) by {
                let c = choose|c: int| 0 <= c < shapes.len() && #[trigger] shows(shapes, c, id)
                    && forall|p: int| 0 <= p < c ==> !#[trigger] shows(shapes, p, id);
                if c < o { } else if c > o { }
            }
            return Some(o);
        }
        o += 1;
    }
    None
}

fn other_indices_of(wss: &Vec<crate::model::WsView>, id: u64) -> (r: Vec<i64>)
    ensures
        r@ == other_indices(wss@.map_values(|v: crate::model::WsView| ws_shape(v)), id),
{
    let ghost sh = wss@.map_values(|v: crate::model::WsView| ws_shape(v));
    let mut r: Vec<i64> = Vec::new();
    let mut i: usize = 0;
    while i < wss.len()
        invariant
            i <= wss@.len(),
            sh == wss@.map_values(|v: crate::model::WsView| ws_shape(v)),
            r@ == other_indices(sh.take(i as int), id),
        decreases wss.len() - i,
    {
        assert(sh.take(i + 1).drop_last() =~= sh.take(i as int));
        assert(sh.take(i + 1).last() == ws_shape(wss@[i as int]));
        if wss[i].ws.id != id {
            r.push(wss[i].ws.idx);
        }
        i += 1;
    }
    assert(sh.take(wss.len() as int) =~= sh);
    r
}

fn slot_fits_in(others: &Vec<i64>, idx: usize) -> (r: bool)
    ensures
        r == slot_fits(others@, idx as int),
{
    idx < others.len() || others.len() == 0 || others[others.len() - 1] < i64::MAX
}

fn slot(others: &Vec<i64>, idx: usize) -> (r: i64)
    requires
        slot_fits(others@, idx as int),
    ensures
        r == slot_index(others@, idx as int),
{
    if idx < others.len() {
        others[idx]
    } else if others.len() > 0 {
        others[others.len() - 1] + 1
    } else {
        1
    }
}

fn contains_i64(v: &Vec<i64>, x: i64) -> (r: bool)
    ensures
        r == v@.contains(x),
{
    let mut i: usize = 0;
    while i < v.len()
        invariant
            i <= v@.len(),
            forall|j: int| 0 <= j < i ==> v@[j] != x,
        decreases v.len() - i,
    {
        if v[i] == x {
            assert(v@[i as int] == x);
            return true;
        }
        i += 1;
    }
    false
}

fn insert_column(v: &mut Vec<i64>, x: i64)
    ensures
        final(v)@ == insert_ordered(old(v)@, x, less_order()),
{
    let ghost s = v@;
    let mut j = v.len();
    while j > 0 && x < v[j - 1]
        invariant
            v@ == s,
            j <= s.len(),
            forall|k: int| j <= k < s.len() ==> less_order()(x, #[trigger] s[k]),
        decreases j,
    {
        j -= 1;
    }
    proof {
        crate::snapshot::lemma_insert_at(s, x, less_order(), j as int);
    }
    v.insert(j, x);
    assert(v@ =~= s.take(j as int).push(x) + s.skip(j as int));
}

fn columns(ws: &Vec<Window>) -> (r: Vec<i64>)
    ensures
        r@ == columns_of(ws@),
{
    let mut r: Vec<i64> = Vec::new();
    let mut i: usize = 0;
    while i < ws.len()
        invariant
            i <= ws@.len(),
            r@ == columns_of(ws@.take(i as int)),
        decreases ws.len() - i,
    {
        assert(ws@.take(i + 1).drop_last() =~= ws@.take(i as int));
        assert(ws@.take(i + 1).last() == ws@[i as int]);
        let c = ws[i].column();
        if !contains_i64(&r, c) {
            insert_column(&mut r, c);
        }
        i += 1;
    }
    assert(ws@.take(ws.len() as int) =~= ws@);
    r
}

fn without_column(v: &Vec<i64>, x: i64) -> (r: Vec<i64>)
    ensures
        r@ == without(v@, x),
{
    let mut r: Vec<i64> = Vec::new();
    let mut i: usize = 0;
    while i < v.len()
        invariant
            i <= v@.len(),
            r@ == without(v@.take(i as int), x),
        decreases v.len() - i,
    {
        assert(v@.take(i + 1).drop_last() =~= v@.take(i as int));
        assert(v@.take(i + 1).last() == v@[i as int]);
        if v[i] != x {
            r.push(v[i]);
        }
        i += 1;
    }
    assert(v@.take(v.len() as int) =~= v@);
    r
}

/// The niri requests for dropping `kind` on `target`: `None` when a
/// workspace is dropped on a column slot or the other way round (the drop
/// does nothing). A workspace moves to the target output first when it is
/// not already there, then to the slot's index; a column moves to the slot's
/// index within its own workspace, or else to the target workspace, via the
/// target output when that is another one.
pub fn plan_drop(m: &Model, kind: DragKind, target: DropTarget) -> (r: Option<DropPlan>)
    requires
        drop_fits(model_shape(*m), kind, target),
    ensures
        match r {
            Some(p) => {
                &&& drop_plan_of(model_shape(*m), kind, target) == Some((p.focus, plan_args(p.moves@)))
                &&& all_best_effort(p.moves@)
            },
            None => drop_plan_of(model_shape(*m), kind, target) is None,
        },
{
    let ghost shapes = model_shape(*m);
    match (kind, target) {
        (DragKind::Workspace { id }, DropTarget::Workspace { o, idx }) => {
            let out = &m.outputs[o];
            assert(shapes[o as int] == output_shape(m.outputs@[o as int]));
            let others = other_indices_of(&out.workspaces, id);
            let niri_idx = slot(&others, idx);
            let mut moves: Vec<NiriAction> = Vec::new();
            let same = match output_holding_of(m, id) {
                Some(src) => src == o,
                None => false,
            };
            if !same {
                moves.push(best_effort(move_workspace_to_monitor_named(out.name.as_str())));
            }
            moves.push(best_effort(move_workspace_to_index(niri_idx)));
            proof {
                let to_index = seq![seq!["move-workspace-to-index"@, decimal(niri_idx as int)]];
                if same {
                    assert(plan_args(moves@) =~= to_index);
                } else {
                    assert(plan_args(moves@) =~= seq![seq!["move-workspace-to-monitor"@, shapes[o as int].0]] + to_index);
                }
            }
            Some(DropPlan { focus: Target::Workspace(id), moves })
        },
        (DragKind::Column { ws_id, col, win_id }, DropTarget::Column { o, wi, idx }) => {
            let out = &m.outputs[o];
            assert(shapes[o as int] == output_shape(m.outputs@[o as int]));
            let wsv = &out.workspaces[wi];
            assert(shapes[o as int].1[wi as int] == ws_shape(*wsv));
            let same_ws = wsv.ws.id == ws_id;
            let all = columns(&wsv.windows);
            let cols = if same_ws { without_column(&all, col) } else { all };
            let col_niri = slot(&cols, idx);
            let n = i64_text(wsv.ws.idx);
            let mut moves: Vec<NiriAction> = Vec::new();
            if same_ws {
                moves.push(best_effort(move_column_to_index(col_niri)));
            } else {
                let same_monitor = match output_holding_of(m, ws_id) {
                    Some(src) => src == o,
                    None => false,
                };
                if !same_monitor {
                    moves.push(best_effort(move_column_to_monitor(out.name.as_str())));
                }
                moves.push(best_effort(move_column_to_workspace(n.as_str())));
            }
            proof {
                let to_ws = seq!["move-column-to-workspace"@, decimal(wsv.ws.idx as int)];
                if same_ws {
                    assert(plan_args(moves@) =~= seq![seq!["move-column-to-index"@, decimal(col_niri as int)]]);
                } else if output_holding(shapes, ws_id) == Some(o as int) {
                    assert(plan_args(moves@) =~= seq![to_ws]);
                } else {
                    assert(plan_args(moves@) =~= seq![seq!["move-column-to-monitor"@, shapes[o as int].0], to_ws]);
                }
            }
            Some(DropPlan { focus: Target::Window(win_id), moves })
        },
        _ => None,
    }
}

/// Whether dropping `kind` on `target` can be planned over the map `m` (see
/// `drop_fits`).
pub fn drop_fits_map(m: &Model, kind: DragKind, target: DropTarget) -> (r: bool)
    ensures
        r == drop_fits(model_shape(*m), kind, target),
{
    let ghost shapes = model_shape(*m);
    assert(shapes.len() == m.outputs@.len());
    match (kind, target) {
        (DragKind::Workspace { id }, DropTarget::Workspace { o, idx }) => {
            if o >= m.outputs.len() {
                return false;
            }
            assert(shapes[o as int] == output_shape(m.outputs@[o as int]));
            let others = other_indices_of(&m.outputs[o].workspaces, id);
            slot_fits_in(&others, idx)
        },
        (DragKind::Column { ws_id, col, win_id }, DropTarget::Column { o, wi, idx }) => {
            if o >= m.outputs.len() {
                return false;
            }
            assert(shapes[o as int] == output_shape(m.outputs@[o as int]));
            if wi >= m.outputs[o].workspaces.len() {
                return false;
            }
            let wsv = &m.outputs[o].workspaces[wi];
            assert(shapes[o as int].1[wi as int] == ws_shape(*wsv));
            let same_ws = wsv.ws.id == ws_id;
            let all = columns(&wsv.windows);
            let cols = if same_ws { without_column(&all, col) } else { all };
            slot_fits_in(&cols, idx)
        },
        _ => true,
    }
}

} // verus!
