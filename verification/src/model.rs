//! The picture the overlay draws: outputs, the workspaces on each, and the
//! windows in each workspace, built from a niri snapshot; and the rules by which
//! the selection moves over it.

use vstd::prelude::*;
use crate::niri;

verus! {

/// A workspace together with the windows it holds (sorted by column, then row).
pub struct WsView {
    pub ws: niri::Workspace,
    pub windows: Vec<niri::Window>,
}

/// One output (monitor) and its workspaces, sorted by index. `x`/`y` are niri's
/// logical position (used to order/place outputs) and `w` its logical width
/// (used for proportional horizontal sizing). Height isn't kept — outputs are
/// drawn full-height.
pub struct OutputView {
    pub name: String,
    pub workspaces: Vec<WsView>,
    pub x: i64,
    pub y: i64,
    pub w: i64,
}

/// The full picture, plus a flat navigation order over workspaces.
pub struct Model {
    pub outputs: Vec<OutputView>,
    /// `(output index, workspace index within output)` in display order.
    pub nav: Vec<(usize, usize)>,
}

/// A workspace on the map as plain values: the workspace and its windows.
pub type WsShape = (niri::Workspace, Seq<niri::Window>);

/// An output on the map as plain values: name, workspaces, and `x`, `y`, `w`.
pub type OutputShape = (Seq<char>, Seq<WsShape>, i64, i64, i64);

pub open spec fn ws_shape(v: WsView) -> WsShape {
    (v.ws, v.windows@)
}

pub open spec fn output_shape(o: OutputView) -> OutputShape {
    (o.name@, o.workspaces@.map_values(|v: WsView| ws_shape(v)), o.x, o.y, o.w)
}

/// The outputs of a model as plain values.
pub open spec fn model_shape(m: Model) -> Seq<OutputShape> {
    m.outputs@.map_values(|o: OutputView| output_shape(o))
}

/// Whether nav entry `i` may be stepped onto: any entry, or in solo mode only
/// those of the soloed output.
pub open spec fn in_scope(nav: Seq<(usize, usize)>, i: int, solo: Option<usize>) -> bool {
    match solo {
        None => true,
        Some(o) => nav[i].0 == o,
    }
}

/// The nav indices below `n` that may be stepped onto, in increasing order.
pub open spec fn candidates(nav: Seq<(usize, usize)>, solo: Option<usize>, n: nat) -> Seq<usize>
    decreases n,
{
    if n == 0 {
        seq![]
    } else {
        let c = candidates(nav, solo, (n - 1) as nat);
        if in_scope(nav, n - 1, solo) {
            c.push((n - 1) as usize)
        } else {
            c
        }
    }
}

/// `v` held within `[lo, hi]`.
pub open spec fn clamp(v: int, lo: int, hi: int) -> int {
    if v < lo {
        lo
    } else if v > hi {
        hi
    } else {
        v
    }
}

/// Where in the candidate list the selection stands: its rank among the
/// candidates when it is one, else the front of the list.
pub open spec fn nav_position(nav: Seq<(usize, usize)>, sel: int, solo: Option<usize>) -> int {
    if 0 <= sel < nav.len() && in_scope(nav, sel, solo) {
        candidates(nav, solo, sel as nat).len() as int
    } else {
        0
    }
}

/// The nav index that `delta` steps from `sel` land on.
pub open spec fn nav_step(nav: Seq<(usize, usize)>, sel: int, delta: int, solo: Option<usize>) -> Option<usize> {
    let c = candidates(nav, solo, nav.len());
    if c.len() == 0 {
        None
    } else {
        Some(c[clamp(nav_position(nav, sel, solo) + delta, 0, c.len() - 1)])
    }
}

proof fn lemma_candidates_facts(nav: Seq<(usize, usize)>, solo: Option<usize>, n: nat)
    requires
        n <= nav.len(),
        nav.len() <= usize::MAX,
    ensures
        candidates(nav, solo, n).len() <= n,
        forall|k: int| 0 <= k < candidates(nav, solo, n).len() ==> {
            let i = #[trigger] candidates(nav, solo, n)[k];
            &&& i < n
            &&& in_scope(nav, i as int, solo)
        },
        forall|k: int, l: int| 0 <= k < l < candidates(nav, solo, n).len()
            ==> candidates(nav, solo, n)[k] < candidates(nav, solo, n)[l],
        forall|i: int| 0 <= i < n && in_scope(nav, i, solo)
            ==> candidates(nav, solo, n).contains(i as usize),
    decreases n,
{
    if n > 0 {
        lemma_candidates_facts(nav, solo, (n - 1) as nat);
        let c = candidates(nav, solo, (n - 1) as nat);
        if in_scope(nav, n - 1, solo) {
            assert(c.push((n - 1) as usize)[c.len() as int] == (n - 1) as usize);
            assert forall|i: int| 0 <= i < n && in_scope(nav, i, solo)
                implies candidates(nav, solo, n).contains(i as usize) by {
                if i < n - 1 {
                    let k = choose|k: int| 0 <= k < c.len() && c[k] == i as usize;
                    assert(candidates(nav, solo, n)[k] == i as usize);
                } else {
                    assert(candidates(nav, solo, n)[c.len() as int] == i as usize);
                }
            }
        }
    }
}

/// Where `delta` steps of workspace navigation land, as an index into `nav`.
///
/// Stepping runs over the flat nav order, so it crosses from the last workspace
/// of one output to the first of the next. Solo mode confines it to the soloed
/// output. The ends clamp rather than wrap. `None` means there is nowhere to go.
pub fn step_nav(nav: &[(usize, usize)], sel: usize, delta: i32, solo: Option<usize>) -> (r: Option<usize>)
    ensures
        r == nav_step(nav@, sel as int, delta as int, solo),
        r matches Some(i) ==> i < nav@.len() && in_scope(nav@, i as int, solo),
        r is None <==> forall|i: int| 0 <= i < nav@.len() ==> !in_scope(nav@, i, solo),
{
    let mut cands: Vec<usize> = Vec::new();
    let mut pos: usize = 0;
    let mut i: usize = 0;
    while i < nav.len()
        invariant
            i <= nav@.len(),
            cands@ == candidates(nav@, solo, i as nat),
            pos == (if sel < i { nav_position(nav@, sel as int, solo) } else { 0 }),
        decreases nav.len() - i,
    {
        let keep = match solo {
            None => true,
            Some(o) => nav[i].0 == o,
        };
        proof {
            lemma_candidates_facts(nav@, solo, i as nat);
        }
        if keep {
            if i == sel {
                pos = cands.len();
            }
            cands.push(i);
        }
        i += 1;
    }
    proof {
        lemma_candidates_facts(nav@, solo, nav@.len());
    }
    if cands.len() == 0 {
        assert forall|i: int| 0 <= i < nav@.len() implies !in_scope(nav@, i, solo) by {
            if in_scope(nav@, i, solo) {
                assert(cands@.contains(i as usize));
            }
        }
        return None;
    }
    proof {
        if sel < nav@.len() && in_scope(nav@, sel as int, solo) {
            lemma_candidates_facts(nav@, solo, sel as nat);
            lemma_candidates_prefix(nav@, solo, (sel + 1) as nat, nav@.len());
            assert(candidates(nav@, solo, (sel + 1) as nat).len() == pos + 1);
        }
    }
    let last = cands.len() - 1;
    let idx: usize = if delta >= 0 {
        let step = delta as usize;
        if step >= last - pos { last } else { pos + step }
    } else {
        let back = (-(delta as i64)) as usize;
        if back >= pos { 0 } else { pos - back }
    };
    let r = cands[idx];
    assert(cands@.contains(r));
    Some(r)
}

/// The candidate list only grows as the bound grows.
proof fn lemma_candidates_prefix(nav: Seq<(usize, usize)>, solo: Option<usize>, m: nat, n: nat)
    requires
        m <= n,
    ensures
        candidates(nav, solo, m).len() <= candidates(nav, solo, n).len(),
        forall|k: int| 0 <= k < candidates(nav, solo, m).len()
            ==> #[trigger] candidates(nav, solo, n)[k] == candidates(nav, solo, m)[k],
    decreases n - m,
{
    if m < n {
        lemma_candidates_prefix(nav, solo, m, (n - 1) as nat);
    }
}

/// The output that `delta` steps from `current` land on, wrapping around.
pub open spec fn output_step(current: int, delta: int, output_count: int) -> int {
    (current + delta) % output_count
}

/// The nav index of the first workspace on output `o`, if it holds any.
pub open spec fn first_nav_of(nav: Seq<(usize, usize)>, o: usize) -> Option<usize> {
    if exists|i: int| 0 <= i < nav.len() && nav[i].0 == o {
        Some((choose|i: int| 0 <= i < nav.len() && nav[i].0 == o
            && forall|j: int| 0 <= j < i ==> nav[j].0 != o) as usize)
    } else {
        None
    }
}

/// Where `delta` steps of output navigation land, as `(nav index, output
/// index)` — the first workspace of the next output, wrapping around. `None`
/// when there are fewer than two outputs, or the target output holds no
/// workspaces.
pub fn step_output(nav: &[(usize, usize)], sel: usize, output_count: usize, delta: i32) -> (r: Option<(usize, usize)>)
    ensures
        output_count < 2 ==> r is None,
        output_count >= 2 ==> {
            let current = if sel < nav@.len() { nav@[sel as int].0 as int } else { 0 };
            let next = output_step(current, delta as int, output_count as int);
            &&& r == match first_nav_of(nav@, next as usize) {
                Some(i) => Some((i, next as usize)),
                None => None::<(usize, usize)>,
            }
            &&& 0 <= next < output_count
        },
{
    if output_count < 2 {
        return None;
    }
    let current: usize = if sel < nav.len() { nav[sel].0 } else { 0 };
    let m = output_count as u128;
    let base = (current as u128) % m;
    let next: u128 = if delta >= 0 {
        (base + (delta as u128)) % m
    } else {
        let back = ((-(delta as i64)) as u128) % m;
        (base + m - back) % m
    };
    proof {
        lemma_output_step(current as int, delta as int, output_count as int, base as int, next as int);
    }
    let next = next as usize;
    let ghost cur: int = if sel < nav@.len() { nav@[sel as int].0 as int } else { 0 };
    let mut i: usize = 0;
    while i < nav.len()
        invariant
            i <= nav@.len(),
            output_count >= 2,
            cur == (if sel < nav@.len() { nav@[sel as int].0 as int } else { 0 }),
            next as int == output_step(cur, delta as int, output_count as int),
            0 <= next < output_count,
            forall|j: int| 0 <= j < i ==> nav@[j].0 != next,
        decreases nav.len() - i,
    {
        if nav[i].0 == next {
            assert(first_nav_of(nav@, next) == Some(i)) by {
                let k = choose|k: int| 0 <= k < nav@.len() && nav@[k].0 == next
                    && forall|j: int| 0 <= j < k ==> nav@[j].0 != next;
                assert(nav@[i as int].0 == next);
                if k < i { } else if k > i { }
            }
            return Some((i, next));
        }
        i += 1;
    }
    None
}

pub(crate) proof fn lemma_output_step(current: int, delta: int, m: int, base: int, next: int)
    requires
        m >= 2,
        current >= 0,
        base == current % m,
        delta >= 0 ==> next == (base + delta) % m,
        delta < 0 ==> next == (base + m - ((-delta) % m)) % m,
    ensures
        next == output_step(current, delta, m),
        0 <= next < m,
{
    vstd::arithmetic::div_mod::lemma_mod_bound(current + delta, m);
    if delta >= 0 {
        vstd::arithmetic::div_mod::lemma_add_mod_noop(current, delta, m);
        vstd::arithmetic::div_mod::lemma_mod_twice(delta, m);
        vstd::arithmetic::div_mod::lemma_mod_bound(delta, m);
        vstd::arithmetic::div_mod::lemma_add_mod_noop(base, delta, m);
        vstd::arithmetic::div_mod::lemma_mod_twice(current, m);
    } else {
        let d = -delta;
        vstd::arithmetic::div_mod::lemma_mod_bound(d, m);
        vstd::arithmetic::div_mod::lemma_mod_bound(current, m);
        // (current - d) % m == (base + m - d % m) % m
        vstd::arithmetic::div_mod::lemma_fundamental_div_mod(d, m);
        vstd::arithmetic::div_mod::lemma_fundamental_div_mod(current, m);
        let qd = d / m;
        let qc = current / m;
        assert(current + delta == (base + m - d % m) + (qc - qd - 1) * m) by (nonlinear_arith)
            requires
                current == m * qc + base,
                d == m * qd + d % m,
                delta == -d,
        ;
        vstd::arithmetic::div_mod::lemma_mod_multiples_vanish(qc - qd - 1, base + m - d % m, m);
    }
}

/// Where `delta` steps of window navigation land within a workspace holding
/// `count` windows. Both ends clamp, so it never leaves the workspace.
pub fn step_win(count: usize, sel: usize, delta: i32) -> (r: usize)
    ensures
        count == 0 ==> r == 0,
        count > 0 ==> r == clamp(sel + delta, 0, count - 1),
{
    if count == 0 {
        return 0;
    }
    let last = count - 1;
    if delta >= 0 {
        let step = delta as usize;
        if sel >= last || step >= last - sel { last } else { sel + step }
    } else {
        let back = (-(delta as i64)) as usize;
        if back >= sel { 0 } else if sel - back > last { last } else { sel - back }
    }
}

/// Stepping stays inside the candidates: a step never leaves the soloed
/// output, and the ends clamp rather than wrap — stepping forward from the
/// last candidate, or back from the first, stays put.
pub proof fn lemma_nav_ends_clamp(nav: Seq<(usize, usize)>, solo: Option<usize>, delta: int)
    requires
        nav.len() <= usize::MAX,
        candidates(nav, solo, nav.len()).len() > 0,
    ensures
        ({
            let c = candidates(nav, solo, nav.len());
            &&& delta >= 0 ==> nav_step(nav, c.last() as int, delta, solo) == Some(c.last())
            &&& delta <= 0 ==> nav_step(nav, c[0] as int, delta, solo) == Some(c[0])
        }),
{
    let c = candidates(nav, solo, nav.len());
    lemma_candidates_facts(nav, solo, nav.len());
    let l = c.last();
    let f = c[0];
    lemma_candidates_prefix(nav, solo, (l + 1) as nat, nav.len());
    lemma_candidates_rank(nav, solo, l as int);
    lemma_candidates_rank(nav, solo, f as int);
}

/// Outside solo mode every nav entry may be stepped onto, so the candidates
/// below `n` are `0, 1, ..., n - 1`.
pub proof fn lemma_candidates_without_solo(nav: Seq<(usize, usize)>, n: nat)
    requires
        n <= nav.len(),
        nav.len() <= usize::MAX,
    ensures
        candidates(nav, None, n).len() == n,
        forall|i: int| 0 <= i < n ==> candidates(nav, None, n)[i] == i,
    decreases n,
{
    if n > 0 {
        lemma_candidates_without_solo(nav, (n - 1) as nat);
    }
}

/// Outside solo mode a step of `delta` from entry `sel` lands on
/// `sel + delta`, held within the nav order.
pub proof fn lemma_nav_step_without_solo(nav: Seq<(usize, usize)>, sel: int, delta: int)
    requires
        0 <= sel < nav.len(),
        nav.len() <= usize::MAX,
    ensures
        nav_step(nav, sel, delta, None) == Some(clamp(sel + delta, 0, nav.len() - 1) as usize),
{
    lemma_candidates_without_solo(nav, sel as nat);
    lemma_candidates_without_solo(nav, nav.len());
}

/// A candidate's rank among the candidates is the number of candidates below it.
proof fn lemma_candidates_rank(nav: Seq<(usize, usize)>, solo: Option<usize>, i: int)
    requires
        0 <= i < nav.len(),
        nav.len() <= usize::MAX,
        in_scope(nav, i, solo),
    ensures
        candidates(nav, solo, nav.len())[candidates(nav, solo, i as nat).len() as int] == i,
        candidates(nav, solo, i as nat).len() < candidates(nav, solo, nav.len()).len(),
{
    lemma_candidates_prefix(nav, solo, (i + 1) as nat, nav.len());
    assert(candidates(nav, solo, (i + 1) as nat) == candidates(nav, solo, i as nat).push(i as usize));
}

/// The windows of a workspace grouped into runs that share a niri column:
/// each run's column and the positions of its windows, in order.
pub open spec fn column_runs(ws: Seq<niri::Window>) -> Seq<(i64, Seq<usize>)>
    decreases ws.len(),
{
    if ws.len() == 0 {
        seq![]
    } else {
        let g = column_runs(ws.drop_last());
        let c = niri::column_of(ws.last());
        let n = (ws.len() - 1) as usize;
        if g.len() > 0 && g.last().0 == c {
            g.update(g.len() - 1, (c, g.last().1.push(n)))
        } else {
            g.push((c, seq![n]))
        }
    }
}

pub open spec fn run_shape(r: (i64, Vec<usize>)) -> (i64, Seq<usize>) {
    (r.0, r.1@)
}

/// Group a workspace's windows into the columns drawn for it: consecutive
/// windows sharing a niri column form one column, top to bottom.
pub fn column_groups(ws: &WsView) -> (r: Vec<(i64, Vec<usize>)>)
    ensures
        r@.map_values(|g: (i64, Vec<usize>)| run_shape(g)) == column_runs(ws.windows@),
{
    let mut r: Vec<(i64, Vec<usize>)> = Vec::new();
    let mut i: usize = 0;
    while i < ws.windows.len()
        invariant
            i <= ws.windows@.len(),
            r@.map_values(|g: (i64, Vec<usize>)| run_shape(g)) == column_runs(ws.windows@.take(i as int)),
        decreases ws.windows.len() - i,
    {
        let ghost before = r@.map_values(|g: (i64, Vec<usize>)| run_shape(g));
        assert(ws.windows@.take(i + 1).drop_last() =~= ws.windows@.take(i as int));
        assert(ws.windows@.take(i + 1).last() == ws.windows@[i as int]);
        let c = ws.windows[i].column();
        let n = r.len();
        if n > 0 && r[n - 1].0 == c {
            let (col, mut lins) = r.pop().unwrap();
            lins.push(i);
            r.push((col, lins));
            assert(r@.map_values(|g: (i64, Vec<usize>)| run_shape(g))
                =~= before.update(before.len() - 1, (c, before.last().1.push(i))));
        } else {
            let mut lins: Vec<usize> = Vec::new();
            lins.push(i);
            r.push((c, lins));
            assert(r@.map_values(|g: (i64, Vec<usize>)| run_shape(g)) =~= before.push((c, seq![i])));
        }
        i += 1;
    }
    assert(ws.windows@.take(ws.windows.len() as int) =~= ws.windows@);
    r
}

} // verus!
