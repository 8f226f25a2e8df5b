//! Arranging a niri snapshot into the model: windows onto their workspaces,
//! workspaces onto their outputs, outputs left to right.
//!
//! Every ordering here is stable: items that compare equal keep the order in
//! which niri listed them. A stable order is described by inserting the items
//! one at a time, each after every item that does not go after it.

use vstd::prelude::*;
use crate::niri::{column_of, row_of, Output, Window, Workspace};
use crate::model::{Model, OutputShape, OutputView, WsShape, WsView, ws_shape, output_shape, model_shape};

verus! {

/// `x` inserted into `s` just after the last item that `x` does not go
/// before.
pub open spec fn insert_ordered<T>(s: Seq<T>, x: T, before: spec_fn(T, T) -> bool) -> Seq<T>
    decreases s.len(),
{
    if s.len() == 0 {
        seq![x]
    } else if before(x, s.last()) {
        insert_ordered(s.drop_last(), x, before).push(s.last())
    } else {
        s.push(x)
    }
}

/// The stable ordering of `s` by `before`.
pub open spec fn sort_ordered<T>(s: Seq<T>, before: spec_fn(T, T) -> bool) -> Seq<T>
    decreases s.len(),
{
    if s.len() == 0 {
        s
    } else {
        insert_ordered(sort_ordered(s.drop_last(), before), s.last(), before)
    }
}

/// Where an insertion lands: after the first `j` items, when every item from
/// `j` on goes after `x` and the one before `j` does not.
pub(crate) proof fn lemma_insert_at<T>(s: Seq<T>, x: T, before: spec_fn(T, T) -> bool, j: int)
    requires
        0 <= j <= s.len(),
        forall|k: int| j <= k < s.len() ==> before(x, #[trigger] s[k]),
        j == 0 || !before(x, s[j - 1]),
    ensures
        insert_ordered(s, x, before) == s.take(j).push(x) + s.skip(j),
    decreases s.len() - j,
{
    if j == s.len() {
        if s.len() > 0 {
            assert(s.take(j) =~= s);
        }
        assert(s.take(j).push(x) + s.skip(j) =~= s.push(x));
    } else {
        lemma_insert_at(s.drop_last(), x, before, j);
        assert(s.drop_last().take(j) =~= s.take(j));
        assert(s.take(j).push(x) + s.skip(j) =~= (s.take(j).push(x) + s.drop_last().skip(j)).push(s.last()));
    }
}

/// Window order inside a workspace: by column, then row, then id.
pub open spec fn window_before(a: Window, b: Window) -> bool {
    ||| column_of(a) < column_of(b)
    ||| column_of(a) == column_of(b) && row_of(a) < row_of(b)
    ||| column_of(a) == column_of(b) && row_of(a) == row_of(b) && a.id < b.id
}

pub open spec fn window_order() -> spec_fn(Window, Window) -> bool {
    |a: Window, b: Window| window_before(a, b)
}

/// The windows niri places on workspace `id`, in the order listed.
pub open spec fn windows_of(windows: Seq<Window>, id: u64) -> Seq<Window>
    decreases windows.len(),
{
    if windows.len() == 0 {
        seq![]
    } else if windows.last().workspace_id == Some(id) {
        windows_of(windows.drop_last(), id).push(windows.last())
    } else {
        windows_of(windows.drop_last(), id)
    }
}

/// The windows of workspace `id`, ordered by column, then row, then id.
pub open spec fn workspace_windows(windows: Seq<Window>, id: u64) -> Seq<Window> {
    sort_ordered(windows_of(windows, id), window_order())
}

fn window_goes_before(a: &Window, b: &Window) -> (r: bool)
    ensures
        r == window_before(*a, *b),
{
    let (ca, cb) = (a.column(), b.column());
    if ca != cb {
        return ca < cb;
    }
    let (ra, rb) = (a.row(), b.row());
    if ra != rb {
        return ra < rb;
    }
    a.id < b.id
}

fn insert_window(v: &mut Vec<Window>, x: Window)
    ensures
        final(v)@ == insert_ordered(old(v)@, x, window_order()),
{
    let ghost s = v@;
    let mut j = v.len();
    while j > 0 && window_goes_before(&x, &v[j - 1])
        invariant
            v@ == s,
            j <= s.len(),
            forall|k: int| j <= k < s.len() ==> window_order()(x, #[trigger] s[k]),
        decreases j,
    {
        j -= 1;
    }
    proof {
        lemma_insert_at(s, x, window_order(), j as int);
    }
    v.insert(j, x);
    assert(v@ =~= s.take(j as int).push(x) + s.skip(j as int));
}

/// The windows of workspace `id`, in their order on the map.
fn collect_windows(windows: &Vec<Window>, id: u64) -> (r: Vec<Window>)
    ensures
        r@ == workspace_windows(windows@, id),
{
    let mut r: Vec<Window> = Vec::new();
    let mut i: usize = 0;
    while i < windows.len()
        invariant
            i <= windows.len(),
            r@ == sort_ordered(windows_of(windows@.take(i as int), id), window_order()),
        decreases windows.len() - i,
    {
        assert(windows@.take(i + 1).drop_last() =~= windows@.take(i as int));
        if windows[i].workspace_id == Some(id) {
            insert_window(&mut r, windows[i].duplicate());
            let ghost t = windows_of(windows@.take(i + 1), id);
            assert(t.drop_last() =~= windows_of(windows@.take(i as int), id));
        }
        i += 1;
    }
    assert(windows@.take(windows.len() as int) =~= windows@);
    r
}

/// Text order, as `Ord` for `String` compares: character by character, a
/// proper prefix first.
pub open spec fn text_less(a: Seq<char>, b: Seq<char>) -> bool
    decreases a.len(),
{
    if b.len() == 0 {
        false
    } else if a.len() == 0 {
        true
    } else if a[0] != b[0] {
        (a[0] as u32) < (b[0] as u32)
    } else {
        text_less(a.drop_first(), b.drop_first())
    }
}

pub open spec fn text_order() -> spec_fn(Seq<char>, Seq<char>) -> bool {
    |a: Seq<char>, b: Seq<char>| text_less(a, b)
}

fn text_goes_before(a: &str, b: &str) -> (r: bool)
    ensures
        r == text_less(a@, b@),
{
    let x = crate::text::chars_of(a);
    let y = crate::text::chars_of(b);
    let mut i: usize = 0;
    assert(a@.skip(0) =~= a@);
    assert(b@.skip(0) =~= b@);
    while i < x.len() && i < y.len() && x[i] == y[i]
        invariant
            x@ == a@,
            y@ == b@,
            i <= x.len(),
            i <= y.len(),
            text_less(a@, b@) == text_less(a@.skip(i as int), b@.skip(i as int)),
        decreases x.len() - i,
    {
        assert(a@.skip(i as int).drop_first() =~= a@.skip(i + 1));
        assert(b@.skip(i as int).drop_first() =~= b@.skip(i + 1));
        i += 1;
    }
    if i == y.len() {
        assert(b@.skip(i as int).len() == 0);
        false
    } else if i == x.len() {
        true
    } else {
        assert(a@.skip(i as int)[0] == x@[i as int]);
        assert(b@.skip(i as int)[0] == y@[i as int]);
        (x[i] as u32) < (y[i] as u32)
    }
}

/// The name a workspace is grouped under: its output, or `?` when niri
/// names none.
pub open spec fn output_key(w: Workspace) -> Seq<char> {
    match w.output {
        Some(o) => o@,
        None => "?"@,
    }
}

/// `k` added to the ordered key list `ks`, unless already there.
pub open spec fn add_key(ks: Seq<Seq<char>>, k: Seq<char>) -> Seq<Seq<char>> {
    if ks.contains(k) {
        ks
    } else {
        insert_ordered(ks, k, text_order())
    }
}

/// The names the workspaces are grouped under, each once, in text order.
pub open spec fn output_keys(wss: Seq<Workspace>) -> Seq<Seq<char>>
    decreases wss.len(),
{
    if wss.len() == 0 {
        seq![]
    } else {
        add_key(output_keys(wss.drop_last()), output_key(wss.last()))
    }
}

fn key_of(w: &Workspace) -> (r: String)
    ensures
        r@ == output_key(*w),
{
    match &w.output {
        Some(o) => o.clone(),
        None => "?".to_string(),
    }
}

fn contains_text(v: &Vec<String>, k: &str) -> (r: bool)
    ensures
        r == v.deep_view().contains(k@),
{
    let mut i: usize = 0;
    while i < v.len()
        invariant
            i <= v.len(),
            forall|j: int| 0 <= j < i ==> v.deep_view()[j] != k@,
        decreases v.len() - i,
    {
        if crate::text::same_text(v[i].as_str(), k) {
            assert(v.deep_view()[i as int] == k@);
            return true;
        }
        i += 1;
    }
    false
}

fn insert_key(v: &mut Vec<String>, x: String)
    ensures
        final(v).deep_view() == insert_ordered(old(v).deep_view(), x@, text_order()),
{
    let ghost s = v.deep_view();
    let mut j = v.len();
    while j > 0 && text_goes_before(x.as_str(), v[j - 1].as_str())
        invariant
            v.deep_view() == s,
            j <= s.len(),
            forall|k: int| j <= k < s.len() ==> text_order()(x@, #[trigger] s[k]),
        decreases j,
    {
        j -= 1;
    }
    proof {
        lemma_insert_at(s, x@, text_order(), j as int);
    }
    v.insert(j, x);
    assert(v.deep_view() =~= s.take(j as int).push(x@) + s.skip(j as int));
}

/// The output names the workspaces are grouped under, in text order.
fn collect_keys(wss: &Vec<Workspace>) -> (r: Vec<String>)
    ensures
        r.deep_view() == output_keys(wss@),
{
    let mut r: Vec<String> = Vec::new();
    let mut i: usize = 0;
    while i < wss.len()
        invariant
            i <= wss.len(),
            r.deep_view() == output_keys(wss@.take(i as int)),
        decreases wss.len() - i,
    {
        assert(wss@.take(i + 1).drop_last() =~= wss@.take(i as int));
        let k = key_of(&wss[i]);
        if !contains_text(&r, k.as_str()) {
            insert_key(&mut r, k);
        }
        i += 1;
    }
    assert(wss@.take(wss.len() as int) =~= wss@);
    r
}

/// Workspace order on an output: by index.
pub open spec fn idx_order() -> spec_fn(Workspace, Workspace) -> bool {
    |a: Workspace, b: Workspace| a.idx < b.idx
}

/// The workspaces grouped under `key`, in the order listed.
pub open spec fn workspaces_under(wss: Seq<Workspace>, key: Seq<char>) -> Seq<Workspace>
    decreases wss.len(),
{
    if wss.len() == 0 {
        seq![]
    } else if output_key(wss.last()) == key {
        workspaces_under(wss.drop_last(), key).push(wss.last())
    } else {
        workspaces_under(wss.drop_last(), key)
    }
}

/// The workspaces grouped under `key`, ordered by index.
pub open spec fn output_workspaces(wss: Seq<Workspace>, key: Seq<char>) -> Seq<Workspace> {
    sort_ordered(workspaces_under(wss, key), idx_order())
}

fn insert_workspace(v: &mut Vec<Workspace>, x: Workspace)
    ensures
        final(v)@ == insert_ordered(old(v)@, x, idx_order()),
{
    let ghost s = v@;
    let mut j = v.len();
    while j > 0 && x.idx < v[j - 1].idx
        invariant
            v@ == s,
            j <= s.len(),
            forall|k: int| j <= k < s.len() ==> idx_order()(x, #[trigger] s[k]),
        decreases j,
    {
        j -= 1;
    }
    proof {
        lemma_insert_at(s, x, idx_order(), j as int);
    }
    v.insert(j, x);
    assert(v@ =~= s.take(j as int).push(x) + s.skip(j as int));
}

fn collect_workspaces(wss: &Vec<Workspace>, key: &str) -> (r: Vec<Workspace>)
    ensures
        r@ == output_workspaces(wss@, key@),
{
    let mut r: Vec<Workspace> = Vec::new();
    let mut i: usize = 0;
    while i < wss.len()
        invariant
            i <= wss.len(),
            r@ == sort_ordered(workspaces_under(wss@.take(i as int), key@), idx_order()),
        decreases wss.len() - i,
    {
        assert(wss@.take(i + 1).drop_last() =~= wss@.take(i as int));
        let k = key_of(&wss[i]);
        if crate::text::same_text(k.as_str(), key) {
            insert_workspace(&mut r, wss[i].duplicate());
            let ghost t = workspaces_under(wss@.take(i + 1), key@);
            assert(t.drop_last() =~= workspaces_under(wss@.take(i as int), key@));
        }
        i += 1;
    }
    assert(wss@.take(wss.len() as int) =~= wss@);
    r
}

/// Where niri places output `name` in its logical space, as `(x, y, width)`:
/// from the last entry of that name that has a placement.
pub open spec fn geometry(outputs: Seq<Output>, name: Seq<char>) -> Option<(i64, i64, i64)>
    decreases outputs.len(),
{
    if outputs.len() == 0 {
        None
    } else {
        let o = outputs.last();
        match o.logical {
            Some(l) => if o.name@ == name {
                Some((l.x, l.y, l.width))
            } else {
                geometry(outputs.drop_last(), name)
            },
            None => geometry(outputs.drop_last(), name),
        }
    }
}

fn find_geometry(outputs: &Vec<Output>, name: &str) -> (r: Option<(i64, i64, i64)>)
    ensures
        r == geometry(outputs@, name@),
{
    let mut r: Option<(i64, i64, i64)> = None;
    let mut i: usize = 0;
    while i < outputs.len()
        invariant
            i <= outputs.len(),
            r == geometry(outputs@.take(i as int), name@),
        decreases outputs.len() - i,
    {
        assert(outputs@.take(i + 1).drop_last() =~= outputs@.take(i as int));
        assert(outputs@.take(i + 1).last() == outputs@[i as int]);
        match &outputs[i].logical {
            Some(l) => {
                if crate::text::same_text(outputs[i].name.as_str(), name) {
                    r = Some((l.x, l.y, l.width));
                }
            },
            None => {},
        }
        i += 1;
    }
    assert(outputs@.take(outputs.len() as int) =~= outputs@);
    r
}

/// The workspaces of one output as they show on the map, and the ids whose
/// windows have been handed out once `group` is placed after `taken`. A
/// workspace gets the windows of its id unless an earlier one of the same id
/// took them; one left with no windows and no name is niri's scratch space
/// and stays off the map.
pub open spec fn place_workspaces(group: Seq<Workspace>, windows: Seq<Window>, taken: Seq<u64>) -> (Seq<WsShape>, Seq<u64>)
    decreases group.len(),
{
    if group.len() == 0 {
        (seq![], taken)
    } else {
        let prev = place_workspaces(group.drop_last(), windows, taken);
        let w = group.last();
        let wins = if prev.1.contains(w.id) { seq![] } else { workspace_windows(windows, w.id) };
        let shown = if wins.len() == 0 && w.name is None { prev.0 } else { prev.0.push((w, wins)) };
        (shown, prev.1.push(w.id))
    }
}

/// The synthetic `x` of the next output niri gives no placement: one
/// default width further right.
pub open spec fn next_fallback(x: i64) -> i64 {
    if x <= i64::MAX - 1600 {
        (x + 1600) as i64
    } else {
        i64::MAX
    }
}

/// The outputs named by `keys`, in that order, with the ids handed out and
/// the next synthetic `x`. An output niri gives no placement is put in a row
/// at `y` 0, each one default width (1600) to the right of the last.
pub open spec fn place_outputs(keys: Seq<Seq<char>>, wss: Seq<Workspace>, windows: Seq<Window>, outputs: Seq<Output>) -> (Seq<OutputShape>, Seq<u64>, i64)
    decreases keys.len(),
{
    if keys.len() == 0 {
        (seq![], seq![], 0)
    } else {
        let prev = place_outputs(keys.drop_last(), wss, windows, outputs);
        let k = keys.last();
        let placed = place_workspaces(output_workspaces(wss, k), windows, prev.1);
        match geometry(outputs, k) {
            Some(g) => (prev.0.push((k, placed.0, g.0, g.1, g.2)), placed.1, prev.2),
            None => (prev.0.push((k, placed.0, prev.2, 0, 1600)), placed.1, next_fallback(prev.2)),
        }
    }
}

/// Output order on the map: left to right, then top to bottom.
pub open spec fn position_order() -> spec_fn(OutputShape, OutputShape) -> bool {
    |a: OutputShape, b: OutputShape| a.2 < b.2 || (a.2 == b.2 && a.3 < b.3)
}

/// The outputs of the map, as built from a snapshot.
pub open spec fn arranged(wss: Seq<Workspace>, windows: Seq<Window>, outputs: Seq<Output>) -> Seq<OutputShape> {
    sort_ordered(place_outputs(output_keys(wss), wss, windows, outputs).0, position_order())
}

/// The flat navigation order: every workspace of every output, output by
/// output.
pub open spec fn nav_of(outs: Seq<OutputShape>) -> Seq<(usize, usize)>
    decreases outs.len(),
{
    if outs.len() == 0 {
        seq![]
    } else {
        nav_of(outs.drop_last()) + Seq::new(outs.last().1.len(), |w: int| ((outs.len() - 1) as usize, w as usize))
    }
}

fn contains_id(v: &Vec<u64>, id: u64) -> (r: bool)
    ensures
        r == v@.contains(id),
{
    let mut i: usize = 0;
    while i < v.len()
        invariant
            i <= v.len(),
            forall|j: int| 0 <= j < i ==> v@[j] != id,
        decreases v.len() - i,
    {
        if v[i] == id {
            assert(v@[i as int] == id);
            return true;
        }
        i += 1;
    }
    false
}

/// The workspaces of one output, as they show on the map.
fn place_group(group: Vec<Workspace>, windows: &Vec<Window>, taken: &mut Vec<u64>) -> (r: Vec<WsView>)
    ensures
        (r@.map_values(|v: WsView| ws_shape(v)), final(taken)@) == place_workspaces(group@, windows@, old(taken)@),
{
    let ghost t0 = taken@;
    let mut r: Vec<WsView> = Vec::new();
    let mut j: usize = 0;
    while j < group.len()
        invariant
            j <= group.len(),
            (r@.map_values(|v: WsView| ws_shape(v)), taken@) == place_workspaces(group@.take(j as int), windows@, t0),
        decreases group.len() - j,
    {
        assert(group@.take(j + 1).drop_last() =~= group@.take(j as int));
        let ghost before = r@.map_values(|v: WsView| ws_shape(v));
        let w = &group[j];
        let wins = if contains_id(taken, w.id) { Vec::new() } else { collect_windows(windows, w.id) };
        proof {
            if taken@.contains(w.id) {
                assert(wins@ =~= Seq::<Window>::empty());
            }
        }
        taken.push(w.id);
        if !(wins.len() == 0 && w.name.is_none()) {
            r.push(WsView { ws: w.duplicate(), windows: wins });
            assert(r@.map_values(|v: WsView| ws_shape(v)) =~= before.push((group@[j as int], wins@)));
        }
        j += 1;
    }
    assert(group@.take(group.len() as int) =~= group@);
    r
}

fn insert_output(v: &mut Vec<OutputView>, x: OutputView)
    ensures
        final(v)@.map_values(|o: OutputView| output_shape(o))
            == insert_ordered(old(v)@.map_values(|o: OutputView| output_shape(o)), output_shape(x), position_order()),
{
    let ghost s = v@.map_values(|o: OutputView| output_shape(o));
    let mut j = v.len();
    while j > 0 && (x.x < v[j - 1].x || (x.x == v[j - 1].x && x.y < v[j - 1].y))
        invariant
            v@.map_values(|o: OutputView| output_shape(o)) == s,
            j <= s.len(),
            forall|k: int| j <= k < s.len() ==> position_order()(output_shape(x), #[trigger] s[k]),
        decreases j,
    {
        j -= 1;
    }
    proof {
        lemma_insert_at(s, output_shape(x), position_order(), j as int);
    }
    let ghost sx = output_shape(x);
    v.insert(j, x);
    assert(v@.map_values(|o: OutputView| output_shape(o)) =~= s.take(j as int).push(sx) + s.skip(j as int));
}

/// Arrange a niri snapshot into the model: windows onto their workspaces,
/// workspaces onto their outputs, outputs left to right.
pub fn model_from(workspaces: Vec<Workspace>, windows: Vec<Window>, outputs_geom: Vec<Output>) -> (m: Model)
    ensures
        model_shape(m) == arranged(workspaces@, windows@, outputs_geom@),
        m.nav@ == nav_of(arranged(workspaces@, windows@, outputs_geom@)),
{
    let keys = collect_keys(&workspaces);
    let mut taken: Vec<u64> = Vec::new();
    let mut fallback_x: i64 = 0;
    let mut placed: Vec<OutputView> = Vec::new();
    let mut i: usize = 0;
    while i < keys.len()
        invariant
            i <= keys.len(),
            placed.len() == i,
            keys.deep_view() == output_keys(workspaces@),
            (placed@.map_values(|o: OutputView| output_shape(o)), taken@, fallback_x)
                == place_outputs(keys.deep_view().take(i as int), workspaces@, windows@, outputs_geom@),
        decreases keys.len() - i,
    {
        let ghost ks = keys.deep_view().take(i + 1);
        assert(ks.drop_last() =~= keys.deep_view().take(i as int));
        assert(ks.last() == keys[i as int]@);
        let ghost before = placed@.map_values(|o: OutputView| output_shape(o));
        let name = keys[i].clone();
        let group = collect_workspaces(&workspaces, name.as_str());
        let shown = place_group(group, &windows, &mut taken);
        let (x, y, w) = match find_geometry(&outputs_geom, name.as_str()) {
            Some(g) => g,
            None => {
                let g = (fallback_x, 0i64, 1600i64);
                fallback_x = if fallback_x <= i64::MAX - 1600 { fallback_x + 1600 } else { i64::MAX };
                g
            },
        };
        placed.push(OutputView { name, workspaces: shown, x, y, w });
        assert(placed@.map_values(|o: OutputView| output_shape(o)) =~= before.push(output_shape(placed@[i as int])));
        i += 1;
    }
    assert(keys.deep_view().take(keys.len() as int) =~= keys.deep_view());
    let ghost unsorted = placed@.map_values(|o: OutputView| output_shape(o));

    let mut outputs: Vec<OutputView> = Vec::new();
    while placed.len() > 0
        invariant
            unsorted.len() == i,
            placed@.len() <= unsorted.len(),
            placed@.map_values(|o: OutputView| output_shape(o)) == unsorted.skip(unsorted.len() - placed@.len()),
            outputs@.map_values(|o: OutputView| output_shape(o))
                == sort_ordered(unsorted.take(unsorted.len() - placed@.len()), position_order()),
        decreases placed.len(),
    {
        let ghost n = unsorted.len() - placed@.len();
        let ghost rest = placed@.map_values(|o: OutputView| output_shape(o));
        assert(rest[0] == unsorted[n]);
        let x = placed.remove(0);
        assert(output_shape(x) == rest[0]);
        let ghost after = placed@.map_values(|o: OutputView| output_shape(o));
        assert forall|k: int| 0 <= k < placed@.len() implies
            #[trigger] after[k] == unsorted.skip(n + 1)[k] by {
            assert(rest[k + 1] == unsorted[n + 1 + k]);
        }
        assert(placed@.map_values(|o: OutputView| output_shape(o)) =~= unsorted.skip(n + 1));
        assert(unsorted.take(n + 1).drop_last() =~= unsorted.take(n));
        insert_output(&mut outputs, x);
    }
    assert(unsorted.take(unsorted.len() as int) =~= unsorted);

    let ghost shapes = outputs@.map_values(|o: OutputView| output_shape(o));
    let mut nav: Vec<(usize, usize)> = Vec::new();
    let mut o: usize = 0;
    while o < outputs.len()
        invariant
            o <= outputs.len(),
            shapes == outputs@.map_values(|o: OutputView| output_shape(o)),
            nav@ == nav_of(shapes.take(o as int)),
        decreases outputs.len() - o,
    {
        let ghost start = nav@;
        let count = outputs[o].workspaces.len();
        let mut w: usize = 0;
        while w < count
            invariant
                o < outputs.len(),
                w <= count,
                count == shapes[o as int].1.len(),
                nav@ == start + Seq::new(w as nat, |k: int| (o, k as usize)),
            decreases count - w,
        {
            nav.push((o, w));
            assert(nav@ =~= start + Seq::new((w + 1) as nat, |k: int| (o, k as usize)));
            w += 1;
        }
        assert(shapes.take(o + 1).drop_last() =~= shapes.take(o as int));
        assert(nav@ =~= nav_of(shapes.take(o + 1)));
        o += 1;
    }
    assert(shapes.take(outputs.len() as int) =~= shapes);
    Model { outputs, nav }
}

/// Whether `s` runs in the order `before`: no item goes before an earlier one.
pub open spec fn ordered<T>(s: Seq<T>, before: spec_fn(T, T) -> bool) -> bool {
    forall|i: int, j: int| 0 <= i < j < s.len() ==> !before(s[j], s[i])
}

/// What an order needs for stable insertion to keep a run ordered: nothing
/// goes before something that goes before it, and "does not go before" chains.
pub open spec fn weak_order<T>(before: spec_fn(T, T) -> bool) -> bool {
    &&& forall|a: T, b: T| #[trigger] before(a, b) ==> !before(b, a)
    &&& forall|a: T, b: T, c: T| #![trigger before(a, b), before(b, c)]
        !before(a, b) && !before(b, c) ==> !before(a, c)
}

proof fn lemma_insert_ordered<T>(s: Seq<T>, x: T, before: spec_fn(T, T) -> bool)
    requires
        weak_order(before),
        ordered(s, before),
    ensures
        ordered(insert_ordered(s, x, before), before),
        insert_ordered(s, x, before).len() == s.len() + 1,
        forall|k: int| 0 <= k < insert_ordered(s, x, before).len() ==> {
            let e = #[trigger] insert_ordered(s, x, before)[k];
            e == x || s.contains(e)
        },
    decreases s.len(),
{
    if s.len() > 0 {
        let l = s.last();
        if before(x, l) {
            let r = insert_ordered(s.drop_last(), x, before);
            lemma_insert_ordered(s.drop_last(), x, before);
            assert forall|k: int| 0 <= k < r.len() implies !before(l, #[trigger] r[k]) by {
                if r[k] != x {
                    let m = choose|m: int| 0 <= m < s.drop_last().len() && s.drop_last()[m] == r[k];
                    assert(s[m] == r[k]);
                }
            }
            assert forall|k: int| 0 <= k < r.push(l).len() implies {
                let e = #[trigger] r.push(l)[k];
                e == x || s.contains(e)
            } by {
                if k < r.len() && r[k] != x {
                    let m = choose|m: int| 0 <= m < s.drop_last().len() && s.drop_last()[m] == r[k];
                    assert(s[m] == r[k]);
                } else if k == r.len() {
                    assert(s[s.len() - 1] == l);
                }
            }
        } else {
            assert forall|k: int| 0 <= k < s.len() implies !before(x, #[trigger] s[k]) by {
                if k < s.len() - 1 {
                    assert(!before(s[s.len() - 1], s[k]));
                }
            }
            assert forall|k: int| 0 <= k < s.push(x).len() implies {
                let e = #[trigger] s.push(x)[k];
                e == x || s.contains(e)
            } by {
                if k < s.len() {
                    assert(s[k] == s.push(x)[k]);
                }
            }
        }
    }
}

/// A stable ordering is ordered, and holds exactly the items it was given
/// (each one drawn from the input).
pub proof fn lemma_sort_ordered<T>(s: Seq<T>, before: spec_fn(T, T) -> bool)
    requires
        weak_order(before),
    ensures
        ordered(sort_ordered(s, before), before),
        sort_ordered(s, before).len() == s.len(),
        forall|k: int| 0 <= k < s.len() ==> s.contains(#[trigger] sort_ordered(s, before)[k]),
    decreases s.len(),
{
    if s.len() > 0 {
        let r = sort_ordered(s.drop_last(), before);
        lemma_sort_ordered(s.drop_last(), before);
        lemma_insert_ordered(r, s.last(), before);
        assert forall|k: int| 0 <= k < s.len() implies s.contains(#[trigger] sort_ordered(s, before)[k]) by {
            let e = sort_ordered(s, before)[k];
            if e == s.last() {
                assert(s[s.len() - 1] == e);
            } else {
                let m = choose|m: int| 0 <= m < r.len() && r[m] == e;
                let n = choose|n: int| 0 <= n < s.drop_last().len() && s.drop_last()[n] == r[m];
                assert(s[n] == e);
            }
        }
    }
}

proof fn lemma_windows_of(windows: Seq<Window>, id: u64)
    ensures
        forall|k: int| 0 <= k < windows_of(windows, id).len()
            ==> (#[trigger] windows_of(windows, id)[k]).workspace_id == Some(id),
    decreases windows.len(),
{
    if windows.len() > 0 {
        lemma_windows_of(windows.drop_last(), id);
    }
}

/// Each workspace's windows on the map belong to it, and run by column, then
/// row, then id.
pub proof fn lemma_workspace_windows(windows: Seq<Window>, id: u64)
    ensures
        ordered(workspace_windows(windows, id), window_order()),
        forall|k: int| 0 <= k < workspace_windows(windows, id).len()
            ==> (#[trigger] workspace_windows(windows, id)[k]).workspace_id == Some(id),
{
    lemma_sort_ordered(windows_of(windows, id), window_order());
    lemma_windows_of(windows, id);
    let s = windows_of(windows, id);
    assert forall|k: int| 0 <= k < workspace_windows(windows, id).len()
        implies (#[trigger] workspace_windows(windows, id)[k]).workspace_id == Some(id) by {
        let m = choose|m: int| 0 <= m < s.len() && s[m] == workspace_windows(windows, id)[k];
    }
}

/// The outputs on the map run left to right, then top to bottom, whatever
/// the snapshot.
pub proof fn lemma_outputs_left_to_right(wss: Seq<Workspace>, windows: Seq<Window>, outputs: Seq<Output>)
    ensures
        forall|i: int, j: int| 0 <= i < j < arranged(wss, windows, outputs).len() ==> {
            let a = #[trigger] arranged(wss, windows, outputs)[i];
            let b = #[trigger] arranged(wss, windows, outputs)[j];
            a.2 < b.2 || (a.2 == b.2 && a.3 <= b.3)
        },
{
    lemma_sort_ordered(place_outputs(output_keys(wss), wss, windows, outputs).0, position_order());
}

/// What holds of a workspace shown on output `key`: it was listed under that
/// output, it is named or holds a window, and its windows are its own.
pub open spec fn shown_on(wss: Seq<Workspace>, windows: Seq<Window>, key: Seq<char>, v: WsShape) -> bool {
    &&& wss.contains(v.0)
    &&& output_key(v.0) == key
    &&& v.1.len() > 0 || v.0.name is Some
    &&& v.1.len() > 0 ==> v.1 == workspace_windows(windows, v.0.id)
}

proof fn lemma_workspaces_under(wss: Seq<Workspace>, key: Seq<char>)
    ensures
        forall|k: int| 0 <= k < workspaces_under(wss, key).len() ==> {
            let w = #[trigger] workspaces_under(wss, key)[k];
            wss.contains(w) && output_key(w) == key
        },
    decreases wss.len(),
{
    if wss.len() > 0 {
        lemma_workspaces_under(wss.drop_last(), key);
        let u = workspaces_under(wss, key);
        assert forall|k: int| 0 <= k < u.len() implies {
            let w = #[trigger] u[k];
            wss.contains(w) && output_key(w) == key
        } by {
            let d = workspaces_under(wss.drop_last(), key);
            if k < d.len() {
                let m = choose|m: int| 0 <= m < wss.drop_last().len() && wss.drop_last()[m] == d[k];
                assert(wss[m] == u[k]);
            } else {
                assert(wss[wss.len() - 1] == u[k]);
            }
        }
    }
}

proof fn lemma_place_workspaces(wss: Seq<Workspace>, windows: Seq<Window>, key: Seq<char>, group: Seq<Workspace>, taken: Seq<u64>)
    requires
        forall|k: int| 0 <= k < group.len() ==> wss.contains(#[trigger] group[k]) && output_key(group[k]) == key,
    ensures
        forall|k: int| 0 <= k < place_workspaces(group, windows, taken).0.len()
            ==> shown_on(wss, windows, key, #[trigger] place_workspaces(group, windows, taken).0[k]),
    decreases group.len(),
{
    if group.len() > 0 {
        lemma_place_workspaces(wss, windows, key, group.drop_last(), taken);
        let prev = place_workspaces(group.drop_last(), windows, taken);
        assert(wss.contains(group[group.len() - 1]) && output_key(group[group.len() - 1]) == key);
        assert(group[group.len() - 1] == group.last());
        let r = place_workspaces(group, windows, taken).0;
        assert forall|k: int| 0 <= k < r.len() implies shown_on(wss, windows, key, #[trigger] r[k]) by {
            if k < prev.0.len() {
                assert(r[k] == prev.0[k]);
            }
        }
    }
}

proof fn lemma_place_outputs(keys: Seq<Seq<char>>, wss: Seq<Workspace>, windows: Seq<Window>, outputs: Seq<Output>)
    ensures
        forall|i: int, k: int| 0 <= i < place_outputs(keys, wss, windows, outputs).0.len()
            && 0 <= k < place_outputs(keys, wss, windows, outputs).0[i].1.len()
            ==> shown_on(wss, windows, place_outputs(keys, wss, windows, outputs).0[i].0,
                #[trigger] place_outputs(keys, wss, windows, outputs).0[i].1[k]),
    decreases keys.len(),
{
    if keys.len() > 0 {
        let prev = place_outputs(keys.drop_last(), wss, windows, outputs);
        lemma_place_outputs(keys.drop_last(), wss, windows, outputs);
        let k = keys.last();
        let under = workspaces_under(wss, k);
        lemma_workspaces_under(wss, k);
        lemma_sort_ordered(under, idx_order());
        let group = output_workspaces(wss, k);
        assert forall|j: int| 0 <= j < group.len() implies wss.contains(#[trigger] group[j]) && output_key(group[j]) == k by {
            let m = choose|m: int| 0 <= m < under.len() && under[m] == group[j];
        }
        lemma_place_workspaces(wss, windows, k, group, prev.1);
    }
}

/// Every workspace on the map sits on the output niri lists it on (`?` when
/// it names none), is named or holds a window, and holds exactly the windows
/// niri places on it, by column, then row, then id.
pub proof fn lemma_map_contents(wss: Seq<Workspace>, windows: Seq<Window>, outputs: Seq<Output>)
    ensures
        forall|i: int, k: int| 0 <= i < arranged(wss, windows, outputs).len()
            && 0 <= k < arranged(wss, windows, outputs)[i].1.len()
            ==> shown_on(wss, windows, arranged(wss, windows, outputs)[i].0,
                #[trigger] arranged(wss, windows, outputs)[i].1[k]),
{
    let placed = place_outputs(output_keys(wss), wss, windows, outputs).0;
    lemma_place_outputs(output_keys(wss), wss, windows, outputs);
    lemma_sort_ordered(placed, position_order());
    let a = arranged(wss, windows, outputs);
    assert forall|i: int, k: int| 0 <= i < a.len() && 0 <= k < a[i].1.len()
        implies shown_on(wss, windows, a[i].0, #[trigger] a[i].1[k]) by {
        let m = choose|m: int| 0 <= m < placed.len() && placed[m] == a[i];
        assert(shown_on(wss, windows, placed[m].0, placed[m].1[k]));
    }
}

/// The navigation order visits every workspace on the map exactly once,
/// output by output, and within an output from the first workspace down.
pub proof fn lemma_nav_covers_the_map(outs: Seq<OutputShape>)
    requires
        outs.len() <= usize::MAX,
        forall|o: int| 0 <= o < outs.len() ==> (#[trigger] outs[o]).1.len() <= usize::MAX,
    ensures
        forall|k: int| 0 <= k < nav_of(outs).len() ==> {
            let e = #[trigger] nav_of(outs)[k];
            e.0 < outs.len() && e.1 < outs[e.0 as int].1.len()
        },
        forall|k: int, l: int| 0 <= k < l < nav_of(outs).len() ==> {
            let a = #[trigger] nav_of(outs)[k];
            let b = #[trigger] nav_of(outs)[l];
            a.0 < b.0 || (a.0 == b.0 && a.1 < b.1)
        },
        forall|o: usize, w: usize| 0 <= o < outs.len() && 0 <= w < outs[o as int].1.len()
            ==> #[trigger] nav_of(outs).contains((o, w)),
    decreases outs.len(),
{
    if outs.len() > 0 {
        let d = outs.drop_last();
        assert forall|o: int| 0 <= o < d.len() implies (#[trigger] d[o]).1.len() <= usize::MAX by {
            assert(d[o] == outs[o]);
        }
        lemma_nav_covers_the_map(d);
        let n = outs.len() - 1;
        let tail = Seq::new(outs.last().1.len(), |w: int| (n as usize, w as usize));
        let nav = nav_of(outs);
        assert(nav == nav_of(d) + tail);
        assert forall|k: int| 0 <= k < nav.len() implies {
            let e = #[trigger] nav[k];
            e.0 < outs.len() && e.1 < outs[e.0 as int].1.len()
        } by {
            if k < nav_of(d).len() {
                assert(nav[k] == nav_of(d)[k]);
                assert(outs[nav[k].0 as int] == d[nav[k].0 as int]);
            } else {
                assert(nav[k] == tail[k - nav_of(d).len()]);
                assert(outs.last() == outs[n]);
            }
        }
        assert forall|k: int, l: int| 0 <= k < l < nav.len() implies {
            let a = #[trigger] nav[k];
            let b = #[trigger] nav[l];
            a.0 < b.0 || (a.0 == b.0 && a.1 < b.1)
        } by {
            if l < nav_of(d).len() {
                assert(nav[k] == nav_of(d)[k] && nav[l] == nav_of(d)[l]);
            } else if k < nav_of(d).len() {
                assert(nav[k] == nav_of(d)[k]);
                assert(nav[l] == tail[l - nav_of(d).len()]);
            } else {
                assert(nav[k] == tail[k - nav_of(d).len()]);
                assert(nav[l] == tail[l - nav_of(d).len()]);
            }
        }
        assert forall|o: usize, w: usize| 0 <= o < outs.len() && 0 <= w < outs[o as int].1.len()
            implies #[trigger] nav.contains((o, w)) by {
            if o < n {
                assert(d[o as int] == outs[o as int]);
                assert(nav_of(d).contains((o, w)));
                let k = choose|k: int| 0 <= k < nav_of(d).len() && nav_of(d)[k] == (o, w);
                assert(nav[k] == nav_of(d)[k]);
            } else {
                assert(outs.last() == outs[o as int]);
                assert(nav[nav_of(d).len() + w] == tail[w as int]);
            }
        }
    }
}

/// An insertion holds the inserted item and the items it was made into.
pub(crate) proof fn lemma_insert_ordered_items<T>(s: Seq<T>, x: T, before: spec_fn(T, T) -> bool)
    ensures
        insert_ordered(s, x, before).len() == s.len() + 1,
        forall|k: int| 0 <= k < insert_ordered(s, x, before).len() ==> {
            let e = #[trigger] insert_ordered(s, x, before)[k];
            e == x || s.contains(e)
        },
    decreases s.len(),
{
    if s.len() > 0 && before(x, s.last()) {
        let r = insert_ordered(s.drop_last(), x, before);
        lemma_insert_ordered_items(s.drop_last(), x, before);
        assert forall|k: int| 0 <= k < r.push(s.last()).len() implies {
            let e = #[trigger] r.push(s.last())[k];
            e == x || s.contains(e)
        } by {
            if k < r.len() && r[k] != x {
                let m = choose|m: int| 0 <= m < s.drop_last().len() && s.drop_last()[m] == r[k];
                assert(s[m] == r[k]);
            } else if k == r.len() {
                assert(s[s.len() - 1] == s.last());
            }
        }
    } else if s.len() > 0 {
        assert forall|k: int| 0 <= k < s.push(x).len() implies {
            let e = #[trigger] s.push(x)[k];
            e == x || s.contains(e)
        } by {
            if k < s.len() {
                assert(s[k] == s.push(x)[k]);
            }
        }
    }
}

/// An insertion holds exactly the inserted item and the items it was made
/// into, and adds no duplicate when the item was not there yet.
proof fn lemma_insert_members<T>(s: Seq<T>, x: T, before: spec_fn(T, T) -> bool)
    ensures
        insert_ordered(s, x, before).len() == s.len() + 1,
        insert_ordered(s, x, before).contains(x),
        forall|y: T| s.contains(y) ==> #[trigger] insert_ordered(s, x, before).contains(y),
        forall|y: T| #[trigger] insert_ordered(s, x, before).contains(y) ==> y == x || s.contains(y),
        s.no_duplicates() && !s.contains(x) ==> insert_ordered(s, x, before).no_duplicates(),
    decreases s.len(),
{
    lemma_insert_ordered_items(s, x, before);
    let r = insert_ordered(s, x, before);
    if s.len() == 0 {
        assert(r[0] == x);
    } else if before(x, s.last()) {
        let d = s.drop_last();
        let l = s.last();
        let q = insert_ordered(d, x, before);
        lemma_insert_members(d, x, before);
        assert(r == q.push(l));
        let qx = choose|i: int| 0 <= i < q.len() && q[i] == x;
        assert(r[qx] == x);
        assert forall|y: T| s.contains(y) implies #[trigger] r.contains(y) by {
            let i = choose|i: int| 0 <= i < s.len() && s[i] == y;
            if i == s.len() - 1 {
                assert(r[r.len() - 1] == y);
            } else {
                assert(d[i] == y);
                assert(q.contains(y));
                let k = choose|k: int| 0 <= k < q.len() && q[k] == y;
                assert(r[k] == y);
            }
        }
        assert forall|y: T| #[trigger] r.contains(y) implies y == x || s.contains(y) by {
            let k = choose|k: int| 0 <= k < r.len() && r[k] == y;
            if k < q.len() {
                assert(q[k] == y);
                assert(q.contains(y));
                if y != x {
                    let i = choose|i: int| 0 <= i < d.len() && d[i] == y;
                    assert(s[i] == y);
                }
            } else {
                assert(s[s.len() - 1] == y);
            }
        }
        if s.no_duplicates() && !s.contains(x) {
            assert(!d.contains(x)) by {
                if d.contains(x) {
                    let i = choose|i: int| 0 <= i < d.len() && d[i] == x;
                    assert(s[i] == x);
                }
            }
            assert(d.no_duplicates());
            assert(!q.contains(l)) by {
                if q.contains(l) {
                    if l == x {
                        assert(s[s.len() - 1] == x);
                    } else {
                        let i = choose|i: int| 0 <= i < d.len() && d[i] == l;
                        assert(s[i] == s[s.len() - 1]);
                    }
                }
            }
            assert forall|i: int, j: int| 0 <= i < r.len() && 0 <= j < r.len() && i != j implies r[i] != r[j] by {
                if i < q.len() && j < q.len() {
                } else if i < q.len() {
                    assert(r[i] == q[i]);
                } else if j < q.len() {
                    assert(r[j] == q[j]);
                }
            }
        }
    } else {
        assert(r == s.push(x));
        assert(r[s.len() as int] == x);
        assert forall|y: T| s.contains(y) implies #[trigger] r.contains(y) by {
            let i = choose|i: int| 0 <= i < s.len() && s[i] == y;
            assert(r[i] == y);
        }
        assert forall|y: T| #[trigger] r.contains(y) implies y == x || s.contains(y) by {
            let k = choose|k: int| 0 <= k < r.len() && r[k] == y;
            if k < s.len() {
                assert(s[k] == y);
            }
        }
    }
}

/// A stable ordering holds exactly the items it was given, and no duplicate
/// when they held none.
proof fn lemma_sort_members<T>(s: Seq<T>, before: spec_fn(T, T) -> bool)
    ensures
        sort_ordered(s, before).len() == s.len(),
        forall|y: T| #[trigger] sort_ordered(s, before).contains(y) <==> s.contains(y),
        s.no_duplicates() ==> sort_ordered(s, before).no_duplicates(),
    decreases s.len(),
{
    if s.len() > 0 {
        let d = s.drop_last();
        let l = s.last();
        let q = sort_ordered(d, before);
        lemma_sort_members(d, before);
        lemma_insert_members(q, l, before);
        let r = sort_ordered(s, before);
        assert forall|y: T| #[trigger] r.contains(y) <==> s.contains(y) by {
            if r.contains(y) {
                if y == l {
                    assert(s[s.len() - 1] == y);
                } else {
                    assert(q.contains(y));
                    let i = choose|i: int| 0 <= i < d.len() && d[i] == y;
                    assert(s[i] == y);
                }
            }
            if s.contains(y) {
                let i = choose|i: int| 0 <= i < s.len() && s[i] == y;
                if i < s.len() - 1 {
                    assert(d[i] == y);
                    assert(d.contains(y));
                    assert(q.contains(y));
                }
            }
        }
        if s.no_duplicates() {
            assert(d.no_duplicates());
            assert(!q.contains(l)) by {
                if q.contains(l) {
                    assert(d.contains(l));
                    let i = choose|i: int| 0 <= i < d.len() && d[i] == l;
                    assert(s[i] == s[s.len() - 1]);
                }
            }
        }
    }
}

/// Whether no two workspaces niri lists share an id.
pub open spec fn distinct_ids(wss: Seq<Workspace>) -> bool {
    forall|i: int, j: int| 0 <= i < wss.len() && 0 <= j < wss.len() && i != j ==> wss[i].id != wss[j].id
}

proof fn lemma_output_keys_members(wss: Seq<Workspace>)
    ensures
        output_keys(wss).no_duplicates(),
        forall|k: int| 0 <= k < wss.len() ==> output_keys(wss).contains(output_key(#[trigger] wss[k])),
    decreases wss.len(),
{
    if wss.len() > 0 {
        let d = wss.drop_last();
        lemma_output_keys_members(d);
        let ks = output_keys(d);
        let key = output_key(wss.last());
        if !ks.contains(key) {
            lemma_insert_members(ks, key, text_order());
        }
        assert forall|k: int| 0 <= k < wss.len() implies output_keys(wss).contains(output_key(#[trigger] wss[k])) by {
            if k < wss.len() - 1 {
                assert(d[k] == wss[k]);
                assert(ks.contains(output_key(d[k])));
            } else {
                assert(wss[k] == wss.last());
            }
        }
    }
}

proof fn lemma_workspaces_under_members(wss: Seq<Workspace>, key: Seq<char>)
    ensures
        forall|k: int| 0 <= k < wss.len() && output_key(wss[k]) == key
            ==> #[trigger] workspaces_under(wss, key).contains(wss[k]),
        wss.no_duplicates() ==> workspaces_under(wss, key).no_duplicates(),
    decreases wss.len(),
{
    if wss.len() > 0 {
        let d = wss.drop_last();
        lemma_workspaces_under_members(d, key);
        lemma_workspaces_under(d, key);
        let u = workspaces_under(d, key);
        let r = workspaces_under(wss, key);
        assert forall|k: int| 0 <= k < wss.len() && output_key(wss[k]) == key implies #[trigger] r.contains(wss[k]) by {
            if k < wss.len() - 1 {
                assert(d[k] == wss[k]);
                assert(u.contains(d[k]));
                let i = choose|i: int| 0 <= i < u.len() && u[i] == d[k];
                assert(r[i] == wss[k]);
            } else {
                assert(r[r.len() - 1] == wss[k]);
            }
        }
        if wss.no_duplicates() && output_key(wss.last()) == key {
            assert(d.no_duplicates());
            assert(!u.contains(wss.last())) by {
                if u.contains(wss.last()) {
                    let i = choose|i: int| 0 <= i < u.len() && u[i] == wss.last();
                    assert(d.contains(u[i]));
                    let j = choose|j: int| 0 <= j < d.len() && d[j] == u[i];
                    assert(wss[j] == wss[wss.len() - 1]);
                }
            }
            assert forall|i: int, j: int| 0 <= i < r.len() && 0 <= j < r.len() && i != j implies r[i] != r[j] by {
                if i < u.len() && j < u.len() {
                } else if i < u.len() {
                    assert(r[i] == u[i]);
                } else if j < u.len() {
                    assert(r[j] == u[j]);
                }
            }
        } else if wss.no_duplicates() {
            assert(d.no_duplicates());
        }
    }
}

proof fn lemma_place_workspaces_ids(g: Seq<Workspace>, windows: Seq<Window>, t: Seq<u64>)
    ensures
        place_workspaces(g, windows, t).1 == t + g.map_values(|w: Workspace| w.id),
    decreases g.len(),
{
    if g.len() > 0 {
        lemma_place_workspaces_ids(g.drop_last(), windows, t);
        assert(t + g.map_values(|w: Workspace| w.id)
            =~= (t + g.drop_last().map_values(|w: Workspace| w.id)).push(g.last().id));
    }
}

proof fn lemma_place_workspaces_keeps(g: Seq<Workspace>, windows: Seq<Window>, t: Seq<u64>, w: Workspace)
    requires
        g.contains(w),
        g.no_duplicates(),
        !t.contains(w.id),
        forall|i: int| 0 <= i < g.len() && (#[trigger] g[i]).id == w.id ==> g[i] == w,
        w.name is Some || windows_of(windows, w.id).len() > 0,
    ensures
        exists|j: int| 0 <= j < place_workspaces(g, windows, t).0.len()
            && (#[trigger] place_workspaces(g, windows, t).0[j]).0 == w,
    decreases g.len(),
{
    let d = g.drop_last();
    let prev = place_workspaces(d, windows, t);
    let r = place_workspaces(g, windows, t).0;
    if g.last() == w {
        lemma_place_workspaces_ids(d, windows, t);
        assert(!prev.1.contains(w.id)) by {
            if prev.1.contains(w.id) {
                let i = choose|i: int| 0 <= i < prev.1.len() && prev.1[i] == w.id;
                if i >= t.len() {
                    let k = i - t.len();
                    assert(d.map_values(|u: Workspace| u.id)[k] == d[k].id);
                    assert(g[k] == d[k]);
                    assert(g[k] == w);
                    assert(g[k] == g[g.len() - 1]);
                } else {
                    assert(t[i] == w.id);
                }
            }
        }
        lemma_sort_members(windows_of(windows, w.id), window_order());
        assert(r[r.len() - 1].0 == w);
    } else {
        let i = choose|i: int| 0 <= i < g.len() && g[i] == w;
        assert(i < g.len() - 1);
        assert(d[i] == w);
        assert forall|k: int| 0 <= k < d.len() && (#[trigger] d[k]).id == w.id implies d[k] == w by {
            assert(g[k] == d[k]);
        }
        lemma_place_workspaces_keeps(d, windows, t, w);
        let j = choose|j: int| 0 <= j < prev.0.len() && (#[trigger] prev.0[j]).0 == w;
        assert(r[j] == prev.0[j]);
    }
}

proof fn lemma_place_outputs_at(keys: Seq<Seq<char>>, wss: Seq<Workspace>, windows: Seq<Window>, outputs: Seq<Output>, p: int)
    requires
        0 <= p < keys.len(),
    ensures
        place_outputs(keys, wss, windows, outputs).0.len() == keys.len(),
        place_outputs(keys, wss, windows, outputs).0[p].1 == place_workspaces(
            output_workspaces(wss, keys[p]), windows, place_outputs(keys.take(p), wss, windows, outputs).1).0,
    decreases keys.len(),
{
    let d = keys.drop_last();
    if p == keys.len() - 1 {
        assert(keys.take(p) =~= d);
        if d.len() > 0 {
            lemma_place_outputs_at(d, wss, windows, outputs, 0);
        }
    } else {
        lemma_place_outputs_at(d, wss, windows, outputs, p);
        assert(d.take(p) =~= keys.take(p));
    }
}

proof fn lemma_place_outputs_taken(keys: Seq<Seq<char>>, wss: Seq<Workspace>, windows: Seq<Window>, outputs: Seq<Output>, id: u64)
    requires
        place_outputs(keys, wss, windows, outputs).1.contains(id),
    ensures
        exists|q: int, u: Workspace| 0 <= q < keys.len() && #[trigger] output_workspaces(wss, keys[q]).contains(u) && u.id == id,
    decreases keys.len(),
{
    let d = keys.drop_last();
    let prev = place_outputs(d, wss, windows, outputs);
    let g = output_workspaces(wss, keys.last());
    lemma_place_workspaces_ids(g, windows, prev.1);
    let all = place_outputs(keys, wss, windows, outputs).1;
    let i = choose|i: int| 0 <= i < all.len() && all[i] == id;
    if i < prev.1.len() {
        assert(prev.1[i] == id);
        lemma_place_outputs_taken(d, wss, windows, outputs, id);
        let (q, u) = choose|q: int, u: Workspace| 0 <= q < d.len() && #[trigger] output_workspaces(wss, d[q]).contains(u) && u.id == id;
        assert(keys[q] == d[q]);
    } else {
        let k = i - prev.1.len();
        assert(g.map_values(|w: Workspace| w.id)[k] == g[k].id);
        assert(g.contains(g[k]));
        assert(keys[keys.len() - 1] == keys.last());
    }
}

/// Every workspace niri lists that is named or holds a window shows on the
/// map, under the output niri lists it on, as long as no two workspaces share
/// an id.
pub proof fn lemma_no_workspace_lost(wss: Seq<Workspace>, windows: Seq<Window>, outputs: Seq<Output>, k: int)
    requires
        0 <= k < wss.len(),
        distinct_ids(wss),
        wss[k].name is Some || windows_of(windows, wss[k].id).len() > 0,
    ensures
        exists|i: int, j: int| 0 <= i < arranged(wss, windows, outputs).len()
            && 0 <= j < arranged(wss, windows, outputs)[i].1.len()
            && (#[trigger] arranged(wss, windows, outputs)[i].1[j]).0 == wss[k]
            && arranged(wss, windows, outputs)[i].0 == output_key(wss[k]),
{
    let w = wss[k];
    let key = output_key(w);
    let keys = output_keys(wss);
    lemma_output_keys_members(wss);
    assert(keys.contains(key));
    let p = choose|p: int| 0 <= p < keys.len() && keys[p] == key;
    assert(wss.no_duplicates());
    let under = workspaces_under(wss, key);
    lemma_workspaces_under_members(wss, key);
    lemma_workspaces_under(wss, key);
    lemma_sort_members(under, idx_order());
    let g = output_workspaces(wss, key);
    assert(under.contains(w));
    assert(g.contains(w));
    assert forall|i: int| 0 <= i < g.len() && (#[trigger] g[i]).id == w.id implies g[i] == w by {
        assert(g.contains(g[i]));
        assert(under.contains(g[i]));
        let m = choose|m: int| 0 <= m < under.len() && under[m] == g[i];
        assert(wss.contains(under[m]));
        let a = choose|a: int| 0 <= a < wss.len() && wss[a] == under[m];
        assert(a == k);
    }
    let taken = place_outputs(keys.take(p), wss, windows, outputs).1;
    assert(!taken.contains(w.id)) by {
        if taken.contains(w.id) {
            lemma_place_outputs_taken(keys.take(p), wss, windows, outputs, w.id);
            let (q, u) = choose|q: int, u: Workspace| 0 <= q < keys.take(p).len()
                && #[trigger] output_workspaces(wss, keys.take(p)[q]).contains(u) && u.id == w.id;
            let uq = workspaces_under(wss, keys[q]);
            lemma_workspaces_under(wss, keys[q]);
            lemma_sort_members(uq, idx_order());
            assert(keys.take(p)[q] == keys[q]);
            assert(uq.contains(u));
            let m = choose|m: int| 0 <= m < uq.len() && uq[m] == u;
            assert(wss.contains(u) && output_key(u) == keys[q]);
            let a = choose|a: int| 0 <= a < wss.len() && wss[a] == u;
            assert(a == k);
            assert(keys[q] != keys[p]);
        }
    }
    lemma_place_workspaces_keeps(g, windows, taken, w);
    lemma_place_outputs_at(keys, wss, windows, outputs, p);
    let placed = place_outputs(keys, wss, windows, outputs).0;
    let j = choose|j: int| 0 <= j < placed[p].1.len() && (#[trigger] placed[p].1[j]).0 == w;
    lemma_place_outputs_key(keys, wss, windows, outputs, p);
    lemma_sort_members(placed, position_order());
    let a = arranged(wss, windows, outputs);
    assert(placed.contains(placed[p]));
    assert(a.contains(placed[p]));
    let i = choose|i: int| 0 <= i < a.len() && a[i] == placed[p];
    assert(a[i].1[j].0 == w);
}

proof fn lemma_place_outputs_key(keys: Seq<Seq<char>>, wss: Seq<Workspace>, windows: Seq<Window>, outputs: Seq<Output>, p: int)
    requires
        0 <= p < keys.len(),
    ensures
        place_outputs(keys, wss, windows, outputs).0[p].0 == keys[p],
    decreases keys.len(),
{
    let d = keys.drop_last();
    if d.len() > 0 {
        lemma_place_outputs_at(d, wss, windows, outputs, 0);
    }
    let prev = place_outputs(d, wss, windows, outputs);
    let r = place_outputs(keys, wss, windows, outputs).0;
    assert(prev.0.len() == d.len());
    if p < keys.len() - 1 {
        lemma_place_outputs_key(d, wss, windows, outputs, p);
        assert(r[p] == prev.0[p]);
        assert(d[p] == keys[p]);
    } else {
        assert(r[p].0 == keys.last());
    }
}

} // verus!
