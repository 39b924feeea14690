use vstd::prelude::*;

use crate::locations::Range;
use crate::order::{is_stable_order, key_before, stable_order};
use crate::viewport::{cursor_at, lemma_coords_bounds, screen_coords_at, Position, Viewport};

verus! {

/// How much one row of vertical travel weighs against one column in text
/// `t`: one more than the text is long, so more than any column distance the
/// text can produce, and targets on the cursor's row come first.
pub open spec fn row_weight(t: Seq<char>) -> int {
    t.len() as int + 1
}

/// Absolute difference of two integers.
pub open spec fn abs_diff(a: int, b: int) -> nat {
    if a >= b { (a - b) as nat } else { (b - a) as nat }
}

/// Distance between two screen positions with rows weighing `w` columns each,
/// saturated at `usize::MAX`.
pub open spec fn weighted_distance(p1: Position, p2: Position, w: int) -> usize {
    let d = w * abs_diff(p1.row as int, p2.row as int) + abs_diff(p1.col as int, p2.col as int);
    if d <= usize::MAX { d as usize } else { usize::MAX }
}

/// Weighted distance from `p1` to `p2`, with rows weighing `row_weight`
/// columns each, saturated at `usize::MAX`.
pub fn manhattan_distance(p1: &Position, p2: &Position, row_weight: usize) -> (r: usize)
    requires
        row_weight > 0,
    ensures
        r == weighted_distance(*p1, *p2, row_weight as int),
{
    let dr = if p1.row >= p2.row { p1.row - p2.row } else { p2.row - p1.row };
    let dc = if p1.col >= p2.col { p1.col - p2.col } else { p2.col - p1.col };
    if dr > usize::MAX / row_weight {
        assert(row_weight * dr > usize::MAX) by (nonlinear_arith)
            requires
                row_weight > 0,
                dr > usize::MAX / row_weight,
        ;
        return usize::MAX;
    }
    assert(row_weight * dr <= usize::MAX) by (nonlinear_arith)
        requires
            row_weight > 0,
            dr <= usize::MAX / row_weight,
    ;
    let rows = row_weight * dr;
    if dc > usize::MAX - rows {
        usize::MAX
    } else {
        rows + dc
    }
}

/// Screen position used for scoring a target that lands on `head`: off-screen
/// targets count as infinitely far down.
pub open spec fn target_position(t: Seq<char>, view: Viewport, head: int) -> Position {
    match view.coords(t, head) {
        Some(p) => p,
        None => Position { row: usize::MAX, col: 0 },
    }
}

/// Screen position of the cursor, the origin when it is off-screen.
pub open spec fn cursor_position(t: Seq<char>, view: Viewport, cursor: int) -> Position {
    match view.coords(t, cursor) {
        Some(p) => p,
        None => Position { row: 0, col: 0 },
    }
}

/// Distance from the cursor to a target.
pub open spec fn target_distance(t: Seq<char>, view: Viewport, cursor: int, r: Range) -> usize {
    weighted_distance(
        cursor_position(t, view, cursor),
        target_position(t, view, r.head as int),
        row_weight(t),
    )
}

/// The distances of `targets`, in their order.
pub open spec fn distances(t: Seq<char>, view: Viewport, cursor: int, targets: Seq<Range>) -> Seq<usize> {
    Seq::new(targets.len(), |i: int| target_distance(t, view, cursor, targets[i]))
}

/// `out` is `targets` sorted by distance from the cursor, nearest first, with
/// targets at equal distance in their order of discovery.
pub open spec fn sorts_targets(t: Seq<char>, view: Viewport, cursor: int, targets: Seq<Range>, out: Seq<Range>) -> bool {
    exists|idx: Seq<usize>|
        is_stable_order(distances(t, view, cursor, targets), idx) && out.len() == targets.len()
            && forall|k: int| 0 <= k < out.len() ==> #[trigger] out[k] == targets[idx[k] as int]
}

/// Orders `targets` by their distance from the cursor at offset `cursor`,
/// nearest first; the sort is stable.
pub fn sort_jump_targets(text: &Vec<char>, view: &Viewport, cursor: usize, jump_targets: Vec<Range>) -> (r: Vec<Range>)
    requires
        view.wf(text@),
        text@.len() < usize::MAX,
    ensures
        sorts_targets(text@, *view, cursor as int, jump_targets@, r@),
{
    let cpos = cursor_at(text, view, cursor);
    let n = jump_targets.len();
    let ghost keys_spec = distances(text@, *view, cursor as int, jump_targets@);
    let mut keys: Vec<usize> = Vec::new();
    let mut i: usize = 0;
    while i < n
        invariant
            n == jump_targets@.len(),
            i <= n,
            cpos == cursor_position(text@, *view, cursor as int),
            view.wf(text@),
            keys_spec == distances(text@, *view, cursor as int, jump_targets@),
            keys_spec.len() == n,
            keys@ == keys_spec.take(i as int),
            text@.len() < usize::MAX,
        decreases n - i,
    {
        let pos = match screen_coords_at(text, view, jump_targets[i].head) {
            Some(p) => p,
            None => Position { row: usize::MAX, col: 0 },
        };
        let d = manhattan_distance(&cpos, &pos, text.len() + 1);
        keys.push(d);
        assert(keys@ == keys_spec.take(i + 1));
        i = i + 1;
    }
    assert(keys@ == keys_spec);
    let idx = stable_order(&keys);
    let mut out: Vec<Range> = Vec::new();
    let mut k: usize = 0;
    while k < n
        invariant
            n == jump_targets@.len(),
            keys_spec == distances(text@, *view, cursor as int, jump_targets@),
            keys_spec.len() == n,
            is_stable_order(keys_spec, idx@),
            k <= n,
            out@.len() == k,
            forall|j: int| 0 <= j < k ==> #[trigger] out@[j] == jump_targets@[idx@[j] as int],
        decreases n - k,
    {
        out.push(jump_targets[idx[k]]);
        k = k + 1;
    }
    assert(is_stable_order(keys_spec, idx@) && out@.len() == jump_targets@.len()
        && forall|k: int| 0 <= k < out@.len() ==> #[trigger] out@[k] == jump_targets@[idx@[k] as int]);
    out
}

/// Targets sorted by distance come nearest first.
pub proof fn lemma_sorted_nearest_first(t: Seq<char>, view: Viewport, cursor: int, targets: Seq<Range>, out: Seq<Range>, k1: int, k2: int)
    requires
        sorts_targets(t, view, cursor, targets, out),
        0 <= k1 < k2 < out.len(),
    ensures
        target_distance(t, view, cursor, out[k1]) <= target_distance(t, view, cursor, out[k2]),
{
    let idx = choose|idx: Seq<usize>|
        is_stable_order(distances(t, view, cursor, targets), idx) && out.len() == targets.len()
            && forall|k: int| 0 <= k < out.len() ==> #[trigger] out[k] == targets[idx[k] as int];
    assert(out[k1] == targets[idx[k1] as int]);
    assert(out[k2] == targets[idx[k2] as int]);
    assert(key_before(distances(t, view, cursor, targets), idx[k1] as int, idx[k2] as int));
}

/// Sorting is stable: two targets at the same distance from the cursor leave
/// the sort in the order in which they were discovered.
pub proof fn lemma_sort_stable(t: Seq<char>, view: Viewport, cursor: int, targets: Seq<Range>, out: Seq<Range>, k1: int, k2: int)
    requires
        sorts_targets(t, view, cursor, targets, out),
        0 <= k1 < k2 < out.len(),
        target_distance(t, view, cursor, out[k1]) == target_distance(t, view, cursor, out[k2]),
    ensures
        exists|i1: int, i2: int|
            0 <= i1 < i2 < targets.len() && targets[i1] == out[k1] && targets[i2] == out[k2],
{
    let idx = choose|idx: Seq<usize>|
        is_stable_order(distances(t, view, cursor, targets), idx) && out.len() == targets.len()
            && forall|k: int| 0 <= k < out.len() ==> #[trigger] out[k] == targets[idx[k] as int];
    assert(out[k1] == targets[idx[k1] as int]);
    assert(out[k2] == targets[idx[k2] as int]);
    assert(key_before(distances(t, view, cursor, targets), idx[k1] as int, idx[k2] as int));
    assert(0 <= idx[k1] < idx[k2] < targets.len());
}

/// A position on the cursor's row is nearer than any position on another row
/// when rows weigh more than the column distance on the cursor's row.
pub proof fn lemma_same_row_nearer(c: Position, a: Position, b: Position, w: int)
    requires
        a.row == c.row,
        b.row != c.row,
        abs_diff(a.col as int, c.col as int) < w <= usize::MAX,
    ensures
        weighted_distance(c, a, w) < weighted_distance(c, b, w),
{
    let dr = abs_diff(c.row as int, b.row as int);
    assert(w * dr >= w) by (nonlinear_arith)
        requires
            dr >= 1,
            w > 0,
    ;
    assert(abs_diff(c.row as int, a.row as int) == 0);
    assert(w * 0 == 0);
    let da = abs_diff(c.col as int, a.col as int);
    assert(weighted_distance(c, a, w) == da);
    let db = w * dr + abs_diff(c.col as int, b.col as int);
    assert(db >= w);
}

/// Any target on the cursor's row sorts before any target on another row,
/// whatever the column distances.
pub proof fn lemma_same_row_first(t: Seq<char>, view: Viewport, cursor: int, targets: Seq<Range>, out: Seq<Range>, ka: int, kb: int)
    requires
        view.wf(t),
        t.len() < usize::MAX,
        sorts_targets(t, view, cursor, targets, out),
        0 <= ka < out.len(),
        0 <= kb < out.len(),
        target_position(t, view, out[ka].head as int).row == cursor_position(t, view, cursor).row,
        target_position(t, view, out[kb].head as int).row != cursor_position(t, view, cursor).row,
    ensures
        ka < kb,
{
    let c = cursor_position(t, view, cursor);
    let a = target_position(t, view, out[ka].head as int);
    lemma_coords_bounds(t, view, cursor);
    lemma_coords_bounds(t, view, out[ka].head as int);
    assert(view.coords(t, out[ka].head as int) is Some);
    lemma_same_row_nearer(c, a, target_position(t, view, out[kb].head as int), row_weight(t));
    if kb < ka {
        lemma_sorted_nearest_first(t, view, cursor, targets, out, kb, ka);
    }
}

} // verus!
