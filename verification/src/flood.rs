//! Border flood fill: the background cells that connect to the image border
//! through background cells, moving up, down, left and right.

use vstd::prelude::*;
use crate::grid::{
    Grid,
    adjacent,
    lemma_from_fn_agree,
    lemma_from_fn_at,
    lemma_grid_is_from_fn,
    lemma_updated_at,
    lemma_updated_same,
};
use crate::mask::Mask;
use crate::remover::BackgroundRemover;

verus! {

/// The background cells of a mask, as a membership test.
pub open spec fn background(m: Grid<bool>) -> spec_fn(int, int) -> bool {
    |x: int, y: int| m.contains(x, y) && !m.at(x, y)
}

/// The background cells of a mask that `v` has not marked.
pub open spec fn unvisited_background(m: Grid<bool>, v: Grid<bool>) -> spec_fn(int, int) -> bool {
    |x: int, y: int| m.contains(x, y) && !m.at(x, y) && !v.at(x, y)
}

/// `path` is a non-empty walk inside `region`: each cell belongs to the
/// region and each step goes to a cell that shares an edge.
pub open spec fn is_walk(region: spec_fn(int, int) -> bool, path: Seq<(int, int)>) -> bool {
    &&& path.len() >= 1
    &&& forall|i: int| 0 <= i < path.len() ==> region((#[trigger] path[i]).0, path[i].1)
    &&& forall|i: int|
        0 <= i < path.len() - 1 ==> adjacent(
            (#[trigger] path[i]).0,
            path[i].1,
            path[i + 1].0,
            path[i + 1].1,
        )
}

/// `path` is a walk inside `region` from `(sx, sy)` to `(x, y)`.
pub open spec fn walk_joins(
    region: spec_fn(int, int) -> bool,
    path: Seq<(int, int)>,
    sx: int,
    sy: int,
    x: int,
    y: int,
) -> bool {
    is_walk(region, path) && path[0] == (sx, sy) && path[path.len() - 1] == (x, y)
}

/// Some walk inside `region` leads from `(sx, sy)` to `(x, y)`.
pub open spec fn reaches(region: spec_fn(int, int) -> bool, sx: int, sy: int, x: int, y: int) -> bool {
    exists|path: Seq<(int, int)>| #[trigger] walk_joins(region, path, sx, sy, x, y)
}

/// What one fill from `(sx, sy)` leaves marked: the cells marked before,
/// and every cell that a walk through unmarked background reaches from the
/// start.
pub open spec fn filled_from(m: Grid<bool>, v: Grid<bool>, sx: int, sy: int) -> Grid<bool> {
    Grid::from_fn(
        v.width,
        v.height,
        |x: int, y: int| v.at(x, y) || reaches(unvisited_background(m, v), sx, sy, x, y),
    )
}

/// `(x, y)` is a background cell joined to a border cell by a walk through
/// background.
pub open spec fn border_connected(m: Grid<bool>, x: int, y: int) -> bool {
    exists|bx: int, by: int| m.on_border(bx, by) && #[trigger] reaches(background(m), bx, by, x, y)
}

/// The grid that marks exactly the border-connected background cells.
pub open spec fn border_region(m: Grid<bool>) -> Grid<bool> {
    Grid::from_fn(m.width, m.height, |x: int, y: int| border_connected(m, x, y))
}

/// The mask after connectivity correction: every border-connected
/// background cell is set to background, every other cell is kept.
pub open spec fn flood_filled(m: Grid<bool>) -> Grid<bool> {
    Grid::from_fn(m.width, m.height, |x: int, y: int| m.at(x, y) && !border_connected(m, x, y))
}

/// A cell of a region reaches itself.
pub proof fn lemma_reaches_self(region: spec_fn(int, int) -> bool, x: int, y: int)
    requires
        region(x, y),
    ensures
        reaches(region, x, y, x, y),
{
    let path = seq![(x, y)];
    assert(walk_joins(region, path, x, y, x, y));
}

/// A walk can be extended by one step to a neighbouring cell of the region.
pub proof fn lemma_reaches_step(
    region: spec_fn(int, int) -> bool,
    sx: int,
    sy: int,
    x: int,
    y: int,
    nx: int,
    ny: int,
)
    requires
        reaches(region, sx, sy, x, y),
        adjacent(x, y, nx, ny),
        region(nx, ny),
    ensures
        reaches(region, sx, sy, nx, ny),
{
    let path = choose|path: Seq<(int, int)>| walk_joins(region, path, sx, sy, x, y);
    let longer = path.push((nx, ny));
    assert forall|i: int| 0 <= i < longer.len() implies region((#[trigger] longer[i]).0, longer[i].1) by {
        if i < path.len() {
            assert(longer[i] == path[i]);
        }
    }
    assert forall|i: int| 0 <= i < longer.len() - 1 implies adjacent(
        (#[trigger] longer[i]).0,
        longer[i].1,
        longer[i + 1].0,
        longer[i + 1].1,
    ) by {
        assert(longer[i] == path[i]);
        if i < path.len() - 1 {
            assert(longer[i + 1] == path[i + 1]);
        }
    }
    assert(walk_joins(region, longer, sx, sy, nx, ny));
}

/// Both ends of a walk lie in the region.
pub proof fn lemma_reaches_ends(region: spec_fn(int, int) -> bool, sx: int, sy: int, x: int, y: int)
    requires
        reaches(region, sx, sy, x, y),
    ensures
        region(sx, sy),
        region(x, y),
{
    let path = choose|path: Seq<(int, int)>| walk_joins(region, path, sx, sy, x, y);
    assert(region(path[0].0, path[0].1));
    assert(region(path[path.len() - 1].0, path[path.len() - 1].1));
}

/// A walk inside a region is a walk inside any larger region.
pub proof fn lemma_reaches_in_larger(
    small: spec_fn(int, int) -> bool,
    large: spec_fn(int, int) -> bool,
    sx: int,
    sy: int,
    x: int,
    y: int,
)
    requires
        reaches(small, sx, sy, x, y),
        forall|cx: int, cy: int| #[trigger] small(cx, cy) ==> large(cx, cy),
    ensures
        reaches(large, sx, sy, x, y),
{
    let path = choose|path: Seq<(int, int)>| walk_joins(small, path, sx, sy, x, y);
    assert forall|i: int| 0 <= i < path.len() implies large((#[trigger] path[i]).0, path[i].1) by {
        assert(small(path[i].0, path[i].1));
    }
    assert(walk_joins(large, path, sx, sy, x, y));
}

/// Number of marked cells.
spec fn count_marked(cells: Seq<bool>) -> nat
    decreases cells.len(),
{
    if cells.len() == 0 {
        0
    } else {
        count_marked(cells.drop_last()) + if cells.last() {
            1nat
        } else {
            0nat
        }
    }
}

proof fn lemma_count_marked_bound(cells: Seq<bool>)
    ensures
        count_marked(cells) <= cells.len(),
    decreases cells.len(),
{
    if cells.len() > 0 {
        lemma_count_marked_bound(cells.drop_last());
    }
}

proof fn lemma_count_marked_grows(cells: Seq<bool>, i: int)
    requires
        0 <= i < cells.len(),
        !cells[i],
    ensures
        count_marked(cells.update(i, true)) == count_marked(cells) + 1,
    decreases cells.len(),
{
    let after = cells.update(i, true);
    if i == cells.len() - 1 {
        assert(after.drop_last() =~= cells.drop_last());
    } else {
        assert(after.drop_last() =~= cells.drop_last().update(i, true));
        lemma_count_marked_grows(cells.drop_last(), i);
    }
}

/// Some entry of the stack names the cell `(x, y)`.
spec fn on_stack(stack: Seq<(usize, usize)>, x: int, y: int) -> bool {
    exists|k: int| 0 <= k < stack.len() && (#[trigger] stack[k]).0 == x && stack[k].1 == y
}

/// The stack after considering the cell `(nx, ny)`: it is pushed when it is
/// an unmarked background cell of the grid.
spec fn push_open(
    m: Grid<bool>,
    v: Grid<bool>,
    stack: Seq<(usize, usize)>,
    nx: int,
    ny: int,
) -> Seq<(usize, usize)> {
    if m.contains(nx, ny) && !v.at(nx, ny) && !m.at(nx, ny) {
        stack.push((nx as usize, ny as usize))
    } else {
        stack
    }
}

/// What holds between two steps of a fill that started at `(sx, sy)` on
/// mask `m` with `v0` marked: only reachable cells have been marked, and
/// every open neighbour of a newly marked cell is marked or waits on the
/// stack.
spec fn fill_invariant(
    m: Grid<bool>,
    v0: Grid<bool>,
    v: Grid<bool>,
    stack: Seq<(usize, usize)>,
    sx: int,
    sy: int,
) -> bool {
    let open = unvisited_background(m, v0);
    &&& m.wf() && v0.wf() && v.wf()
    &&& v0.width == m.width && v0.height == m.height
    &&& v.width == m.width && v.height == m.height
    &&& m.width <= usize::MAX && m.height <= usize::MAX
    &&& m.contains(sx, sy)
    &&& forall|x: int, y: int| m.contains(x, y) && v0.at(x, y) ==> #[trigger] v.at(x, y)
    &&& forall|x: int, y: int|
        m.contains(x, y) && #[trigger] v.at(x, y) && !v0.at(x, y) ==> reaches(open, sx, sy, x, y)
    &&& forall|k: int|
        0 <= k < stack.len() ==> m.contains((#[trigger] stack[k]).0 as int, stack[k].1 as int) && (
        open(stack[k].0 as int, stack[k].1 as int) ==> reaches(
            open,
            sx,
            sy,
            stack[k].0 as int,
            stack[k].1 as int,
        ))
    &&& forall|x: int, y: int, nx: int, ny: int|
        m.contains(x, y) && #[trigger] v.at(x, y) && !v0.at(x, y) && #[trigger] adjacent(
            x,
            y,
            nx,
            ny,
        ) && open(nx, ny) ==> v.at(nx, ny) || on_stack(stack, nx, ny)
    &&& open(sx, sy) ==> v.at(sx, sy) || on_stack(stack, sx, sy)
}

proof fn lemma_fill_start(m: Grid<bool>, v0: Grid<bool>, sx: usize, sy: usize)
    requires
        m.wf(),
        v0.wf(),
        v0.width == m.width,
        v0.height == m.height,
        m.width <= usize::MAX,
        m.height <= usize::MAX,
        m.contains(sx as int, sy as int),
    ensures
        fill_invariant(m, v0, v0, seq![(sx, sy)], sx as int, sy as int),
{
    let open = unvisited_background(m, v0);
    let stack = seq![(sx, sy)];
    assert(stack[0].0 == sx && stack[0].1 == sy);
    assert(on_stack(stack, sx as int, sy as int));
    if open(sx as int, sy as int) {
        lemma_reaches_self(open, sx as int, sy as int);
    }
}

proof fn lemma_fill_skip(
    m: Grid<bool>,
    v0: Grid<bool>,
    v: Grid<bool>,
    stack: Seq<(usize, usize)>,
    sx: int,
    sy: int,
)
    requires
        fill_invariant(m, v0, v, stack, sx, sy),
        stack.len() > 0,
        v.at(stack.last().0 as int, stack.last().1 as int) || m.at(
            stack.last().0 as int,
            stack.last().1 as int,
        ),
    ensures
        fill_invariant(m, v0, v, stack.drop_last(), sx, sy),
{
    let open = unvisited_background(m, v0);
    let rest = stack.drop_last();
    let px = stack.last().0 as int;
    let py = stack.last().1 as int;
    assert forall|k: int| 0 <= k < rest.len() implies m.contains(
        (#[trigger] rest[k]).0 as int,
        rest[k].1 as int,
    ) && (open(rest[k].0 as int, rest[k].1 as int) ==> reaches(
        open,
        sx,
        sy,
        rest[k].0 as int,
        rest[k].1 as int,
    )) by {
        assert(rest[k] == stack[k]);
    }
    assert forall|qx: int, qy: int| on_stack(stack, qx, qy) && open(qx, qy) implies v.at(qx, qy)
        || on_stack(rest, qx, qy) by {
        let k = choose|k: int| 0 <= k < stack.len() && (#[trigger] stack[k]).0 == qx && stack[k].1 == qy;
        if k < rest.len() {
            assert(rest[k] == stack[k]);
        }
    }
    assert forall|x: int, y: int, nx: int, ny: int|
        m.contains(x, y) && #[trigger] v.at(x, y) && !v0.at(x, y) && #[trigger] adjacent(
            x,
            y,
            nx,
            ny,
        ) && open(nx, ny) implies v.at(nx, ny) || on_stack(rest, nx, ny) by {
        assert(v.at(nx, ny) || on_stack(stack, nx, ny));
    }
}

proof fn lemma_push_open_keeps(
    m: Grid<bool>,
    v: Grid<bool>,
    stack: Seq<(usize, usize)>,
    nx: int,
    ny: int,
    qx: int,
    qy: int,
)
    requires
        on_stack(stack, qx, qy),
    ensures
        on_stack(push_open(m, v, stack, nx, ny), qx, qy),
{
    let k = choose|k: int| 0 <= k < stack.len() && (#[trigger] stack[k]).0 == qx && stack[k].1 == qy;
    let after = push_open(m, v, stack, nx, ny);
    assert(after[k] == stack[k]);
}

proof fn lemma_push_open_lands(
    m: Grid<bool>,
    v: Grid<bool>,
    stack: Seq<(usize, usize)>,
    nx: int,
    ny: int,
)
    requires
        m.width <= usize::MAX,
        m.height <= usize::MAX,
        m.contains(nx, ny),
        !v.at(nx, ny),
        !m.at(nx, ny),
    ensures
        on_stack(push_open(m, v, stack, nx, ny), nx, ny),
{
    let after = push_open(m, v, stack, nx, ny);
    let k = stack.len() as int;
    assert(after[k].0 == nx && after[k].1 == ny);
}

/// Pushing the open neighbours of a reached cell keeps every stack entry
/// inside the grid and, where open, reachable.
proof fn lemma_push_open_entries(
    m: Grid<bool>,
    v0: Grid<bool>,
    v: Grid<bool>,
    stack: Seq<(usize, usize)>,
    sx: int,
    sy: int,
    x: int,
    y: int,
    nx: int,
    ny: int,
)
    requires
        m.width <= usize::MAX,
        m.height <= usize::MAX,
        adjacent(x, y, nx, ny),
        reaches(unvisited_background(m, v0), sx, sy, x, y),
        forall|cx: int, cy: int| m.contains(cx, cy) && v0.at(cx, cy) ==> #[trigger] v.at(cx, cy),
        forall|k: int|
            0 <= k < stack.len() ==> m.contains((#[trigger] stack[k]).0 as int, stack[k].1 as int)
                && (unvisited_background(m, v0)(stack[k].0 as int, stack[k].1 as int) ==> reaches(
                unvisited_background(m, v0),
                sx,
                sy,
                stack[k].0 as int,
                stack[k].1 as int,
            )),
    ensures
        forall|k: int|
            0 <= k < push_open(m, v, stack, nx, ny).len() ==> m.contains(
                (#[trigger] push_open(m, v, stack, nx, ny)[k]).0 as int,
                push_open(m, v, stack, nx, ny)[k].1 as int,
            ) && (unvisited_background(m, v0)(
                push_open(m, v, stack, nx, ny)[k].0 as int,
                push_open(m, v, stack, nx, ny)[k].1 as int,
            ) ==> reaches(
                unvisited_background(m, v0),
                sx,
                sy,
                push_open(m, v, stack, nx, ny)[k].0 as int,
                push_open(m, v, stack, nx, ny)[k].1 as int,
            )),
{
    let open = unvisited_background(m, v0);
    let after = push_open(m, v, stack, nx, ny);
    assert forall|k: int| 0 <= k < after.len() implies m.contains(
        (#[trigger] after[k]).0 as int,
        after[k].1 as int,
    ) && (open(after[k].0 as int, after[k].1 as int) ==> reaches(
        open,
        sx,
        sy,
        after[k].0 as int,
        after[k].1 as int,
    )) by {
        if k < stack.len() {
            assert(after[k] == stack[k]);
        } else {
            assert(after[k].0 == nx && after[k].1 == ny);
            if open(nx, ny) {
                lemma_reaches_step(open, sx, sy, x, y, nx, ny);
            }
        }
    }
}

/// The stack after the four neighbours of `(x, y)` have been considered,
/// in the order below, right, above, left.
spec fn expand(
    m: Grid<bool>,
    v: Grid<bool>,
    stack: Seq<(usize, usize)>,
    x: int,
    y: int,
) -> Seq<(usize, usize)> {
    push_open(
        m,
        v,
        push_open(m, v, push_open(m, v, push_open(m, v, stack, x, y + 1), x + 1, y), x, y - 1),
        x - 1,
        y,
    )
}

proof fn lemma_fill_visit(
    m: Grid<bool>,
    v0: Grid<bool>,
    v: Grid<bool>,
    stack: Seq<(usize, usize)>,
    sx: int,
    sy: int,
)
    requires
        fill_invariant(m, v0, v, stack, sx, sy),
        stack.len() > 0,
        !v.at(stack.last().0 as int, stack.last().1 as int),
        !m.at(stack.last().0 as int, stack.last().1 as int),
    ensures
        fill_invariant(
            m,
            v0,
            v.updated(stack.last().0 as int, stack.last().1 as int, true),
            expand(
                m,
                v.updated(stack.last().0 as int, stack.last().1 as int, true),
                stack.drop_last(),
                stack.last().0 as int,
                stack.last().1 as int,
            ),
            sx,
            sy,
        ),
{
    let open = unvisited_background(m, v0);
    let px = stack.last().0 as int;
    let py = stack.last().1 as int;
    let rest = stack.drop_last();
    let v1 = v.updated(px, py, true);
    let s1 = push_open(m, v1, rest, px, py + 1);
    let s2 = push_open(m, v1, s1, px + 1, py);
    let s3 = push_open(m, v1, s2, px, py - 1);
    let s4 = push_open(m, v1, s3, px - 1, py);
    assert(s4 == expand(m, v1, rest, px, py));
    assert(stack[stack.len() - 1] == stack.last());
    assert(m.contains(px, py));
    assert forall|x: int, y: int| m.contains(x, y) implies #[trigger] v1.at(x, y) == (v.at(x, y) || (x
        == px && y == py)) by {
        lemma_updated_at(v, px, py, true, x, y);
    }
    lemma_updated_at(v, px, py, true, px, py);
    // The popped cell is open, hence reachable.
    assert(!v0.at(px, py));
    assert(open(px, py));
    assert(reaches(open, sx, sy, px, py));
    // Entries of the new stack.
    assert forall|k: int| 0 <= k < rest.len() implies m.contains(
        (#[trigger] rest[k]).0 as int,
        rest[k].1 as int,
    ) && (open(rest[k].0 as int, rest[k].1 as int) ==> reaches(
        open,
        sx,
        sy,
        rest[k].0 as int,
        rest[k].1 as int,
    )) by {
        assert(rest[k] == stack[k]);
    }
    lemma_push_open_entries(m, v0, v1, rest, sx, sy, px, py, px, py + 1);
    lemma_push_open_entries(m, v0, v1, s1, sx, sy, px, py, px + 1, py);
    lemma_push_open_entries(m, v0, v1, s2, sx, sy, px, py, px, py - 1);
    lemma_push_open_entries(m, v0, v1, s3, sx, sy, px, py, px - 1, py);
    // What waited on the old stack is marked now or still waits.
    assert forall|qx: int, qy: int| on_stack(stack, qx, qy) implies v1.at(qx, qy) || on_stack(
        s4,
        qx,
        qy,
    ) by {
        let k = choose|k: int| 0 <= k < stack.len() && (#[trigger] stack[k]).0 == qx && stack[k].1 == qy;
        assert(m.contains(qx, qy));
        if k < rest.len() {
            assert(rest[k] == stack[k]);
            assert(on_stack(rest, qx, qy));
            lemma_push_open_keeps(m, v1, rest, px, py + 1, qx, qy);
            lemma_push_open_keeps(m, v1, s1, px + 1, py, qx, qy);
            lemma_push_open_keeps(m, v1, s2, px, py - 1, qx, qy);
            lemma_push_open_keeps(m, v1, s3, px - 1, py, qx, qy);
        }
    }
    // Every open neighbour of the popped cell is marked or waits.
    assert forall|nx: int, ny: int| adjacent(px, py, nx, ny) && open(nx, ny) implies v1.at(nx, ny)
        || on_stack(s4, nx, ny) by {
        if !v1.at(nx, ny) {
            if nx == px && ny == py + 1 {
                lemma_push_open_lands(m, v1, rest, nx, ny);
                lemma_push_open_keeps(m, v1, s1, px + 1, py, nx, ny);
                lemma_push_open_keeps(m, v1, s2, px, py - 1, nx, ny);
                lemma_push_open_keeps(m, v1, s3, px - 1, py, nx, ny);
            } else if nx == px + 1 && ny == py {
                lemma_push_open_lands(m, v1, s1, nx, ny);
                lemma_push_open_keeps(m, v1, s2, px, py - 1, nx, ny);
                lemma_push_open_keeps(m, v1, s3, px - 1, py, nx, ny);
            } else if nx == px && ny == py - 1 {
                lemma_push_open_lands(m, v1, s2, nx, ny);
                lemma_push_open_keeps(m, v1, s3, px - 1, py, nx, ny);
            } else {
                lemma_push_open_lands(m, v1, s3, nx, ny);
            }
        }
    }
    assert forall|x: int, y: int, nx: int, ny: int|
        m.contains(x, y) && #[trigger] v1.at(x, y) && !v0.at(x, y) && #[trigger] adjacent(
            x,
            y,
            nx,
            ny,
        ) && open(nx, ny) implies v1.at(nx, ny) || on_stack(s4, nx, ny) by {
        if !(x == px && y == py) {
            assert(v.at(x, y));
            assert(v.at(nx, ny) || on_stack(stack, nx, ny));
            assert(m.contains(nx, ny));
        }
    }
    assert forall|x: int, y: int| m.contains(x, y) && #[trigger] v1.at(x, y) && !v0.at(x, y)
        implies reaches(open, sx, sy, x, y) by {
        if !(x == px && y == py) {
            assert(v.at(x, y));
        }
    }
    assert forall|x: int, y: int| m.contains(x, y) && v0.at(x, y) implies #[trigger] v1.at(x, y) by {
        assert(v.at(x, y));
    }
    if open(sx, sy) {
        assert(v.at(sx, sy) || on_stack(stack, sx, sy));
    }
}

/// When nothing waits on the stack, exactly the cells of `filled_from` are
/// marked.
proof fn lemma_fill_done(m: Grid<bool>, v0: Grid<bool>, v: Grid<bool>, sx: int, sy: int)
    requires
        fill_invariant(m, v0, v, Seq::<(usize, usize)>::empty(), sx, sy),
    ensures
        v == filled_from(m, v0, sx, sy),
{
    let open = unvisited_background(m, v0);
    let empty = Seq::<(usize, usize)>::empty();
    assert forall|x: int, y: int| !on_stack(empty, x, y) by {}
    assert forall|x: int, y: int| v.contains(x, y) implies #[trigger] v.at(x, y) == (v0.at(x, y)
        || reaches(open, sx, sy, x, y)) by {
        if reaches(open, sx, sy, x, y) {
            let path = choose|path: Seq<(int, int)>| walk_joins(open, path, sx, sy, x, y);
            lemma_walk_is_marked(m, v0, v, sx, sy, path, path.len() - 1);
        }
    }
    lemma_grid_is_from_fn(v, |x: int, y: int| v0.at(x, y) || reaches(open, sx, sy, x, y));
}

/// With an empty stack, every cell of a walk from the start through open
/// cells is marked.
proof fn lemma_walk_is_marked(
    m: Grid<bool>,
    v0: Grid<bool>,
    v: Grid<bool>,
    sx: int,
    sy: int,
    path: Seq<(int, int)>,
    i: int,
)
    requires
        fill_invariant(m, v0, v, Seq::<(usize, usize)>::empty(), sx, sy),
        is_walk(unvisited_background(m, v0), path),
        path[0] == (sx, sy),
        0 <= i < path.len(),
    ensures
        v.at(path[i].0, path[i].1),
    decreases i,
{
    let open = unvisited_background(m, v0);
    let empty = Seq::<(usize, usize)>::empty();
    assert(open(path[i].0, path[i].1));
    if i == 0 {
        assert(open(sx, sy));
        assert(!on_stack(empty, sx, sy));
    } else {
        lemma_walk_is_marked(m, v0, v, sx, sy, path, i - 1);
        let x = path[i - 1].0;
        let y = path[i - 1].1;
        assert(open(x, y));
        assert(adjacent(x, y, path[i - 1 + 1].0, path[i - 1 + 1].1));
        assert(adjacent(x, y, path[i].0, path[i].1));
        assert(!on_stack(empty, path[i].0, path[i].1));
    }
}

/// Some seed reaches `(x, y)` by a walk through background.
spec fn seeded(m: Grid<bool>, seeds: Set<(int, int)>, x: int, y: int) -> bool {
    exists|sx: int, sy: int| seeds.contains((sx, sy)) && #[trigger] reaches(background(m), sx, sy, x, y)
}

/// The grid that marks exactly the cells some seed reaches.
spec fn seeded_region(m: Grid<bool>, seeds: Set<(int, int)>) -> Grid<bool> {
    Grid::from_fn(m.width, m.height, |x: int, y: int| seeded(m, seeds, x, y))
}

/// From a seeded cell, a walk through background meets seeded cells only.
proof fn lemma_walk_stays_seeded(
    m: Grid<bool>,
    seeds: Set<(int, int)>,
    path: Seq<(int, int)>,
    i: int,
    j: int,
)
    requires
        is_walk(background(m), path),
        0 <= i <= j < path.len(),
        seeded(m, seeds, path[i].0, path[i].1),
    ensures
        seeded(m, seeds, path[j].0, path[j].1),
    decreases j - i,
{
    if i < j {
        lemma_walk_stays_seeded(m, seeds, path, i, j - 1);
        let x = path[j - 1].0;
        let y = path[j - 1].1;
        let (sx, sy) = choose|sx: int, sy: int|
            seeds.contains((sx, sy)) && #[trigger] reaches(background(m), sx, sy, x, y);
        assert(adjacent(x, y, path[j - 1 + 1].0, path[j - 1 + 1].1));
        assert(background(m)(path[j].0, path[j].1));
        lemma_reaches_step(background(m), sx, sy, x, y, path[j].0, path[j].1);
    }
}

/// A walk through background that meets no marked cell is a walk through
/// unmarked background.
proof fn lemma_walk_unvisited(m: Grid<bool>, v: Grid<bool>, path: Seq<(int, int)>)
    requires
        is_walk(background(m), path),
        forall|i: int| 0 <= i < path.len() ==> !v.at((#[trigger] path[i]).0, path[i].1),
    ensures
        is_walk(unvisited_background(m, v), path),
{
    assert forall|i: int| 0 <= i < path.len() implies unvisited_background(m, v)(
        (#[trigger] path[i]).0,
        path[i].1,
    ) by {
        assert(background(m)(path[i].0, path[i].1));
    }
}

/// One more seed, whether it starts a fill or is passed over, brings the
/// marked cells to the region seeded by the enlarged set.
proof fn lemma_seed_step(m: Grid<bool>, seeds: Set<(int, int)>, v: Grid<bool>, sx: int, sy: int)
    requires
        m.wf(),
        v == seeded_region(m, seeds),
        m.contains(sx, sy),
    ensures
        !v.at(sx, sy) && !m.at(sx, sy) ==> filled_from(m, v, sx, sy) == seeded_region(
            m,
            seeds.insert((sx, sy)),
        ),
        v.at(sx, sy) || m.at(sx, sy) ==> v == seeded_region(m, seeds.insert((sx, sy))),
{
    let more = seeds.insert((sx, sy));
    let bg = background(m);
    let open = unvisited_background(m, v);
    assert forall|x: int, y: int| m.contains(x, y) implies #[trigger] v.at(x, y) == seeded(
        m,
        seeds,
        x,
        y,
    ) by {
        lemma_from_fn_at(m.width, m.height, |x: int, y: int| seeded(m, seeds, x, y), x, y);
    }
    // What the enlarged set seeds: what the old set seeded, and what the new
    // seed reaches.
    assert forall|x: int, y: int| m.contains(x, y) implies #[trigger] seeded(m, more, x, y) == (
    seeded(m, seeds, x, y) || reaches(bg, sx, sy, x, y)) by {
        if seeded(m, more, x, y) {
            let (ax, ay) = choose|ax: int, ay: int|
                more.contains((ax, ay)) && #[trigger] reaches(bg, ax, ay, x, y);
            if (ax, ay) != (sx, sy) {
                assert(seeds.contains((ax, ay)));
            }
        }
        if seeded(m, seeds, x, y) {
            let (ax, ay) = choose|ax: int, ay: int|
                seeds.contains((ax, ay)) && #[trigger] reaches(bg, ax, ay, x, y);
            assert(more.contains((ax, ay)));
        }
        if reaches(bg, sx, sy, x, y) {
            assert(more.contains((sx, sy)));
        }
    }
    if !v.at(sx, sy) && !m.at(sx, sy) {
        let f = |x: int, y: int| v.at(x, y) || reaches(open, sx, sy, x, y);
        let g = |x: int, y: int| seeded(m, more, x, y);
        assert forall|x: int, y: int| 0 <= x < m.width && 0 <= y < m.height implies #[trigger] f(
            x,
            y,
        ) == g(x, y) by {
            assert(m.contains(x, y));
            if reaches(open, sx, sy, x, y) {
                lemma_reaches_in_larger(open, bg, sx, sy, x, y);
            }
            if reaches(bg, sx, sy, x, y) && !v.at(x, y) {
                let path = choose|path: Seq<(int, int)>| walk_joins(bg, path, sx, sy, x, y);
                if exists|i: int| 0 <= i < path.len() && v.at((#[trigger] path[i]).0, path[i].1) {
                    let i = choose|i: int|
                        0 <= i < path.len() && v.at((#[trigger] path[i]).0, path[i].1);
                    assert(bg(path[i].0, path[i].1));
                    lemma_walk_stays_seeded(m, seeds, path, i, path.len() - 1);
                } else {
                    lemma_walk_unvisited(m, v, path);
                    assert(walk_joins(open, path, sx, sy, x, y));
                }
            }
        }
        lemma_from_fn_agree(m.width, m.height, f, g);
    } else {
        let f = |x: int, y: int| seeded(m, seeds, x, y);
        let g = |x: int, y: int| seeded(m, more, x, y);
        assert forall|x: int, y: int| 0 <= x < m.width && 0 <= y < m.height implies #[trigger] f(
            x,
            y,
        ) == g(x, y) by {
            assert(m.contains(x, y));
            if reaches(bg, sx, sy, x, y) {
                lemma_reaches_ends(bg, sx, sy, x, y);
                assert(v.at(sx, sy));
                let path = choose|path: Seq<(int, int)>| walk_joins(bg, path, sx, sy, x, y);
                lemma_walk_stays_seeded(m, seeds, path, 0, path.len() - 1);
            }
        }
        lemma_from_fn_agree(m.width, m.height, f, g);
    }
}

/// With no seed, nothing is marked.
proof fn lemma_no_seed(m: Grid<bool>)
    ensures
        Grid::from_fn(m.width, m.height, |x: int, y: int| false) == seeded_region(
            m,
            Set::<(int, int)>::empty(),
        ),
{
    let none = Set::<(int, int)>::empty();
    let f = |x: int, y: int| false;
    let g = |x: int, y: int| seeded(m, none, x, y);
    assert forall|x: int, y: int| 0 <= x < m.width && 0 <= y < m.height implies #[trigger] f(x, y)
        == g(x, y) by {
        assert(!seeded(m, none, x, y));
    }
    lemma_from_fn_agree(m.width, m.height, f, g);
}

/// Seeding every border cell marks exactly the border-connected cells.
proof fn lemma_border_seeds(m: Grid<bool>, seeds: Set<(int, int)>)
    requires
        forall|bx: int, by: int| #[trigger] seeds.contains((bx, by)) <==> m.on_border(bx, by),
    ensures
        seeded_region(m, seeds) == border_region(m),
{
    let f = |x: int, y: int| seeded(m, seeds, x, y);
    let g = |x: int, y: int| border_connected(m, x, y);
    assert forall|x: int, y: int| 0 <= x < m.width && 0 <= y < m.height implies #[trigger] f(x, y)
        == g(x, y) by {
        if seeded(m, seeds, x, y) {
            let (ax, ay) = choose|ax: int, ay: int|
                seeds.contains((ax, ay)) && #[trigger] reaches(background(m), ax, ay, x, y);
            assert(m.on_border(ax, ay));
        }
        if border_connected(m, x, y) {
            let (ax, ay) = choose|ax: int, ay: int|
                m.on_border(ax, ay) && #[trigger] reaches(background(m), ax, ay, x, y);
            assert(seeds.contains((ax, ay)));
        }
    }
    lemma_from_fn_agree(m.width, m.height, f, g);
}

/// Connectivity correction changes no cell: the cells it sets to background
/// are background already.
pub proof fn lemma_flood_fill_keeps_mask(m: Grid<bool>)
    requires
        m.wf(),
    ensures
        flood_filled(m) == m,
{
    assert forall|x: int, y: int| m.contains(x, y) implies #[trigger] m.at(x, y) == (m.at(x, y)
        && !border_connected(m, x, y)) by {
        if border_connected(m, x, y) {
            let (ax, ay) = choose|ax: int, ay: int|
                m.on_border(ax, ay) && #[trigger] reaches(background(m), ax, ay, x, y);
            lemma_reaches_ends(background(m), ax, ay, x, y);
        }
    }
    lemma_grid_is_from_fn(m, |x: int, y: int| m.at(x, y) && !border_connected(m, x, y));
}

impl BackgroundRemover {
    /// Pushes `(nx, ny)` when it is an unmarked background cell.
    fn push_if_open(
        &self,
        mask: &Mask,
        visited: &Mask,
        stack: &mut Vec<(usize, usize)>,
        nx: usize,
        ny: usize,
    )
        requires
            mask@.contains(nx as int, ny as int),
            visited@.width == mask@.width,
            visited@.height == mask@.height,
        ensures
            final(stack)@ == push_open(mask@, visited@, old(stack)@, nx as int, ny as int),
    {
        if !visited.get(nx, ny) && !mask.get(nx, ny) {
            stack.push((nx, ny));
        }
    }

    /// Marks in `visited` every cell that a walk through unmarked background
    /// reaches from the start cell, using an explicit stack. Each cell it
    /// marks is written to the mask as background, which it already is: the
    /// mask comes out as it went in.
    pub fn flood_fill_iterative(
        &self,
        mask: &mut Mask,
        visited: &mut Mask,
        start_x: usize,
        start_y: usize,
    )
        requires
            old(visited)@.width == old(mask)@.width,
            old(visited)@.height == old(mask)@.height,
            old(mask)@.contains(start_x as int, start_y as int),
        ensures
            final(mask)@ == old(mask)@,
            final(visited)@ == filled_from(
                old(mask)@,
                old(visited)@,
                start_x as int,
                start_y as int,
            ),
    {
        let width = mask.width();
        let height = mask.height();
        let ghost m0 = mask@;
        let ghost v0 = visited@;
        let mut stack: Vec<(usize, usize)> = Vec::new();
        stack.push((start_x, start_y));
        proof {
            use_type_invariant(&*mask);
            use_type_invariant(&*visited);
            lemma_fill_start(m0, v0, start_x, start_y);
            assert(stack@ =~= seq![(start_x, start_y)]);
        }
        while stack.len() > 0
            invariant
                mask@ == m0,
                width == m0.width,
                height == m0.height,
                fill_invariant(m0, v0, visited@, stack@, start_x as int, start_y as int),
            decreases visited@.cells.len() - count_marked(visited@.cells), stack.len(),
        {
            let ghost before = stack@;
            let ghost marked = visited@;
            let (x, y) = stack.pop().unwrap();
            proof {
                assert(before[before.len() - 1] == (x, y));
                assert(stack@ =~= before.drop_last());
                assert(m0.contains(x as int, y as int));
                lemma_count_marked_bound(marked.cells);
            }
            if visited.get(x, y) || mask.get(x, y) {
                proof {
                    lemma_fill_skip(m0, v0, marked, before, start_x as int, start_y as int);
                }
            } else {
                visited.set(x, y, true);
                mask.set(x, y, false);
                proof {
                    lemma_updated_same(m0, x as int, y as int);
                    crate::grid::lemma_index_in_range(m0.width, m0.height, x as int, y as int);
                    lemma_count_marked_grows(marked.cells, marked.index_of(x as int, y as int));
                    lemma_count_marked_bound(visited@.cells);
                }
                if y + 1 < height {
                    self.push_if_open(mask, visited, &mut stack, x, y + 1);
                }
                if x + 1 < width {
                    self.push_if_open(mask, visited, &mut stack, x + 1, y);
                }
                if y > 0 {
                    self.push_if_open(mask, visited, &mut stack, x, y - 1);
                }
                if x > 0 {
                    self.push_if_open(mask, visited, &mut stack, x - 1, y);
                }
                proof {
                    assert(stack@ == expand(m0, visited@, before.drop_last(), x as int, y as int));
                    lemma_fill_visit(m0, v0, marked, before, start_x as int, start_y as int);
                }
            }
        }
        proof {
            assert(stack@ =~= Seq::<(usize, usize)>::empty());
            lemma_fill_done(m0, v0, visited@, start_x as int, start_y as int);
        }
    }

    /// Handles one border cell: starts a fill there when it is unmarked
    /// background.
    fn fill_from_seed(
        &self,
        mask: &mut Mask,
        visited: &mut Mask,
        x: usize,
        y: usize,
        Ghost(seeds): Ghost<Set<(int, int)>>,
    )
        requires
            old(mask)@.contains(x as int, y as int),
            old(visited)@ == seeded_region(old(mask)@, seeds),
        ensures
            final(mask)@ == old(mask)@,
            final(visited)@ == seeded_region(old(mask)@, seeds.insert((x as int, y as int))),
    {
        proof {
            use_type_invariant(&*mask);
            lemma_seed_step(mask@, seeds, visited@, x as int, y as int);
        }
        if !visited.get(x, y) && !mask.get(x, y) {
            self.flood_fill_iterative(mask, visited, x, y);
        }
    }

    /// Connectivity correction. Starting from every border cell that is
    /// unmarked background, floods through background cells and sets each
    /// cell it reaches to background. Returns the grid of reached cells.
    pub fn flood_fill_background(&self, mask: &mut Mask) -> (visited: Mask)
        ensures
            final(mask)@ == flood_filled(old(mask)@),
            final(mask)@ == old(mask)@,
            visited@ == border_region(old(mask)@),
    {
        let width = mask.width();
        let height = mask.height();
        let cells = mask.area();
        assert(width * height == cells);
        let ghost m0 = mask@;
        let mut visited = Mask::filled(width, height, false);
        let ghost mut seeds = Set::<(int, int)>::empty();
        proof {
            lemma_no_seed(m0);
            lemma_flood_fill_keeps_mask(m0);
        }
        if width == 0 || height == 0 {
            proof {
                lemma_border_seeds(m0, seeds);
            }
            return visited;
        }
        let mut x: usize = 0;
        while x < width
            invariant
                x <= width,
                width == m0.width,
                height == m0.height,
                height > 0,
                mask@ == m0,
                visited@ == seeded_region(m0, seeds),
                forall|bx: int, by: int| #[trigger]
                    seeds.contains((bx, by)) <==> (by == 0 && 0 <= bx < x),
            decreases width - x,
        {
            self.fill_from_seed(mask, &mut visited, x, 0, Ghost(seeds));
            proof {
                seeds = seeds.insert((x as int, 0int));
            }
            x = x + 1;
        }
        x = 0;
        while x < width
            invariant
                x <= width,
                width == m0.width,
                height == m0.height,
                height > 0,
                mask@ == m0,
                visited@ == seeded_region(m0, seeds),
                forall|bx: int, by: int| #[trigger]
                    seeds.contains((bx, by)) <==> ((by == 0 && 0 <= bx < width) || (by == height - 1
                        && 0 <= bx < x)),
            decreases width - x,
        {
            self.fill_from_seed(mask, &mut visited, x, height - 1, Ghost(seeds));
            proof {
                seeds = seeds.insert((x as int, height - 1));
            }
            x = x + 1;
        }
        let mut y: usize = 0;
        while y < height
            invariant
                y <= height,
                width == m0.width,
                height == m0.height,
                width > 0,
                mask@ == m0,
                visited@ == seeded_region(m0, seeds),
                forall|bx: int, by: int| #[trigger]
                    seeds.contains((bx, by)) <==> ((by == 0 && 0 <= bx < width) || (by == height - 1
                        && 0 <= bx < width) || (bx == 0 && 0 <= by < y)),
            decreases height - y,
        {
            self.fill_from_seed(mask, &mut visited, 0, y, Ghost(seeds));
            proof {
                seeds = seeds.insert((0int, y as int));
            }
            y = y + 1;
        }
        y = 0;
        while y < height
            invariant
                y <= height,
                width == m0.width,
                height == m0.height,
                width > 0,
                mask@ == m0,
                visited@ == seeded_region(m0, seeds),
                forall|bx: int, by: int| #[trigger]
                    seeds.contains((bx, by)) <==> ((by == 0 && 0 <= bx < width) || (by == height - 1
                        && 0 <= bx < width) || (bx == 0 && 0 <= by < height) || (bx == width - 1
                        && 0 <= by < y)),
            decreases height - y,
        {
            self.fill_from_seed(mask, &mut visited, width - 1, y, Ghost(seeds));
            proof {
                seeds = seeds.insert((width - 1, y as int));
            }
            y = y + 1;
        }
        proof {
            lemma_border_seeds(m0, seeds);
        }
        visited
    }
}

} // verus!
