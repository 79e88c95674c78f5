//! The mathematical model shared by images and masks: a rectangular grid
//! stored row by row, addressed by column `x` and row `y`.

use vstd::prelude::*;

verus! {

/// A `width` x `height` grid whose cell `(x, y)` is `cells[y * width + x]`.
pub struct Grid<T> {
    pub width: nat,
    pub height: nat,
    pub cells: Seq<T>,
}

impl<T> Grid<T> {
    /// The grid holds exactly one value per cell.
    pub open spec fn wf(self) -> bool {
        self.cells.len() == self.width * self.height
    }

    /// `(x, y)` names a cell of the grid.
    pub open spec fn contains(self, x: int, y: int) -> bool {
        0 <= x < self.width && 0 <= y < self.height
    }

    /// Position of cell `(x, y)` in `cells`.
    pub open spec fn index_of(self, x: int, y: int) -> int {
        y * self.width + x
    }

    /// The value in cell `(x, y)`.
    pub open spec fn at(self, x: int, y: int) -> T {
        self.cells[self.index_of(x, y)]
    }

    /// The grid of the given size whose cell `(x, y)` holds `f(x, y)`.
    pub open spec fn from_fn(width: nat, height: nat, f: spec_fn(int, int) -> T) -> Grid<T> {
        Grid {
            width,
            height,
            cells: Seq::new(
                width * height,
                |i: int| f(i % (width as int), i / (width as int)),
            ),
        }
    }

    /// The same grid with cell `(x, y)` replaced by `value`.
    pub open spec fn updated(self, x: int, y: int, value: T) -> Grid<T> {
        Grid { cells: self.cells.update(self.index_of(x, y), value), ..self }
    }

    /// `(x, y)` lies on the outermost ring of cells.
    pub open spec fn on_border(self, x: int, y: int) -> bool {
        self.contains(x, y) && (x == 0 || y == 0 || x == self.width - 1 || y == self.height - 1)
    }
}

/// Two cells share an edge: they differ by one step up, down, left or right.
pub open spec fn adjacent(x1: int, y1: int, x2: int, y2: int) -> bool {
    ||| (x1 == x2 && (y1 == y2 + 1 || y2 == y1 + 1))
    ||| (y1 == y2 && (x1 == x2 + 1 || x2 == x1 + 1))
}

/// A cell inside a grid has an index inside its storage.
pub proof fn lemma_index_in_range(width: nat, height: nat, x: int, y: int)
    requires
        0 <= x < width,
        0 <= y < height,
    ensures
        0 <= y * width,
        0 <= y * width + x < width * height,
{
    assert(0 <= y * width) by (nonlinear_arith)
        requires
            0 <= y,
            0 <= width,
    ;
    assert(y * width + x < width * height) by (nonlinear_arith)
        requires
            0 <= x < width,
            0 <= y < height,
    ;
}

/// The index of a cell determines its column and row.
pub proof fn lemma_index_coords(width: nat, x: int, y: int)
    requires
        0 <= x < width,
    ensures
        (y * width + x) % (width as int) == x,
        (y * width + x) / (width as int) == y,
{
    vstd::arithmetic::div_mod::lemma_fundamental_div_mod_converse(
        y * width + x,
        width as int,
        y,
        x,
    );
}

/// Every index of a grid's storage is the index of one of its cells.
pub proof fn lemma_coords_of_index(width: nat, height: nat, i: int)
    requires
        0 <= i < width * height,
    ensures
        0 <= i % (width as int) < width,
        0 <= i / (width as int) < height,
        (i / (width as int)) * width + i % (width as int) == i,
{
    let w = width as int;
    assert(w > 0) by (nonlinear_arith)
        requires
            0 <= i < w * height,
            w >= 0,
    ;
    vstd::arithmetic::div_mod::lemma_fundamental_div_mod(i, w);
    vstd::arithmetic::div_mod::lemma_mod_pos_bound(i, w);
    let q = i / w;
    let r = i % w;
    assert(i == w * q + r);
    assert(q * w == w * q) by (nonlinear_arith);
    assert(0 <= q) by (nonlinear_arith)
        requires
            i == w * q + r,
            0 <= i,
            0 <= r < w,
    ;
    assert(q < height) by (nonlinear_arith)
        requires
            i == w * q + r,
            i < w * height,
            0 <= r < w,
    ;
}

/// Replacing one cell changes that cell and no other.
pub proof fn lemma_updated_at<T>(g: Grid<T>, x: int, y: int, value: T, cx: int, cy: int)
    requires
        g.wf(),
        g.contains(x, y),
        g.contains(cx, cy),
    ensures
        g.updated(x, y, value).wf(),
        g.updated(x, y, value).at(cx, cy) == if cx == x && cy == y {
            value
        } else {
            g.at(cx, cy)
        },
{
    lemma_index_in_range(g.width, g.height, x, y);
    lemma_index_in_range(g.width, g.height, cx, cy);
    lemma_index_coords(g.width, x, y);
    lemma_index_coords(g.width, cx, cy);
}

/// Replacing a cell by the value it already holds leaves the grid as it was.
pub proof fn lemma_updated_same<T>(g: Grid<T>, x: int, y: int)
    requires
        g.wf(),
        g.contains(x, y),
    ensures
        g.updated(x, y, g.at(x, y)) == g,
{
    lemma_index_in_range(g.width, g.height, x, y);
    assert(g.updated(x, y, g.at(x, y)).cells =~= g.cells);
}

/// Two functions that agree on every cell give the same grid.
pub proof fn lemma_from_fn_agree<T>(
    width: nat,
    height: nat,
    f: spec_fn(int, int) -> T,
    g: spec_fn(int, int) -> T,
)
    requires
        forall|x: int, y: int| 0 <= x < width && 0 <= y < height ==> #[trigger] f(x, y) == g(x, y),
    ensures
        Grid::from_fn(width, height, f) == Grid::from_fn(width, height, g),
{
    let a = Grid::from_fn(width, height, f);
    let b = Grid::from_fn(width, height, g);
    assert forall|i: int| 0 <= i < a.cells.len() implies a.cells[i] == b.cells[i] by {
        lemma_coords_of_index(width, height, i);
    }
    assert(a.cells =~= b.cells);
}

/// A cell of `from_fn` holds the function's value there.
pub proof fn lemma_from_fn_at<T>(width: nat, height: nat, f: spec_fn(int, int) -> T, x: int, y: int)
    requires
        0 <= x < width,
        0 <= y < height,
    ensures
        Grid::from_fn(width, height, f).wf(),
        Grid::from_fn(width, height, f).at(x, y) == f(x, y),
{
    lemma_index_in_range(width, height, x, y);
    lemma_index_coords(width, x, y);
}

/// A well-formed grid is the grid of its own cell values.
pub proof fn lemma_grid_is_from_fn<T>(g: Grid<T>, f: spec_fn(int, int) -> T)
    requires
        g.wf(),
        forall|x: int, y: int| g.contains(x, y) ==> #[trigger] g.at(x, y) == f(x, y),
    ensures
        g == Grid::from_fn(g.width, g.height, f),
{
    let h = Grid::from_fn(g.width, g.height, f);
    assert forall|i: int| 0 <= i < g.cells.len() implies g.cells[i] == h.cells[i] by {
        lemma_coords_of_index(g.width, g.height, i);
        let x = i % (g.width as int);
        let y = i / (g.width as int);
        assert(g.contains(x, y));
        assert(g.at(x, y) == f(x, y));
    }
    assert(g.cells =~= h.cells);
}

} // verus!
