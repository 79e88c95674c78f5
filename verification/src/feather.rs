//! Edge feathering and mask application: a foreground pixel keeps the
//! share of its alpha that the foreground holds in the window around it.

use vstd::prelude::*;
use crate::buffer::RgbaBuffer;
use crate::grid::{Grid, lemma_from_fn_at, lemma_grid_is_from_fn, lemma_updated_at};
use crate::mask::Mask;
use crate::pixel::Pixel;
use crate::remover::BackgroundRemover;

verus! {

/// A fraction `numer / denom`.
pub struct Ratio {
    pub numer: int,
    pub denom: int,
}

impl Ratio {
    /// The fraction is a share between nothing and everything.
    pub open spec fn is_share(self) -> bool {
        0 <= self.numer <= self.denom && self.denom >= 1
    }

    /// The fraction equals 1.
    pub open spec fn is_one(self) -> bool {
        self.numer == self.denom
    }

    /// The fraction equals 0.
    pub open spec fn is_zero(self) -> bool {
        self.numer == 0
    }
}

/// An opacity multiplier between 0 and 1, kept as the exact fraction
/// `numer / denom`.
#[derive(Clone, Copy, Debug)]
pub struct Opacity {
    pub numer: usize,
    pub denom: usize,
}

impl View for Opacity {
    type V = Ratio;

    open spec fn view(&self) -> Ratio {
        Ratio { numer: self.numer as int, denom: self.denom as int }
    }
}

/// First column (or row) of the window of the given radius around `center`.
pub open spec fn window_start(center: int, radius: nat) -> int {
    if center >= radius {
        center - radius
    } else {
        0
    }
}

/// One past the last column (or row) of the window of the given radius
/// around `center`, in a grid that has `limit` columns (or rows).
pub open spec fn window_end(center: int, radius: nat, limit: nat) -> int {
    if center + radius + 1 <= limit {
        center + radius + 1
    } else {
        limit as int
    }
}

/// Number of background cells among the `columns` cells of row `y` that
/// start at column `x0`.
pub open spec fn row_background(m: Grid<bool>, y: int, x0: int, columns: nat) -> nat
    decreases columns,
{
    if columns == 0 {
        0
    } else {
        row_background(m, y, x0, (columns - 1) as nat) + if m.at(x0 + columns - 1, y) {
            0nat
        } else {
            1nat
        }
    }
}

/// Number of background cells in the block of `columns` x `rows` cells whose
/// top left cell is `(x0, y0)`.
pub open spec fn window_background(m: Grid<bool>, x0: int, y0: int, columns: nat, rows: nat) -> nat
    decreases rows,
{
    if rows == 0 {
        0
    } else {
        window_background(m, x0, y0, columns, (rows - 1) as nat) + row_background(
            m,
            y0 + rows - 1,
            x0,
            columns,
        )
    }
}

/// Opacity of the pixel at `(x, y)`: 0 for a background pixel; for a
/// foreground pixel the share of foreground cells in the square window of
/// the given radius around it, clipped to the grid.
pub open spec fn feather_opacity(m: Grid<bool>, x: int, y: int, radius: nat) -> Ratio {
    if !m.at(x, y) {
        Ratio { numer: 0, denom: 1 }
    } else {
        let x0 = window_start(x, radius);
        let y0 = window_start(y, radius);
        let columns = (window_end(x, radius, m.width) - x0) as nat;
        let rows = (window_end(y, radius, m.height) - y0) as nat;
        Ratio {
            numer: columns * rows - window_background(m, x0, y0, columns, rows),
            denom: (columns * rows) as int,
        }
    }
}

/// `alpha` scaled by an opacity and rounded to the nearest integer, halves
/// upward.
pub open spec fn feathered_alpha(alpha: u8, opacity: Ratio) -> int {
    (2 * (alpha * opacity.numer) + opacity.denom) / (2 * opacity.denom)
}

/// The output pixel at `(x, y)`: the source colour, transparent where the
/// mask says background, and with feathered alpha where it says foreground.
pub open spec fn masked_pixel(g: Grid<Pixel>, m: Grid<bool>, radius: nat, x: int, y: int) -> Pixel {
    if !m.at(x, y) {
        g.at(x, y).with_alpha(0)
    } else {
        g.at(x, y).with_alpha(
            feathered_alpha(g.at(x, y).a, feather_opacity(m, x, y, radius)) as u8,
        )
    }
}

/// The image that applying a mask to `g` produces.
pub open spec fn masked_image(g: Grid<Pixel>, m: Grid<bool>, radius: nat) -> Grid<Pixel> {
    Grid::from_fn(g.width, g.height, |x: int, y: int| masked_pixel(g, m, radius, x, y))
}

/// A row holds at most as many background cells as it has cells.
pub proof fn lemma_row_background_bound(m: Grid<bool>, y: int, x0: int, columns: nat)
    ensures
        row_background(m, y, x0, columns) <= columns,
    decreases columns,
{
    if columns > 0 {
        lemma_row_background_bound(m, y, x0, (columns - 1) as nat);
    }
}

/// A window holds at most as many background cells as it has cells.
pub proof fn lemma_window_background_bound(m: Grid<bool>, x0: int, y0: int, columns: nat, rows: nat)
    ensures
        window_background(m, x0, y0, columns, rows) <= columns * rows,
    decreases rows,
{
    if rows > 0 {
        lemma_window_background_bound(m, x0, y0, columns, (rows - 1) as nat);
        lemma_row_background_bound(m, y0 + rows - 1, x0, columns);
        assert(columns * (rows - 1) + columns == columns * rows) by (nonlinear_arith);
    }
}

/// The opacity of a cell of a grid is a share between 0 and 1.
pub proof fn lemma_feather_opacity_is_share(m: Grid<bool>, x: int, y: int, radius: nat)
    requires
        m.contains(x, y),
    ensures
        feather_opacity(m, x, y, radius).is_share(),
{
    if m.at(x, y) {
        let x0 = window_start(x, radius);
        let y0 = window_start(y, radius);
        let columns = (window_end(x, radius, m.width) - x0) as nat;
        let rows = (window_end(y, radius, m.height) - y0) as nat;
        lemma_window_background_bound(m, x0, y0, columns, rows);
        assert(columns * rows >= 1) by (nonlinear_arith)
            requires
                columns >= 1,
                rows >= 1,
        ;
    }
}

/// Scaling an alpha value by a share gives an alpha value no larger.
pub proof fn lemma_feathered_alpha_bounds(alpha: u8, opacity: Ratio)
    requires
        opacity.is_share(),
    ensures
        0 <= feathered_alpha(alpha, opacity) <= alpha,
{
    let n = opacity.numer;
    let d = opacity.denom;
    let a = alpha as int;
    assert(0 <= a * n <= a * d) by (nonlinear_arith)
        requires
            0 <= a,
            0 <= n <= d,
    ;
    let top = 2 * (a * n) + d;
    assert(0 <= top / (2 * d) <= a) by (nonlinear_arith)
        requires
            0 <= top <= 2 * (a * d) + d,
            d >= 1,
            a >= 0,
    ;
}

/// The output of mask application, cell by cell.
pub proof fn lemma_masked_image_at(g: Grid<Pixel>, m: Grid<bool>, radius: nat, x: int, y: int)
    requires
        g.contains(x, y),
    ensures
        masked_image(g, m, radius).wf(),
        masked_image(g, m, radius).at(x, y) == masked_pixel(g, m, radius, x, y),
{
    lemma_from_fn_at(
        g.width,
        g.height,
        |x: int, y: int| masked_pixel(g, m, radius, x, y),
        x,
        y,
    );
}

impl BackgroundRemover {
    /// Opacity of the pixel at `(x, y)` under the mask.
    pub fn calculate_edge_alpha(&self, mask: &Mask, x: usize, y: usize) -> (opacity: Opacity)
        requires
            mask@.contains(x as int, y as int),
        ensures
            opacity@ == feather_opacity(mask@, x as int, y as int, self.radius()),
            opacity@.is_share(),
    {
        proof {
            lemma_feather_opacity_is_share(mask@, x as int, y as int, self.radius());
        }
        if !mask.get(x, y) {
            return Opacity { numer: 0, denom: 1 };
        }
        let width = mask.width();
        let height = mask.height();
        let cells = mask.area();
        let radius = self.edge_blur() as usize;
        let x0: usize = if x >= radius {
            x - radius
        } else {
            0
        };
        let y0: usize = if y >= radius {
            y - radius
        } else {
            0
        };
        let x1: usize = if radius < width - x {
            x + radius + 1
        } else {
            width
        };
        let y1: usize = if radius < height - y {
            y + radius + 1
        } else {
            height
        };
        let columns: usize = x1 - x0;
        let rows: usize = y1 - y0;
        proof {
            assert(columns * rows <= width * height) by (nonlinear_arith)
                requires
                    0 <= columns <= width,
                    0 <= rows <= height,
            ;
            assert(columns * rows <= cells);
        }
        let mut background: usize = 0;
        let mut wy: usize = y0;
        while wy < y1
            invariant
                y0 <= wy <= y1,
                y1 <= height,
                x0 <= x1 <= width,
                columns == x1 - x0,
                rows == y1 - y0,
                width == mask@.width,
                height == mask@.height,
                columns * rows <= usize::MAX,
                background == window_background(
                    mask@,
                    x0 as int,
                    y0 as int,
                    columns as nat,
                    (wy - y0) as nat,
                ),
            decreases y1 - wy,
        {
            let mut row: usize = 0;
            let mut wx: usize = x0;
            while wx < x1
                invariant
                    x0 <= wx <= x1,
                    x1 <= width,
                    wy < height,
                    width == mask@.width,
                    height == mask@.height,
                    row == row_background(mask@, wy as int, x0 as int, (wx - x0) as nat),
                decreases x1 - wx,
            {
                proof {
                    lemma_row_background_bound(mask@, wy as int, x0 as int, (wx - x0) as nat);
                }
                if !mask.get(wx, wy) {
                    row = row + 1;
                }
                wx = wx + 1;
            }
            proof {
                lemma_window_background_bound(
                    mask@,
                    x0 as int,
                    y0 as int,
                    columns as nat,
                    (wy - y0 + 1) as nat,
                );
                assert(columns * (wy - y0 + 1) <= columns * rows) by (nonlinear_arith)
                    requires
                        wy - y0 + 1 <= rows,
                        columns >= 0,
                ;
            }
            background = background + row;
            wy = wy + 1;
        }
        proof {
            lemma_window_background_bound(mask@, x0 as int, y0 as int, columns as nat, rows as nat);
        }
        let total: usize = columns * rows;
        Opacity { numer: total - background, denom: total }
    }

    /// `alpha` scaled by `opacity`, rounded to the nearest integer.
    fn scale_alpha(&self, alpha: u8, opacity: Opacity) -> (scaled: u8)
        requires
            opacity@.is_share(),
        ensures
            scaled == feathered_alpha(alpha, opacity@),
    {
        proof {
            lemma_feathered_alpha_bounds(alpha, opacity@);
            assert(alpha * opacity.numer <= 255 * 0xffff_ffff_ffff_ffff) by (nonlinear_arith)
                requires
                    0 <= alpha <= 255,
                    0 <= opacity.numer <= 0xffff_ffff_ffff_ffff,
            ;
        }
        let numer: u128 = opacity.numer as u128;
        let denom: u128 = opacity.denom as u128;
        let top: u128 = 2 * ((alpha as u128) * numer) + denom;
        (top / (2 * denom)) as u8
    }

    /// Writes the mask into the alpha channel: background pixels become
    /// transparent, foreground pixels keep their feathered share of alpha.
    /// Colour channels pass through unchanged.
    pub fn apply_mask(&self, image: &RgbaBuffer, mask: &Mask) -> (result: RgbaBuffer)
        requires
            mask@.width == image@.width,
            mask@.height == image@.height,
        ensures
            result@ == masked_image(image@, mask@, self.radius()),
            result@.width == image@.width,
            result@.height == image@.height,
            forall|x: int, y: int|
                image@.contains(x, y) ==> (#[trigger] result@.at(x, y)).r == image@.at(x, y).r
                    && result@.at(x, y).g == image@.at(x, y).g && result@.at(x, y).b == image@.at(
                    x,
                    y,
                ).b,
            forall|x: int, y: int|
                image@.contains(x, y) && !mask@.at(x, y) ==> (#[trigger] result@.at(x, y)).a == 0,
    {
        let (width, height) = image.dimensions();
        let pixels = image.pixel_count();
        assert(width * height == pixels);
        let mut result = RgbaBuffer::new(width, height);
        proof {
            use_type_invariant(&result);
        }
        let mut y: u32 = 0;
        while y < height
            invariant
                y <= height,
                width == image@.width,
                height == image@.height,
                mask@.width == image@.width,
                mask@.height == image@.height,
                result@.width == image@.width,
                result@.height == image@.height,
                result@.wf(),
                forall|cx: int, cy: int|
                    result@.contains(cx, cy) && cy < y ==> #[trigger] result@.at(cx, cy)
                        == masked_pixel(image@, mask@, self.radius(), cx, cy),
            decreases height - y,
        {
            let mut x: u32 = 0;
            while x < width
                invariant
                    x <= width,
                    y < height,
                    width == image@.width,
                    height == image@.height,
                    mask@.width == image@.width,
                    mask@.height == image@.height,
                    result@.width == image@.width,
                    result@.height == image@.height,
                    result@.wf(),
                    forall|cx: int, cy: int|
                        result@.contains(cx, cy) && (cy < y || (cy == y && cx < x))
                            ==> #[trigger] result@.at(cx, cy) == masked_pixel(
                            image@,
                            mask@,
                            self.radius(),
                            cx,
                            cy,
                        ),
                decreases width - x,
            {
                let source = image.get_pixel(x, y);
                let alpha: u8 = if !mask.get(x as usize, y as usize) {
                    0
                } else {
                    let opacity = self.calculate_edge_alpha(mask, x as usize, y as usize);
                    self.scale_alpha(source.a, opacity)
                };
                let pixel = Pixel { r: source.r, g: source.g, b: source.b, a: alpha };
                let ghost before = result@;
                result.put_pixel(x, y, pixel);
                proof {
                    assert forall|cx: int, cy: int|
                        result@.contains(cx, cy) && (cy < y || (cy == y && cx < x + 1))
                        implies #[trigger] result@.at(cx, cy) == masked_pixel(
                        image@,
                        mask@,
                        self.radius(),
                        cx,
                        cy,
                    ) by {
                        lemma_updated_at(before, x as int, y as int, pixel, cx, cy);
                        if !(cx == x && cy == y) {
                            assert(before.at(cx, cy) == masked_pixel(
                                image@,
                                mask@,
                                self.radius(),
                                cx,
                                cy,
                            ));
                        }
                    }
                    lemma_updated_at(before, x as int, y as int, pixel, x as int, y as int);
                }
                x = x + 1;
            }
            y = y + 1;
        }
        proof {
            lemma_grid_is_from_fn(
                result@,
                |x: int, y: int| masked_pixel(image@, mask@, self.radius(), x, y),
            );
        }
        result
    }
}

} // verus!
