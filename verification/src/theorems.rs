//! Laws of background removal, stated over the mathematical model and
//! proved from the definitions.

use vstd::prelude::*;
use crate::classify::{built_mask, lemma_built_mask_at};
use crate::feather::{
    feather_opacity,
    lemma_masked_image_at,
    masked_image,
    masked_pixel,
    row_background,
    window_background,
    window_end,
    window_start,
};
use crate::flood::{flood_filled, lemma_flood_fill_keeps_mask};
use crate::grid::{Grid, lemma_from_fn_at};
use crate::pixel::{Channel, Pixel, distance_squared, within_tolerance};
use crate::remover::removed_background;
use crate::sampler::{
    block_sum,
    column_sum,
    corner_mean,
    corner_sum,
    detected_background,
    lemma_sample_side_fits,
    sample_count,
    sample_side,
};

verus! {

/// Every cell of the grid holds `color`.
pub open spec fn is_uniform(g: Grid<Pixel>, color: Pixel) -> bool {
    forall|x: int, y: int| g.contains(x, y) ==> #[trigger] g.at(x, y) == color
}

/// `(x, y)` lies in one of the four corner blocks that the sampler reads.
pub open spec fn in_corner_sample(g: Grid<Pixel>, x: int, y: int) -> bool {
    let s = sample_side(g.width, g.height);
    g.contains(x, y) && (x < s || x >= g.width - s) && (y < s || y >= g.height - s)
}

/// `(cx, cy)` lies in the feathering window around `(x, y)`.
pub open spec fn in_window(m: Grid<bool>, x: int, y: int, radius: nat, cx: int, cy: int) -> bool {
    window_start(x, radius) <= cx < window_end(x, radius, m.width) && window_start(y, radius) <= cy
        < window_end(y, radius, m.height)
}

proof fn lemma_column_sum_uniform(g: Grid<Pixel>, c: Channel, x: int, y0: int, rows: nat, v: int)
    requires
        forall|cy: int| y0 <= cy < y0 + rows ==> (#[trigger] g.at(x, cy)).channel(c) == v,
    ensures
        column_sum(g, c, x, y0, rows) == rows * v,
    decreases rows,
{
    if rows > 0 {
        lemma_column_sum_uniform(g, c, x, y0, (rows - 1) as nat, v);
        assert(g.at(x, y0 + rows - 1).channel(c) == v);
        assert((rows - 1) * v + v == rows * v) by (nonlinear_arith);
    } else {
        assert(rows * v == 0) by (nonlinear_arith)
            requires
                rows == 0,
        ;
    }
}

proof fn lemma_block_sum_uniform(
    g: Grid<Pixel>,
    c: Channel,
    x0: int,
    y0: int,
    columns: nat,
    rows: nat,
    v: int,
)
    requires
        forall|cx: int, cy: int|
            x0 <= cx < x0 + columns && y0 <= cy < y0 + rows ==> (#[trigger] g.at(cx, cy)).channel(c)
                == v,
    ensures
        block_sum(g, c, x0, y0, columns, rows) == columns * rows * v,
    decreases columns,
{
    if columns > 0 {
        lemma_block_sum_uniform(g, c, x0, y0, (columns - 1) as nat, rows, v);
        lemma_column_sum_uniform(g, c, x0 + columns - 1, y0, rows, v);
        assert((columns - 1) * rows * v + rows * v == columns * rows * v) by (nonlinear_arith);
    } else {
        assert(columns * rows * v == 0) by (nonlinear_arith)
            requires
                columns == 0,
        ;
    }
}

proof fn lemma_corner_mean_uniform(g: Grid<Pixel>, c: Channel, color: Pixel)
    requires
        g.width >= 1,
        g.height >= 1,
        forall|x: int, y: int| in_corner_sample(g, x, y) ==> #[trigger] g.at(x, y) == color,
    ensures
        corner_mean(g, c) == color.channel(c),
{
    let s = sample_side(g.width, g.height);
    let v = color.channel(c);
    lemma_sample_side_fits(g.width, g.height);
    assert forall|cx: int, cy: int|
        (0 <= cx < s || g.width - s <= cx < g.width) && (0 <= cy < s || g.height - s <= cy
            < g.height) implies (#[trigger] g.at(cx, cy)).channel(c) == v by {
        assert(in_corner_sample(g, cx, cy));
    }
    lemma_block_sum_uniform(g, c, 0, 0, s, s, v);
    lemma_block_sum_uniform(g, c, g.width - s, 0, s, s, v);
    lemma_block_sum_uniform(g, c, 0, g.height - s, s, s, v);
    lemma_block_sum_uniform(g, c, g.width - s, g.height - s, s, s, v);
    let n = sample_count(g);
    assert(n == 4 * (s * s));
    assert(corner_sum(g, c) == n * v) by (nonlinear_arith)
        requires
            corner_sum(g, c) == s * s * v + s * s * v + s * s * v + s * s * v,
            n == 4 * (s * s),
    ;
    assert(n >= 1) by (nonlinear_arith)
        requires
            n == 4 * (s * s),
            s >= 1,
    ;
    assert((n * v) / n == v) by (nonlinear_arith)
        requires
            n >= 1,
    ;
}

/// Where all four sampled corner blocks hold one colour, the detected
/// background is that colour, fully opaque.
pub proof fn lemma_uniform_corners(g: Grid<Pixel>, color: Pixel)
    requires
        g.width >= 1,
        g.height >= 1,
        forall|x: int, y: int| in_corner_sample(g, x, y) ==> #[trigger] g.at(x, y) == color,
    ensures
        detected_background(g) == color.opaque(),
{
    lemma_corner_mean_uniform(g, Channel::Red, color);
    lemma_corner_mean_uniform(g, Channel::Green, color);
    lemma_corner_mean_uniform(g, Channel::Blue, color);
}

/// A colour lies within every tolerance of itself, whatever the alpha.
pub proof fn lemma_same_color_within_tolerance(p: Pixel, q: Pixel, tolerance: nat)
    requires
        p.r == q.r,
        p.g == q.g,
        p.b == q.b,
    ensures
        within_tolerance(p, q, tolerance),
{
    assert(distance_squared(p, q) == 0) by (nonlinear_arith)
        requires
            p.r == q.r,
            p.g == q.g,
            p.b == q.b,
    ;
    assert(tolerance * tolerance >= 0) by (nonlinear_arith);
}

/// An image of one colour throughout: the detected background is exactly
/// that colour, every cell of the mask is background, and every output
/// pixel is the input colour made fully transparent.
pub proof fn lemma_uniform_image(g: Grid<Pixel>, color: Pixel, tolerance: nat, radius: nat)
    requires
        g.wf(),
        g.width >= 1,
        g.height >= 1,
        is_uniform(g, color),
    ensures
        detected_background(g) == color.opaque(),
        forall|x: int, y: int|
            g.contains(x, y) ==> !#[trigger] built_mask(g, detected_background(g), tolerance).at(
                x,
                y,
            ),
        forall|x: int, y: int|
            g.contains(x, y) ==> #[trigger] removed_background(g, tolerance, radius).at(x, y)
                == color.with_alpha(0),
{
    lemma_uniform_corners(g, color);
    let background = detected_background(g);
    let mask = built_mask(g, background, tolerance);
    assert forall|x: int, y: int| g.contains(x, y) implies !#[trigger] mask.at(x, y) by {
        lemma_built_mask_at(g, background, tolerance, x, y);
        lemma_same_color_within_tolerance(g.at(x, y), background, tolerance);
    }
    assert forall|x: int, y: int| g.contains(x, y) implies #[trigger] removed_background(
        g,
        tolerance,
        radius,
    ).at(x, y) == color.with_alpha(0) by {
        lemma_masked_image_at(g, mask, radius, x, y);
        assert(!mask.at(x, y));
    }
}

/// A block of colours far from the background, set in an image that
/// otherwise holds the background colour and clear of the four sampled
/// corners: the detected background is the surrounding colour, and the mask
/// is foreground exactly on the block.
pub proof fn lemma_block_on_background(
    g: Grid<Pixel>,
    background: Pixel,
    tolerance: nat,
    x0: int,
    y0: int,
    x1: int,
    y1: int,
)
    requires
        g.wf(),
        g.width >= 1,
        g.height >= 1,
        forall|x: int, y: int|
            g.contains(x, y) && !(x0 <= x < x1 && y0 <= y < y1) ==> #[trigger] g.at(x, y)
                == background,
        forall|x: int, y: int|
            g.contains(x, y) && x0 <= x < x1 && y0 <= y < y1 ==> !within_tolerance(
                #[trigger] g.at(x, y),
                background.opaque(),
                tolerance,
            ),
        forall|x: int, y: int|
            x0 <= x < x1 && y0 <= y < y1 ==> !#[trigger] in_corner_sample(g, x, y),
    ensures
        detected_background(g) == background.opaque(),
        forall|x: int, y: int|
            g.contains(x, y) ==> #[trigger] built_mask(g, detected_background(g), tolerance).at(x, y)
                == (x0 <= x < x1 && y0 <= y < y1),
{
    assert forall|x: int, y: int| in_corner_sample(g, x, y) implies #[trigger] g.at(x, y)
        == background by {
        assert(!(x0 <= x < x1 && y0 <= y < y1));
    }
    lemma_uniform_corners(g, background);
    let detected = detected_background(g);
    assert forall|x: int, y: int| g.contains(x, y) implies #[trigger] built_mask(
        g,
        detected,
        tolerance,
    ).at(x, y) == (x0 <= x < x1 && y0 <= y < y1) by {
        lemma_built_mask_at(g, detected, tolerance, x, y);
        if !(x0 <= x < x1 && y0 <= y < y1) {
            assert(g.at(x, y) == background);
            lemma_same_color_within_tolerance(g.at(x, y), detected, tolerance);
        } else {
            assert(!within_tolerance(g.at(x, y), background.opaque(), tolerance));
        }
    }
}

/// Connectivity correction is idempotent: correcting a corrected mask
/// changes nothing.
pub proof fn lemma_flood_fill_idempotent(m: Grid<bool>)
    requires
        m.wf(),
    ensures
        flood_filled(flood_filled(m)) == flood_filled(m),
{
    lemma_flood_fill_keeps_mask(m);
}

/// Connectivity correction never turns background into foreground.
pub proof fn lemma_flood_fill_only_clears(m: Grid<bool>, x: int, y: int)
    requires
        m.wf(),
        m.contains(x, y),
        flood_filled(m).at(x, y),
    ensures
        m.at(x, y),
{
    lemma_flood_fill_keeps_mask(m);
}

proof fn lemma_row_background_extremes(m: Grid<bool>, y: int, x0: int, columns: nat)
    ensures
        (forall|cx: int| x0 <= cx < x0 + columns ==> #[trigger] m.at(cx, y)) ==> row_background(
            m,
            y,
            x0,
            columns,
        ) == 0,
        (forall|cx: int| x0 <= cx < x0 + columns ==> !#[trigger] m.at(cx, y)) ==> row_background(
            m,
            y,
            x0,
            columns,
        ) == columns,
    decreases columns,
{
    if columns > 0 {
        lemma_row_background_extremes(m, y, x0, (columns - 1) as nat);
        if forall|cx: int| x0 <= cx < x0 + columns ==> #[trigger] m.at(cx, y) {
            assert(m.at(x0 + columns - 1, y));
        }
        if forall|cx: int| x0 <= cx < x0 + columns ==> !#[trigger] m.at(cx, y) {
            assert(!m.at(x0 + columns - 1, y));
        }
    }
}

proof fn lemma_window_background_extremes(m: Grid<bool>, x0: int, y0: int, columns: nat, rows: nat)
    ensures
        (forall|cx: int, cy: int|
            x0 <= cx < x0 + columns && y0 <= cy < y0 + rows ==> #[trigger] m.at(cx, cy))
            ==> window_background(m, x0, y0, columns, rows) == 0,
        (forall|cx: int, cy: int|
            x0 <= cx < x0 + columns && y0 <= cy < y0 + rows ==> !#[trigger] m.at(cx, cy))
            ==> window_background(m, x0, y0, columns, rows) == columns * rows,
    decreases rows,
{
    if rows > 0 {
        lemma_window_background_extremes(m, x0, y0, columns, (rows - 1) as nat);
        lemma_row_background_extremes(m, y0 + rows - 1, x0, columns);
        assert(columns * (rows - 1) + columns == columns * rows) by (nonlinear_arith);
        if forall|cx: int, cy: int|
            x0 <= cx < x0 + columns && y0 <= cy < y0 + rows ==> #[trigger] m.at(cx, cy) {
            assert forall|cx: int| x0 <= cx < x0 + columns implies #[trigger] m.at(
                cx,
                y0 + rows - 1,
            ) by {}
        }
        if forall|cx: int, cy: int|
            x0 <= cx < x0 + columns && y0 <= cy < y0 + rows ==> !#[trigger] m.at(cx, cy) {
            assert forall|cx: int| x0 <= cx < x0 + columns implies !#[trigger] m.at(
                cx,
                y0 + rows - 1,
            ) by {}
        }
    } else {
        assert(columns * rows == 0) by (nonlinear_arith)
            requires
                rows == 0,
        ;
    }
}

/// The extremes of feathering. A foreground pixel whose window holds no
/// background cell has opacity 1. A pixel whose window holds background
/// cells only has opacity 0.
pub proof fn lemma_feather_extremes(m: Grid<bool>, x: int, y: int, radius: nat)
    requires
        m.contains(x, y),
    ensures
        (forall|cx: int, cy: int| in_window(m, x, y, radius, cx, cy) ==> #[trigger] m.at(cx, cy))
            ==> feather_opacity(m, x, y, radius).is_one(),
        (forall|cx: int, cy: int| in_window(m, x, y, radius, cx, cy) ==> !#[trigger] m.at(cx, cy))
            ==> feather_opacity(m, x, y, radius).is_zero(),
{
    let x0 = window_start(x, radius);
    let y0 = window_start(y, radius);
    let columns = (window_end(x, radius, m.width) - x0) as nat;
    let rows = (window_end(y, radius, m.height) - y0) as nat;
    lemma_window_background_extremes(m, x0, y0, columns, rows);
    assert(in_window(m, x, y, radius, x, y));
    if forall|cx: int, cy: int| in_window(m, x, y, radius, cx, cy) ==> #[trigger] m.at(cx, cy) {
        assert(m.at(x, y));
        assert forall|cx: int, cy: int|
            x0 <= cx < x0 + columns && y0 <= cy < y0 + rows implies #[trigger] m.at(cx, cy) by {
            assert(in_window(m, x, y, radius, cx, cy));
        }
    }
    if forall|cx: int, cy: int| in_window(m, x, y, radius, cx, cy) ==> !#[trigger] m.at(cx, cy) {
        assert(!m.at(x, y));
    }
}

proof fn lemma_row_background_monotonic(a: Grid<bool>, b: Grid<bool>, y: int, x0: int, columns: nat)
    requires
        forall|cx: int| x0 <= cx < x0 + columns && #[trigger] a.at(cx, y) ==> b.at(cx, y),
    ensures
        row_background(b, y, x0, columns) <= row_background(a, y, x0, columns),
    decreases columns,
{
    if columns > 0 {
        lemma_row_background_monotonic(a, b, y, x0, (columns - 1) as nat);
        if a.at(x0 + columns - 1, y) {
            assert(b.at(x0 + columns - 1, y));
        }
    }
}

proof fn lemma_window_background_monotonic(
    a: Grid<bool>,
    b: Grid<bool>,
    x0: int,
    y0: int,
    columns: nat,
    rows: nat,
)
    requires
        forall|cx: int, cy: int|
            x0 <= cx < x0 + columns && y0 <= cy < y0 + rows && #[trigger] a.at(cx, cy) ==> b.at(
                cx,
                cy,
            ),
    ensures
        window_background(b, x0, y0, columns, rows) <= window_background(a, x0, y0, columns, rows),
    decreases rows,
{
    if rows > 0 {
        lemma_window_background_monotonic(a, b, x0, y0, columns, (rows - 1) as nat);
        lemma_row_background_monotonic(a, b, y0 + rows - 1, x0, columns);
    }
}

/// Feathering is monotonic: where one mask has every foreground cell of
/// another in the window around a pixel that is foreground in both, the
/// pixel's opacity under it is at least as large, over the same
/// denominator.
pub proof fn lemma_feather_monotonic(a: Grid<bool>, b: Grid<bool>, x: int, y: int, radius: nat)
    requires
        a.width == b.width,
        a.height == b.height,
        a.contains(x, y),
        a.at(x, y),
        forall|cx: int, cy: int|
            in_window(a, x, y, radius, cx, cy) && #[trigger] a.at(cx, cy) ==> b.at(cx, cy),
    ensures
        feather_opacity(a, x, y, radius).denom == feather_opacity(b, x, y, radius).denom,
        feather_opacity(a, x, y, radius).numer <= feather_opacity(b, x, y, radius).numer,
{
    let x0 = window_start(x, radius);
    let y0 = window_start(y, radius);
    let columns = (window_end(x, radius, a.width) - x0) as nat;
    let rows = (window_end(y, radius, a.height) - y0) as nat;
    assert(in_window(a, x, y, radius, x, y));
    assert(b.at(x, y));
    assert forall|cx: int, cy: int|
        x0 <= cx < x0 + columns && y0 <= cy < y0 + rows && #[trigger] a.at(cx, cy) implies b.at(
        cx,
        cy,
    ) by {
        assert(in_window(a, x, y, radius, cx, cy));
    }
    lemma_window_background_monotonic(a, b, x0, y0, columns, rows);
}

/// The output has the dimensions of the input.
pub proof fn lemma_dimensions_kept(g: Grid<Pixel>, tolerance: nat, radius: nat)
    ensures
        removed_background(g, tolerance, radius).width == g.width,
        removed_background(g, tolerance, radius).height == g.height,
        removed_background(g, tolerance, radius).wf(),
{
}

/// Only alpha changes: every output pixel has the colour channels of the
/// input pixel at the same place.
pub proof fn lemma_color_kept(g: Grid<Pixel>, tolerance: nat, radius: nat, x: int, y: int)
    requires
        g.contains(x, y),
    ensures
        removed_background(g, tolerance, radius).at(x, y).r == g.at(x, y).r,
        removed_background(g, tolerance, radius).at(x, y).g == g.at(x, y).g,
        removed_background(g, tolerance, radius).at(x, y).b == g.at(x, y).b,
{
    lemma_masked_image_at(g, built_mask(g, detected_background(g), tolerance), radius, x, y);
}

/// A pixel that the mask classifies as background comes out with alpha 0,
/// whatever alpha it had.
pub proof fn lemma_background_is_transparent(
    g: Grid<Pixel>,
    tolerance: nat,
    radius: nat,
    x: int,
    y: int,
)
    requires
        g.contains(x, y),
        !built_mask(g, detected_background(g), tolerance).at(x, y),
    ensures
        removed_background(g, tolerance, radius).at(x, y).a == 0,
{
    lemma_masked_image_at(g, built_mask(g, detected_background(g), tolerance), radius, x, y);
}

} // verus!
