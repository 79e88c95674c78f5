//! Mask building: colour classification of every pixel, followed by the
//! border flood fill.

use vstd::prelude::*;
use crate::buffer::RgbaBuffer;
use crate::flood::{flood_filled, lemma_flood_fill_keeps_mask};
use crate::grid::{Grid, lemma_grid_is_from_fn, lemma_updated_at, lemma_from_fn_at};
use crate::mask::Mask;
use crate::pixel::{Pixel, within_tolerance};
use crate::remover::BackgroundRemover;

verus! {

/// The mask of colour classification alone: a pixel is foreground exactly
/// when its colour lies farther than `tolerance` from the background colour.
pub open spec fn color_mask(g: Grid<Pixel>, background: Pixel, tolerance: nat) -> Grid<bool> {
    Grid::from_fn(
        g.width,
        g.height,
        |x: int, y: int| !within_tolerance(g.at(x, y), background, tolerance),
    )
}

/// The finished mask: colour classification, then connectivity correction.
pub open spec fn built_mask(g: Grid<Pixel>, background: Pixel, tolerance: nat) -> Grid<bool> {
    flood_filled(color_mask(g, background, tolerance))
}

/// The finished mask classifies by colour alone: a cell is foreground
/// exactly when its colour lies farther than the tolerance from the
/// background colour.
pub proof fn lemma_built_mask_at(g: Grid<Pixel>, background: Pixel, tolerance: nat, x: int, y: int)
    requires
        g.contains(x, y),
    ensures
        built_mask(g, background, tolerance).width == g.width,
        built_mask(g, background, tolerance).height == g.height,
        built_mask(g, background, tolerance).wf(),
        built_mask(g, background, tolerance).at(x, y) == !within_tolerance(
            g.at(x, y),
            background,
            tolerance,
        ),
{
    let colored = color_mask(g, background, tolerance);
    lemma_from_fn_at(
        g.width,
        g.height,
        |x: int, y: int| !within_tolerance(g.at(x, y), background, tolerance),
        x,
        y,
    );
    lemma_flood_fill_keeps_mask(colored);
}

impl BackgroundRemover {
    /// Whether a colour counts as background.
    fn is_background_color(&self, pixel: &Pixel, background_color: &Pixel) -> (near: bool)
        ensures
            near == within_tolerance(*pixel, *background_color, self.tolerance()),
    {
        let distance = self.color_distance_squared(pixel, background_color) as u64;
        let tolerance = self.color_tolerance() as u64;
        assert(tolerance * tolerance <= 0xffff_ffff * 0xffff_ffff) by (nonlinear_arith)
            requires
                0 <= tolerance <= 0xffff_ffff,
        ;
        distance <= tolerance * tolerance
    }

    /// Builds the foreground mask of an image for a given background colour.
    pub fn create_mask(&self, image: &RgbaBuffer, background_color: Pixel) -> (mask: Mask)
        ensures
            mask@ == built_mask(image@, background_color, self.tolerance()),
            mask@.width == image@.width,
            mask@.height == image@.height,
            forall|x: int, y: int|
                image@.contains(x, y) ==> #[trigger] mask@.at(x, y) == !within_tolerance(
                    image@.at(x, y),
                    background_color,
                    self.tolerance(),
                ),
    {
        let (width, height) = image.dimensions();
        let pixels = image.pixel_count();
        assert(width * height == pixels);
        let mut mask = Mask::filled(width as usize, height as usize, true);
        let ghost full = mask@;
        proof {
            use_type_invariant(&mask);
            assert forall|cx: int, cy: int| full.contains(cx, cy) implies #[trigger] full.at(cx, cy) by {
                lemma_from_fn_at(width as nat, height as nat, |x: int, y: int| true, cx, cy);
            }
        }
        let mut y: u32 = 0;
        while y < height
            invariant
                y <= height,
                width == image@.width,
                height == image@.height,
                mask@.width == image@.width,
                mask@.height == image@.height,
                mask@.wf(),
                forall|cx: int, cy: int|
                    mask@.contains(cx, cy) ==> #[trigger] mask@.at(cx, cy) == (if cy < y {
                        !within_tolerance(image@.at(cx, cy), background_color, self.tolerance())
                    } else {
                        true
                    }),
            decreases height - y,
        {
            let mut x: u32 = 0;
            while x < width
                invariant
                    x <= width,
                    y < height,
                    width == image@.width,
                    height == image@.height,
                    mask@.width == image@.width,
                    mask@.height == image@.height,
                    mask@.wf(),
                    forall|cx: int, cy: int|
                        mask@.contains(cx, cy) ==> #[trigger] mask@.at(cx, cy) == (if cy < y || (cy
                            == y && cx < x) {
                            !within_tolerance(image@.at(cx, cy), background_color, self.tolerance())
                        } else {
                            true
                        }),
                decreases width - x,
            {
                let pixel = image.get_pixel(x, y);
                let ghost before = mask@;
                if self.is_background_color(&pixel, &background_color) {
                    mask.set(x as usize, y as usize, false);
                    proof {
                        use_type_invariant(&mask);
                        assert forall|cx: int, cy: int| mask@.contains(cx, cy) implies #[trigger] mask@.at(
                            cx,
                            cy,
                        ) == (if cx == x && cy == y {
                            false
                        } else {
                            before.at(cx, cy)
                        }) by {
                            lemma_updated_at(before, x as int, y as int, false, cx, cy);
                        }
                    }
                }
                x = x + 1;
            }
            y = y + 1;
        }
        proof {
            lemma_grid_is_from_fn(
                mask@,
                |x: int, y: int|
                    !within_tolerance(image@.at(x, y), background_color, self.tolerance()),
            );
        }
        let _visited = self.flood_fill_background(&mut mask);
        proof {
            assert forall|x: int, y: int| image@.contains(x, y) implies #[trigger] mask@.at(x, y)
                == !within_tolerance(image@.at(x, y), background_color, self.tolerance()) by {
                lemma_built_mask_at(image@, background_color, self.tolerance(), x, y);
            }
        }
        mask
    }
}

} // verus!
