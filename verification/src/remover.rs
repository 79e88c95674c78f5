//! The background remover and its settings.

use vstd::prelude::*;
use crate::buffer::RgbaBuffer;
use crate::classify::built_mask;
use crate::feather::masked_image;
use crate::grid::Grid;
use crate::pixel::{Pixel, distance_squared, within_tolerance};
use crate::sampler::detected_background;

verus! {

/// The image that background removal produces: the background colour is
/// sampled from the corners, the mask is built from it, and the mask is
/// applied with feathered edges.
pub open spec fn removed_background(g: Grid<Pixel>, tolerance: nat, radius: nat) -> Grid<Pixel> {
    masked_image(g, built_mask(g, detected_background(g), tolerance), radius)
}

/// Removes a uniform background from an image.
pub struct BackgroundRemover {
    /// Largest colour distance from the background colour that still counts
    /// as background.
    color_tolerance: u32,
    /// Radius of the square window used to soften mask edges.
    edge_blur: u32,
}

impl BackgroundRemover {
    /// The colour tolerance this remover classifies with.
    pub closed spec fn tolerance(&self) -> nat {
        self.color_tolerance as nat
    }

    /// The feathering radius this remover softens edges with.
    pub closed spec fn radius(&self) -> nat {
        self.edge_blur as nat
    }

    /// A remover with colour tolerance 30 and feathering radius 2.
    pub fn new() -> (remover: BackgroundRemover)
        ensures
            remover.tolerance() == 30,
            remover.radius() == 2,
    {
        BackgroundRemover { color_tolerance: 30, edge_blur: 2 }
    }

    pub fn color_tolerance(&self) -> (t: u32)
        ensures
            t == self.tolerance(),
    {
        self.color_tolerance
    }

    pub fn edge_blur(&self) -> (r: u32)
        ensures
            r == self.radius(),
    {
        self.edge_blur
    }

    /// Makes the background of an image transparent. Dimensions and colour
    /// channels are kept; only alpha changes. The call always succeeds.
    pub fn remove_background(&self, image: RgbaBuffer) -> (result: Result<
        RgbaBuffer,
        image::ImageError,
    >)
        ensures
            result matches Ok(output) && output@ == removed_background(
                image@,
                self.tolerance(),
                self.radius(),
            ) && output@.width == image@.width && output@.height == image@.height,
            forall|x: int, y: int|
                image@.contains(x, y) ==> (#[trigger] result.unwrap()@.at(x, y)).r == image@.at(
                    x,
                    y,
                ).r && result.unwrap()@.at(x, y).g == image@.at(x, y).g && result.unwrap()@.at(
                    x,
                    y,
                ).b == image@.at(x, y).b,
            forall|x: int, y: int|
                image@.contains(x, y) && within_tolerance(
                    image@.at(x, y),
                    detected_background(image@),
                    self.tolerance(),
                ) ==> (#[trigger] result.unwrap()@.at(x, y)).a == 0,
    {
        let background_color = self.detect_background_color(&image);
        let mask = self.create_mask(&image, background_color);
        let output = self.apply_mask(&image, &mask);
        Ok(output)
    }

    /// Squared Euclidean distance between two colours, alpha ignored.
    pub fn color_distance_squared(&self, color1: &Pixel, color2: &Pixel) -> (d: u32)
        ensures
            d == distance_squared(*color1, *color2),
    {
        let dr: u32 = if color1.r >= color2.r {
            (color1.r - color2.r) as u32
        } else {
            (color2.r - color1.r) as u32
        };
        let dg: u32 = if color1.g >= color2.g {
            (color1.g - color2.g) as u32
        } else {
            (color2.g - color1.g) as u32
        };
        let db: u32 = if color1.b >= color2.b {
            (color1.b - color2.b) as u32
        } else {
            (color2.b - color1.b) as u32
        };
        assert(dr * dr == (color1.r - color2.r) * (color1.r - color2.r)) by (nonlinear_arith)
            requires
                dr == color1.r - color2.r || dr == color2.r - color1.r,
        ;
        assert(dg * dg == (color1.g - color2.g) * (color1.g - color2.g)) by (nonlinear_arith)
            requires
                dg == color1.g - color2.g || dg == color2.g - color1.g,
        ;
        assert(db * db == (color1.b - color2.b) * (color1.b - color2.b)) by (nonlinear_arith)
            requires
                db == color1.b - color2.b || db == color2.b - color1.b,
        ;
        assert(dr * dr <= 255 * 255 && dg * dg <= 255 * 255 && db * db <= 255 * 255)
            by (nonlinear_arith)
            requires
                dr <= 255,
                dg <= 255,
                db <= 255,
        ;
        dr * dr + dg * dg + db * db
    }
}

impl Default for BackgroundRemover {
    fn default() -> (remover: Self)
        ensures
            remover.tolerance() == 30,
            remover.radius() == 2,
    {
        Self::new()
    }
}

} // verus!
