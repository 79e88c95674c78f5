//! Background colour sampling: the mean colour of four square blocks, one in
//! each corner of the image.

use vstd::prelude::*;
use crate::buffer::RgbaBuffer;
use crate::grid::Grid;
use crate::pixel::{Channel, Pixel};
use crate::remover::BackgroundRemover;

verus! {

/// Side of the square sampled in each corner: a quarter of the shorter image
/// side, at most 5 and at least 1.
pub open spec fn sample_side(width: nat, height: nat) -> nat {
    let quarter = if width / 4 <= height / 4 {
        width / 4
    } else {
        height / 4
    };
    if quarter == 0 {
        1
    } else if quarter <= 5 {
        quarter
    } else {
        5
    }
}

/// Sum of one channel over the `rows` cells of column `x` that start at row `y0`.
pub open spec fn column_sum(g: Grid<Pixel>, c: Channel, x: int, y0: int, rows: nat) -> int
    decreases rows,
{
    if rows == 0 {
        0
    } else {
        column_sum(g, c, x, y0, (rows - 1) as nat) + g.at(x, y0 + rows - 1).channel(c)
    }
}

/// Sum of one channel over the block of `columns` x `rows` cells whose top
/// left cell is `(x0, y0)`.
pub open spec fn block_sum(
    g: Grid<Pixel>,
    c: Channel,
    x0: int,
    y0: int,
    columns: nat,
    rows: nat,
) -> int
    decreases columns,
{
    if columns == 0 {
        0
    } else {
        block_sum(g, c, x0, y0, (columns - 1) as nat, rows) + column_sum(
            g,
            c,
            x0 + columns - 1,
            y0,
            rows,
        )
    }
}

/// Sum of one channel over the four corner blocks. A cell that lies in two
/// blocks, as happens in images narrower or lower than two blocks, counts
/// once for each.
pub open spec fn corner_sum(g: Grid<Pixel>, c: Channel) -> int {
    let s = sample_side(g.width, g.height);
    block_sum(g, c, 0, 0, s, s) + block_sum(g, c, g.width - s, 0, s, s) + block_sum(
        g,
        c,
        0,
        g.height - s,
        s,
        s,
    ) + block_sum(g, c, g.width - s, g.height - s, s, s)
}

/// Number of samples taken from the four corner blocks.
pub open spec fn sample_count(g: Grid<Pixel>) -> int {
    let s = sample_side(g.width, g.height);
    (4 * (s * s)) as int
}

/// Mean of one channel over the corner samples, rounded toward zero.
pub open spec fn corner_mean(g: Grid<Pixel>, c: Channel) -> int {
    corner_sum(g, c) / sample_count(g)
}

/// The background colour of an image: the channel-wise mean of its corner
/// samples, fully opaque. An image without pixels has background black.
pub open spec fn detected_background(g: Grid<Pixel>) -> Pixel {
    if g.width == 0 || g.height == 0 {
        Pixel { r: 0, g: 0, b: 0, a: 255 }
    } else {
        Pixel {
            r: corner_mean(g, Channel::Red) as u8,
            g: corner_mean(g, Channel::Green) as u8,
            b: corner_mean(g, Channel::Blue) as u8,
            a: 255,
        }
    }
}

/// The sampled square fits inside any image that has at least one pixel.
pub proof fn lemma_sample_side_fits(width: nat, height: nat)
    requires
        width >= 1,
        height >= 1,
    ensures
        1 <= sample_side(width, height) <= 5,
        sample_side(width, height) <= width,
        sample_side(width, height) <= height,
{
}

/// A column sum lies between 0 and 255 per sampled cell.
pub proof fn lemma_column_sum_bounds(g: Grid<Pixel>, c: Channel, x: int, y0: int, rows: nat)
    ensures
        0 <= column_sum(g, c, x, y0, rows) <= 255 * rows,
    decreases rows,
{
    if rows > 0 {
        lemma_column_sum_bounds(g, c, x, y0, (rows - 1) as nat);
    }
}

/// A block sum lies between 0 and 255 per sampled cell.
pub proof fn lemma_block_sum_bounds(
    g: Grid<Pixel>,
    c: Channel,
    x0: int,
    y0: int,
    columns: nat,
    rows: nat,
)
    ensures
        0 <= block_sum(g, c, x0, y0, columns, rows) <= 255 * (columns * rows),
    decreases columns,
{
    if columns > 0 {
        lemma_block_sum_bounds(g, c, x0, y0, (columns - 1) as nat, rows);
        lemma_column_sum_bounds(g, c, x0 + columns - 1, y0, rows);
        assert(255 * ((columns - 1) * rows) + 255 * rows == 255 * (columns * rows))
            by (nonlinear_arith);
    } else {
        assert(columns * rows == 0) by (nonlinear_arith)
            requires
                columns == 0,
        ;
    }
}

/// Each channel mean of the corner samples is a channel value.
pub proof fn lemma_corner_mean_bounds(g: Grid<Pixel>, c: Channel)
    requires
        g.width >= 1,
        g.height >= 1,
    ensures
        0 <= corner_mean(g, c) <= 255,
{
    let s = sample_side(g.width, g.height);
    lemma_block_sum_bounds(g, c, 0, 0, s, s);
    lemma_block_sum_bounds(g, c, g.width - s, 0, s, s);
    lemma_block_sum_bounds(g, c, 0, g.height - s, s, s);
    lemma_block_sum_bounds(g, c, g.width - s, g.height - s, s, s);
    let n = sample_count(g);
    let total = corner_sum(g, c);
    assert(n >= 4) by (nonlinear_arith)
        requires
            n == 4 * (s * s),
            s >= 1,
    ;
    assert(0 <= total / n <= 255) by (nonlinear_arith)
        requires
            0 <= total <= 255 * n,
            n > 0,
    ;
}

impl BackgroundRemover {
    /// Sums of the red, green and blue channels over one square block.
    fn block_sums(&self, image: &RgbaBuffer, x0: u32, y0: u32, side: u32) -> (sums: (u32, u32, u32))
        requires
            1 <= side <= 5,
            x0 + side <= image@.width,
            y0 + side <= image@.height,
        ensures
            sums.0 == block_sum(image@, Channel::Red, x0 as int, y0 as int, side as nat, side as nat),
            sums.1 == block_sum(
                image@,
                Channel::Green,
                x0 as int,
                y0 as int,
                side as nat,
                side as nat,
            ),
            sums.2 == block_sum(image@, Channel::Blue, x0 as int, y0 as int, side as nat, side as nat),
    {
        let (width, height) = image.dimensions();
        let mut red: u32 = 0;
        let mut green: u32 = 0;
        let mut blue: u32 = 0;
        let mut dx: u32 = 0;
        while dx < side
            invariant
                1 <= side <= 5,
                dx <= side,
                width == image@.width,
                height == image@.height,
                x0 + side <= width,
                y0 + side <= height,
                red == block_sum(image@, Channel::Red, x0 as int, y0 as int, dx as nat, side as nat),
                green == block_sum(
                    image@,
                    Channel::Green,
                    x0 as int,
                    y0 as int,
                    dx as nat,
                    side as nat,
                ),
                blue == block_sum(
                    image@,
                    Channel::Blue,
                    x0 as int,
                    y0 as int,
                    dx as nat,
                    side as nat,
                ),
            decreases side - dx,
        {
            let x: u32 = x0 + dx;
            let mut column_red: u32 = 0;
            let mut column_green: u32 = 0;
            let mut column_blue: u32 = 0;
            let mut dy: u32 = 0;
            while dy < side
                invariant
                    1 <= side <= 5,
                    dy <= side,
                    x == x0 + dx,
                    width == image@.width,
                    height == image@.height,
                    x < width,
                    y0 + side <= height,
                    column_red == column_sum(image@, Channel::Red, x as int, y0 as int, dy as nat),
                    column_green == column_sum(
                        image@,
                        Channel::Green,
                        x as int,
                        y0 as int,
                        dy as nat,
                    ),
                    column_blue == column_sum(image@, Channel::Blue, x as int, y0 as int, dy as nat),
                decreases side - dy,
            {
                proof {
                    lemma_column_sum_bounds(image@, Channel::Red, x as int, y0 as int, dy as nat);
                    lemma_column_sum_bounds(image@, Channel::Green, x as int, y0 as int, dy as nat);
                    lemma_column_sum_bounds(image@, Channel::Blue, x as int, y0 as int, dy as nat);
                }
                let pixel = image.get_pixel(x, y0 + dy);
                column_red = column_red + pixel.r as u32;
                column_green = column_green + pixel.g as u32;
                column_blue = column_blue + pixel.b as u32;
                dy = dy + 1;
            }
            proof {
                lemma_block_sum_bounds(image@, Channel::Red, x0 as int, y0 as int, dx as nat, side as nat);
                lemma_block_sum_bounds(
                    image@,
                    Channel::Green,
                    x0 as int,
                    y0 as int,
                    dx as nat,
                    side as nat,
                );
                lemma_block_sum_bounds(image@, Channel::Blue, x0 as int, y0 as int, dx as nat, side as nat);
                lemma_column_sum_bounds(image@, Channel::Red, x as int, y0 as int, side as nat);
                lemma_column_sum_bounds(image@, Channel::Green, x as int, y0 as int, side as nat);
                lemma_column_sum_bounds(image@, Channel::Blue, x as int, y0 as int, side as nat);
                assert(dx * side <= 25) by (nonlinear_arith)
                    requires
                        dx <= 5,
                        side <= 5,
                ;
            }
            red = red + column_red;
            green = green + column_green;
            blue = blue + column_blue;
            dx = dx + 1;
        }
        (red, green, blue)
    }

    /// Estimates the background colour from the four corners of the image.
    pub fn detect_background_color(&self, image: &RgbaBuffer) -> (color: Pixel)
        ensures
            color == detected_background(image@),
    {
        let (width, height) = image.dimensions();
        if width == 0 || height == 0 {
            return Pixel { r: 0, g: 0, b: 0, a: 255 };
        }
        let quarter: u32 = if width / 4 <= height / 4 {
            width / 4
        } else {
            height / 4
        };
        let side: u32 = if quarter == 0 {
            1
        } else if quarter <= 5 {
            quarter
        } else {
            5
        };
        let top_left = self.block_sums(image, 0, 0, side);
        let top_right = self.block_sums(image, width - side, 0, side);
        let bottom_left = self.block_sums(image, 0, height - side, side);
        let bottom_right = self.block_sums(image, width - side, height - side, side);
        proof {
            let s = side as nat;
            lemma_block_sum_bounds(image@, Channel::Red, 0, 0, s, s);
            lemma_block_sum_bounds(image@, Channel::Red, width - side, 0, s, s);
            lemma_block_sum_bounds(image@, Channel::Red, 0, height - side, s, s);
            lemma_block_sum_bounds(image@, Channel::Red, width - side, height - side, s, s);
            lemma_block_sum_bounds(image@, Channel::Green, 0, 0, s, s);
            lemma_block_sum_bounds(image@, Channel::Green, width - side, 0, s, s);
            lemma_block_sum_bounds(image@, Channel::Green, 0, height - side, s, s);
            lemma_block_sum_bounds(image@, Channel::Green, width - side, height - side, s, s);
            lemma_block_sum_bounds(image@, Channel::Blue, 0, 0, s, s);
            lemma_block_sum_bounds(image@, Channel::Blue, width - side, 0, s, s);
            lemma_block_sum_bounds(image@, Channel::Blue, 0, height - side, s, s);
            lemma_block_sum_bounds(image@, Channel::Blue, width - side, height - side, s, s);
            assert(1 <= s * s <= 25) by (nonlinear_arith)
                requires
                    1 <= s <= 5,
            ;
            lemma_corner_mean_bounds(image@, Channel::Red);
            lemma_corner_mean_bounds(image@, Channel::Green);
            lemma_corner_mean_bounds(image@, Channel::Blue);
        }
        let count: u32 = 4 * (side * side);
        let red: u32 = top_left.0 + top_right.0 + bottom_left.0 + bottom_right.0;
        let green: u32 = top_left.1 + top_right.1 + bottom_left.1 + bottom_right.1;
        let blue: u32 = top_left.2 + top_right.2 + bottom_left.2 + bottom_right.2;
        Pixel { r: (red / count) as u8, g: (green / count) as u8, b: (blue / count) as u8, a: 255 }
    }
}

} // verus!
