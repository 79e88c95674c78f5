//! Decoded RGBA images as rectangular buffers of pixels.

use vstd::prelude::*;
use crate::grid::{Grid, lemma_index_in_range};
use crate::pixel::Pixel;

verus! {

/// The pixels held in a raw RGBA byte stream, four bytes (red, green, blue,
/// alpha) per pixel. Trailing bytes that do not fill a pixel are ignored.
pub open spec fn pixels_from_bytes(bytes: Seq<u8>) -> Seq<Pixel> {
    Seq::new(
        (bytes.len() / 4) as nat,
        |i: int|
            Pixel { r: bytes[4 * i], g: bytes[4 * i + 1], b: bytes[4 * i + 2], a: bytes[4 * i + 3] },
    )
}

/// Byte `k` (0 red, 1 green, 2 blue, otherwise alpha) of a pixel.
pub open spec fn channel_byte(pixel: Pixel, k: int) -> u8 {
    if k == 0 {
        pixel.r
    } else if k == 1 {
        pixel.g
    } else if k == 2 {
        pixel.b
    } else {
        pixel.a
    }
}

/// The raw RGBA byte stream of a sequence of pixels.
pub open spec fn bytes_from_pixels(pixels: Seq<Pixel>) -> Seq<u8> {
    Seq::new(4 * pixels.len(), |j: int| channel_byte(pixels[j / 4], j % 4))
}

/// Writing pixels out as bytes and reading them back gives the same pixels.
pub proof fn lemma_bytes_round_trip(pixels: Seq<Pixel>)
    ensures
        pixels_from_bytes(bytes_from_pixels(pixels)) == pixels,
{
    assert(pixels_from_bytes(bytes_from_pixels(pixels)) =~= pixels);
}

/// A `width` x `height` image, row-major with the origin at the top left.
#[derive(Debug)]
pub struct RgbaBuffer {
    width: u32,
    height: u32,
    pixels: Vec<Pixel>,
}

impl View for RgbaBuffer {
    type V = Grid<Pixel>;

    closed spec fn view(&self) -> Grid<Pixel> {
        Grid { width: self.width as nat, height: self.height as nat, cells: self.pixels@ }
    }
}

impl Clone for RgbaBuffer {
    fn clone(&self) -> (copy: Self)
        ensures
            copy@ == self@,
    {
        proof {
            use_type_invariant(self);
        }
        let pixels = self.pixels.clone();
        assert(pixels@ =~= self.pixels@);
        RgbaBuffer { width: self.width, height: self.height, pixels }
    }
}

impl RgbaBuffer {
    /// Every buffer holds one pixel per cell.
    #[verifier::type_invariant]
    pub open spec fn well_formed(&self) -> bool {
        self@.wf()
    }

    /// An image of the given size with every pixel equal to `pixel`.
    pub fn from_pixel(width: u32, height: u32, pixel: Pixel) -> (image: RgbaBuffer)
        requires
            width * height <= usize::MAX,
        ensures
            image@ == Grid::from_fn(width as nat, height as nat, |x: int, y: int| pixel),
    {
        let n: usize = (width as usize) * (height as usize);
        let pixels = vec![pixel; n];
        let image = RgbaBuffer { width, height, pixels };
        proof {
            assert(image@.cells =~= Grid::from_fn(
                width as nat,
                height as nat,
                |x: int, y: int| pixel,
            ).cells);
        }
        image
    }

    /// An image of the given size, transparent black throughout.
    pub fn new(width: u32, height: u32) -> (image: RgbaBuffer)
        requires
            width * height <= usize::MAX,
        ensures
            image@ == Grid::from_fn(
                width as nat,
                height as nat,
                |x: int, y: int| Pixel { r: 0, g: 0, b: 0, a: 0 },
            ),
    {
        RgbaBuffer::from_pixel(width, height, Pixel { r: 0, g: 0, b: 0, a: 0 })
    }

    /// Builds an image from raw RGBA bytes. The bytes must be exactly four
    /// per pixel; any other length is refused.
    pub fn from_raw(width: u32, height: u32, data: &Vec<u8>) -> (image: Option<RgbaBuffer>)
        ensures
            image is Some <==> data@.len() == 4 * (width * height),
            image matches Some(buffer) ==> buffer@ == (Grid {
                width: width as nat,
                height: height as nat,
                cells: pixels_from_bytes(data@),
            }),
    {
        assert(width * height <= 0xffff_ffff * 0xffff_ffff) by (nonlinear_arith)
            requires
                0 <= width <= 0xffff_ffff,
                0 <= height <= 0xffff_ffff,
        ;
        let expected: u128 = 4 * ((width as u128) * (height as u128));
        if data.len() as u128 != expected {
            return None;
        }
        let n: usize = data.len() / 4;
        let mut pixels: Vec<Pixel> = Vec::with_capacity(n);
        let mut i: usize = 0;
        while i < n
            invariant
                n == data@.len() / 4,
                data@.len() == 4 * n,
                data@.len() <= usize::MAX,
                i <= n,
                pixels@ == pixels_from_bytes(data@).take(i as int),
            decreases n - i,
        {
            let pixel = Pixel {
                r: data[4 * i],
                g: data[4 * i + 1],
                b: data[4 * i + 2],
                a: data[4 * i + 3],
            };
            pixels.push(pixel);
            i = i + 1;
            proof {
                assert(pixels@ =~= pixels_from_bytes(data@).take(i as int));
            }
        }
        proof {
            assert(pixels@ =~= pixels_from_bytes(data@));
        }
        Some(RgbaBuffer { width, height, pixels })
    }

    /// The image as raw RGBA bytes, four per pixel, row by row.
    pub fn to_raw(&self) -> (data: Vec<u8>)
        ensures
            data@ == bytes_from_pixels(self@.cells),
    {
        proof {
            use_type_invariant(self);
        }
        let n: usize = self.pixels.len();
        let mut data: Vec<u8> = Vec::new();
        let mut i: usize = 0;
        while i < n
            invariant
                n == self.pixels@.len(),
                i <= n,
                data@ == bytes_from_pixels(self.pixels@.take(i as int)),
            decreases n - i,
        {
            let pixel = self.pixels[i];
            data.push(pixel.r);
            data.push(pixel.g);
            data.push(pixel.b);
            data.push(pixel.a);
            i = i + 1;
            proof {
                assert(data@ =~= bytes_from_pixels(self.pixels@.take(i as int)));
            }
        }
        proof {
            assert(self.pixels@.take(n as int) =~= self.pixels@);
        }
        data
    }

    /// Number of pixels in the image.
    pub fn pixel_count(&self) -> (n: usize)
        ensures
            n == self@.width * self@.height,
            self@.wf(),
    {
        proof {
            use_type_invariant(self);
        }
        self.pixels.len()
    }

    pub fn width(&self) -> (w: u32)
        ensures
            w == self@.width,
    {
        self.width
    }

    pub fn height(&self) -> (h: u32)
        ensures
            h == self@.height,
    {
        self.height
    }

    /// Width and height, in that order.
    pub fn dimensions(&self) -> (size: (u32, u32))
        ensures
            size.0 == self@.width,
            size.1 == self@.height,
    {
        (self.width, self.height)
    }

    /// The pixel in column `x` of row `y`.
    pub fn get_pixel(&self, x: u32, y: u32) -> (pixel: Pixel)
        requires
            self@.contains(x as int, y as int),
        ensures
            pixel == self@.at(x as int, y as int),
    {
        proof {
            use_type_invariant(self);
            lemma_index_in_range(self.width as nat, self.height as nat, x as int, y as int);
            assert(self.width * self.height == self.pixels.len());
        }
        self.pixels[(y as usize) * (self.width as usize) + (x as usize)]
    }

    /// Overwrites the pixel in column `x` of row `y`.
    pub fn put_pixel(&mut self, x: u32, y: u32, pixel: Pixel)
        requires
            old(self)@.contains(x as int, y as int),
        ensures
            final(self)@ == old(self)@.updated(x as int, y as int, pixel),
    {
        proof {
            use_type_invariant(&*self);
            lemma_index_in_range(self.width as nat, self.height as nat, x as int, y as int);
            assert(self.width * self.height == self.pixels.len());
        }
        let idx: usize = (y as usize) * (self.width as usize) + (x as usize);
        self.pixels[idx] = pixel;
    }
}

} // verus!
