//! RGBA pixels and the colour distance between them.

use vstd::prelude::*;

verus! {

/// One RGBA sample, eight bits per channel.
#[derive(Clone, Copy, Debug, PartialEq, Eq, Structural)]
pub struct Pixel {
    pub r: u8,
    pub g: u8,
    pub b: u8,
    pub a: u8,
}

/// The three colour channels of a pixel.
#[derive(Clone, Copy, Debug, PartialEq, Eq, Structural)]
pub enum Channel {
    Red,
    Green,
    Blue,
}

impl Pixel {
    /// The value of one colour channel.
    pub open spec fn channel(self, c: Channel) -> int {
        match c {
            Channel::Red => self.r as int,
            Channel::Green => self.g as int,
            Channel::Blue => self.b as int,
        }
    }

    /// The same colour, fully opaque.
    pub open spec fn opaque(self) -> Pixel {
        Pixel { a: 255, ..self }
    }

    /// The same colour with another alpha value.
    pub open spec fn with_alpha(self, alpha: u8) -> Pixel {
        Pixel { a: alpha, ..self }
    }
}

/// Square of the Euclidean distance between two colours in RGB space.
/// The alpha channel takes no part in it.
pub open spec fn distance_squared(p: Pixel, q: Pixel) -> int {
    (p.r - q.r) * (p.r - q.r) + (p.g - q.g) * (p.g - q.g) + (p.b - q.b) * (p.b - q.b)
}

/// A colour lies within `tolerance` of another when their Euclidean distance
/// is at most `tolerance`, that is when the squared distance is at most
/// `tolerance` squared.
pub open spec fn within_tolerance(p: Pixel, q: Pixel, tolerance: nat) -> bool {
    distance_squared(p, q) <= tolerance * tolerance
}

} // verus!
