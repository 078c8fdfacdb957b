use vstd::prelude::*;
use image::Rgb as Pixel3;

verus! {

/// An opaque RGB color with 8 bits per channel.
#[derive(Clone, Copy, PartialEq, Eq, Debug, Structural)]
pub struct Rgb {
    pub r: u8,
    pub g: u8,
    pub b: u8,
}

/// The `image` crate's RGB pixel, read by its one public field.
#[verifier::external_type_specification]
#[verifier::reject_recursive_types(T)]
pub struct ExPixel3<T>(Pixel3<T>);

impl Rgb {
    pub fn new(r: u8, g: u8, b: u8) -> (c: Rgb)
        ensures
            c.r == r,
            c.g == g,
            c.b == b,
    {
        Rgb { r: r, g: g, b: b }
    }

    /// The channels in the order red, green, blue.
    pub open spec fn channels(self) -> Seq<u8> {
        seq![self.r, self.g, self.b]
    }

    pub fn to_pixel(&self) -> (p: Pixel3<u8>)
        ensures
            p.0@ == self.channels(),
    {
        Pixel3([self.r, self.g, self.b])
    }
}

} // verus!
