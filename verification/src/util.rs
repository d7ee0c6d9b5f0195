//! The RGB color value carried by every key.

use vstd::prelude::*;

verus! {

/// A 3-byte RGB triple: red, green, blue, in that order.
#[derive(Clone, Copy, Debug)]
pub struct Rgb(pub [u8; 3]);

impl Rgb {
    /// The color as the sequence of its three bytes, `[r, g, b]`.
    pub open spec fn bytes(self) -> Seq<u8> {
        self.0@
    }

    /// Copies the three bytes out of the color.
    pub fn as_slice(&self) -> (r: [u8; 3])
        ensures
            r@ == self.bytes(),
    {
        self.0
    }
}

impl From<[u8; 3]> for Rgb {
    fn from(value: [u8; 3]) -> (r: Self) {
        Rgb(value)
    }
}

impl vstd::std_specs::convert::FromSpecImpl<[u8; 3]> for Rgb {
    open spec fn obeys_from_spec() -> bool {
        true
    }

    open spec fn from_spec(value: [u8; 3]) -> Self {
        Rgb(value)
    }
}

} // verus!
