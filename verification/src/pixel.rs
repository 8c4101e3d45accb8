use vstd::prelude::*;

verus! {

/// The BTC address of a pixel's owner.
pub type AccountId = String;

/// A 24-bit colour, packed as 0xRRGGBB.
#[derive(Clone, Copy, Debug, PartialEq, Eq, Structural)]
pub struct Rgb888(pub u32);

/// One canvas cell: its owner (none means the project holds it), its current
/// asking price, and its colour.
#[derive(Clone, Debug)]
pub struct Pixel {
    pub owner: Option<AccountId>,
    pub price: u128,
    pub color: Rgb888,
}

} // verus!
