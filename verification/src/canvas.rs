use vstd::prelude::*;

use crate::pixel::{AccountId, Pixel, Rgb888};

verus! {

/// Errors of canvas operations.
#[derive(Debug)]
pub enum CanvasError {
    /// The coordinates lie outside the canvas.
    OutOfBounds,
    /// The payment is below the pixel's asking price.
    PriceTooLow { required: u128 },
}

/// The price a pixel asks after being bought: doubled, saturating at the
/// 128-bit limit.
pub open spec fn spec_next_price(current: u128) -> u128 {
    if current > u128::MAX / 2 {
        u128::MAX
    } else {
        (2 * current) as u128
    }
}

/// A rectangular pixel canvas stored row-major: the pixel at `(x, y)` lives
/// at index `x + y * width`.
#[derive(Clone, Debug)]
pub struct Canvas {
    width: usize,
    height: usize,
    pixels: Vec<Pixel>,
}

impl Canvas {
    /// The canvas width in pixels.
    pub closed spec fn spec_width(self) -> int {
        self.width as int
    }

    /// The canvas height in pixels.
    pub closed spec fn spec_height(self) -> int {
        self.height as int
    }

    /// The pixels, row-major.
    pub closed spec fn view(self) -> Seq<Pixel> {
        self.pixels@
    }

    /// The canvas holds exactly one pixel per cell.
    pub open spec fn wf(self) -> bool {
        self.view().len() == self.spec_width() * self.spec_height()
    }

    /// The row-major index of `(x, y)`.
    pub open spec fn spec_idx(self, x: int, y: int) -> int {
        x + y * self.spec_width()
    }

    /// `(x, y)` lies on the canvas.
    pub open spec fn in_bounds(self, x: int, y: int) -> bool {
        0 <= x < self.spec_width() && 0 <= y < self.spec_height()
    }

    /// A fresh canvas: every pixel unowned, at `initial_price`, coloured
    /// white.
    pub fn new(width: usize, height: usize, initial_price: u128) -> (r: Canvas)
        requires
            width * height <= usize::MAX,
        ensures
            r.wf(),
            r.spec_width() == width,
            r.spec_height() == height,
            forall|i: int|
                0 <= i < r.view().len() ==> #[trigger] r.view()[i] == (Pixel {
                    owner: None,
                    price: initial_price,
                    color: Rgb888(0xFFFFFFu32),
                }),
    {
        proof {
            assert(width * height <= usize::MAX) by (nonlinear_arith)
                requires
                    width as int * height as int <= usize::MAX as int,
            ;
        }
        let total: usize = width * height;
        let mut pixels: Vec<Pixel> = Vec::new();
        while pixels.len() < total
            invariant
                pixels@.len() <= total,
                forall|i: int|
                    0 <= i < pixels@.len() ==> #[trigger] pixels@[i] == (Pixel {
                        owner: None,
                        price: initial_price,
                        color: Rgb888(0xFFFFFFu32),
                    }),
            decreases total - pixels@.len(),
        {
            pixels.push(Pixel { owner: None, price: initial_price, color: Rgb888(0xFFFFFF) });
        }
        Canvas { width, height, pixels }
    }

    /// Maps `(x, y)` to its row-major index, or `OutOfBounds`.
    fn idx(&self, x: usize, y: usize) -> (r: Result<usize, CanvasError>)
        requires
            self.wf(),
        ensures
            match r {
                Ok(i) => self.in_bounds(x as int, y as int) && i == self.spec_idx(
                    x as int,
                    y as int,
                ) && i < self.view().len(),
                Err(e) => !self.in_bounds(x as int, y as int) && (e matches
                CanvasError::OutOfBounds),
            },
    {
        if x < self.width && y < self.height {
            let n = self.pixels.len();
            proof {
                assert(x + y * self.width < self.width * self.height) by (nonlinear_arith)
                    requires
                        x < self.width,
                        y < self.height,
                        0 <= x,
                        0 <= y,
                ;
            }
            Ok(x + y * self.width)
        } else {
            Err(CanvasError::OutOfBounds)
        }
    }

    /// Reads the pixel at `(x, y)`.
    pub fn pixel(&self, x: usize, y: usize) -> (r: Result<&Pixel, CanvasError>)
        requires
            self.wf(),
        ensures
            match r {
                Ok(p) => self.in_bounds(x as int, y as int) && *p == self.view()[self.spec_idx(
                    x as int,
                    y as int,
                )],
                Err(e) => !self.in_bounds(x as int, y as int) && (e matches
                CanvasError::OutOfBounds),
            },
    {
        match self.idx(x, y) {
            Ok(i) => Ok(&self.pixels[i]),
            Err(e) => Err(e),
        }
    }

    /// Recolours the pixel at `(x, y)`, touching neither price nor owner.
    pub fn set_color(&mut self, x: usize, y: usize, color: Rgb888) -> (r: Result<
        (),
        CanvasError,
    >)
        requires
            old(self).wf(),
        ensures
            final(self).wf(),
            final(self).spec_width() == old(self).spec_width(),
            final(self).spec_height() == old(self).spec_height(),
            match r {
                Ok(_) => old(self).in_bounds(x as int, y as int) && final(self).view() == old(
                    self,
                ).view().update(
                    old(self).spec_idx(x as int, y as int),
                    (Pixel { color, ..old(self).view()[old(self).spec_idx(x as int, y as int)] }),
                ),
                Err(e) => !old(self).in_bounds(x as int, y as int) && (e matches
                CanvasError::OutOfBounds) && final(self).view() == old(self).view(),
            },
    {
        match self.idx(x, y) {
            Ok(i) => {
                let mut p = self.pixels.remove(i);
                p.color = color;
                self.pixels.insert(i, p);
                proof {
                    assert(self.pixels@ =~= old(self).pixels@.update(
                        i as int,
                        (Pixel { color, ..old(self).pixels@[i as int] }),
                    ));
                }
                Ok(())
            },
            Err(e) => Err(e),
        }
    }

    /// Buys the pixel at `(x, y)`: the payment must meet the asking price;
    /// ownership transfers, the pixel is recoloured, and the price moves to
    /// the next step.
    pub fn buy_pixel(
        &mut self,
        x: usize,
        y: usize,
        buyer: AccountId,
        amount_paid: u128,
        new_color: Rgb888,
    ) -> (r: Result<(), CanvasError>)
        requires
            old(self).wf(),
        ensures
            final(self).wf(),
            final(self).spec_width() == old(self).spec_width(),
            final(self).spec_height() == old(self).spec_height(),
            match r {
                Ok(_) => old(self).in_bounds(x as int, y as int) && amount_paid >= old(
                    self,
                ).view()[old(self).spec_idx(x as int, y as int)].price && final(self).view() == old(
                    self,
                ).view().update(
                    old(self).spec_idx(x as int, y as int),
                    (Pixel {
                        owner: Some(buyer),
                        price: spec_next_price(
                            old(self).view()[old(self).spec_idx(x as int, y as int)].price,
                        ),
                        color: new_color,
                    }),
                ),
                Err(e) => final(self).view() == old(self).view() && match e {
                    CanvasError::OutOfBounds => !old(self).in_bounds(x as int, y as int),
                    CanvasError::PriceTooLow { required } => old(self).in_bounds(
                        x as int,
                        y as int,
                    ) && required == old(self).view()[old(self).spec_idx(x as int, y as int)].price
                        && amount_paid < required,
                },
            },
    {
        let i = match self.idx(x, y) {
            Ok(i) => i,
            Err(e) => {
                return Err(e);
            },
        };
        if amount_paid < self.pixels[i].price {
            return Err(CanvasError::PriceTooLow { required: self.pixels[i].price });
        }
        let mut p = self.pixels.remove(i);
        p.owner = Some(buyer);
        p.color = new_color;
        p.price = Canvas::next_price(p.price);
        self.pixels.insert(i, p);
        proof {
            assert(self.pixels@ =~= old(self).pixels@.update(
                i as int,
                (Pixel {
                    owner: Some(buyer),
                    price: spec_next_price(old(self).pixels@[i as int].price),
                    color: new_color,
                }),
            ));
        }
        Ok(())
    }

    /// The price step applied on every purchase.
    fn next_price(current: u128) -> (r: u128)
        ensures
            r == spec_next_price(current),
    {
        if current > u128::MAX / 2 {
            u128::MAX
        } else {
            2 * current
        }
    }
}

} // verus!
