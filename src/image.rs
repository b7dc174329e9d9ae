use vstd::prelude::*;

verus! {

/// A `width` by `height` grid of pixels, stored row by row from the top:
/// pixel `(x, y)` sits at index `y * width + x`.
pub struct Image<P> {
    width: u32,
    height: u32,
    pixels: Vec<P>,
}

/// Index of pixel `(x, y)` in a grid `width` pixels wide.
pub open spec fn pixel_index(width: int, x: int, y: int) -> int {
    y * width + x
}

/// A cell inside a `width` by `height` grid has an index inside its storage.
pub proof fn lemma_pixel_index_bounds(width: int, height: int, x: int, y: int)
    requires
        0 <= x < width,
        0 <= y < height,
    ensures
        0 <= pixel_index(width, x, y) < width * height,
{
    assert(0 <= y * width) by (nonlinear_arith)
        requires
            0 <= y,
            0 < width,
    ;
    assert(y * width + x < width * height) by (nonlinear_arith)
        requires
            0 <= x < width,
            0 <= y < height,
    ;
}

impl<P> Image<P> {
    /// The pixels in storage order.
    pub closed spec fn view(&self) -> Seq<P> {
        self.pixels@
    }

    pub closed spec fn spec_width(&self) -> nat {
        self.width as nat
    }

    pub closed spec fn spec_height(&self) -> nat {
        self.height as nat
    }

    /// The grid holds exactly one pixel per cell, and its cells can be
    /// indexed by `usize`.
    pub open spec fn wf(&self) -> bool {
        &&& self@.len() == self.spec_width() * self.spec_height()
        &&& self@.len() <= usize::MAX
    }

    pub open spec fn in_bounds(&self, x: int, y: int) -> bool {
        0 <= x < self.spec_width() && 0 <= y < self.spec_height()
    }

    /// The pixel at column `x`, row `y`.
    pub open spec fn pixel(&self, x: int, y: int) -> P {
        self@[pixel_index(self.spec_width() as int, x, y)]
    }

    /// A grid with every cell set to `fill`.
    pub fn new(width: u32, height: u32, fill: P) -> (r: Self)
        where
            P: Copy,
        requires
            width as int * height as int <= usize::MAX,
        ensures
            r.wf(),
            r.spec_width() == width,
            r.spec_height() == height,
            forall|i: int| 0 <= i < r@.len() ==> r@[i] == fill,
    {
        let n: usize = width as usize * height as usize;
        let mut pixels: Vec<P> = Vec::with_capacity(n);
        let mut i: usize = 0;
        while i < n
            invariant
                i <= n,
                pixels@.len() == i,
                forall|k: int| 0 <= k < i ==> pixels@[k] == fill,
            decreases n - i,
        {
            pixels.push(fill);
            i += 1;
        }
        Image { width, height, pixels }
    }

    /// A grid over pixels already laid out row by row.
    pub(crate) fn from_pixels(width: u32, height: u32, pixels: Vec<P>) -> (r: Self)
        requires
            pixels@.len() == width * height,
            pixels@.len() <= usize::MAX,
        ensures
            r.wf(),
            r.spec_width() == width,
            r.spec_height() == height,
            r@ == pixels@,
    {
        Image { width, height, pixels }
    }

    /// Writes `color` at `(x, y)`; a position outside the grid is ignored.
    pub fn set_pixel(&mut self, x: usize, y: usize, color: P)
        requires
            old(self).wf(),
        ensures
            final(self).wf(),
            final(self).spec_width() == old(self).spec_width(),
            final(self).spec_height() == old(self).spec_height(),
            old(self).in_bounds(x as int, y as int) ==> final(self)@ == old(self)@.update(
                pixel_index(old(self).spec_width() as int, x as int, y as int),
                color,
            ),
            !old(self).in_bounds(x as int, y as int) ==> final(self)@ == old(self)@,
    {
        if x < self.width as usize && y < self.height as usize {
            proof {
                lemma_pixel_index_bounds(self.width as int, self.height as int, x as int, y as int);
            }
            let index = y * self.width as usize + x;
            self.pixels[index] = color;
        }
    }

    /// The pixel at `(x, y)`, or `None` for a position outside the grid.
    pub fn get_pixel(&self, x: usize, y: usize) -> (r: Option<P>)
        where
            P: Copy,
        requires
            self.wf(),
        ensures
            self.in_bounds(x as int, y as int) ==> r == Some(self.pixel(x as int, y as int)),
            !self.in_bounds(x as int, y as int) ==> r is None,
    {
        if x < self.width as usize && y < self.height as usize {
            proof {
                lemma_pixel_index_bounds(self.width as int, self.height as int, x as int, y as int);
            }
            let index = y * self.width as usize + x;
            Some(self.pixels[index])
        } else {
            None
        }
    }

    pub fn width(&self) -> (r: u32)
        ensures
            r == self.spec_width(),
    {
        self.width
    }

    pub fn height(&self) -> (r: u32)
        ensures
            r == self.spec_height(),
    {
        self.height
    }
}

} // verus!
