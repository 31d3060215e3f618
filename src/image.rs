//! The pixel buffer of a render.
use vstd::prelude::*;

verus! {

/// A `width` x `height` grid of pixel values, stored column after column.
pub struct Image<C> {
    width: usize,
    height: usize,
    pixels: Vec<C>,
}

proof fn lemma_slot(width: int, height: int, x: int, y: int)
    requires
        0 <= x < width,
        0 <= y < height,
    ensures
        0 <= x * height + y < width * height,
{
    assert(0 <= x * height + y < width * height) by (nonlinear_arith)
        requires
            0 <= x < width,
            0 <= y < height,
    ;
}

impl<C: Copy> Image<C> {
    pub closed spec fn spec_width(&self) -> nat {
        self.width as nat
    }

    pub closed spec fn spec_height(&self) -> nat {
        self.height as nat
    }

    /// The value of pixel `(x, y)`: column `x`, row `y`.
    pub closed spec fn at(&self, x: int, y: int) -> C {
        self.pixels@[x * self.height + y]
    }

    pub closed spec fn wf(&self) -> bool {
        self.pixels.len() == self.width * self.height
    }

    /// An image whose pixels all hold `fill`.
    pub fn new(width: usize, height: usize, fill: C) -> (r: Self)
        requires
            width * height <= usize::MAX,
        ensures
            r.wf(),
            r.spec_width() == width,
            r.spec_height() == height,
            forall|x: int, y: int|
                0 <= x < width && 0 <= y < height ==> #[trigger] r.at(x, y) == fill,
    {
        let total = width * height;
        let mut pixels: Vec<C> = Vec::new();
        let mut k: usize = 0;
        while k < total
            invariant
                k <= total,
                pixels@ == Seq::new(k as nat, |i: int| fill),
            decreases total - k,
        {
            pixels.push(fill);
            k = k + 1;
            assert(pixels@ =~= Seq::new(k as nat, |i: int| fill));
        }
        let r = Image { width, height, pixels };
        assert forall|x: int, y: int| 0 <= x < width && 0 <= y < height implies #[trigger] r.at(
            x,
            y,
        ) == fill by {
            lemma_slot(width as int, height as int, x, y);
        }
        r
    }

    pub fn width(&self) -> (r: usize)
        ensures
            r == self.spec_width(),
    {
        self.width
    }

    pub fn height(&self) -> (r: usize)
        ensures
            r == self.spec_height(),
    {
        self.height
    }

    /// The value of pixel `(x, y)`.
    pub fn pixel(&self, x: usize, y: usize) -> (r: C)
        requires
            self.wf(),
            x < self.spec_width(),
            y < self.spec_height(),
        ensures
            r == self.at(x as int, y as int),
    {
        proof {
            lemma_slot(self.width as int, self.height as int, x as int, y as int);
        }
        self.pixels[x * self.height + y]
    }

    /// Sets pixel `(x, y)` to `value`; the others keep theirs.
    pub fn set_pixel(&mut self, x: usize, y: usize, value: C)
        requires
            old(self).wf(),
            x < old(self).spec_width(),
            y < old(self).spec_height(),
        ensures
            final(self).wf(),
            final(self).spec_width() == old(self).spec_width(),
            final(self).spec_height() == old(self).spec_height(),
            final(self).at(x as int, y as int) == value,
            forall|i: int, j: int|
                0 <= i < old(self).spec_width() && 0 <= j < old(self).spec_height() && (i != x || j
                    != y) ==> #[trigger] final(self).at(i, j) == old(self).at(i, j),
    {
        proof {
            lemma_slot(self.width as int, self.height as int, x as int, y as int);
        }
        let k = x * self.height + y;
        self.pixels.set(k, value);
        proof {
            assert forall|i: int, j: int|
                0 <= i < old(self).spec_width() && 0 <= j < old(self).spec_height() && (i != x
                    || j != y) implies #[trigger] self.at(i, j) == old(self).at(i, j) by {
                lemma_slot(self.width as int, self.height as int, i, j);
                let h = self.height as int;
                assert(i * h + j != x * h + y) by (nonlinear_arith)
                    requires
                        0 <= j < h,
                        0 <= y < h,
                        i != x || j != y,
                ;
            }
        }
    }
}

} // verus!
