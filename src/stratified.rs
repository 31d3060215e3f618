//! The bookkeeping of a stratified sampler: the square grid of strata that a
//! pixel's samples are spread over, and the cursor that walks it.
use vstd::prelude::*;

verus! {

/// The side of a square of `n` cells, if `n` is a perfect square.
pub fn exact_square_root(n: usize) -> (r: Option<usize>)
    ensures
        match r {
            Some(s) => s * s == n,
            None => forall|s: nat| #[trigger] (s * s) != n,
        },
{
    if n < 2 {
        assert(n * n == n) by (nonlinear_arith)
            requires
                n < 2,
        ;
        return Some(n);
    }
    // lo * lo <= n < hi * hi
    let mut lo: usize = 1;
    let mut hi: usize = n;
    assert(n < n * n) by (nonlinear_arith)
        requires
            n >= 2,
    ;
    while hi - lo > 1
        invariant
            1 <= lo < hi <= n,
            lo * lo <= n,
            n < hi * hi,
        decreases hi - lo,
    {
        let mid = lo + (hi - lo) / 2;
        match mid.checked_mul(mid) {
            Some(sq) => {
                if sq > n {
                    hi = mid;
                } else {
                    lo = mid;
                }
            },
            None => {
                hi = mid;
            },
        }
    }
    let sq = lo * lo;
    if sq == n {
        Some(lo)
    } else {
        assert forall|s: nat| #[trigger] (s * s) != n by {
            if s <= lo {
                assert(s * s <= lo * lo) by (nonlinear_arith)
                    requires
                        s <= lo,
                ;
            } else {
                assert(s * s >= hi * hi) by (nonlinear_arith)
                    requires
                        s >= hi,
                        hi >= 0,
                ;
            }
        }
        None
    }
}

/// Why a stratified sampler cannot be prepared.
#[derive(Clone, Copy, Debug, PartialEq, Eq, Structural)]
pub enum SamplerError {
    /// Only one pair of values per sample is supported.
    UnsupportedDimensions,
    /// The number of samples per pixel is not a perfect square.
    NotSquare,
}

pub struct CursorView {
    /// The side of the grid of strata.
    pub side: nat,
    /// The number of samples per pixel, `side * side`.
    pub samples: nat,
    /// The sample being drawn.
    pub sample: nat,
    /// How many pairs the current sample has drawn.
    pub drawn: nat,
}

impl CursorView {
    pub open spec fn wf(self) -> bool {
        &&& self.side * self.side == self.samples
        &&& self.samples <= usize::MAX
        &&& self.sample <= self.samples
        &&& self.drawn <= 1
        &&& self.drawn == 1 ==> self.sample < self.samples
    }

    /// Whether the current sample may still draw its pair of values.
    pub open spec fn can_draw(self) -> bool {
        self.sample < self.samples && self.drawn == 0
    }
}

/// Walks the table of one pixel's stratified samples: one pair of values per
/// sample, one sample after the other.
pub struct StratifiedCursor {
    side: usize,
    samples: usize,
    sample: usize,
    drawn: usize,
}

impl View for StratifiedCursor {
    type V = CursorView;

    closed spec fn view(&self) -> CursorView {
        CursorView {
            side: self.side as nat,
            samples: self.samples as nat,
            sample: self.sample as nat,
            drawn: self.drawn as nat,
        }
    }
}

impl StratifiedCursor {
    /// A cursor over an empty table, to be prepared before use.
    pub fn new() -> (r: Self)
        ensures
            r@.wf(),
            r@ == (CursorView { side: 0, samples: 0, sample: 0, drawn: 0 }),
    {
        StratifiedCursor { side: 0, samples: 0, sample: 0, drawn: 0 }
    }

    /// Sets the cursor up for `nb_samples` samples per pixel, each drawing
    /// `nb_1d` single values and `nb_2d` pairs. Single values are not drawn
    /// from the grid, and exactly one pair is supported.
    pub fn prepare(&mut self, nb_1d: usize, nb_2d: usize, nb_samples: usize) -> (r: Result<
        (),
        SamplerError,
    >)
        requires
            old(self)@.wf(),
        ensures
            final(self)@.wf(),
            nb_2d != 1 ==> r == Err::<(), SamplerError>(SamplerError::UnsupportedDimensions)
                && final(self)@ == old(self)@,
            nb_2d == 1 && (forall|s: nat| #[trigger] (s * s) != nb_samples) ==> r == Err::<
                (),
                SamplerError,
            >(SamplerError::NotSquare) && final(self)@ == old(self)@,
            r is Ok ==> final(self)@.side * final(self)@.side == nb_samples && final(self)@.samples
                == nb_samples && final(self)@.sample == 0 && final(self)@.drawn == 0,
            nb_2d == 1 && (exists|s: nat| #[trigger] (s * s) == nb_samples) ==> r is Ok,
    {
        if nb_2d != 1 {
            return Err(SamplerError::UnsupportedDimensions);
        }
        match exact_square_root(nb_samples) {
            Some(side) => {
                assert((side as nat) * (side as nat) == nb_samples);
                self.side = side;
                self.samples = nb_samples;
                self.sample = 0;
                self.drawn = 0;
                Ok(())
            },
            None => Err(SamplerError::NotSquare),
        }
    }

    /// The side of the grid of strata.
    pub fn side(&self) -> (r: usize)
        ensures
            r == self@.side,
    {
        self.side
    }

    /// The number of samples per pixel.
    pub fn samples(&self) -> (r: usize)
        ensures
            r == self@.samples,
    {
        self.samples
    }

    /// The stratum of sample `k`: row `k / side`, column `k % side` of the grid,
    /// the samples filling the grid row after row.
    pub fn cell(&self, k: usize) -> (r: (usize, usize))
        requires
            self@.wf(),
            k < self@.samples,
        ensures
            r.0 == (k as int) / (self@.side as int),
            r.1 == (k as int) % (self@.side as int),
            r.0 < self@.side && r.1 < self@.side,
            r.0 * self@.side + r.1 == k,
    {
        proof {
            let s = self.side as int;
            let k = k as int;
            assert(s * s == self.samples as int);
            assert(s > 0) by (nonlinear_arith)
                requires
                    0 <= k < s * s,
                    s >= 0,
            ;
            assert((k / s) * s + k % s == k && 0 <= k % s < s) by (nonlinear_arith)
                requires
                    s > 0,
            ;
            assert(k / s < s) by (nonlinear_arith)
                requires
                    s > 0,
                    0 <= k < s * s,
            ;
        }
        (k / self.side, k % self.side)
    }

    /// Moves on to the next sample, if the current one has drawn its pair.
    pub fn new_sample(&mut self)
        requires
            old(self)@.wf(),
        ensures
            final(self)@.wf(),
            final(self)@.side == old(self)@.side,
            final(self)@.samples == old(self)@.samples,
            old(self)@.drawn != 0 ==> final(self)@.sample == old(self)@.sample + 1
                && final(self)@.drawn == 0,
            old(self)@.drawn == 0 ==> final(self)@ == old(self)@,
    {
        if self.drawn != 0 {
            self.sample = self.sample + 1;
            self.drawn = 0;
        }
    }

    /// Whether the current sample may still draw its pair of values.
    pub fn can_draw_2d(&self) -> (r: bool)
        requires
            self@.wf(),
        ensures
            r == self@.can_draw(),
    {
        self.sample < self.samples && self.drawn == 0
    }

    /// Draws the pair of the current sample: returns its position in the
    /// table of samples.
    pub fn next2d(&mut self) -> (r: usize)
        requires
            old(self)@.wf(),
            old(self)@.can_draw(),
        ensures
            final(self)@.wf(),
            r == old(self)@.sample,
            final(self)@ == (CursorView { drawn: 1, ..old(self)@ }),
    {
        self.drawn = 1;
        self.sample
    }
}

} // verus!
