//! The coordinator's side of a rendering pass: which pixel goes to which
//! worker, and when the pass is over. Workers pull: each answer is followed
//! by the next pixel for the worker that sent it.
use vstd::prelude::*;
use vstd::set_lib::{lemma_int_range, lemma_subset_equality, set_int_range};

verus! {

/// A pixel, by column `x` and row `y`.
#[derive(Clone, Copy, Debug, PartialEq, Eq, Structural)]
pub struct Pixel {
    pub x: usize,
    pub y: usize,
}

/// The pixel handed out `k`-th in a pass over an image `height` rows high:
/// columns one after the other, each from its first row up.
pub open spec fn pixel_at(height: nat, k: int) -> Pixel {
    Pixel { x: (k / (height as int)) as usize, y: (k % (height as int)) as usize }
}

/// The rank of pixel `p` in that order.
pub open spec fn pixel_rank(height: nat, p: Pixel) -> int {
    p.x * height + p.y
}

pub open spec fn in_image(width: nat, height: nat, p: Pixel) -> bool {
    p.x < width && p.y < height
}

/// What the coordinator knows in the middle of a pass.
pub struct DispatchView {
    pub width: nat,
    pub height: nat,
    /// The rank of the next pixel to hand out.
    pub next: nat,
    /// For each worker, the rank of the pixel it is computing, if any.
    pub busy: Seq<Option<usize>>,
    /// The ranks of the pixels whose color has come back.
    pub done: Set<int>,
}

impl DispatchView {
    pub open spec fn total(self) -> int {
        (self.width * self.height) as int
    }

    pub open spec fn is_busy_with(self, k: int) -> bool {
        exists|w: int| 0 <= w < self.busy.len() && self.busy[w] == Some(k as usize)
    }

    /// The invariant of a pass: every pixel handed out is either done or with
    /// exactly one worker, and while pixels remain no worker is idle.
    pub open spec fn wf(self) -> bool {
        &&& self.busy.len() >= 1
        &&& self.next <= self.total()
        &&& self.total() <= usize::MAX
        &&& self.done.finite()
        &&& forall|k: int| #[trigger] self.done.contains(k) ==> 0 <= k < self.next
        &&& forall|w: int|
            0 <= w < self.busy.len() && #[trigger] self.busy[w] is Some ==> {
                let k = self.busy[w]->Some_0 as int;
                k < self.next && !self.done.contains(k)
            }
        &&& forall|v: int, w: int|
            0 <= v < self.busy.len() && 0 <= w < self.busy.len() && v != w && #[trigger] self.busy[v]
                is Some ==> #[trigger] self.busy[w] != self.busy[v]
        &&& forall|k: int|
            0 <= k < self.next ==> #[trigger] self.done.contains(k) || self.is_busy_with(k)
        &&& self.next < self.total() ==> forall|w: int|
            0 <= w < self.busy.len() ==> #[trigger] self.busy[w] is Some
    }

    /// How many answers are still to come in this pass.
    pub open spec fn remaining(self) -> nat {
        (self.total() - self.done.len()) as nat
    }
}

/// Hands out the pixels of one pass to a fixed set of workers.
pub struct Dispatcher {
    width: usize,
    height: usize,
    next: usize,
    finished: usize,
    busy: Vec<Option<usize>>,
    done: Ghost<Set<int>>,
}

impl View for Dispatcher {
    type V = DispatchView;

    closed spec fn view(&self) -> DispatchView {
        DispatchView {
            width: self.width as nat,
            height: self.height as nat,
            next: self.next as nat,
            busy: self.busy@,
            done: self.done@,
        }
    }
}

proof fn lemma_pixel_of_rank(width: nat, height: nat, k: int)
    requires
        0 <= k < width * height,
        width * height <= usize::MAX,
    ensures
        height > 0,
        pixel_rank(height, pixel_at(height, k)) == k,
        in_image(width, height, pixel_at(height, k)),
        pixel_at(height, k).x == k / (height as int),
        pixel_at(height, k).y == k % (height as int),
{
    let h = height as int;
    let wd = width as int;
    assert(h > 0) by (nonlinear_arith)
        requires
            0 <= k < wd * h,
            wd >= 0,
            h >= 0,
    ;
    assert((k / h) * h + k % h == k) by (nonlinear_arith)
        requires
            h > 0,
    ;
    assert(0 <= k % h < h) by (nonlinear_arith)
        requires
            h > 0,
    ;
    assert(0 <= k / h < wd) by (nonlinear_arith)
        requires
            h > 0,
            0 <= k < wd * h,
    ;
    assert(h <= wd * h) by (nonlinear_arith)
        requires
            h > 0,
            wd > 0,
    ;
}

impl Dispatcher {
    closed spec fn inner_wf(&self) -> bool {
        &&& self@.wf()
        &&& self.finished == self.done@.len()
    }

    /// Holds between calls: the invariant of the pass.
    pub closed spec fn wf(&self) -> bool {
        self.inner_wf()
    }

    /// Starts a pass over a `width` x `height` image with `workers` workers:
    /// worker `w` gets the `w`-th pixel, as long as there are pixels.
    pub fn new(width: usize, height: usize, workers: usize) -> (r: Self)
        requires
            workers >= 1,
            width * height <= usize::MAX,
        ensures
            r.wf(),
            r@.width == width,
            r@.height == height,
            r@.busy.len() == workers,
            r@.done == Set::<int>::empty(),
            forall|w: int|
                0 <= w < workers ==> #[trigger] r@.busy[w] == if w < width * height {
                    Some(w as usize)
                } else {
                    None
                },
            r@.next == if workers < width * height {
                workers as int
            } else {
                width * height
            },
    {
        let total = width * height;
        let mut busy: Vec<Option<usize>> = Vec::new();
        let mut w: usize = 0;
        while w < workers
            invariant
                w <= workers,
                busy.len() == w,
                total == width * height,
                forall|v: int|
                    0 <= v < w ==> #[trigger] busy[v] == if v < total {
                        Some(v as usize)
                    } else {
                        None
                    },
            decreases workers - w,
        {
            if w < total {
                busy.push(Some(w));
            } else {
                busy.push(None);
            }
            w = w + 1;
        }
        let next = if workers < total {
            workers
        } else {
            total
        };
        let r = Dispatcher { width, height, next, finished: 0, busy, done: Ghost(Set::empty()) };
        assert forall|k: int| 0 <= k < r@.next implies #[trigger] r@.done.contains(k)
            || r@.is_busy_with(k) by {
            assert(r@.busy[k] == Some(k as usize));
        }
        r
    }

    /// The pixel that worker `w` is computing, if any.
    pub fn assignment(&self, w: usize) -> (r: Option<Pixel>)
        requires
            self.wf(),
            w < self@.busy.len(),
        ensures
            r == match self@.busy[w as int] {
                Some(k) => Some(pixel_at(self@.height, k as int)),
                None => None,
            },
    {
        match self.busy[w] {
            Some(k) => {
                proof {
                    lemma_pixel_of_rank(self.width as nat, self.height as nat, k as int);
                }
                Some(Pixel { x: k / self.height, y: k % self.height })
            },
            None => None,
        }
    }

    pub fn workers(&self) -> (r: usize)
        ensures
            r == self@.busy.len(),
    {
        self.busy.len()
    }

    /// How many pixels are with the workers.
    pub fn in_flight(&self) -> (r: usize)
        requires
            self.wf(),
        ensures
            r == self@.next - self@.done.len(),
            r == 0 <==> self@.remaining() == 0,
    {
        proof {
            self.lemma_counts();
        }
        self.next - self.finished
    }

    proof fn lemma_counts(&self)
        requires
            self.wf(),
        ensures
            self@.done.len() <= self@.next,
            self@.next - self@.done.len() == 0 <==> self@.remaining() == 0,
            self@.next - self@.done.len() == 0 ==> self@.done == set_int_range(0, self@.total()),
    {
        let v = self@;
        lemma_int_range(0, v.next as int);
        assert(v.done.subset_of(set_int_range(0, v.next as int)));
        vstd::set_lib::lemma_len_subset(v.done, set_int_range(0, v.next as int));
        if v.done.len() == v.next {
            lemma_subset_equality(v.done, set_int_range(0, v.next as int));
            if v.next < v.total() {
                assert(v.busy[0] is Some);
                assert(v.done.contains(v.busy[0]->Some_0 as int));
            }
        }
        if v.done.len() == v.total() {
            lemma_int_range(0, v.total());
        }
    }

    /// Records the answer of worker `w`: returns the pixel it computed, and
    /// the next pixel for it, if any is left.
    pub fn on_answer(&mut self, w: usize) -> (r: (Pixel, Option<Pixel>))
        requires
            old(self).wf(),
            w < old(self)@.busy.len(),
            old(self)@.busy[w as int] is Some,
        ensures
            final(self).wf(),
            ({
                let k = old(self)@.busy[w as int]->Some_0 as int;
                let v = old(self)@;
                let n = final(self)@;
                &&& r.0 == pixel_at(v.height, k)
                &&& !v.done.contains(k)
                &&& n.done == v.done.insert(k)
                &&& n.width == v.width && n.height == v.height
                &&& n.remaining() + 1 == v.remaining()
                &&& if v.next < v.total() {
                    &&& r.1 == Some(pixel_at(v.height, v.next as int))
                    &&& n.next == v.next + 1
                    &&& n.busy == v.busy.update(w as int, Some(v.next as usize))
                } else {
                    &&& r.1 is None
                    &&& n.next == v.next
                    &&& n.busy == v.busy.update(w as int, None)
                }
            }),
    {
        let ghost v = self@;
        let k = self.busy[w].unwrap();
        proof {
            lemma_pixel_of_rank(self.width as nat, self.height as nat, k as int);
            self.lemma_counts();
            lemma_int_range(0, v.total());
            assert(v.done.subset_of(set_int_range(0, v.total())));
            vstd::set_lib::lemma_len_subset(v.done, set_int_range(0, v.total()));
        }
        let done_pixel = Pixel { x: k / self.height, y: k % self.height };
        let total = self.width * self.height;
        let follow = if self.next < total {
            let n = self.next;
            proof {
                lemma_pixel_of_rank(self.width as nat, self.height as nat, n as int);
            }
            self.busy.set(w, Some(n));
            self.next = n + 1;
            Some(Pixel { x: n / self.height, y: n % self.height })
        } else {
            self.busy.set(w, None);
            None
        };
        self.finished = self.finished + 1;
        self.done = Ghost(self.done@.insert(k as int));
        proof {
            let n = self@;
            assert forall|j: int| 0 <= j < n.next implies #[trigger] n.done.contains(j)
                || n.is_busy_with(j) by {
                if j != k && j < v.next {
                    if !v.done.contains(j) {
                        let u = choose|u: int|
                            0 <= u < v.busy.len() && v.busy[u] == Some(j as usize);
                        assert(u != w);
                        assert(n.busy[u] == Some(j as usize));
                    }
                } else if j == v.next {
                    assert(n.busy[w as int] == Some(j as usize));
                }
            }
        }
        (done_pixel, follow)
    }

    /// Whether every pixel of the image has come back.
    pub fn is_finished(&self) -> (r: bool)
        requires
            self.wf(),
        ensures
            r <==> self@.done == set_int_range(0, self@.total()),
    {
        proof {
            self.lemma_counts();
            if self@.done == set_int_range(0, self@.total()) {
                lemma_int_range(0, self@.total());
            }
        }
        self.next == self.finished && self.next == self.width * self.height
    }
}

/// The order of a pass lists every pixel of the image exactly once: the
/// ranks `0 .. width * height` and the pixels of the image correspond one to one.
pub proof fn lemma_pass_order_is_one_to_one(width: nat, height: nat)
    requires
        width * height <= usize::MAX,
    ensures
        forall|k: int|
            0 <= k < width * height ==> in_image(width, height, #[trigger] pixel_at(height, k))
                && pixel_rank(height, pixel_at(height, k)) == k,
        forall|p: Pixel|
            in_image(width, height, p) ==> 0 <= #[trigger] pixel_rank(height, p) < width * height
                && pixel_at(height, pixel_rank(height, p)) == p,
{
    assert forall|k: int| 0 <= k < width * height implies in_image(
        width,
        height,
        #[trigger] pixel_at(height, k),
    ) && pixel_rank(height, pixel_at(height, k)) == k by {
        lemma_pixel_of_rank(width, height, k);
    }
    assert forall|p: Pixel| in_image(width, height, p) implies 0 <= #[trigger] pixel_rank(
        height,
        p,
    ) < width * height && pixel_at(height, pixel_rank(height, p)) == p by {
        let h = height as int;
        let wd = width as int;
        let x = p.x as int;
        let y = p.y as int;
        assert(0 <= x * h + y < wd * h) by (nonlinear_arith)
            requires
                0 <= x < wd,
                0 <= y < h,
        ;
        vstd::arithmetic::div_mod::lemma_fundamental_div_mod_converse(x * h + y, h, x, y);
    }
}

/// A pass ends with every pixel of the image done, each of them once: when
/// no answer is left to come, the ranks done are exactly those of the image.
/// (Each answer adds a rank that was not done before: see `on_answer`.)
pub proof fn lemma_pass_visits_every_pixel(d: &Dispatcher)
    requires
        d.wf(),
        d@.remaining() == 0,
    ensures
        d@.done == set_int_range(0, d@.total()),
        forall|p: Pixel| in_image(d@.width, d@.height, p) ==> d@.done.contains(
            #[trigger] pixel_rank(d@.height, p),
        ),
        forall|w: int| 0 <= w < d@.busy.len() ==> #[trigger] d@.busy[w] is None,
{
    d.lemma_counts();
    lemma_pass_order_is_one_to_one(d@.width, d@.height);
    assert forall|w: int| 0 <= w < d@.busy.len() implies #[trigger] d@.busy[w] is None by {
        if d@.busy[w] is Some {
            assert(d@.done.contains(d@.busy[w]->Some_0 as int));
        }
    }
}

} // verus!
