//! The rendering work: how the iteration budget is split between workers,
//! where a point lands in the density grid, how hits are counted, and how
//! each worker's finished grid is merged into the total.

use vstd::prelude::*;

verus! {

/// The share of `total` iterations that worker `worker` of `threads` runs:
/// every worker gets `total / threads`, and the first `total % threads`
/// workers one more.
pub open spec fn worker_share(total: nat, worker: nat, threads: nat) -> nat {
    total / threads + if worker < total % threads {
        1nat
    } else {
        0nat
    }
}

/// The shares of workers `0 .. k` added up.
pub open spec fn shares_sum(total: nat, threads: nat, k: nat) -> nat
    decreases k,
{
    if k == 0 {
        0
    } else {
        shares_sum(total, threads, (k - 1) as nat) + worker_share(total, (k - 1) as nat, threads)
    }
}

/// The number of iterations worker `worker` of `threads` runs out of `total`.
pub fn worker_iterations(total: u64, worker: usize, threads: usize) -> (r: u64)
    requires
        threads > 0,
    ensures
        r == worker_share(total as nat, worker as nat, threads as nat),
{
    let base = total / threads as u64;
    let remainder = total % threads as u64;
    if (worker as u64) < remainder {
        assert(base < total) by (nonlinear_arith)
            requires
                base == total / (threads as u64),
                remainder == total % (threads as u64),
                remainder > 0,
                threads >= 1,
        ;
        base + 1
    } else {
        base
    }
}

proof fn lemma_shares_sum_closed_form(total: nat, threads: nat, k: nat)
    requires
        threads > 0,
    ensures
        shares_sum(total, threads, k) == k * (total / threads) + if k < total % threads {
            k
        } else {
            total % threads
        },
    decreases k,
{
    if k > 0 {
        let k1 = (k - 1) as nat;
        lemma_shares_sum_closed_form(total, threads, k1);
        let b = total / threads;
        assert(k * b == k1 * b + b) by (nonlinear_arith)
            requires
                k == k1 + 1,
        ;
        assert(shares_sum(total, threads, k) == shares_sum(total, threads, k1) + worker_share(
            total,
            k1,
            threads,
        ));
    } else {
        let b = total / threads;
        assert(k * b == 0) by (nonlinear_arith)
            requires
                k == 0,
        ;
    }
}

/// The workers' shares add up to the whole budget: no iteration is lost or
/// run twice.
pub proof fn lemma_worker_shares_cover_total(total: nat, threads: nat)
    requires
        threads > 0,
    ensures
        shares_sum(total, threads, threads) == total,
{
    lemma_shares_sum_closed_form(total, threads, threads);
    assert(total == threads * (total / threads) + total % threads) by (nonlinear_arith)
        requires
            threads > 0,
    ;
}

/// The shares are balanced: an earlier worker never runs fewer iterations
/// than a later one, and at most one more.
pub proof fn lemma_worker_shares_balanced(total: nat, threads: nat, w1: nat, w2: nat)
    requires
        threads > 0,
        w1 <= w2 < threads,
    ensures
        worker_share(total, w2, threads) <= worker_share(total, w1, threads),
        worker_share(total, w1, threads) <= worker_share(total, w2, threads) + 1,
{
}

/// How many finished iterations a worker holds back before it publishes them
/// to the shared progress counter.
pub const REPORT_BATCH: u64 = 1_000_000;

/// A worker's count of finished iterations that are not yet published.
pub struct SampleTally {
    pending: u64,
}

impl SampleTally {
    #[verifier::type_invariant]
    spec fn inv(self) -> bool {
        self.pending < REPORT_BATCH
    }

    /// The iterations counted and not yet published.
    pub closed spec fn pending(self) -> nat {
        self.pending as nat
    }

    /// A tally with nothing pending.
    pub fn new() -> (t: SampleTally)
        ensures
            t.pending() == 0,
    {
        SampleTally { pending: 0 }
    }

    /// Counts one finished iteration. When a full batch is pending it is
    /// published: the batch size is returned and nothing stays pending;
    /// otherwise `0` is returned.
    pub fn record(&mut self) -> (published: u64)
        ensures
            published + final(self).pending() == old(self).pending() + 1,
            published == (if old(self).pending() + 1 == REPORT_BATCH {
                REPORT_BATCH
            } else {
                0
            }),
    {
        proof {
            use_type_invariant(&*self);
        }
        if self.pending + 1 == REPORT_BATCH {
            self.pending = 0;
            REPORT_BATCH
        } else {
            self.pending = self.pending + 1;
            0
        }
    }

    /// Publishes whatever is pending: returns it and leaves nothing pending.
    pub fn drain(&mut self) -> (published: u64)
        ensures
            published == old(self).pending(),
            final(self).pending() == 0,
    {
        let p = self.pending;
        self.pending = 0;
        p
    }
}

/// Where the pixel at column `ix`, row `iy` stands in a row-major grid of
/// `width` by `height`: `None` for a point outside the grid.
pub open spec fn grid_index(ix: int, iy: int, width: nat, height: nat) -> Option<nat> {
    if 0 <= ix < width && 0 <= iy < height {
        Some((iy * width + ix) as nat)
    } else {
        None
    }
}

/// The index in the density grid of the pixel at column `ix` and row `iy`,
/// or `None` where the point falls outside the grid.
pub fn pixel_index(ix: isize, iy: isize, width: usize, height: usize) -> (r: Option<usize>)
    requires
        width <= isize::MAX,
        height <= isize::MAX,
        width * height <= usize::MAX,
    ensures
        r matches Some(i) ==> grid_index(ix as int, iy as int, width as nat, height as nat) == Some(
            i as nat,
        ),
        r is None ==> grid_index(ix as int, iy as int, width as nat, height as nat) is None,
        r matches Some(i) ==> i < width * height,
{
    if ix < 0 || ix >= width as isize || iy < 0 || iy >= height as isize {
        None
    } else {
        let x = ix as usize;
        let y = iy as usize;
        assert(y * width + x < width * height) by (nonlinear_arith)
            requires
                x < width,
                y < height,
        ;
        Some(y * width + x)
    }
}

/// Two points inside the grid that land on the same index are the same point.
pub proof fn lemma_grid_index_injective(
    x1: int,
    y1: int,
    x2: int,
    y2: int,
    width: nat,
    height: nat,
)
    requires
        grid_index(x1, y1, width, height) is Some,
        grid_index(x1, y1, width, height) == grid_index(x2, y2, width, height),
    ensures
        x1 == x2,
        y1 == y2,
{
    assert(y1 == y2 && x1 == x2) by (nonlinear_arith)
        requires
            0 <= x1 < width,
            0 <= x2 < width,
            0 <= y1,
            0 <= y2,
            y1 * width + x1 == y2 * width + x2,
    ;
}

/// The grid is row-major: the index of a point inside the grid gives back
/// its column as the remainder and its row as the quotient by the width, and
/// lies below `width * height`.
pub proof fn lemma_grid_index_row_major(ix: int, iy: int, width: nat, height: nat)
    requires
        grid_index(ix, iy, width, height) is Some,
    ensures
        ({
            let i = grid_index(ix, iy, width, height)->Some_0;
            &&& i % width == ix
            &&& i / width == iy
            &&& i < width * height
        }),
{
    let i = grid_index(ix, iy, width, height)->Some_0;
    assert(i == iy * width + ix);
    vstd::arithmetic::div_mod::lemma_fundamental_div_mod_converse(
        i as int,
        width as int,
        iy,
        ix,
    );
    assert(iy * width + ix < width * height) by (nonlinear_arith)
        requires
            0 <= ix < width,
            0 <= iy < height,
    ;
}

/// `a + b`, or `u16::MAX` where the sum does not fit.
pub open spec fn saturating_sum(a: u16, b: u16) -> u16 {
    if a + b > u16::MAX {
        u16::MAX
    } else {
        (a + b) as u16
    }
}

/// Counts a hit on grid cell `index`; a full cell stays full.
pub fn record_hit(density: &mut Vec<u16>, index: usize)
    requires
        index < old(density).len(),
    ensures
        final(density)@ == old(density)@.update(
            index as int,
            saturating_sum(old(density)@[index as int], 1),
        ),
{
    let v = density[index].saturating_add(1);
    density.set(index, v);
}

/// Adds a worker's grid into the total, cell by cell, each sum capped at
/// `u16::MAX`. Cells past the shorter of the two grids are left as they are.
pub fn merge_density(total: &mut Vec<u16>, local: &Vec<u16>)
    ensures
        final(total)@.len() == old(total)@.len(),
        forall|i: int|
            0 <= i < old(total)@.len() ==> #[trigger] final(total)@[i] == if i < local@.len() {
                saturating_sum(old(total)@[i], local@[i])
            } else {
                old(total)@[i]
            },
{
    let n = if total.len() < local.len() {
        total.len()
    } else {
        local.len()
    };
    let mut i: usize = 0;
    while i < n
        invariant
            n <= total.len(),
            n <= local.len(),
            i <= n,
            total@.len() == old(total)@.len(),
            n == old(total)@.len() || n == local@.len(),
            forall|j: int|
                0 <= j < old(total)@.len() ==> #[trigger] total@[j] == if j < i {
                    saturating_sum(old(total)@[j], local@[j])
                } else {
                    old(total)@[j]
                },
        decreases n - i,
    {
        let v = total[i].saturating_add(local[i]);
        total.set(i, v);
        i = i + 1;
    }
}

/// Capped accumulation does not depend on grouping: adding three counts two
/// at a time gives their total, capped, whichever two go first.
pub proof fn lemma_saturating_sum_capped_total(a: u16, b: u16, c: u16)
    ensures
        saturating_sum(saturating_sum(a, b), c) == saturating_sum(a, saturating_sum(b, c)),
        saturating_sum(saturating_sum(a, b), c) == if a + b + c > u16::MAX {
            u16::MAX as int
        } else {
            a + b + c
        },
{
}

} // verus!
