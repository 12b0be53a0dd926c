//! Partitioning of a raster into horizontal bands.
//!
//! A render splits the `height` rows of the output grid into contiguous,
//! non-overlapping bands, one per worker, so that every worker owns a
//! disjoint slice of the shared pixel buffer and no synchronization is
//! needed while the bands are computed.  The partition covers the rows
//! `[0, height)` exactly; every band but possibly the last has the nominal
//! height `ceil(height / workers)`.

use vstd::prelude::*;
use vstd::arithmetic::div_mod::lemma_fundamental_div_mod;

verus! {

/// One horizontal band: the rows `[top, top + height)` of the grid.
#[derive(Clone, Copy, Debug, PartialEq, Eq, Structural)]
pub struct Band {
    pub top: usize,
    pub height: usize,
}

/// `ceil(h / n)` for positive `n`.
pub open spec fn ceil_div(h: int, n: int) -> int
    recommends
        n >= 1,
{
    if h % n == 0 {
        h / n
    } else {
        h / n + 1
    }
}

/// The shape every band plan has: bands start at row 0, are contiguous,
/// have heights between 1 and the nominal band height `bh` (with only the
/// last band allowed to be short), and end exactly at row `height`.
pub open spec fn plan_shape(plan: Seq<Band>, height: int, bh: int) -> bool {
    &&& 1 <= bh
    &&& plan.len() >= 1
    &&& plan[0].top == 0
    &&& (forall|i: int| 0 <= i < plan.len() ==> 1 <= (#[trigger] plan[i].height) <= bh)
    &&& (forall|i: int| 0 <= i < plan.len() - 1 ==> (#[trigger] plan[i].height) == bh)
    &&& (forall|i: int|
        0 <= i < plan.len() - 1 ==> (#[trigger] plan[i + 1].top) == plan[i].top + plan[i].height)
    &&& plan.last().top + plan.last().height == height
}

/// Rounding up guarantees that `workers` bands of the nominal height are
/// enough to cover the whole grid.
proof fn lemma_ceil_div_covers(h: int, n: int)
    requires
        1 <= h,
        1 <= n,
    ensures
        n * ceil_div(h, n) >= h,
        ceil_div(h, n) >= 1,
{
    lemma_fundamental_div_mod(h, n);
    if h % n == 0 {
        assert(n * (h / n) == h);
    } else {
        assert(n * (h / n + 1) == n * (h / n) + n) by (nonlinear_arith);
    }
    assert(ceil_div(h, n) >= 1) by {
        if h / n == 0 {
            assert(h == n * 0 + h % n);
        }
    }
}

/// The nominal band height: `ceil(height / workers)` rows per band.
pub fn rows_per_band(height: usize, workers: usize) -> (r: usize)
    requires
        1 <= height,
        1 <= workers,
    ensures
        r == ceil_div(height as int, workers as int),
        1 <= r <= height,
{
    let q = height / workers;
    let rem = height % workers;
    proof {
        lemma_fundamental_div_mod(height as int, workers as int);
        lemma_ceil_div_covers(height as int, workers as int);
        assert(ceil_div(height as int, workers as int) <= height) by {
            if q as int + 1 > height as int {
                assert(q as int >= height as int);
                assert(workers as int * q >= q) by (nonlinear_arith)
                    requires
                        workers >= 1,
                        q >= 0,
                ;
                assert(rem == 0);
            }
        }
    }
    if rem == 0 {
        q
    } else {
        q + 1
    }
}

/// Split the `height` rows among at most `workers` bands of `rows_per_band`
/// rows each, the last band taking whatever remains.  Covers `[0, height)`
/// exactly, with no empty band.
pub fn plan_bands(height: usize, workers: usize) -> (plan: Vec<Band>)
    requires
        1 <= height,
        1 <= workers,
    ensures
        plan_shape(plan@, height as int, ceil_div(height as int, workers as int)),
        forall|i: int|
            0 <= i < plan@.len() ==> (#[trigger] plan@[i].top) == i * ceil_div(
                height as int,
                workers as int,
            ),
        plan@.len() <= workers,
{
    let bh = rows_per_band(height, workers);
    let mut plan: Vec<Band> = Vec::new();
    let mut top: usize = 0;
    while top < height
        invariant
            1 <= bh <= height,
            bh == ceil_div(height as int, workers as int),
            top <= height,
            top < height ==> top == plan@.len() * bh,
            plan@.len() >= 1 ==> top == plan@.last().top + plan@.last().height,
            plan@.len() == 0 ==> top == 0,
            forall|i: int| 0 <= i < plan@.len() ==> (#[trigger] plan@[i].top) == i * bh,
            forall|i: int| 0 <= i < plan@.len() ==> 1 <= (#[trigger] plan@[i].height) <= bh,
            forall|i: int| 0 <= i < plan@.len() - 1 ==> (#[trigger] plan@[i].height) == bh,
            forall|i: int| 0 <= i < plan@.len() ==> plan@[i].top + (#[trigger] plan@[i].height)
                <= height,
        decreases height - top,
    {
        let h = if height - top < bh {
            height - top
        } else {
            bh
        };
        proof {
            let n = plan@.len() as int;
            assert((n + 1) * bh == n * bh + bh) by (nonlinear_arith);
            if n >= 1 {
                assert(n * bh == (n - 1) * bh + bh) by (nonlinear_arith);
                assert(plan@.last().height == bh);
            }
        }
        plan.push(Band { top, height: h });
        top = top + h;
    }
    proof {
        let bh_i = ceil_div(height as int, workers as int);
        let n = plan@.len() as int;
        assert(n >= 1);
        assert forall|i: int|
            0 <= i < n - 1 implies (#[trigger] plan@[i + 1].top) == plan@[i].top
            + plan@[i].height by {
            assert(plan@[i].top == i * bh_i);
            assert(plan@[i + 1].top == (i + 1) * bh_i);
            assert((i + 1) * bh_i == i * bh_i + bh_i) by (nonlinear_arith);
            assert(plan@[i].height == bh_i);
        }
        assert(n <= workers) by {
            if n > workers as int {
                assert(plan@[workers as int].top == workers as int * bh_i);
                assert(plan@[workers as int].top + plan@[workers as int].height <= height);
                assert(plan@[workers as int].height >= 1);
                lemma_ceil_div_covers(height as int, workers as int);
            }
        }
    }
    plan
}

/// Bands that come earlier in the plan lie strictly above later ones:
/// band `i` ends no later than band `j` begins.
proof fn lemma_band_order(plan: Seq<Band>, height: int, bh: int, i: int, j: int)
    requires
        plan_shape(plan, height, bh),
        0 <= i < j < plan.len(),
    ensures
        plan[i].top + plan[i].height <= plan[j].top,
    decreases j - i,
{
    if j == i + 1 {
        assert(plan[i + 1].top == plan[i].top + plan[i].height);
    } else {
        lemma_band_order(plan, height, bh, i, j - 1);
        assert(plan[(j - 1) + 1].top == plan[j - 1].top + plan[j - 1].height);
    }
}

/// Every band lies inside the grid: its rows are all below `height`.
pub proof fn lemma_band_in_grid(plan: Seq<Band>, height: int, bh: int, i: int)
    requires
        plan_shape(plan, height, bh),
        0 <= i < plan.len(),
    ensures
        plan[i].top + plan[i].height <= height,
        plan[i].top >= 0,
    decreases plan.len() - i,
{
    if i == plan.len() - 1 {
    } else {
        lemma_band_order(plan, height, bh, i, plan.len() - 1);
        lemma_band_in_grid(plan, height, bh, plan.len() - 1);
    }
    if i == 0 {
    } else {
        lemma_band_order(plan, height, bh, 0, i);
    }
}

/// Every grid row lies in some band: returns the index of the band that
/// holds row `r`.
proof fn lemma_row_in_band(plan: Seq<Band>, height: int, bh: int, r: int) -> (i: int)
    requires
        plan_shape(plan, height, bh),
        0 <= r < height,
    ensures
        0 <= i < plan.len(),
        plan[i].top <= r < plan[i].top + plan[i].height,
    decreases plan.len(),
{
    if plan.last().top <= r {
        plan.len() - 1
    } else {
        let prefix = plan.drop_last();
        assert(plan.len() >= 2) by {
            if plan.len() == 1 {
                assert(plan.last().top == 0);
            }
        }
        assert(prefix.last() == plan[plan.len() - 2]);
        assert(plan_shape(prefix, plan.last().top as int, bh)) by {
            assert(plan[plan.len() - 2 + 1].top == plan[plan.len() - 2].top + plan[plan.len()
                - 2].height);
        }
        let i = lemma_row_in_band(prefix, plan.last().top as int, bh, r);
        assert(prefix[i] == plan[i]);
        i
    }
}

/// Row `r` belongs to band `i` of the plan.
pub open spec fn in_band(plan: Seq<Band>, i: int, r: int) -> bool {
    &&& 0 <= i < plan.len()
    &&& plan[i].top <= r < plan[i].top + plan[i].height
}

/// Some band of the plan holds row `r`.
pub open spec fn row_covered(plan: Seq<Band>, r: int) -> bool {
    exists|i: int| in_band(plan, i, r)
}

/// The bands of a plan partition the grid rows exactly: their row ranges
/// are pairwise disjoint, their union is exactly `[0, height)`, and every
/// band except the last has the nominal height.
pub proof fn law_band_coverage(plan: Seq<Band>, height: int, bh: int)
    requires
        plan_shape(plan, height, bh),
    ensures
        forall|r: int| 0 <= r < height ==> #[trigger] row_covered(plan, r),
        forall|i: int, r: int| #[trigger] in_band(plan, i, r) ==> 0 <= r < height,
        forall|i: int, j: int|
            0 <= i < j < plan.len() ==> (#[trigger] plan[i].top) + plan[i].height <= (
            #[trigger] plan[j].top),
        forall|i: int| 0 <= i < plan.len() - 1 ==> (#[trigger] plan[i].height) == bh,
        plan.last().height <= bh,
{
    assert forall|r: int| 0 <= r < height implies #[trigger] row_covered(plan, r) by {
        let i = lemma_row_in_band(plan, height, bh, r);
        assert(in_band(plan, i, r));
    }
    assert forall|i: int, r: int| #[trigger] in_band(plan, i, r) implies 0 <= r < height by {
        lemma_band_in_grid(plan, height, bh, i);
    }
    assert forall|i: int, j: int| 0 <= i < j < plan.len() implies (#[trigger] plan[i].top)
        + plan[i].height <= (#[trigger] plan[j].top) by {
        lemma_band_order(plan, height, bh, i, j);
    }
}

} // verus!
