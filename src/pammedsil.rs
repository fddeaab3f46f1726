//! The swap search driver, its laws, and the public entry points.

use vstd::prelude::*;
use crate::arrayadapter::ArrayAdapter;
use crate::assign::{
    distinct, initial_assignment, lemma_records_slots, lemma_sum_loss_bounds, records, total_loss,
    valid_medoids,
};
use crate::initialize::{build_medoids, pammedsil_build_initialize};
use crate::reco::{term_max, Reco, LOSS_SCALE};
use crate::swap::{
    best_swap, lemma_scan_range, lemma_swap_keeps_distinct, swap_step, swapped_medoids, StepOutcome,
};

verus! {

/// Sum of the distances from object `j` to the objects `0..upto` other
/// than itself.
pub open spec fn row_total<M: ArrayAdapter>(mat: &M, j: int, upto: int) -> int
    decreases upto,
{
    if upto <= 0 {
        0
    } else {
        row_total(mat, j, upto - 1) + if upto - 1 == j {
            0
        } else {
            mat.dist(j, upto - 1) as int
        }
    }
}

/// Sum of the distances from object `j` to every other object.
pub open spec fn row_sum<M: ArrayAdapter>(mat: &M, j: int) -> int {
    row_total(mat, j, mat.size() as int)
}

/// The medoid of a single cluster after scanning the objects `0..upto`,
/// starting from `first`: an object replaces the current choice only when
/// its distance sum is strictly smaller.
pub open spec fn recentered<M: ArrayAdapter>(mat: &M, first: int, upto: int) -> int
    decreases upto,
{
    if upto <= 0 {
        first
    } else {
        let b = recentered(mat, first, upto - 1);
        let j = upto - 1;
        if j != first && row_sum(mat, j) < row_sum(mat, b) {
            j
        } else {
            b
        }
    }
}

/// Sum of the distances from object `j` to every other object.
fn distance_sum<M: ArrayAdapter>(mat: &M, j: usize) -> (r: u64)
    requires
        mat.wf(),
        mat.size() <= u32::MAX,
        j < mat.size(),
    ensures
        r == row_sum(mat, j as int),
{
    let n = mat.len();
    let mut sum: u64 = 0;
    let mut i: usize = 0;
    while i < n
        invariant
            mat.wf(),
            n == mat.size(),
            n <= u32::MAX,
            j < n,
            0 <= i <= n,
            sum == row_total(mat, j as int, i as int),
            sum <= i * 0xFFFF_FFFF,
        decreases n - i,
    {
        if i != j {
            assert((i + 1) * 0xFFFF_FFFF <= 0xFFFF_FFFF * 0xFFFF_FFFF) by (nonlinear_arith)
                requires
                    i < 0xFFFF_FFFF,
            ;
            sum = sum + mat.get(j, i) as u64;
        }
        i += 1;
    }
    sum
}

/// Moves the medoid of a single cluster to the object with the least
/// distance sum (the current medoid stays on a tie). Returns whether it
/// moved, and the distance sum of the medoid.
fn choose_single_medoid<M: ArrayAdapter>(mat: &M, med: &mut Vec<usize>) -> (r: (bool, u64))
    requires
        mat.wf(),
        mat.size() <= u32::MAX,
        valid_medoids(mat, old(med)@),
        old(med)@.len() == 1,
    ensures
        final(med)@ == seq![recentered(mat, old(med)@[0] as int, mat.size() as int) as usize],
        final(med)@[0] as int == recentered(mat, old(med)@[0] as int, mat.size() as int),
        r.0 == (final(med)@[0] != old(med)@[0]),
        r.1 == row_sum(mat, final(med)@[0] as int),
        final(med)@[0] < mat.size(),
        forall|j: int| 0 <= j < mat.size() ==> row_sum(mat, final(med)@[0] as int) <= #[trigger] row_sum(mat, j),
{
    let n = mat.len();
    let first = med[0];
    let mut best = first;
    let mut sumb = distance_sum(mat, first);
    let mut j: usize = 0;
    while j < n
        invariant
            mat.wf(),
            n == mat.size(),
            n <= u32::MAX,
            first < n,
            best < n,
            0 <= j <= n,
            best == recentered(mat, first as int, j as int),
            sumb == row_sum(mat, best as int),
            sumb <= row_sum(mat, first as int),
            forall|x: int| 0 <= x < j ==> sumb <= #[trigger] row_sum(mat, x),
        decreases n - j,
    {
        if j != first {
            let sumj = distance_sum(mat, j);
            if sumj < sumb {
                best = j;
                sumb = sumj;
            }
        }
        j += 1;
    }
    med.set(0, best);
    assert(med@ =~= seq![best]);
    (best != first, sumb)
}

/// Per-object medoid slot (the nearest medoid) for the medoid list `meds`.
pub open spec fn assignment<M: ArrayAdapter>(mat: &M, meds: Seq<usize>) -> Seq<usize> {
    Seq::new(mat.size(), |j: int| records(mat, meds)[j].near.i)
}

/// The swap search from medoids `meds` with aggregate loss `loss`, after
/// `iter` iterations and `swaps` swaps, up to `maxiter` iterations:
/// `(medoids, loss, iterations, swaps, converged)`, where `converged` says
/// that the search stopped because no swap improves the loss. A best swap
/// whose recomputed loss is not lower ends the search: it is counted, and
/// the medoids from before it are kept.
pub open spec fn run<M: ArrayAdapter>(
    mat: &M,
    meds: Seq<usize>,
    loss: int,
    iter: nat,
    swaps: nat,
    maxiter: nat,
) -> (Seq<usize>, int, nat, nat, bool)
    decreases maxiter - iter,
{
    if iter >= maxiter {
        (meds, loss, iter, swaps, false)
    } else {
        let s = best_swap(mat, meds);
        if s.0 > 0 {
            let next = meds.update(s.1 as int, s.2);
            let nl = total_loss(mat, next);
            if nl >= loss {
                (meds, loss, iter + 1, swaps + 1, false)
            } else {
                run(mat, next, nl, iter + 1, swaps + 1, maxiter)
            }
        } else {
            (meds, loss, iter + 1, swaps, true)
        }
    }
}

/// The result of optimizing from the medoids `meds`:
/// `(loss, assignment, medoids, iterations, swaps, converged)`. With one
/// medoid, it moves to the object of least distance sum, and the loss is
/// that sum; otherwise the loss is one minus the mean distance ratio.
pub open spec fn optimized<M: ArrayAdapter>(mat: &M, meds: Seq<usize>, maxiter: nat) -> (
    int,
    Seq<usize>,
    Seq<usize>,
    nat,
    nat,
    bool,
) {
    let n = mat.size() as int;
    if meds.len() == 1 {
        let b = recentered(mat, meds[0] as int, n);
        (
            row_sum(mat, b) * LOSS_SCALE,
            Seq::new(n as nat, |j: int| 0usize),
            seq![b as usize],
            1,
            if b != meds[0] {
                1
            } else {
                0
            },
            true,
        )
    } else {
        let r = run(mat, meds, total_loss(mat, meds), 0, 0, maxiter);
        (LOSS_SCALE - r.1 / n, assignment(mat, r.0), r.0, r.2, r.3, r.4)
    }
}

/// The nearest medoid slot of every object.
fn nearest_slots(data: &Vec<Reco>) -> (r: Vec<usize>)
    ensures
        r@ == Seq::new(data@.len(), |j: int| data@[j].near.i),
{
    let mut assi: Vec<usize> = Vec::new();
    let mut j: usize = 0;
    while j < data.len()
        invariant
            0 <= j <= data@.len(),
            assi@ == Seq::new(j as nat, |x: int| data@[x].near.i),
        decreases data@.len() - j,
    {
        assi.push(data[j].near.i);
        assert(assi@ =~= Seq::new((j + 1) as nat, |x: int| data@[x].near.i));
        j += 1;
    }
    assi
}

/// The swap search: repeats `swap_step` until no swap improves, a swap
/// fails to lower the loss, or `maxiter` iterations have run.
fn pammedsil_optimize<M: ArrayAdapter>(
    mat: &M,
    med: &mut Vec<usize>,
    data: &mut Vec<Reco>,
    maxiter: usize,
    loss: i128,
) -> (r: (i128, Vec<usize>, usize, usize))
    requires
        mat.wf(),
        mat.size() <= u32::MAX,
        valid_medoids(mat, old(med)@),
        old(data)@ == records(mat, old(med)@),
        loss == total_loss(mat, old(med)@),
    ensures
        r.0 == optimized(mat, old(med)@, maxiter as nat).0,
        r.1@ == optimized(mat, old(med)@, maxiter as nat).1,
        final(med)@ == optimized(mat, old(med)@, maxiter as nat).2,
        r.2 == optimized(mat, old(med)@, maxiter as nat).3,
        r.3 == optimized(mat, old(med)@, maxiter as nat).4,
        final(data)@ == records(mat, final(med)@),
{
    let n = mat.len();
    let k = med.len();
    if k == 1 {
        let assi: Vec<usize> = vec![0; n];
        let (swapped, sum) = choose_single_medoid(mat, med);
        let (_, recs) = initial_assignment(mat, med);
        *data = recs;
        assert(assi@ =~= Seq::new(n as nat, |j: int| 0usize));
        let l = (sum as i128) * LOSS_SCALE;
        return (l, assi, 1, if swapped { 1 } else { 0 });
    }
    let ghost target = run(mat, med@, loss as int, 0, 0, maxiter as nat);
    let ghost mut converged = false;
    let mut loss = loss;
    let mut iter: usize = 0;
    let mut n_swaps: usize = 0;
    let mut done = false;
    proof {
        lemma_sum_loss_bounds(records(mat, med@));
    }
    while !done && iter < maxiter
        invariant
            mat.wf(),
            n == mat.size(),
            n <= u32::MAX,
            k == med@.len(),
            k >= 2,
            valid_medoids(mat, med@),
            data@ == records(mat, med@),
            n_swaps <= iter <= maxiter,
            0 <= loss <= n * term_max(),
            loss == total_loss(mat, med@),
            !done ==> !converged,
            !done ==> run(mat, med@, loss as int, iter as nat, n_swaps as nat, maxiter as nat)
                == target,
            done ==> (med@, loss as int, iter as nat, n_swaps as nat, converged) == target,
        decreases maxiter - iter,
    {
        let ghost before = med@;
        let ghost r0 = run(mat, before, loss as int, iter as nat, n_swaps as nat, maxiter as nat);
        let ghost s = best_swap(mat, before);
        iter += 1;
        match swap_step(mat, med, data, loss) {
            StepOutcome::Improved(nl) => {
                proof {
                    lemma_sum_loss_bounds(records(mat, med@));
                    assert(s.0 > 0);
                    assert(r0 == run(mat, med@, nl as int, iter as nat, (n_swaps + 1) as nat, maxiter as nat));
                }
                n_swaps += 1;
                loss = nl;
            },
            StepOutcome::Unstable(_) => {
                proof {
                    assert(s.0 > 0);
                    assert(total_loss(mat, swapped_medoids(mat, before)) >= loss);
                    assert(r0 == (med@, loss as int, iter as nat, (n_swaps + 1) as nat, false));
                }
                n_swaps += 1;
                done = true;
            },
            StepOutcome::Converged => {
                proof {
                    assert(s.0 <= 0);
                    assert(r0 == (med@, loss as int, iter as nat, n_swaps as nat, true));
                    converged = true;
                }
                done = true;
            },
        }
    }
    let assi = nearest_slots(data);
    assert(assi@ =~= assignment(mat, med@));
    let out = LOSS_SCALE - loss / (n as i128);
    (out, assi, iter, n_swaps)
}

proof fn lemma_recentered_range<M: ArrayAdapter>(mat: &M, first: int, upto: int)
    requires
        0 <= first < mat.size(),
        upto <= mat.size(),
    ensures
        0 <= recentered(mat, first, upto) < mat.size(),
    decreases upto,
{
    if upto > 0 {
        lemma_recentered_range(mat, first, upto - 1);
    }
}

proof fn lemma_recentered_min<M: ArrayAdapter>(mat: &M, first: int, upto: int)
    ensures
        row_sum(mat, recentered(mat, first, upto)) <= row_sum(mat, first),
        forall|x: int|
            0 <= x < upto ==> row_sum(mat, recentered(mat, first, upto)) <= #[trigger] row_sum(
                mat,
                x,
            ),
    decreases upto,
{
    if upto > 0 {
        lemma_recentered_min(mat, first, upto - 1);
    }
}

proof fn lemma_recentered_stays<M: ArrayAdapter>(mat: &M, b: int, upto: int)
    requires
        forall|x: int| 0 <= x < upto ==> row_sum(mat, b) <= #[trigger] row_sum(mat, x),
    ensures
        recentered(mat, b, upto) == b,
    decreases upto,
{
    if upto > 0 {
        lemma_recentered_stays(mat, b, upto - 1);
    }
}

proof fn lemma_run_props<M: ArrayAdapter>(
    mat: &M,
    meds: Seq<usize>,
    loss: int,
    iter: nat,
    swaps: nat,
    maxiter: nat,
)
    requires
        loss == total_loss(mat, meds),
        swaps <= iter,
    ensures
        run(mat, meds, loss, iter, swaps, maxiter).0.len() == meds.len(),
        run(mat, meds, loss, iter, swaps, maxiter).3 <= run(mat, meds, loss, iter, swaps, maxiter).2,
        run(mat, meds, loss, iter, swaps, maxiter).1 == total_loss(
            mat,
            run(mat, meds, loss, iter, swaps, maxiter).0,
        ),
        run(mat, meds, loss, iter, swaps, maxiter).1 <= loss,
        run(mat, meds, loss, iter, swaps, maxiter).0 != meds ==> run(
            mat,
            meds,
            loss,
            iter,
            swaps,
            maxiter,
        ).1 < loss,
        mat.size() <= u32::MAX && valid_medoids(mat, meds) ==> valid_medoids(
            mat,
            run(mat, meds, loss, iter, swaps, maxiter).0,
        ),
        mat.size() <= u32::MAX && valid_medoids(mat, meds) && distinct(meds) ==> distinct(
            run(mat, meds, loss, iter, swaps, maxiter).0,
        ),
        run(mat, meds, loss, iter, swaps, maxiter).4 ==> best_swap(
            mat,
            run(mat, meds, loss, iter, swaps, maxiter).0,
        ).0 <= 0,
    decreases maxiter - iter,
{
    if iter < maxiter {
        let s = best_swap(mat, meds);
        lemma_scan_range(mat, meds, records(mat, meds), mat.size() as int);
        if s.0 > 0 {
            let next = meds.update(s.1 as int, s.2);
            let nl = total_loss(mat, next);
            if nl < loss {
                if mat.size() <= u32::MAX && valid_medoids(mat, meds) {
                    lemma_swap_keeps_distinct(mat, meds);
                }
                lemma_run_props(mat, next, nl, iter + 1, swaps + 1, maxiter);
            }
        }
    }
}

/// Every object is assigned to a slot of the returned medoid list, and the
/// assignment has one entry per object.
pub proof fn lemma_assignment_in_range<M: ArrayAdapter>(mat: &M, meds: Seq<usize>, maxiter: nat)
    requires
        valid_medoids(mat, meds),
    ensures
        optimized(mat, meds, maxiter).1.len() == mat.size(),
        forall|j: int|
            0 <= j < mat.size() ==> #[trigger] optimized(mat, meds, maxiter).1[j] < optimized(
                mat,
                meds,
                maxiter,
            ).2.len(),
{
    if meds.len() != 1 {
        lemma_run_props(mat, meds, total_loss(mat, meds), 0, 0, maxiter);
        let fin = run(mat, meds, total_loss(mat, meds), 0, 0, maxiter).0;
        lemma_records_slots(mat, fin);
    }
}

/// With several medoids the search never raises the aggregate loss, and
/// when it ends on other medoids than it started from, their aggregate loss
/// is strictly lower: every swap it keeps lowers the loss.
pub proof fn lemma_loss_never_increases<M: ArrayAdapter>(mat: &M, meds: Seq<usize>, maxiter: nat)
    requires
        valid_medoids(mat, meds),
        meds.len() >= 2,
    ensures
        total_loss(mat, optimized(mat, meds, maxiter).2) <= total_loss(mat, meds),
        optimized(mat, meds, maxiter).2 != meds ==> total_loss(mat, optimized(mat, meds, maxiter).2)
            < total_loss(mat, meds),
{
    lemma_run_props(mat, meds, total_loss(mat, meds), 0, 0, maxiter);
}

/// With a single medoid the search takes one iteration and ends on an
/// object whose distance sum to all others is the least of all objects.
pub proof fn lemma_single_medoid_optimal<M: ArrayAdapter>(mat: &M, meds: Seq<usize>, maxiter: nat)
    requires
        mat.size() <= u32::MAX,
        valid_medoids(mat, meds),
        meds.len() == 1,
    ensures
        optimized(mat, meds, maxiter).3 == 1,
        optimized(mat, meds, maxiter).2.len() == 1,
        optimized(mat, meds, maxiter).2[0] < mat.size(),
        forall|j: int|
            0 <= j < mat.size() ==> row_sum(mat, optimized(mat, meds, maxiter).2[0] as int)
                <= #[trigger] row_sum(mat, j),
{
    lemma_recentered_range(mat, meds[0] as int, mat.size() as int);
    lemma_recentered_min(mat, meds[0] as int, mat.size() as int);
}

/// Optimizing again from the medoids of a run that stopped because no swap
/// improved the loss makes no swap and returns the same loss and medoids.
pub proof fn lemma_converged_is_fixed_point<M: ArrayAdapter>(
    mat: &M,
    meds: Seq<usize>,
    maxiter: nat,
    maxiter2: nat,
)
    requires
        mat.size() <= u32::MAX,
        valid_medoids(mat, meds),
        optimized(mat, meds, maxiter).5,
    ensures
        optimized(mat, optimized(mat, meds, maxiter).2, maxiter2).4 == 0,
        optimized(mat, optimized(mat, meds, maxiter).2, maxiter2).0 == optimized(
            mat,
            meds,
            maxiter,
        ).0,
        optimized(mat, optimized(mat, meds, maxiter).2, maxiter2).2 == optimized(
            mat,
            meds,
            maxiter,
        ).2,
        optimized(mat, optimized(mat, meds, maxiter).2, maxiter2).1 == optimized(
            mat,
            meds,
            maxiter,
        ).1,
{
    let n = mat.size() as int;
    if meds.len() == 1 {
        let b = recentered(mat, meds[0] as int, n);
        lemma_recentered_range(mat, meds[0] as int, n);
        lemma_recentered_min(mat, meds[0] as int, n);
        lemma_recentered_stays(mat, b, n);
        assert(optimized(mat, meds, maxiter).2 == seq![b as usize]);
        assert(seq![b as usize][0] as int == b);
    } else {
        let r = run(mat, meds, total_loss(mat, meds), 0, 0, maxiter);
        lemma_run_props(mat, meds, total_loss(mat, meds), 0, 0, maxiter);
        if maxiter2 >= 1 {
            assert(run(mat, r.0, total_loss(mat, r.0), 0, 0, maxiter2) == (
                r.0,
                total_loss(mat, r.0),
                1nat,
                0nat,
                true,
            ));
        }
    }
}

/// Runs the swap search from the given medoids (replaced in place by the
/// final medoids), for at most `maxiter` iterations.
///
/// Returns the final loss, the medoid slot of every object, the number of
/// iterations and the number of swaps. With several medoids the loss is one
/// minus the mean distance ratio, in fixed point; with one medoid it is the
/// medoid's distance sum to all other objects, in fixed point.
pub fn pammedsil_swap<M: ArrayAdapter>(mat: &M, med: &mut Vec<usize>, maxiter: usize) -> (r: (
    i128,
    Vec<usize>,
    usize,
    usize,
))
    requires
        mat.wf(),
        mat.size() <= u32::MAX,
        valid_medoids(mat, old(med)@),
    ensures
        r.0 == optimized(mat, old(med)@, maxiter as nat).0,
        r.1@ == optimized(mat, old(med)@, maxiter as nat).1,
        final(med)@ == optimized(mat, old(med)@, maxiter as nat).2,
        r.2 == optimized(mat, old(med)@, maxiter as nat).3,
        r.3 == optimized(mat, old(med)@, maxiter as nat).4,
        r.1@.len() == mat.size(),
        forall|j: int| 0 <= j < mat.size() ==> #[trigger] r.1@[j] < final(med)@.len(),
        final(med)@.len() == old(med)@.len(),
        valid_medoids(mat, final(med)@),
        distinct(old(med)@) ==> distinct(final(med)@),
        old(med)@.len() == 1 ==> r.2 == 1 && forall|j: int|
            0 <= j < mat.size() ==> row_sum(mat, final(med)@[0] as int) <= #[trigger] row_sum(
                mat,
                j,
            ),
{
    proof {
        lemma_assignment_in_range(mat, med@, maxiter as nat);
        if med@.len() == 1 {
            lemma_single_medoid_optimal(mat, med@, maxiter as nat);
        } else {
            lemma_run_props(mat, med@, total_loss(mat, med@), 0, 0, maxiter as nat);
        }
    }
    let (loss, mut data) = initial_assignment(mat, med);
    pammedsil_optimize(mat, med, &mut data, maxiter, loss)
}

/// Picks `k` medoids greedily, then runs the swap search for at most
/// `maxiter` iterations.
///
/// Returns the final loss, the medoid slot of every object, the medoids,
/// the number of iterations and the number of swaps. Fewer than `k` medoids
/// are returned when no further medoid lowers the summed nearest distance.
pub fn pammedsil<M: ArrayAdapter>(mat: &M, k: usize, maxiter: usize) -> (r: (
    i128,
    Vec<usize>,
    Vec<usize>,
    usize,
    usize,
))
    requires
        mat.wf(),
        mat.size() <= u32::MAX,
        1 <= k <= mat.size(),
        k < u32::MAX,
    ensures
        r.0 == optimized(mat, build_medoids(mat, k as int), maxiter as nat).0,
        r.1@ == optimized(mat, build_medoids(mat, k as int), maxiter as nat).1,
        r.2@ == optimized(mat, build_medoids(mat, k as int), maxiter as nat).2,
        r.3 == optimized(mat, build_medoids(mat, k as int), maxiter as nat).3,
        r.4 == optimized(mat, build_medoids(mat, k as int), maxiter as nat).4,
        1 <= r.2@.len() <= k,
        valid_medoids(mat, r.2@),
        distinct(r.2@),
        r.1@.len() == mat.size(),
        forall|j: int| 0 <= j < mat.size() ==> #[trigger] r.1@[j] < r.2@.len(),
        k == 1 ==> r.3 == 1 && forall|j: int|
            0 <= j < mat.size() ==> row_sum(mat, r.2@[0] as int) <= #[trigger] row_sum(mat, j),
{
    let mut meds: Vec<usize> = Vec::new();
    let mut data: Vec<Reco> = Vec::new();
    let loss = pammedsil_build_initialize(mat, &mut meds, &mut data, k);
    let ghost built = meds@;
    proof {
        lemma_assignment_in_range(mat, built, maxiter as nat);
        if built.len() == 1 {
            lemma_single_medoid_optimal(mat, built, maxiter as nat);
        }
        if built.len() != 1 {
            lemma_run_props(mat, built, total_loss(mat, built), 0, 0, maxiter as nat);
        }
    }
    let (nloss, assi, n_iter, n_swap) = pammedsil_optimize(mat, &mut meds, &mut data, maxiter, loss);
    (nloss, assi, meds, n_iter, n_swap)
}

} // verus!
