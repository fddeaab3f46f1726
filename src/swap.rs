//! Evaluation of medoid swaps, and one iteration of the swap search.

use vstd::prelude::*;
use crate::arrayadapter::ArrayAdapter;
use crate::assign::{
    distinct, do_swap, lemma_records_invariants, lemma_records_slots, records, total_loss,
    valid_medoids,
};
use crate::reco::{
    DistancePair, closer, entry_dist, entry_distance, is_closer, is_slot, lemma_ratio_bounds, names_slot, ratio,
    ratio_loss, reco_loss, term_max, Reco, NO_MEDOID,
};

verus! {

/// Change of one object's loss term (old minus new) when the medoid in
/// slot `m` is replaced by an object at distance `doj`. With `k2` only two
/// medoids exist, so no third medoid can take over.
pub open spec fn gain_term(r: Reco, doj: u32, m: usize, k2: bool) -> int {
    let old = reco_loss(r);
    let (nd, sd, td) = (r.near.d as int, entry_dist(r.seco) as int, entry_dist(r.third) as int);
    if r.near.i == m {
        if closer(doj, r.seco) {
            old - ratio(doj as int, sd)
        } else if k2 || closer(doj, r.third) {
            old - ratio(sd, doj as int)
        } else {
            old - ratio(sd, td)
        }
    } else if names_slot(r.seco, m) {
        if doj < r.near.d {
            old - ratio(doj as int, nd)
        } else if k2 || closer(doj, r.third) {
            old - ratio(nd, doj as int)
        } else {
            old - ratio(nd, td)
        }
    } else if doj < r.near.d {
        old - ratio(doj as int, nd)
    } else if closer(doj, r.seco) {
        old - ratio(nd, doj as int)
    } else {
        0
    }
}

/// Gain of replacing the medoid in slot `m` by object `j`, counting the
/// objects `0..upto`: the loss term `j` had before, plus the change of every
/// other object.
pub open spec fn slot_gain<M: ArrayAdapter>(
    mat: &M,
    recs: Seq<Reco>,
    j: int,
    m: usize,
    k2: bool,
    upto: int,
) -> int
    decreases upto,
{
    if upto <= 0 {
        reco_loss(recs[j])
    } else {
        slot_gain(mat, recs, j, m, k2, upto - 1) + if upto - 1 == j {
            0
        } else {
            gain_term(recs[upto - 1], mat.dist(upto - 1, j), m, k2)
        }
    }
}

/// The largest positive gain for object `j` over the slots `0..upto`, with
/// its slot (the first one reaching it); `(0, NO_MEDOID)` when none is
/// positive.
pub open spec fn best_slot<M: ArrayAdapter>(
    mat: &M,
    recs: Seq<Reco>,
    j: int,
    k2: bool,
    upto: int,
) -> (int, usize)
    decreases upto,
{
    if upto <= 0 {
        (0, NO_MEDOID)
    } else {
        let prev = best_slot(mat, recs, j, k2, upto - 1);
        let acc = slot_gain(mat, recs, j, (upto - 1) as usize, k2, recs.len() as int);
        if acc > prev.0 {
            (acc, (upto - 1) as usize)
        } else {
            prev
        }
    }
}

proof fn lemma_gain_term_bounds(r: Reco, doj: u32, m: usize, k2: bool)
    ensures
        -term_max() <= gain_term(r, doj, m, k2) <= term_max(),
{
    let (sd, td) = (entry_dist(r.seco), entry_dist(r.third));
    lemma_ratio_bounds(r.near.d, sd);
    lemma_ratio_bounds(doj, sd);
    lemma_ratio_bounds(sd, doj);
    lemma_ratio_bounds(sd, td);
    lemma_ratio_bounds(doj, r.near.d);
    lemma_ratio_bounds(r.near.d, doj);
    lemma_ratio_bounds(r.near.d, td);
}

pub proof fn lemma_best_slot_range<M: ArrayAdapter>(
    mat: &M,
    recs: Seq<Reco>,
    j: int,
    k2: bool,
    upto: int,
)
    ensures
        best_slot(mat, recs, j, k2, upto).0 >= 0,
        best_slot(mat, recs, j, k2, upto).0 > 0 ==> best_slot(mat, recs, j, k2, upto).1 < upto,
    decreases upto,
{
    if upto > 0 {
        lemma_best_slot_range(mat, recs, j, k2, upto - 1);
    }
}

/// Change of one object's loss term when the medoid in slot `m` is replaced
/// by an object at distance `doj`.
fn swap_delta(r: &Reco, doj: u32, m: usize, k2: bool) -> (d: i128)
    ensures
        d == gain_term(*r, doj, m, k2),
{
    let (nd, sd, td) = (r.near.d, entry_distance(r.seco), entry_distance(r.third));
    proof {
        lemma_ratio_bounds(nd, sd);
        lemma_ratio_bounds(doj, sd);
        lemma_ratio_bounds(sd, doj);
        lemma_ratio_bounds(sd, td);
        lemma_ratio_bounds(doj, nd);
        lemma_ratio_bounds(nd, doj);
        lemma_ratio_bounds(nd, td);
    }
    let old = r.loss();
    if r.near.i == m {
        if is_closer(doj, r.seco) {
            old - ratio_loss(doj, sd)
        } else if k2 || is_closer(doj, r.third) {
            old - ratio_loss(sd, doj)
        } else {
            old - ratio_loss(sd, td)
        }
    } else if is_slot(r.seco, m) {
        if doj < nd {
            old - ratio_loss(doj, nd)
        } else if k2 || is_closer(doj, r.third) {
            old - ratio_loss(nd, doj)
        } else {
            old - ratio_loss(nd, td)
        }
    } else if doj < nd {
        old - ratio_loss(doj, nd)
    } else if is_closer(doj, r.seco) {
        old - ratio_loss(nd, doj)
    } else {
        0
    }
}

/// Finds the best medoid slot to hand over to object `j`: the largest
/// positive gain and its slot, or `(0, NO_MEDOID)` when no slot improves.
pub fn find_best_swap<M: ArrayAdapter>(
    mat: &M,
    med: &Vec<usize>,
    data: &Vec<Reco>,
    j: usize,
) -> (r: (i128, usize))
    requires
        mat.wf(),
        mat.size() <= u32::MAX,
        data@.len() == mat.size(),
        j < mat.size(),
    ensures
        r.0 == best_slot(mat, data@, j as int, med@.len() == 2, med@.len() as int).0,
        r.1 == best_slot(mat, data@, j as int, med@.len() == 2, med@.len() as int).1,
{
    let n = mat.len();
    let k = med.len();
    let k2 = k == 2;
    let recj = &data[j];
    let mut best: (i128, usize) = (0, NO_MEDOID);
    let mut m: usize = 0;
    while m < k
        invariant
            mat.wf(),
            n == mat.size(),
            n <= u32::MAX,
            data@.len() == n,
            j < n,
            k == med@.len(),
            k2 == (k == 2),
            *recj == data@[j as int],
            0 <= m <= k,
            best.0 == best_slot(mat, data@, j as int, k2, m as int).0,
            best.1 == best_slot(mat, data@, j as int, k2, m as int).1,
        decreases k - m,
    {
        proof {
            lemma_ratio_bounds(recj.near.d, entry_dist(recj.seco));
        }
        let mut acc: i128 = recj.loss();
        let mut o: usize = 0;
        while o < n
            invariant
                mat.wf(),
                n == mat.size(),
                n <= u32::MAX,
                data@.len() == n,
                j < n,
                m < k,
                *recj == data@[j as int],
                0 <= o <= n,
                acc == slot_gain(mat, data@, j as int, m, k2, o as int),
                -(o + 1) * term_max() <= acc <= (o + 1) * term_max(),
            decreases n - o,
        {
            if o != j {
                let doj = mat.get(o, j);
                proof {
                    lemma_gain_term_bounds(data@[o as int], doj, m, k2);
                    assert((o + 1) * term_max() <= 0x1_0000_0000 * term_max()) by (nonlinear_arith)
                        requires
                            o < 0xFFFF_FFFF,
                    ;
                }
                acc = acc + swap_delta(&data[o], doj, m, k2);
            }
            o += 1;
        }
        if acc > best.0 {
            best = (acc, m);
        }
        m += 1;
    }
    best
}

/// The best swap over the objects `0..upto` that do not hold a medoid
/// slot: `(gain, slot, object)` for the first object reaching the largest
/// positive gain, or `(0, k, NO_MEDOID)` when none improves.
pub open spec fn scan<M: ArrayAdapter>(mat: &M, meds: Seq<usize>, recs: Seq<Reco>, upto: int) -> (
    int,
    usize,
    usize,
)
    decreases upto,
{
    if upto <= 0 {
        (0, meds.len() as usize, NO_MEDOID)
    } else {
        let prev = scan(mat, meds, recs, upto - 1);
        let j = upto - 1;
        if j == meds[recs[j].near.i as int] {
            prev
        } else {
            let c = best_slot(mat, recs, j, meds.len() == 2, meds.len() as int);
            if c.0 <= prev.0 {
                prev
            } else {
                (c.0, c.1, j as usize)
            }
        }
    }
}

/// The best swap for the medoid list `meds`, over every object.
pub open spec fn best_swap<M: ArrayAdapter>(mat: &M, meds: Seq<usize>) -> (int, usize, usize) {
    scan(mat, meds, records(mat, meds), mat.size() as int)
}

pub proof fn lemma_scan_range<M: ArrayAdapter>(
    mat: &M,
    meds: Seq<usize>,
    recs: Seq<Reco>,
    upto: int,
)
    ensures
        scan(mat, meds, recs, upto).0 >= 0,
        scan(mat, meds, recs, upto).0 > 0 ==> scan(mat, meds, recs, upto).1 < meds.len()
            && scan(mat, meds, recs, upto).2 < upto,
    decreases upto,
{
    if upto > 0 {
        lemma_scan_range(mat, meds, recs, upto - 1);
        lemma_best_slot_range(mat, recs, upto - 1, meds.len() == 2, meds.len() as int);
    }
}

/// The medoid list after making the best swap.
pub open spec fn swapped_medoids<M: ArrayAdapter>(mat: &M, meds: Seq<usize>) -> Seq<usize> {
    meds.update(best_swap(mat, meds).1 as int, best_swap(mat, meds).2)
}

/// The object the scan picks holds no slot as its own nearest medoid.
proof fn lemma_scan_picks_free_object<M: ArrayAdapter>(
    mat: &M,
    meds: Seq<usize>,
    recs: Seq<Reco>,
    upto: int,
)
    requires
        upto <= u32::MAX,
    ensures
        scan(mat, meds, recs, upto).0 > 0 ==> scan(mat, meds, recs, upto).2 != meds[recs[scan(
            mat,
            meds,
            recs,
            upto,
        ).2 as int].near.i as int],
    decreases upto,
{
    if upto > 0 {
        lemma_scan_picks_free_object(mat, meds, recs, upto - 1);
        lemma_scan_range(mat, meds, recs, upto - 1);
    }
}

/// The best swap hands a slot to an object that holds none, so distinct
/// medoids stay distinct.
pub proof fn lemma_swap_keeps_distinct<M: ArrayAdapter>(mat: &M, meds: Seq<usize>)
    requires
        mat.size() <= u32::MAX,
        valid_medoids(mat, meds),
        best_swap(mat, meds).0 > 0,
    ensures
        valid_medoids(mat, swapped_medoids(mat, meds)),
        distinct(meds) ==> distinct(swapped_medoids(mat, meds)),
{
    let recs = records(mat, meds);
    let n = mat.size() as int;
    let j = best_swap(mat, meds).2;
    lemma_scan_range(mat, meds, recs, n);
    lemma_scan_picks_free_object(mat, meds, recs, n);
    if distinct(meds) {
        lemma_records_invariants(mat, meds);
        assert forall|s: int| 0 <= s < meds.len() implies meds[s] != j by {
            if meds[s] == j {
                assert(recs[meds[s] as int].near == (DistancePair { i: s as usize, d: 0 }));
            }
        }
    }
    let sw = swapped_medoids(mat, meds);
    assert forall|m: int| 0 <= m < sw.len() implies #[trigger] sw[m] < mat.size() by {
        if m != best_swap(mat, meds).1 {
            assert(sw[m] == meds[m]);
        }
    }
}

/// What one iteration of the swap search did.
#[derive(Clone, Copy, Debug, PartialEq, Eq, Structural)]
pub enum StepOutcome {
    /// A swap was made and lowered the aggregate loss to the given value.
    Improved(i128),
    /// The best swap did not lower the recomputed loss (given), so it was
    /// undone.
    Unstable(i128),
    /// No swap improves the loss; nothing was changed.
    Converged,
}

/// One iteration of the swap search: evaluates every swap of a medoid slot
/// with an object that holds no slot, and makes the best strictly improving
/// one, if any, unless it fails to lower the recomputed loss. `loss` is the
/// aggregate loss of the current medoids.
pub fn swap_step<M: ArrayAdapter>(
    mat: &M,
    med: &mut Vec<usize>,
    data: &mut Vec<Reco>,
    loss: i128,
) -> (r: StepOutcome)
    requires
        mat.wf(),
        mat.size() <= u32::MAX,
        valid_medoids(mat, old(med)@),
        old(med)@.len() >= 2,
        old(data)@ == records(mat, old(med)@),
    ensures
        best_swap(mat, old(med)@).0 <= 0 ==> r == StepOutcome::Converged && final(med)@ == old(
            med,
        )@,
        best_swap(mat, old(med)@).0 > 0 && total_loss(mat, swapped_medoids(mat, old(med)@)) < loss
            ==> r == StepOutcome::Improved(
            total_loss(mat, swapped_medoids(mat, old(med)@)) as i128,
        ) && final(med)@ == swapped_medoids(mat, old(med)@),
        best_swap(mat, old(med)@).0 > 0 && total_loss(mat, swapped_medoids(mat, old(med)@)) >= loss
            ==> r == StepOutcome::Unstable(
            total_loss(mat, swapped_medoids(mat, old(med)@)) as i128,
        ) && final(med)@ == old(med)@,
        final(med)@.len() == old(med)@.len(),
        valid_medoids(mat, final(med)@),
        distinct(old(med)@) ==> distinct(final(med)@),
        final(data)@ == records(mat, final(med)@),
        match r {
            StepOutcome::Improved(nl) => nl < loss,
            _ => true,
        },
{
    let n = mat.len();
    let k = med.len();
    let mut best: (i128, usize, usize) = (0, k, NO_MEDOID);
    let mut j: usize = 0;
    proof {
        lemma_records_slots(mat, med@);
    }
    while j < n
        invariant
            mat.wf(),
            n == mat.size(),
            n <= u32::MAX,
            k == med@.len(),
            valid_medoids(mat, med@),
            data@ == records(mat, med@),
            forall|i: int| 0 <= i < n ==> (#[trigger] data@[i]).near.i < k,
            0 <= j <= n,
            best.0 == scan(mat, med@, data@, j as int).0,
            best.1 == scan(mat, med@, data@, j as int).1,
            best.2 == scan(mat, med@, data@, j as int).2,
        decreases n - j,
    {
        if j != med[data[j].near.i] {
            let (change, b) = find_best_swap(mat, med, data, j);
            if change > best.0 {
                best = (change, b, j);
            }
        }
        j += 1;
    }
    if best.0 > 0 {
        proof {
            lemma_scan_range(mat, med@, data@, n as int);
        }
        proof {
            lemma_swap_keeps_distinct(mat, med@);
        }
        let prev = med[best.1];
        let ghost before = med@;
        let newloss = do_swap(mat, med, data, best.1, best.2);
        if newloss >= loss {
            do_swap(mat, med, data, best.1, prev);
            assert(med@ =~= before);
            StepOutcome::Unstable(newloss)
        } else {
            StepOutcome::Improved(newloss)
        }
    } else {
        StepOutcome::Converged
    }
}

} // verus!
