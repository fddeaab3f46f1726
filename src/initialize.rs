//! Greedy initialization of the medoids.

use vstd::prelude::*;
use crate::arrayadapter::ArrayAdapter;
use crate::assign::{
    assign_rec, distinct, lemma_assign_rec_push, lemma_records_invariants, own_dist, records,
    sum_loss, total_loss, valid_medoids,
};
use crate::reco::{term_max, Reco};

verus! {

/// Sum of the distances from the objects `0..upto` other than `i` to `i`.
pub open spec fn col_total<M: ArrayAdapter>(mat: &M, i: int, upto: int) -> int
    decreases upto,
{
    if upto <= 0 {
        0
    } else {
        col_total(mat, i, upto - 1) + if upto - 1 == i {
            0
        } else {
            mat.dist(upto - 1, i) as int
        }
    }
}

/// The first medoid among the objects `0..upto`: the first object of least
/// distance sum to all others.
pub open spec fn first_medoid<M: ArrayAdapter>(mat: &M, upto: int) -> int
    decreases upto,
{
    if upto <= 1 {
        0
    } else {
        let b = first_medoid(mat, upto - 1);
        let i = upto - 1;
        if col_total(mat, i, mat.size() as int) < col_total(mat, b, mat.size() as int) {
            i
        } else {
            b
        }
    }
}

/// Change of the summed nearest-medoid distance when object `i` becomes a
/// medoid, counting the objects `0..upto`: minus its own nearest distance,
/// plus each decrease of another object's nearest distance.
pub open spec fn cand_total<M: ArrayAdapter>(mat: &M, recs: Seq<Reco>, i: int, upto: int) -> int
    decreases upto,
{
    if upto <= 0 {
        -(recs[i].near.d as int)
    } else {
        let j = upto - 1;
        cand_total(mat, recs, i, upto - 1) + if j != i && mat.dist(j, i) < recs[j].near.d {
            mat.dist(j, i) - recs[j].near.d
        } else {
            0
        }
    }
}

/// The candidate among the objects `0..upto` with the least change, the
/// first one reaching it, as `(change, object)`; `(0, k)` when no change is
/// negative.
pub open spec fn best_candidate<M: ArrayAdapter>(mat: &M, recs: Seq<Reco>, k: int, upto: int) -> (
    int,
    int,
)
    decreases upto,
{
    if upto <= 0 {
        (0, k)
    } else {
        let prev = best_candidate(mat, recs, k, upto - 1);
        let c = cand_total(mat, recs, upto - 1, recs.len() as int);
        if c < prev.0 {
            (c, upto - 1)
        } else {
            prev
        }
    }
}

/// Greedy selection from the medoids `meds` up to `k` medoids: each round
/// adds the best candidate, and selection stops early when no candidate
/// lowers the summed nearest distance.
pub open spec fn build_from<M: ArrayAdapter>(mat: &M, k: int, meds: Seq<usize>) -> Seq<usize>
    decreases k - meds.len(),
{
    if meds.len() >= k {
        meds
    } else {
        let c = best_candidate(mat, records(mat, meds), k, mat.size() as int);
        if c.0 >= 0 {
            meds
        } else {
            build_from(mat, k, meds.push(c.1 as usize))
        }
    }
}

/// The medoids chosen by the greedy initialization for `k` clusters.
pub open spec fn build_medoids<M: ArrayAdapter>(mat: &M, k: int) -> Seq<usize> {
    build_from(mat, k, seq![first_medoid(mat, mat.size() as int) as usize])
}

proof fn lemma_best_candidate_range<M: ArrayAdapter>(mat: &M, recs: Seq<Reco>, k: int, upto: int)
    ensures
        best_candidate(mat, recs, k, upto).0 < 0 ==> 0 <= best_candidate(mat, recs, k, upto).1
            < upto,
    decreases upto,
{
    if upto > 0 {
        lemma_best_candidate_range(mat, recs, k, upto - 1);
    }
}

/// A negative best change is the change of the object it names.
proof fn lemma_best_candidate_value<M: ArrayAdapter>(mat: &M, recs: Seq<Reco>, k: int, upto: int)
    ensures
        best_candidate(mat, recs, k, upto).0 < 0 ==> cand_total(
            mat,
            recs,
            best_candidate(mat, recs, k, upto).1,
            recs.len() as int,
        ) == best_candidate(mat, recs, k, upto).0,
    decreases upto,
{
    if upto > 0 {
        lemma_best_candidate_value(mat, recs, k, upto - 1);
    }
}

/// With distinct medoids, adding an existing medoid changes nothing, so
/// its change is zero.
proof fn lemma_medoid_change_zero<M: ArrayAdapter>(mat: &M, meds: Seq<usize>, s: int, upto: int)
    requires
        distinct(meds),
        1 <= meds.len() < u32::MAX,
        0 <= s < meds.len(),
        meds[s] < mat.size(),
        upto <= mat.size(),
    ensures
        cand_total(mat, records(mat, meds), meds[s] as int, upto) == 0,
    decreases upto,
{
    lemma_records_invariants(mat, meds);
    let recs = records(mat, meds);
    let i = meds[s] as int;
    assert(recs[i].near.d == 0);
    if upto > 0 {
        lemma_medoid_change_zero(mat, meds, s, upto - 1);
        let j = upto - 1;
        if j != i {
            assert(recs[j].near.d <= own_dist(mat, j, meds[s] as int));
        }
    }
}

/// Sum of the distances from every other object to object `i`.
fn column_sum<M: ArrayAdapter>(mat: &M, i: usize) -> (r: u64)
    requires
        mat.wf(),
        mat.size() <= u32::MAX,
        i < mat.size(),
    ensures
        r == col_total(mat, i as int, mat.size() as int),
{
    let n = mat.len();
    let mut sum: u64 = 0;
    let mut j: usize = 0;
    while j < n
        invariant
            mat.wf(),
            n == mat.size(),
            n <= u32::MAX,
            i < n,
            0 <= j <= n,
            sum == col_total(mat, i as int, j as int),
            sum <= j * 0xFFFF_FFFF,
        decreases n - j,
    {
        if j != i {
            assert((j + 1) * 0xFFFF_FFFF <= 0xFFFF_FFFF * 0xFFFF_FFFF) by (nonlinear_arith)
                requires
                    j < 0xFFFF_FFFF,
            ;
            sum = sum + mat.get(j, i) as u64;
        }
        j += 1;
    }
    sum
}

/// Change of the summed nearest-medoid distance if object `i` became a
/// medoid.
fn candidate_change<M: ArrayAdapter>(mat: &M, data: &Vec<Reco>, i: usize) -> (r: i128)
    requires
        mat.wf(),
        mat.size() <= u32::MAX,
        data@.len() == mat.size(),
        i < mat.size(),
    ensures
        r == cand_total(mat, data@, i as int, mat.size() as int),
{
    let n = mat.len();
    let mut sum: i128 = -(data[i].near.d as i128);
    let mut j: usize = 0;
    while j < n
        invariant
            mat.wf(),
            n == mat.size(),
            n <= u32::MAX,
            data@.len() == n,
            i < n,
            0 <= j <= n,
            sum == cand_total(mat, data@, i as int, j as int),
            -(j + 1) * 0x1_0000_0000 <= sum <= 0,
        decreases n - j,
    {
        if j != i {
            let d = mat.get(j, i);
            if d < data[j].near.d {
                sum = sum + (d as i128 - data[j].near.d as i128);
            }
        }
        j += 1;
    }
    sum
}

/// The greedy initialization: picks the first medoid of least distance sum,
/// then adds medoids one at a time while some candidate lowers the summed
/// nearest distance, keeping every object's record up to date. Returns the
/// aggregate loss of the chosen medoids.
pub(crate) fn pammedsil_build_initialize<M: ArrayAdapter>(
    mat: &M,
    meds: &mut Vec<usize>,
    data: &mut Vec<Reco>,
    k: usize,
) -> (loss: i128)
    requires
        mat.wf(),
        mat.size() <= u32::MAX,
        1 <= k <= mat.size(),
        k < u32::MAX,
        old(meds)@.len() == 0,
        old(data)@.len() == 0,
    ensures
        final(meds)@ == build_medoids(mat, k as int),
        final(meds)@.len() <= k,
        distinct(final(meds)@),
        valid_medoids(mat, final(meds)@),
        final(data)@ == records(mat, final(meds)@),
        loss == total_loss(mat, final(meds)@),
{
    let n = mat.len();
    // choose the first medoid
    let mut first: usize = 0;
    let mut first_sum: u64 = 0;
    let mut i: usize = 0;
    while i < n
        invariant
            mat.wf(),
            n == mat.size(),
            n <= u32::MAX,
            0 <= i <= n,
            i > 0 ==> first == first_medoid(mat, i as int),
            i > 0 ==> first < i,
            i > 0 ==> first_sum == col_total(mat, first as int, n as int),
        decreases n - i,
    {
        let sum = column_sum(mat, i);
        if i == 0 || sum < first_sum {
            first = i;
            first_sum = sum;
        }
        i += 1;
    }
    meds.push(first);
    let mut loss: i128 = 0;
    let mut j: usize = 0;
    while j < n
        invariant
            mat.wf(),
            n == mat.size(),
            n <= u32::MAX,
            first < n,
            meds@ == seq![first],
            0 <= j <= n,
            data@.len() == j,
            forall|x: int| 0 <= x < j ==> data@[x] == assign_rec(mat, meds@, x, 1),
            loss == sum_loss(data@),
            0 <= loss <= j * term_max(),
        decreases n - j,
    {
        let d0 = if j == first {
            0
        } else {
            mat.get(j, first)
        };
        let r = Reco::fresh(d0);
        let t = r.loss();
        let ghost prev = data@;
        data.push(r);
        assert(data@.drop_last() =~= prev);
        assert((j + 1) * term_max() <= 0x1_0000_0000 * term_max()) by (nonlinear_arith)
            requires
                j < 0xFFFF_FFFF,
        ;
        loss = loss + t;
        j += 1;
    }
    assert(data@ =~= records(mat, meds@));
    let ghost target = build_medoids(mat, k as int);
    // choose the remaining medoids
    let mut l: usize = 1;
    let mut stop = false;
    while l < k && !stop
        invariant
            mat.wf(),
            n == mat.size(),
            n <= u32::MAX,
            1 <= k <= n,
            k < u32::MAX,
            meds@.len() == l,
            1 <= l <= k,
            valid_medoids(mat, meds@),
            distinct(meds@),
            data@ == records(mat, meds@),
            loss == total_loss(mat, meds@),
            !stop ==> build_from(mat, k as int, meds@) == target,
            stop ==> meds@ == target,
        decreases 2 * (k - l) + if stop { 0int } else { 1int },
    {
        let mut best: (i128, usize) = (0, k);
        let mut i: usize = 0;
        while i < n
            invariant
                mat.wf(),
                n == mat.size(),
                n <= u32::MAX,
                data@.len() == n,
                0 <= i <= n,
                best.0 == best_candidate(mat, data@, k as int, i as int).0,
                best.1 == best_candidate(mat, data@, k as int, i as int).1,
            decreases n - i,
        {
            let sum = candidate_change(mat, data, i);
            if sum < best.0 {
                best = (sum, i);
            }
            i += 1;
        }
        if best.0 >= 0 {
            stop = true;
        } else {
            proof {
                lemma_best_candidate_range(mat, data@, k as int, n as int);
                lemma_best_candidate_value(mat, data@, k as int, n as int);
                assert forall|s: int| 0 <= s < meds@.len() implies meds@[s] != best.1 by {
                    if meds@[s] == best.1 {
                        lemma_medoid_change_zero(mat, meds@, s, n as int);
                    }
                }
            }
            let b = best.1;
            let ghost old_meds = meds@;
            let ghost new_meds = meds@.push(b);
            loss = 0;
            let mut j: usize = 0;
            while j < n
                invariant
                    mat.wf(),
                    n == mat.size(),
                    n <= u32::MAX,
                    b < n,
                    l == old_meds.len(),
                    1 <= l < k,
                    k < u32::MAX,
                    new_meds == old_meds.push(b),
                    data@.len() == n,
                    0 <= j <= n,
                    forall|x: int| 0 <= x < j ==> data@[x] == assign_rec(mat, new_meds, x, l + 1),
                    forall|x: int| j <= x < n ==> data@[x] == assign_rec(mat, old_meds, x, l as int),
                    loss == sum_loss(data@.subrange(0, j as int)),
                    0 <= loss <= j * term_max(),
                decreases n - j,
            {
                proof {
                    lemma_assign_rec_push(mat, old_meds, b, j as int, l as int);
                    assert(new_meds[l as int] == b);
                }
                let ghost prev = data@;
                let r = data[j].insert(l, mat.get(j, b), j == b);
                assert(r == assign_rec(mat, new_meds, j as int, l + 1));
                data.set(j, r);
                assert(data@.subrange(0, j as int) =~= prev.subrange(0, j as int));
                let t = r.loss();
                assert(data@.subrange(0, j + 1).drop_last() =~= data@.subrange(0, j as int));
                assert((j + 1) * term_max() <= 0x1_0000_0000 * term_max()) by (nonlinear_arith)
                    requires
                        j < 0xFFFF_FFFF,
                ;
                loss = loss + t;
                j += 1;
            }
            meds.push(b);
            assert(meds@ == new_meds);
            assert(data@ =~= records(mat, meds@));
            assert(data@.subrange(0, n as int) =~= data@);
            l += 1;
        }
    }
    loss
}

} // verus!
