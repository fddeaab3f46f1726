//! Records of every object for a given medoid list, the aggregate loss, and the swap primitive.

use vstd::prelude::*;
use crate::arrayadapter::ArrayAdapter;
use crate::reco::{
    entry_dist, fresh_reco, inserted, lemma_ratio_bounds, reco_loss, term_max, DistancePair, Reco,
};

verus! {

/// Distance from object `i` to medoid `m`, zero when `i` is that medoid.
pub open spec fn own_dist<M: ArrayAdapter>(mat: &M, i: int, m: int) -> u32 {
    if i == m {
        0
    } else {
        mat.dist(i, m)
    }
}

/// The record of object `i` once the medoids in slots `0..l` are known,
/// inserted in slot order.
pub open spec fn assign_rec<M: ArrayAdapter>(mat: &M, meds: Seq<usize>, i: int, l: int) -> Reco
    decreases l,
{
    if l <= 1 {
        fresh_reco(own_dist(mat, i, meds[0] as int))
    } else {
        inserted(
            assign_rec(mat, meds, i, l - 1),
            (l - 1) as usize,
            mat.dist(i, meds[l - 1] as int),
            i == meds[l - 1],
        )
    }
}

/// The record of every object for the medoid list `meds`.
pub open spec fn records<M: ArrayAdapter>(mat: &M, meds: Seq<usize>) -> Seq<Reco> {
    Seq::new(mat.size(), |i: int| assign_rec(mat, meds, i, meds.len() as int))
}

/// Sum of the loss terms of a sequence of records.
pub open spec fn sum_loss(s: Seq<Reco>) -> int
    decreases s.len(),
{
    if s.len() == 0 {
        0
    } else {
        sum_loss(s.drop_last()) + reco_loss(s.last())
    }
}

/// The aggregate loss (sum of distance ratios) of a medoid list.
pub open spec fn total_loss<M: ArrayAdapter>(mat: &M, meds: Seq<usize>) -> int {
    sum_loss(records(mat, meds))
}

/// A non-empty medoid list, no longer than the number of objects, whose
/// entries are objects of the matrix.
pub open spec fn valid_medoids<M: ArrayAdapter>(mat: &M, meds: Seq<usize>) -> bool {
    &&& 1 <= meds.len() <= mat.size()
    &&& meds.len() < u32::MAX
    &&& forall|m: int| 0 <= m < meds.len() ==> #[trigger] meds[m] < mat.size()
}

/// Every slot a record names is one of the slots `0..l`, or empty.
pub proof fn lemma_rec_slots<M: ArrayAdapter>(mat: &M, meds: Seq<usize>, i: int, l: int)
    requires
        1 <= l <= meds.len(),
        meds.len() < u32::MAX,
    ensures
        assign_rec(mat, meds, i, l).near.i < l,
        assign_rec(mat, meds, i, l).seco matches Some(q) ==> q.i < l,
        assign_rec(mat, meds, i, l).third matches Some(q) ==> q.i < l,
        l >= 2 <==> assign_rec(mat, meds, i, l).seco is Some,
        l >= 3 <==> assign_rec(mat, meds, i, l).third is Some,
    decreases l,
{
    if l > 1 {
        lemma_rec_slots(mat, meds, i, l - 1);
    }
}

/// The records of a medoid list, with slots in range.
pub proof fn lemma_records_slots<M: ArrayAdapter>(mat: &M, meds: Seq<usize>)
    requires
        1 <= meds.len() < u32::MAX,
    ensures
        forall|i: int|
            0 <= i < mat.size() ==> (#[trigger] records(mat, meds)[i]).near.i < meds.len(),
        meds.len() >= 2 ==> forall|i: int|
            0 <= i < mat.size() ==> (#[trigger] records(mat, meds)[i]).seco is Some,
{
    assert forall|i: int| 0 <= i < mat.size() implies (#[trigger] records(mat, meds)[i]).near.i
        < meds.len() && (meds.len() >= 2 ==> records(mat, meds)[i].seco is Some) by {
        lemma_rec_slots(mat, meds, i, meds.len() as int);
    }
}

pub proof fn lemma_sum_loss_bounds(s: Seq<Reco>)
    ensures
        0 <= sum_loss(s) <= s.len() * term_max(),
    decreases s.len(),
{
    if s.len() > 0 {
        lemma_sum_loss_bounds(s.drop_last());
        lemma_ratio_bounds(s.last().near.d, entry_dist(s.last().seco));
    }
}

/// Computes the records of every object for the medoids `med`, and the
/// aggregate loss.
pub fn initial_assignment<M: ArrayAdapter>(mat: &M, med: &Vec<usize>) -> (r: (i128, Vec<Reco>))
    requires
        mat.wf(),
        mat.size() <= u32::MAX,
        valid_medoids(mat, med@),
    ensures
        r.1@ == records(mat, med@),
        r.0 == total_loss(mat, med@),
{
    let n = mat.len();
    let k = med.len();
    let mut data: Vec<Reco> = Vec::new();
    let mut loss: i128 = 0;
    let mut i: usize = 0;
    while i < n
        invariant
            mat.wf(),
            n == mat.size(),
            n <= u32::MAX,
            k == med@.len(),
            valid_medoids(mat, med@),
            0 <= i <= n,
            data@.len() == i,
            forall|x: int| 0 <= x < i ==> data@[x] == assign_rec(mat, med@, x, k as int),
            loss == sum_loss(data@),
        decreases n - i,
    {
        let d0 = if i == med[0] {
            0
        } else {
            mat.get(i, med[0])
        };
        let mut cur = Reco::fresh(d0);
        let mut m: usize = 1;
        while m < k
            invariant
                mat.wf(),
                n == mat.size(),
                i < n,
                k == med@.len(),
                valid_medoids(mat, med@),
                1 <= m <= k,
                cur == assign_rec(mat, med@, i as int, m as int),
            decreases k - m,
        {
            let me = med[m];
            cur = cur.insert(m, mat.get(i, me), i == me);
            m += 1;
        }
        let t = cur.loss();
        proof {
            lemma_sum_loss_bounds(data@);
            assert(data@.len() * term_max() <= 0xFFFF_FFFF * term_max()) by (nonlinear_arith)
                requires
                    data@.len() <= 0xFFFF_FFFF,
            ;
        }
        let ghost before = data@;
        data.push(cur);
        assert(data@.drop_last() =~= before);
        loss = loss + t;
        i += 1;
    }
    assert(data@ =~= records(mat, med@));
    (loss, data)
}

/// Replaces the medoid in slot `b` by object `j`, recomputes every record,
/// and returns the new aggregate loss.
pub fn do_swap<M: ArrayAdapter>(
    mat: &M,
    med: &mut Vec<usize>,
    data: &mut Vec<Reco>,
    b: usize,
    j: usize,
) -> (loss: i128)
    requires
        mat.wf(),
        mat.size() <= u32::MAX,
        valid_medoids(mat, old(med)@),
        b < old(med)@.len(),
        j < mat.size(),
    ensures
        final(med)@ == old(med)@.update(b as int, j),
        valid_medoids(mat, final(med)@),
        final(data)@ == records(mat, final(med)@),
        loss == total_loss(mat, final(med)@),
{
    med.set(b, j);
    assert forall|m: int| 0 <= m < med@.len() implies #[trigger] med@[m] < mat.size() by {
        if m != b {
            assert(med@[m] == old(med)@[m]);
        }
    }
    let (loss, recs) = initial_assignment(mat, med);
    *data = recs;
    loss
}

/// Appending a medoid leaves the records of the earlier slots unchanged.
pub proof fn lemma_assign_rec_push<M: ArrayAdapter>(
    mat: &M,
    meds: Seq<usize>,
    x: usize,
    i: int,
    l: int,
)
    requires
        1 <= l <= meds.len(),
    ensures
        assign_rec(mat, meds.push(x), i, l) == assign_rec(mat, meds, i, l),
    decreases l,
{
    if l > 1 {
        lemma_assign_rec_push(mat, meds, x, i, l - 1);
    }
}

/// No object appears twice in the medoid list.
pub open spec fn distinct(meds: Seq<usize>) -> bool {
    forall|a: int, b: int| 0 <= a < b < meds.len() ==> meds[a] != meds[b]
}

/// A record lists its medoids by non-decreasing distance, and has a third
/// medoid only after a second.
pub open spec fn sorted_reco(r: Reco) -> bool {
    &&& (r.seco matches Some(q) ==> r.near.d <= q.d)
    &&& (r.third matches Some(t) ==> r.seco matches Some(q) && q.d <= t.d)
}

/// Every record is sorted by distance.
pub proof fn lemma_rec_sorted<M: ArrayAdapter>(mat: &M, meds: Seq<usize>, i: int, l: int)
    ensures
        sorted_reco(assign_rec(mat, meds, i, l)),
    decreases l,
{
    if l > 1 {
        lemma_rec_sorted(mat, meds, i, l - 1);
    }
}

/// The nearest distance of a record is at most the distance to each medoid
/// it knows.
pub proof fn lemma_rec_near_min<M: ArrayAdapter>(mat: &M, meds: Seq<usize>, i: int, l: int, s: int)
    requires
        0 <= s < l <= meds.len(),
    ensures
        assign_rec(mat, meds, i, l).near.d <= own_dist(mat, i, meds[s] as int),
    decreases l,
{
    if l > 1 && s < l - 1 {
        lemma_rec_near_min(mat, meds, i, l - 1, s);
    }
}

/// With distinct medoids, the record of the medoid in slot `s` has that
/// slot as its nearest, at distance 0.
pub proof fn lemma_rec_self_near<M: ArrayAdapter>(mat: &M, meds: Seq<usize>, i: int, l: int, s: int)
    requires
        distinct(meds),
        0 <= s < l <= meds.len(),
        i == meds[s],
    ensures
        assign_rec(mat, meds, i, l).near == (DistancePair { i: s as usize, d: 0 }),
    decreases l,
{
    if l > 1 && s < l - 1 {
        lemma_rec_self_near(mat, meds, i, l - 1, s);
    }
}

/// The records of distinct medoids keep the data-model invariants: sorted
/// by distance, nearest medoid at most as far as any medoid, and a medoid's
/// own record names its slot at distance 0.
pub proof fn lemma_records_invariants<M: ArrayAdapter>(mat: &M, meds: Seq<usize>)
    requires
        distinct(meds),
        1 <= meds.len() < u32::MAX,
    ensures
        forall|i: int| 0 <= i < mat.size() ==> sorted_reco(#[trigger] records(mat, meds)[i]),
        forall|i: int, s: int|
            0 <= i < mat.size() && 0 <= s < meds.len() ==> (#[trigger] records(mat, meds)[i]).near.d
                <= own_dist(mat, i, #[trigger] meds[s] as int),
        forall|s: int|
            0 <= s < meds.len() && meds[s] < mat.size() ==> (#[trigger] records(mat, meds)[meds[s] as int]).near
                == (DistancePair { i: s as usize, d: 0 }),
{
    let l = meds.len() as int;
    assert forall|i: int| 0 <= i < mat.size() implies sorted_reco(#[trigger] records(mat, meds)[i]) by {
        lemma_rec_sorted(mat, meds, i, l);
    }
    assert forall|i: int, s: int| 0 <= i < mat.size() && 0 <= s < meds.len() implies (
    #[trigger] records(mat, meds)[i]).near.d <= own_dist(mat, i, #[trigger] meds[s] as int) by {
        lemma_rec_near_min(mat, meds, i, l, s);
    }
    assert forall|s: int| 0 <= s < meds.len() && meds[s] < mat.size() implies (#[trigger] records(
        mat,
        meds,
    )[meds[s] as int]).near == (DistancePair { i: s as usize, d: 0 }) by {
        lemma_rec_self_near(mat, meds, meds[s] as int, l, s);
    }
}

} // verus!
