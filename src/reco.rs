//! Per-object records of the three nearest medoids, and the distance-ratio loss.

use vstd::prelude::*;

verus! {

/// Fixed-point scale of every loss value: `v` stands for `v / LOSS_SCALE`.
pub const LOSS_SCALE: i128 = 0x1000_0000_0000_0000;

/// The slot reported when no swap of any slot improves the loss.
pub const NO_MEDOID: usize = usize::MAX;

/// Upper bound of one distance-ratio term.
pub open spec fn term_max() -> int {
    0x1000_0000_0000_0000_0000_0000
}

/// The distance-ratio loss of an object whose nearest medoid is at
/// distance `a` and second nearest at distance `b`, in fixed point; zero
/// when either distance is zero.
pub open spec fn ratio(a: int, b: int) -> int {
    if a == 0 || b == 0 {
        0
    } else {
        a * LOSS_SCALE / b
    }
}

pub proof fn lemma_ratio_bounds(a: u32, b: u32)
    ensures
        0 <= ratio(a as int, b as int) <= term_max(),
{
    if a != 0 && b != 0 {
        let x = (a as int) * LOSS_SCALE;
        assert(0 <= x <= 0xFFFF_FFFF * LOSS_SCALE) by (nonlinear_arith)
            requires
                x == (a as int) * LOSS_SCALE,
                a <= 0xFFFF_FFFF,
        ;
        assert(0 <= x / (b as int) <= x) by (nonlinear_arith)
            requires
                x >= 0,
                b >= 1,
        ;
    }
}

/// Exact fixed-point value of `a / b`, or zero when either is zero.
pub fn ratio_loss(a: u32, b: u32) -> (r: i128)
    ensures
        r == ratio(a as int, b as int),
        a == 0 || b == 0 ==> r == 0,
        0 <= r <= term_max(),
{
    proof {
        lemma_ratio_bounds(a, b);
    }
    if a == 0 || b == 0 {
        0
    } else {
        assert((a as int) * LOSS_SCALE <= 0xFFFF_FFFF * LOSS_SCALE) by (nonlinear_arith)
            requires
                a <= 0xFFFF_FFFF,
        ;
        (a as i128) * LOSS_SCALE / (b as i128)
    }
}

/// A medoid slot and the distance from an object to that medoid.
#[derive(Clone, Copy, Debug, PartialEq, Eq, Structural)]
pub struct DistancePair {
    pub i: usize,
    pub d: u32,
}

/// An object's nearest, second and third nearest medoids; `None` where
/// fewer medoids are known.
#[derive(Clone, Copy, Debug, PartialEq, Eq, Structural)]
pub struct Reco {
    pub near: DistancePair,
    pub seco: Option<DistancePair>,
    pub third: Option<DistancePair>,
}

/// The distance of an optional entry, zero for an empty one (so that a
/// missing second medoid contributes no loss).
pub open spec fn entry_dist(p: Option<DistancePair>) -> u32 {
    match p {
        Some(q) => q.d,
        None => 0,
    }
}

/// Whether distance `d` is strictly closer than the entry `p`; an empty
/// entry is farther than any medoid.
pub open spec fn closer(d: u32, p: Option<DistancePair>) -> bool {
    match p {
        Some(q) => d < q.d,
        None => true,
    }
}

/// Whether the entry `p` names medoid slot `m`.
pub open spec fn names_slot(p: Option<DistancePair>, m: usize) -> bool {
    match p {
        Some(q) => q.i == m,
        None => false,
    }
}

pub fn entry_distance(p: Option<DistancePair>) -> (r: u32)
    ensures
        r == entry_dist(p),
{
    match p {
        Some(q) => q.d,
        None => 0,
    }
}

pub fn is_closer(d: u32, p: Option<DistancePair>) -> (r: bool)
    ensures
        r == closer(d, p),
{
    match p {
        Some(q) => d < q.d,
        None => true,
    }
}

pub fn is_slot(p: Option<DistancePair>, m: usize) -> (r: bool)
    ensures
        r == names_slot(p, m),
{
    match p {
        Some(q) => q.i == m,
        None => false,
    }
}

/// A record for an object that knows one medoid, in slot 0, at distance `d`.
pub open spec fn fresh_reco(d: u32) -> Reco {
    Reco { near: DistancePair { i: 0, d }, seco: None, third: None }
}

/// The record after the medoid in slot `l`, at distance `d`, is added;
/// `is_self` when the object is that medoid, which then becomes its nearest
/// at distance 0. Sorted insertion into three places.
pub open spec fn inserted(r: Reco, l: usize, d: u32, is_self: bool) -> Reco {
    let p = DistancePair { i: l, d };
    if is_self {
        Reco { near: DistancePair { i: l, d: 0 }, seco: Some(r.near), third: r.seco }
    } else if d < r.near.d {
        Reco { near: p, seco: Some(r.near), third: r.seco }
    } else if closer(d, r.seco) {
        Reco { near: r.near, seco: Some(p), third: r.seco }
    } else if closer(d, r.third) {
        Reco { near: r.near, seco: r.seco, third: Some(p) }
    } else {
        r
    }
}

/// The loss term of one record.
pub open spec fn reco_loss(r: Reco) -> int {
    ratio(r.near.d as int, entry_dist(r.seco) as int)
}

impl Reco {
    pub fn fresh(d: u32) -> (r: Reco)
        ensures
            r == fresh_reco(d),
    {
        Reco { near: DistancePair { i: 0, d }, seco: None, third: None }
    }

    pub fn insert(&self, l: usize, d: u32, is_self: bool) -> (r: Reco)
        ensures
            r == inserted(*self, l, d, is_self),
    {
        let p = DistancePair { i: l, d };
        if is_self {
            Reco { near: DistancePair { i: l, d: 0 }, seco: Some(self.near), third: self.seco }
        } else if d < self.near.d {
            Reco { near: p, seco: Some(self.near), third: self.seco }
        } else if is_closer(d, self.seco) {
            Reco { near: self.near, seco: Some(p), third: self.seco }
        } else if is_closer(d, self.third) {
            Reco { near: self.near, seco: self.seco, third: Some(p) }
        } else {
            *self
        }
    }

    pub fn loss(&self) -> (r: i128)
        ensures
            r == reco_loss(*self),
            0 <= r <= term_max(),
    {
        ratio_loss(self.near.d, entry_distance(self.seco))
    }
}

} // verus!
