use vstd::prelude::*;
use crate::golden::{
    Golden, Zphi, zadd, zmul, zneg, zsub, zbounded, phi, zpsi, zpsi2, COORD_LIMIT, MIX_LIMIT,
    lemma_mix_bound,
};

verus! {

/// The exact point `x + y * zeta` of the plane, where zeta = e^(i pi / 5) is a
/// primitive tenth root of unity and `x`, `y` lie in Z[phi].
pub struct Pt {
    pub x: Zphi,
    pub y: Zphi,
}

pub open spec fn padd(p: Pt, q: Pt) -> Pt {
    Pt { x: zadd(p.x, q.x), y: zadd(p.y, q.y) }
}

pub open spec fn psub(p: Pt, q: Pt) -> Pt {
    Pt { x: zsub(p.x, q.x), y: zsub(p.y, q.y) }
}

/// `psi * p`.
pub open spec fn ppsi(p: Pt) -> Pt {
    Pt { x: zpsi(p.x), y: zpsi(p.y) }
}

/// `psi^2 * p`.
pub open spec fn ppsi2(p: Pt) -> Pt {
    Pt { x: zpsi2(p.x), y: zpsi2(p.y) }
}

/// Rotation by 36 degrees about the origin: zeta * zeta == phi * zeta - 1.
pub open spec fn prot(p: Pt) -> Pt {
    Pt { x: zneg(p.y), y: zadd(p.x, zmul(phi(), p.y)) }
}

/// Reflection across the horizontal axis: the conjugate of zeta is phi - zeta.
pub open spec fn pconj(p: Pt) -> Pt {
    Pt { x: zadd(p.x, zmul(phi(), p.y)), y: zneg(p.y) }
}

pub open spec fn pneg(p: Pt) -> Pt {
    Pt { x: zneg(p.x), y: zneg(p.y) }
}

/// `psi^2 * p + psi * q`.
pub open spec fn pmix(p: Pt, q: Pt) -> Pt {
    padd(ppsi2(p), ppsi(q))
}

/// Twice the signed area of the parallelogram spanned by `u` and `v`, in units of sin(36 degrees).
pub open spec fn cross(u: Pt, v: Pt) -> Zphi {
    zsub(zmul(u.x, v.y), zmul(u.y, v.x))
}

pub open spec fn pbounded(p: Pt, b: int) -> bool {
    zbounded(p.x, b) && zbounded(p.y, b)
}

/// An exact point with machine-integer coordinates.
#[derive(Clone, Copy, PartialEq, Eq, Structural, Debug)]
pub struct Point {
    pub x: Golden,
    pub y: Golden,
}

impl View for Point {
    type V = Pt;

    open spec fn view(&self) -> Pt {
        Pt { x: self.x@, y: self.y@ }
    }
}

impl Point {
    pub fn new(x: Golden, y: Golden) -> (r: Point)
        ensures
            r@ == (Pt { x: x@, y: y@ }),
    {
        Point { x, y }
    }

    /// The point rotated by 36 degrees about the origin.
    pub fn rotate(self) -> (r: Point)
        requires
            pbounded(self@, COORD_LIMIT as int),
        ensures
            r@ == prot(self@),
    {
        Point { x: self.y.neg(), y: self.x.add_phi_times(self.y) }
    }

    /// The point reflected through the origin.
    pub fn neg(self) -> (r: Point)
        requires
            pbounded(self@, COORD_LIMIT as int),
        ensures
            r@ == pneg(self@),
    {
        Point { x: self.x.neg(), y: self.y.neg() }
    }

    /// The point reflected across the horizontal axis.
    pub fn conj(self) -> (r: Point)
        requires
            pbounded(self@, COORD_LIMIT as int),
        ensures
            r@ == pconj(self@),
    {
        Point { x: self.x.add_phi_times(self.y), y: self.y.neg() }
    }

    /// `psi^2 * p + psi * q`.
    pub fn mix(p: Point, q: Point) -> (r: Point)
        requires
            pbounded(p@, MIX_LIMIT as int),
            pbounded(q@, MIX_LIMIT as int),
        ensures
            r@ == pmix(p@, q@),
    {
        Point { x: Golden::mix(p.x, q.x), y: Golden::mix(p.y, q.y) }
    }
}

pub proof fn lemma_pmix_bound(p: Pt, q: Pt, b: int)
    requires
        pbounded(p, b),
        pbounded(q, b),
    ensures
        pbounded(pmix(p, q), 5 * b),
{
    lemma_mix_bound(p.x, q.x, b);
    lemma_mix_bound(p.y, q.y, b);
}

} // verus!
