use vstd::prelude::*;

verus! {

/// An element `m + n * phi` of the ring Z[phi], where phi is the golden ratio.
pub struct Zphi {
    pub m: int,
    pub n: int,
}

pub open spec fn zphi(m: int, n: int) -> Zphi {
    Zphi { m, n }
}

pub open spec fn zadd(a: Zphi, b: Zphi) -> Zphi {
    Zphi { m: a.m + b.m, n: a.n + b.n }
}

pub open spec fn zneg(a: Zphi) -> Zphi {
    Zphi { m: -a.m, n: -a.n }
}

pub open spec fn zsub(a: Zphi, b: Zphi) -> Zphi {
    zadd(a, zneg(b))
}

/// Product in Z[phi], using phi * phi == phi + 1.
pub open spec fn zmul(a: Zphi, b: Zphi) -> Zphi {
    Zphi { m: a.m * b.m + a.n * b.n, n: a.m * b.n + a.n * b.m + a.n * b.n }
}

pub open spec fn zero() -> Zphi {
    Zphi { m: 0, n: 0 }
}

pub open spec fn phi() -> Zphi {
    Zphi { m: 0, n: 1 }
}

/// `psi * x`, where psi = phi - 1 = 1 / phi is the golden ratio conjugate:
/// `(m + n phi)(phi - 1) == (n - m) + m phi`.
pub open spec fn zpsi(x: Zphi) -> Zphi {
    Zphi { m: x.n - x.m, n: x.m }
}

/// `psi^2 * x`, using psi * psi == 1 - psi.
pub open spec fn zpsi2(x: Zphi) -> Zphi {
    Zphi { m: 2 * x.m - x.n, n: x.n - x.m }
}

/// Both integer coordinates lie in `[-b, b]`.
pub open spec fn zbounded(z: Zphi, b: int) -> bool {
    -b <= z.m <= b && -b <= z.n <= b
}

/// Largest coordinate magnitude that the exact arithmetic keeps in a tiling (2^61).
pub const COORD_LIMIT: i64 = 0x2000_0000_0000_0000;

/// Largest input coordinate magnitude for a golden mix (2^60): the mix grows it at most fivefold.
pub const MIX_LIMIT: i64 = 0x1000_0000_0000_0000;

/// An exact number `m + n * phi` with machine-integer coordinates.
#[derive(Clone, Copy, PartialEq, Eq, Structural, Debug)]
pub struct Golden {
    pub m: i64,
    pub n: i64,
}

impl View for Golden {
    type V = Zphi;

    open spec fn view(&self) -> Zphi {
        Zphi { m: self.m as int, n: self.n as int }
    }
}

impl Golden {
    pub fn new(m: i64, n: i64) -> (r: Golden)
        ensures
            r@ == zphi(m as int, n as int),
    {
        Golden { m, n }
    }

    pub fn neg(self) -> (r: Golden)
        requires
            zbounded(self@, COORD_LIMIT as int),
        ensures
            r@ == zneg(self@),
    {
        Golden { m: -self.m, n: -self.n }
    }

    /// `self + phi * o`.
    pub fn add_phi_times(self, o: Golden) -> (r: Golden)
        requires
            zbounded(self@, COORD_LIMIT as int),
            zbounded(o@, COORD_LIMIT as int),
        ensures
            r@ == zadd(self@, zmul(phi(), o@)),
    {
        Golden { m: self.m + o.n, n: self.n + o.m + o.n }
    }

    /// `psi^2 * p + psi * q`: the point dividing a segment from `p` to `q` in the golden ratio.
    pub fn mix(p: Golden, q: Golden) -> (r: Golden)
        requires
            zbounded(p@, MIX_LIMIT as int),
            zbounded(q@, MIX_LIMIT as int),
        ensures
            r@ == zadd(zpsi2(p@), zpsi(q@)),
    {
        Golden { m: 2 * p.m - p.n + q.n - q.m, n: p.n - p.m + q.m }
    }
}

/// Growth of coordinates under a golden mix.
pub proof fn lemma_mix_bound(p: Zphi, q: Zphi, b: int)
    requires
        zbounded(p, b),
        zbounded(q, b),
    ensures
        zbounded(zadd(zpsi2(p), zpsi(q)), 5 * b),
{
}

} // verus!
