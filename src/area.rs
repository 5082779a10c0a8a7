use vstd::prelude::*;
use crate::golden::{Zphi, zadd, zsub, zmul, zneg, zero, zpsi};
use crate::point::{Pt, psub, cross, pmix, ppsi, pneg};
use crate::tile::{BTile, Tri, inflate_spec, inflate_tile_spec};

verus! {

/// `p + q * sqrt(5) >= 0`, decided over the integers.
pub open spec fn s5_nonneg(p: int, q: int) -> bool {
    ||| (p >= 0 && q >= 0)
    ||| (p >= 0 && q < 0 && p * p >= 5 * (q * q))
    ||| (p < 0 && q > 0 && 5 * (q * q) >= p * p)
}

/// `m + n * phi >= 0`: twice it is `(2m + n) + n * sqrt(5)`.
pub open spec fn znonneg(z: Zphi) -> bool {
    s5_nonneg(2 * z.m + z.n, z.n)
}

/// Absolute value in Z[phi].
pub open spec fn zabs(z: Zphi) -> Zphi {
    if znonneg(z) {
        z
    } else {
        zneg(z)
    }
}

/// sqrt(5) is irrational.
pub proof fn lemma_sqrt5_irrational(p: int, q: int)
    requires
        p * p == 5 * (q * q),
    ensures
        p == 0 && q == 0,
    decreases (if q < 0 { -q } else { q }),
{
    if q == 0 {
        assert(p == 0) by (nonlinear_arith)
            requires p * p == 0;
    } else {
        let r = p % 5;
        let k = p / 5;
        assert(p == 5 * k + r);
        assert(p * p == 25 * k * k + 10 * k * r + r * r) by (nonlinear_arith)
            requires p == 5 * k + r;
        assert(r == 0) by (nonlinear_arith)
            requires
                0 <= r < 5,
                25 * k * k + 10 * k * r + r * r == 5 * (q * q),
        {
            assert(r * r == 5 * (q * q - 5 * k * k - 2 * k * r));
            assert(r == 0 || r == 1 || r == 2 || r == 3 || r == 4);
        }
        assert(q * q == 5 * (k * k)) by (nonlinear_arith)
            requires p == 5 * k, p * p == 5 * (q * q);
        assert((if k < 0 { -k } else { k }) < (if q < 0 { -q } else { q })) by (nonlinear_arith)
            requires q * q == 5 * (k * k), q != 0;
        lemma_sqrt5_irrational(q, k);
    }
}

proof fn lemma_s5_neg(p: int, q: int)
    requires
        p != 0 || q != 0,
    ensures
        s5_nonneg(p, q) != s5_nonneg(-p, -q),
{
    if p * p == 5 * (q * q) {
        lemma_sqrt5_irrational(p, q);
    }
    assert((-p) * (-p) == p * p) by (nonlinear_arith);
    assert((-q) * (-q) == q * q) by (nonlinear_arith);
}

/// Multiplying by psi = (sqrt(5) - 1) / 2 keeps the sign: twice the product is
/// `(5q - p) + (p - q) * sqrt(5)`.
proof fn lemma_s5_psi(p: int, q: int)
    ensures
        s5_nonneg(5 * q - p, p - q) == s5_nonneg(p, q),
{
    let p2 = 5 * q - p;
    let q2 = p - q;
    assert(p2 * p2 - 5 * (q2 * q2) == 4 * (5 * (q * q) - p * p)) by (nonlinear_arith)
        requires p2 == 5 * q - p, q2 == p - q;
    if p >= 0 && q >= 0 {
        if p > 5 * q {
            assert(p * p > 5 * (q * q)) by (nonlinear_arith)
                requires p > 5 * q, q >= 0;
        }
        if p < q {
            assert(p * p <= q * q) by (nonlinear_arith)
                requires 0 <= p < q;
            assert(q * q >= 0) by (nonlinear_arith);
        }
        assert(s5_nonneg(p, q));
        assert(s5_nonneg(p2, q2));
    } else if p < 0 && q < 0 {
        assert(q * q > 0) by (nonlinear_arith)
            requires q < 0;
        if p <= 5 * q {
            assert(p * p > 5 * (q * q)) by (nonlinear_arith)
                requires p <= 5 * q, q < 0;
        }
        if p > q {
            assert(p * p <= q * q) by (nonlinear_arith)
                requires q < p < 0;
        }
        assert(!s5_nonneg(p, q));
        assert(!s5_nonneg(p2, q2));
    } else if p >= 0 && q < 0 {
        assert(p2 < 0 && q2 > 0);
        assert(s5_nonneg(p, q) == s5_nonneg(p2, q2));
    } else {
        assert(p2 > 0 && q2 <= 0);
        if q == 0 {
            assert(p * p > 0) by (nonlinear_arith)
                requires p < 0;
        }
        assert(s5_nonneg(p, q) == s5_nonneg(p2, q2));
    }
}

proof fn lemma_s5_double(p: int, q: int)
    ensures
        s5_nonneg(2 * p, 2 * q) == s5_nonneg(p, q),
{
    assert((2 * p) * (2 * p) == 4 * (p * p)) by (nonlinear_arith);
    assert(5 * ((2 * q) * (2 * q)) == 4 * (5 * (q * q))) by (nonlinear_arith);
}

pub proof fn lemma_znonneg_psi(z: Zphi)
    ensures
        znonneg(zpsi(z)) == znonneg(z),
{
    let w = zpsi(z);
    assert(w == Zphi { m: z.n - z.m, n: z.m });
    lemma_s5_psi(2 * z.m + z.n, z.n);
    lemma_s5_double(2 * w.m + w.n, w.n);
}

/// `|psi * z| == psi * |z|`.
pub proof fn lemma_zabs_psi(z: Zphi)
    ensures
        zabs(zpsi(z)) == zpsi(zabs(z)),
{
    lemma_znonneg_psi(z);
}

/// `|-z| == |z|`.
pub proof fn lemma_zabs_neg(z: Zphi)
    ensures
        zabs(zneg(z)) == zabs(z),
{
    if z != zero() {
        lemma_s5_neg(2 * z.m + z.n, z.n);
        assert(zneg(zneg(z)) == z);
    }
}

/// Twice the signed area of a triangle, in units of sin(36 degrees).
pub open spec fn signed_area(t: Tri) -> Zphi {
    cross(psub(t.b, t.a), psub(t.c, t.a))
}

/// Twice the area of a triangle, in units of sin(36 degrees).
pub open spec fn area(t: Tri) -> Zphi {
    zabs(signed_area(t))
}

/// The total area of a collection of triangles.
pub open spec fn area_sum(ts: Seq<Tri>) -> Zphi
    decreases ts.len(),
{
    if ts.len() == 0 {
        zero()
    } else {
        zadd(area_sum(ts.drop_last()), area(ts.last()))
    }
}

proof fn lemma_zmul_neg_right(x: Zphi, y: Zphi)
    ensures
        zmul(x, zneg(y)) == zneg(zmul(x, y)),
{
    assert(x.m * (-y.m) == -(x.m * y.m)) by (nonlinear_arith);
    assert(x.n * (-y.n) == -(x.n * y.n)) by (nonlinear_arith);
    assert(x.m * (-y.n) == -(x.m * y.n)) by (nonlinear_arith);
    assert(x.n * (-y.m) == -(x.n * y.m)) by (nonlinear_arith);
}

proof fn lemma_zmul_neg_left(x: Zphi, y: Zphi)
    ensures
        zmul(zneg(x), y) == zneg(zmul(x, y)),
{
    assert((-x.m) * y.m == -(x.m * y.m)) by (nonlinear_arith);
    assert((-x.n) * y.n == -(x.n * y.n)) by (nonlinear_arith);
    assert((-x.m) * y.n == -(x.m * y.n)) by (nonlinear_arith);
    assert((-x.n) * y.m == -(x.n * y.m)) by (nonlinear_arith);
}

proof fn lemma_zmul_sub(x: Zphi, y: Zphi, z: Zphi)
    ensures
        zmul(zsub(x, y), z) == zsub(zmul(x, z), zmul(y, z)),
        zmul(z, zsub(x, y)) == zsub(zmul(z, x), zmul(z, y)),
{
    assert((x.m - y.m) * z.m == x.m * z.m - y.m * z.m) by (nonlinear_arith);
    assert((x.n - y.n) * z.n == x.n * z.n - y.n * z.n) by (nonlinear_arith);
    assert((x.m - y.m) * z.n == x.m * z.n - y.m * z.n) by (nonlinear_arith);
    assert((x.n - y.n) * z.m == x.n * z.m - y.n * z.m) by (nonlinear_arith);
    assert(z.m * (x.m - y.m) == z.m * x.m - z.m * y.m) by (nonlinear_arith);
    assert(z.n * (x.n - y.n) == z.n * x.n - z.n * y.n) by (nonlinear_arith);
    assert(z.n * (x.m - y.m) == z.n * x.m - z.n * y.m) by (nonlinear_arith);
    assert(z.m * (x.n - y.n) == z.m * x.n - z.m * y.n) by (nonlinear_arith);
}

/// `(psi x) y == psi (x y) == x (psi y)`.
proof fn lemma_zmul_psi(x: Zphi, y: Zphi)
    ensures
        zmul(zpsi(x), y) == zpsi(zmul(x, y)),
        zmul(x, zpsi(y)) == zpsi(zmul(x, y)),
{
    assert((x.n - x.m) * y.m == x.n * y.m - x.m * y.m) by (nonlinear_arith);
    assert((x.n - x.m) * y.n == x.n * y.n - x.m * y.n) by (nonlinear_arith);
    assert(x.m * (y.n - y.m) == x.m * y.n - x.m * y.m) by (nonlinear_arith);
    assert(x.n * (y.n - y.m) == x.n * y.n - x.n * y.m) by (nonlinear_arith);
}

proof fn lemma_cross_psi(u: Pt, v: Pt)
    ensures
        cross(ppsi(u), v) == zpsi(cross(u, v)),
        cross(u, ppsi(v)) == zpsi(cross(u, v)),
{
    lemma_zmul_psi(u.x, v.y);
    lemma_zmul_psi(u.y, v.x);
}

proof fn lemma_cross_neg(u: Pt, v: Pt)
    ensures
        cross(pneg(u), v) == zneg(cross(u, v)),
        cross(u, pneg(v)) == zneg(cross(u, v)),
{
    lemma_zmul_neg_left(u.x, v.y);
    lemma_zmul_neg_left(u.y, v.x);
    lemma_zmul_neg_right(u.x, v.y);
    lemma_zmul_neg_right(u.y, v.x);
}

proof fn lemma_cross_sub(u: Pt, w: Pt, v: Pt)
    ensures
        cross(psub(u, w), v) == zsub(cross(u, v), cross(w, v)),
        cross(v, psub(u, w)) == zsub(cross(v, u), cross(v, w)),
{
    lemma_zmul_sub(u.x, w.x, v.y);
    lemma_zmul_sub(u.y, w.y, v.x);
    lemma_zmul_sub(u.y, w.y, v.x);
    lemma_zmul_sub(u.x, w.x, v.y);
}

/// `cross` is alternating.
proof fn lemma_cross_swap(u: Pt, v: Pt)
    ensures
        cross(v, u) == zneg(cross(u, v)),
        cross(u, u) == zero(),
{
}

pub open spec fn psq(p: Pt) -> Pt {
    ppsi(ppsi(p))
}

/// The signed areas of the children of a triangle are fixed multiples of its own.
proof fn lemma_child_signed_areas(t: Tri)
    ensures
        t.kind == BTile::L ==> {
            let c = inflate_tile_spec(t);
            let s = signed_area(t);
            &&& signed_area(c[0]) == zneg(zpsi(zpsi(s)))
            &&& signed_area(c[1]) == zneg(zpsi(zpsi(zpsi(s))))
            &&& signed_area(c[2]) == zpsi(zpsi(s))
        },
        t.kind == BTile::S ==> {
            let c = inflate_tile_spec(t);
            let s = signed_area(t);
            &&& signed_area(c[0]) == zpsi(zpsi(s))
            &&& signed_area(c[1]) == zpsi(s)
        },
{
    let (a, b, c) = (t.a, t.b, t.c);
    let u = psub(b, a);
    let v = psub(c, a);
    let s = cross(u, v);
    lemma_cross_swap(u, v);
    lemma_cross_swap(v, u);
    if t.kind == BTile::L {
        let d = pmix(a, c);
        let e = pmix(a, b);
        let ch = inflate_tile_spec(t);
        // (d, e, a): cross(psi (u - v), -psi v)
        let w = psub(u, v);
        assert(psub(e, d) == ppsi(w));
        assert(psub(a, d) == pneg(ppsi(v)));
        lemma_cross_neg(ppsi(w), ppsi(v));
        lemma_cross_psi(w, ppsi(v));
        lemma_cross_psi(w, v);
        lemma_cross_sub(u, v, v);
        assert(signed_area(ch[0]) == zneg(zpsi(zpsi(s))));
        // (e, d, b): cross(psi (v - u), psi psi u)
        let w2 = psub(v, u);
        assert(psub(d, e) == ppsi(w2));
        assert(psub(b, e) == psq(u));
        lemma_cross_psi(w2, psq(u));
        lemma_cross_psi(w2, ppsi(u));
        lemma_cross_psi(w2, u);
        lemma_cross_sub(v, u, u);
        assert(signed_area(ch[1]) == zneg(zpsi(zpsi(zpsi(s)))));
        // (c, d, b): cross(-psi psi v, u - v)
        assert(psub(d, c) == pneg(psq(v)));
        assert(psub(b, c) == w);
        lemma_cross_neg(psq(v), w);
        lemma_cross_psi(ppsi(v), w);
        lemma_cross_psi(v, w);
        lemma_cross_sub(u, v, v);
        assert(signed_area(ch[2]) == zpsi(zpsi(s)));
    } else {
        let d = pmix(b, a);
        let ch = inflate_tile_spec(t);
        // (d, c, a): cross(v - psi psi u, -psi psi u)
        assert(psub(c, d) == psub(v, psq(u)));
        assert(psub(a, d) == pneg(psq(u)));
        lemma_cross_neg(psub(v, psq(u)), psq(u));
        lemma_cross_sub(v, psq(u), psq(u));
        lemma_cross_swap(psq(u), psq(u));
        lemma_cross_psi(v, ppsi(u));
        lemma_cross_psi(v, u);
        assert(signed_area(ch[0]) == zpsi(zpsi(s)));
        // (c, d, b): cross(psi psi u - v, u - v)
        let w = psub(u, v);
        assert(psub(d, c) == psub(psq(u), v));
        assert(psub(b, c) == w);
        lemma_cross_sub(psq(u), v, w);
        lemma_cross_psi(ppsi(u), w);
        lemma_cross_psi(u, w);
        lemma_cross_sub(u, v, u);
        lemma_cross_sub(u, v, v);
        lemma_cross_sub(u, v, u);
        lemma_cross_swap(u, u);
        lemma_cross_swap(v, v);
        assert(cross(u, w) == zneg(s));
        assert(cross(v, w) == zneg(s));
        assert(signed_area(ch[1]) == zpsi(s));
    }
}

/// The children of a triangle together have its area.
proof fn lemma_children_area(t: Tri)
    ensures
        area_sum(inflate_tile_spec(t)) == area(t),
{
    lemma_child_signed_areas(t);
    let s = signed_area(t);
    lemma_zabs_psi(s);
    lemma_zabs_psi(zpsi(s));
    lemma_zabs_psi(zpsi(zpsi(s)));
    lemma_zabs_neg(zpsi(zpsi(s)));
    lemma_zabs_neg(zpsi(zpsi(zpsi(s))));
    let c = inflate_tile_spec(t);
    if t.kind == BTile::L {
        assert(c.drop_last().drop_last().drop_last().len() == 0);
        assert(c.drop_last().last() == c[1] && c.drop_last().drop_last().last() == c[0]);
    } else {
        assert(c.drop_last().drop_last().len() == 0);
        assert(c.drop_last().last() == c[0]);
    }
    reveal_with_fuel(area_sum, 4);
}

pub proof fn lemma_area_concat(a: Seq<Tri>, b: Seq<Tri>)
    ensures
        area_sum(a + b) == zadd(area_sum(a), area_sum(b)),
    decreases b.len(),
{
    if b.len() > 0 {
        lemma_area_concat(a, b.drop_last());
        assert((a + b).drop_last() =~= a + b.drop_last());
    } else {
        assert(a + b =~= a);
    }
}

/// One round of subdivision keeps the total area of any collection of triangles.
pub proof fn lemma_inflate_preserves_area(ts: Seq<Tri>)
    ensures
        area_sum(inflate_spec(ts)) == area_sum(ts),
    decreases ts.len(),
{
    if ts.len() > 0 {
        lemma_inflate_preserves_area(ts.drop_last());
        lemma_area_concat(inflate_spec(ts.drop_last()), inflate_tile_spec(ts.last()));
        lemma_children_area(ts.last());
    }
}

} // verus!
