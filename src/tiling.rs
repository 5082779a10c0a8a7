use vstd::prelude::*;
use crate::golden::{Golden, Zphi, COORD_LIMIT, MIX_LIMIT};
use crate::point::{Point, Pt, prot, pneg};
use crate::pairing::{Rhomboid, rhs, pair_spec, tiles_to_rhomboids};
use crate::tile::{
    BTile, RTile, Tri, tri, treflect, tris, all_bounded, tri_bounded, inflate_spec, inflate,
    rtile, reflect, lemma_inflate_tile_bound,
};

verus! {

/// The most rounds of subdivision a tiling may have: the most that any nonzero scale allows.
pub const MAX_GENERATIONS: u64 = 26;

pub open spec fn pow5(n: nat) -> nat
    decreases n,
{
    if n == 0 {
        1
    } else {
        5 * pow5((n - 1) as nat)
    }
}

pub open spec fn abs(x: int) -> int {
    if x < 0 {
        -x
    } else {
        x
    }
}

/// The exact coordinates of a tiling at this scale stay within the machine's reach
/// through `n` rounds of subdivision.
pub open spec fn scale_fits(scale: int, n: nat) -> bool {
    n <= MAX_GENERATIONS && abs(scale) * pow5(n) <= COORD_LIMIT
}

/// The point `scale` on the positive horizontal axis.
pub open spec fn on_axis(scale: int) -> Pt {
    Pt { x: Zphi { m: scale, n: 0 }, y: Zphi { m: 0, n: 0 } }
}

pub open spec fn origin() -> Pt {
    on_axis(0)
}

/// The five upper triangles of the seed: a fan about the origin, swept by rotations of 36 degrees.
pub open spec fn seed_upper(scale: int) -> Seq<Tri> {
    let a1 = on_axis(scale);
    let c1 = prot(a1);
    let a2 = prot(c1);
    let c3 = prot(a2);
    let a4 = prot(c3);
    let c5 = pneg(a1);
    let b = origin();
    seq![
        tri(a1, b, c1, BTile::S),
        tri(a2, b, c1, BTile::S),
        tri(a2, b, c3, BTile::S),
        tri(a4, b, c3, BTile::S),
        tri(a4, b, c5, BTile::S),
    ]
}

/// The ten seed triangles: the upper fan, then its mirror image.
pub open spec fn seed(scale: int) -> Seq<Tri> {
    let up = seed_upper(scale);
    up + up.map_values(|t: Tri| treflect(t))
}

/// The triangles after `n` rounds of subdivision of the seed.
pub open spec fn tiling_spec(scale: int, n: nat) -> Seq<Tri>
    decreases n,
{
    if n == 0 {
        seed(scale)
    } else {
        inflate_spec(tiling_spec(scale, (n - 1) as nat))
    }
}

pub proof fn lemma_pow5_mono(k: nat, n: nat)
    requires
        k <= n,
    ensures
        pow5(k) <= pow5(n),
    decreases n,
{
    if k < n {
        lemma_pow5_mono(k, (n - 1) as nat);
    }
}

proof fn lemma_pow5_grows(k: nat, n: nat)
    requires
        k < n,
    ensures
        5 * pow5(k) <= pow5(n),
    decreases n,
{
    if k + 1 < n {
        lemma_pow5_grows(k, (n - 1) as nat);
    }
}

proof fn lemma_inflate_bound(ts: Seq<Tri>, b: int)
    requires
        all_bounded(ts, b),
        b >= 0,
    ensures
        all_bounded(inflate_spec(ts), 5 * b),
    decreases ts.len(),
{
    if ts.len() > 0 {
        lemma_inflate_bound(ts.drop_last(), b);
        assert(tri_bounded(ts[ts.len() - 1], b));
        lemma_inflate_tile_bound(ts.last(), b);
        let r = inflate_spec(ts);
        let p = inflate_spec(ts.drop_last());
        let q = crate::tile::inflate_tile_spec(ts.last());
        assert forall|i: int| 0 <= i < r.len() implies #[trigger] tri_bounded(r[i], 5 * b) by {
            if i < p.len() {
                assert(r[i] == p[i]);
            } else {
                assert(r[i] == q[i - p.len()]);
            }
        }
    }
}

/// Builds the seed patch at this scale and subdivides it `ngens` times.
pub fn generate_tiling(scale: i64, ngens: u64) -> (r: Vec<RTile>)
    requires
        scale_fits(scale as int, ngens as nat),
    ensures
        tris(r@) == tiling_spec(scale as int, ngens as nat),
{
    let ghost s = scale as int;
    proof {
        assert(pow5(0) == 1);
        assert(abs(s) * pow5(0) == abs(s));
        if ngens > 0 {
            lemma_pow5_grows(0, ngens as nat);
            assert(abs(s) * 5 <= abs(s) * pow5(ngens as nat)) by (nonlinear_arith)
                requires 5 <= pow5(ngens as nat), abs(s) >= 0;
        }
    }
    let a1 = Point::new(Golden::new(scale, 0), Golden::new(0, 0));
    let b = Point::new(Golden::new(0, 0), Golden::new(0, 0));
    let c1 = a1.rotate();
    let a2 = c1.rotate();
    let c3 = a2.rotate();
    let a4 = c3.rotate();
    let c5 = a1.neg();

    let mut t: Vec<RTile> = vec![
        rtile(a1, b, c1, BTile::S),
        rtile(a2, b, c1, BTile::S),
        rtile(a2, b, c3, BTile::S),
        rtile(a4, b, c3, BTile::S),
        rtile(a4, b, c5, BTile::S),
    ];
    let ghost up = tris(t@);
    assert(up =~= seed_upper(s));
    assert(all_bounded(up, abs(s)));

    let mut reflected: Vec<RTile> = Vec::new();
    let mut i: usize = 0;
    while i < t.len()
        invariant
            0 <= i <= t.len(),
            tris(t@) == up,
            up == seed_upper(s),
            all_bounded(up, abs(s)),
            abs(s) <= COORD_LIMIT,
            tris(reflected@) =~= up.take(i as int).map_values(|x: Tri| treflect(x)),
        decreases t.len() - i,
    {
        assert(tri_bounded(up[i as int], abs(s)));
        assert(up[i as int] == t@[i as int]@);
        let x = reflect(t[i]);
        let ghost prev = reflected@;
        reflected.push(x);
        assert(reflected@ == prev.push(x));
        assert(tris(reflected@) =~= tris(prev).push(x@));
        assert(up.take(i as int + 1) =~= up.take(i as int).push(up[i as int]));
        assert(tris(reflected@) =~= up.take(i as int + 1).map_values(|x: Tri| treflect(x)));
        i += 1;
    }
    assert(up.take(5) =~= up);
    t.append(&mut reflected);
    assert(tris(t@) =~= seed(s));
    assert(all_bounded(tris(t@), abs(s)));

    let mut k: u64 = 0;
    while k < ngens
        invariant
            0 <= k <= ngens,
            scale_fits(s, ngens as nat),
            tris(t@) == tiling_spec(s, k as nat),
            all_bounded(tris(t@), abs(s) * pow5(k as nat)),
        decreases ngens - k,
    {
        let ghost bk = abs(s) * pow5(k as nat);
        proof {
            lemma_pow5_grows(k as nat, ngens as nat);
            assert(5 * bk <= abs(s) * pow5(ngens as nat)) by (nonlinear_arith)
                requires bk == abs(s) * pow5(k as nat), 5 * pow5(k as nat) <= pow5(ngens as nat), abs(s) >= 0;
            assert(bk >= 0) by (nonlinear_arith) requires bk == abs(s) * pow5(k as nat), abs(s) >= 0;
            lemma_inflate_bound(tris(t@), bk);
            assert(abs(s) * pow5((k + 1) as nat) == 5 * bk) by (nonlinear_arith)
                requires bk == abs(s) * pow5(k as nat), pow5((k + 1) as nat) == 5 * pow5(k as nat);
            assert forall|j: int| 0 <= j < tris(t@).len() implies #[trigger] tri_bounded(tris(t@)[j], MIX_LIMIT as int) by {
                assert(tri_bounded(tris(t@)[j], bk));
            }
        }
        t = inflate(t);
        k += 1;
    }
    t
}

/// Why a tiling cannot be generated.
#[derive(Clone, Copy, PartialEq, Eq, Structural, Debug)]
pub enum TilingError {
    /// The number of generations is negative.
    NegativeGenerations,
    /// The exact coordinates would outgrow machine integers.
    TooLarge,
}

/// Decides `scale_fits` by repeated multiplication.
pub fn fits(scale: i64, ngens: u64) -> (r: bool)
    ensures
        r == scale_fits(scale as int, ngens as nat),
{
    let ghost s = scale as int;
    if ngens > MAX_GENERATIONS || scale > COORD_LIMIT || scale < -COORD_LIMIT {
        proof {
            if ngens <= MAX_GENERATIONS {
                lemma_pow5_mono(0, ngens as nat);
                assert(pow5(0) == 1);
                assert(abs(s) * pow5(ngens as nat) >= abs(s)) by (nonlinear_arith)
                    requires pow5(ngens as nat) >= 1, abs(s) >= 0;
            }
        }
        return false;
    }
    let mut a: i64 = if scale < 0 { -scale } else { scale };
    let mut k: u64 = 0;
    assert(pow5(0) == 1);
    while k < ngens
        invariant
            0 <= k <= ngens,
            ngens <= MAX_GENERATIONS,
            s == scale as int,
            a as int == abs(s) * pow5(k as nat),
            0 <= a <= COORD_LIMIT,
        decreases ngens - k,
    {
        assert(pow5((k + 1) as nat) == 5 * pow5(k as nat));
        if a > COORD_LIMIT / 5 {
            proof {
                lemma_pow5_mono((k + 1) as nat, ngens as nat);
                assert(5 * (a as int) > COORD_LIMIT as int);
                assert(abs(s) * pow5((k + 1) as nat) == 5 * a) by (nonlinear_arith)
                    requires a as int == abs(s) * pow5(k as nat), pow5((k + 1) as nat) == 5 * pow5(k as nat);
                assert(abs(s) * pow5((k + 1) as nat) <= abs(s) * pow5(ngens as nat)) by (nonlinear_arith)
                    requires pow5((k + 1) as nat) <= pow5(ngens as nat), abs(s) >= 0;
            }
            return false;
        }
        proof {
            assert(abs(s) * pow5((k + 1) as nat) == 5 * a) by (nonlinear_arith)
                requires a as int == abs(s) * pow5(k as nat), pow5((k + 1) as nat) == 5 * pow5(k as nat);
        }
        a = a * 5;
        k += 1;
    }
    true
}

/// The rhombi of the Penrose tiling at this scale after `generations` rounds of subdivision.
pub fn generate(scale: i64, generations: i64) -> (r: Result<Vec<Rhomboid>, TilingError>)
    ensures
        generations < 0 <==> r == Err::<Vec<Rhomboid>, TilingError>(TilingError::NegativeGenerations),
        generations >= 0 && !scale_fits(scale as int, generations as nat)
            <==> r == Err::<Vec<Rhomboid>, TilingError>(TilingError::TooLarge),
        r is Ok <==> generations >= 0 && scale_fits(scale as int, generations as nat),
        r matches Ok(v) ==> rhs(v@) == pair_spec(tiling_spec(scale as int, generations as nat)),
{
    if generations < 0 {
        return Err(TilingError::NegativeGenerations);
    }
    let n = generations as u64;
    if !fits(scale, n) {
        return Err(TilingError::TooLarge);
    }
    Ok(tiles_to_rhomboids(generate_tiling(scale, n)))
}

} // verus!
