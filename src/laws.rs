use vstd::prelude::*;
use crate::tile::{BTile, Tri, inflate_spec, inflate_tile_spec};
use crate::tiling::{tiling_spec, seed};
use crate::pairing::{Rhomboid, rhs, pair_spec};

verus! {

/// How many triangles of the collection have kind `k`.
pub open spec fn count_kind(ts: Seq<Tri>, k: BTile) -> nat
    decreases ts.len(),
{
    if ts.len() == 0 {
        0
    } else {
        count_kind(ts.drop_last(), k) + if ts.last().kind == k { 1nat } else { 0nat }
    }
}

/// Large triangles after `n` rounds: none in the seed, then `L(n+1) = 2 L(n) + S(n)`.
pub open spec fn large_count(n: nat) -> nat
    decreases n,
{
    if n == 0 {
        0
    } else {
        2 * large_count((n - 1) as nat) + small_count((n - 1) as nat)
    }
}

/// Small triangles after `n` rounds: ten in the seed, then `S(n+1) = L(n) + S(n)`.
pub open spec fn small_count(n: nat) -> nat
    decreases n,
{
    if n == 0 {
        10
    } else {
        large_count((n - 1) as nat) + small_count((n - 1) as nat)
    }
}

pub proof fn lemma_count_concat(a: Seq<Tri>, b: Seq<Tri>, k: BTile)
    ensures
        count_kind(a + b, k) == count_kind(a, k) + count_kind(b, k),
    decreases b.len(),
{
    if b.len() > 0 {
        lemma_count_concat(a, b.drop_last(), k);
        assert((a + b).drop_last() =~= a + b.drop_last());
    }
}

pub proof fn lemma_count_total(ts: Seq<Tri>)
    ensures
        count_kind(ts, BTile::L) + count_kind(ts, BTile::S) == ts.len(),
    decreases ts.len(),
{
    if ts.len() > 0 {
        lemma_count_total(ts.drop_last());
    }
}

/// One round of subdivision turns each large triangle into two large and one small,
/// and each small one into one of each.
pub proof fn lemma_inflate_counts(ts: Seq<Tri>)
    ensures
        count_kind(inflate_spec(ts), BTile::L) == 2 * count_kind(ts, BTile::L) + count_kind(ts, BTile::S),
        count_kind(inflate_spec(ts), BTile::S) == count_kind(ts, BTile::L) + count_kind(ts, BTile::S),
    decreases ts.len(),
{
    if ts.len() > 0 {
        let p = ts.drop_last();
        let c = inflate_tile_spec(ts.last());
        lemma_inflate_counts(p);
        lemma_count_concat(inflate_spec(p), c, BTile::L);
        lemma_count_concat(inflate_spec(p), c, BTile::S);
        assert(c.drop_last().drop_last().drop_last().len() == 0 || c.drop_last().drop_last().len() == 0);
        reveal_with_fuel(count_kind, 4);
    }
}

/// The kinds of the seed: ten small triangles.
pub proof fn lemma_seed_counts(scale: int)
    ensures
        count_kind(seed(scale), BTile::L) == 0,
        count_kind(seed(scale), BTile::S) == 10,
{
    let s = seed(scale);
    assert(s.len() == 10);
    assert forall|i: int| 0 <= i < 10 implies #[trigger] s[i].kind == BTile::S by {}
    lemma_count_prefix_small(s, 10);
    assert(s.take(10) =~= s);
}

proof fn lemma_count_prefix_small(s: Seq<Tri>, n: int)
    requires
        0 <= n <= s.len(),
        forall|i: int| 0 <= i < n ==> #[trigger] s[i].kind == BTile::S,
    ensures
        count_kind(s.take(n), BTile::L) == 0,
        count_kind(s.take(n), BTile::S) == n,
    decreases n,
{
    if n > 0 {
        lemma_count_prefix_small(s, n - 1);
        assert(s.take(n).drop_last() =~= s.take(n - 1));
    }
    if n == s.len() {
        assert(s.take(n) =~= s);
    }
}

/// After `n` rounds the tiling holds exactly `L(n)` large and `S(n)` small triangles.
pub proof fn lemma_tiling_counts(scale: int, n: nat)
    ensures
        count_kind(tiling_spec(scale, n), BTile::L) == large_count(n),
        count_kind(tiling_spec(scale, n), BTile::S) == small_count(n),
        tiling_spec(scale, n).len() == large_count(n) + small_count(n),
    decreases n,
{
    if n == 0 {
        lemma_seed_counts(scale);
    } else {
        lemma_tiling_counts(scale, (n - 1) as nat);
        lemma_inflate_counts(tiling_spec(scale, (n - 1) as nat));
    }
    lemma_count_total(tiling_spec(scale, n));
}

/// Each round multiplies the number of triangles by a factor between two and three.
pub proof fn lemma_growth(ts: Seq<Tri>)
    ensures
        2 * ts.len() <= inflate_spec(ts).len() <= 3 * ts.len(),
{
    lemma_inflate_counts(ts);
    lemma_count_total(ts);
    lemma_count_total(inflate_spec(ts));
}

/// After `n` rounds the tiling holds between `10 * 2^n` and `10 * 3^n` triangles;
/// after seven rounds, exactly 6100.
pub proof fn lemma_tiling_size(scale: int, n: nat)
    ensures
        tiling_spec(scale, n).len() <= 10 * vstd::arithmetic::power::pow(3, n),
        10 * vstd::arithmetic::power::pow(2, n) <= tiling_spec(scale, n).len(),
        tiling_spec(scale, 7).len() == 6100,
    decreases n,
{
    reveal(vstd::arithmetic::power::pow);
    if n == 0 {
        lemma_seed_counts(scale);
        lemma_count_total(seed(scale));
    } else {
        lemma_tiling_size(scale, (n - 1) as nat);
        lemma_growth(tiling_spec(scale, (n - 1) as nat));
    }
    lemma_tiling_counts(scale, 7);
    reveal_with_fuel(large_count, 8);
    reveal_with_fuel(small_count, 8);
}

/// Subdividing the seed once gives the tiling of one round.
pub proof fn lemma_seed_inflates_to_first_round(scale: int)
    ensures
        inflate_spec(tiling_spec(scale, 0)) == tiling_spec(scale, 1),
{
}

/// Two results of `generate` on the same arguments are identical, coordinate for coordinate.
pub proof fn lemma_generate_deterministic(scale: int, n: nat, v1: Seq<Rhomboid>, v2: Seq<Rhomboid>)
    requires
        rhs(v1) == pair_spec(tiling_spec(scale, n)),
        rhs(v2) == pair_spec(tiling_spec(scale, n)),
    ensures
        v1 == v2,
{
    assert(v1.len() == rhs(v1).len());
    assert(v2.len() == rhs(v2).len());
    assert forall|i: int| 0 <= i < v1.len() implies v1[i] == v2[i] by {
        assert(rhs(v1)[i] == v1[i]@);
        assert(rhs(v2)[i] == v2[i]@);
        assert(v1[i]@ == v2[i]@);
    }
    assert(v1 =~= v2);
}

} // verus!
