use vstd::prelude::*;
use crate::golden::{Zphi, zmul, phi};
use crate::point::{Pt, psub};
use crate::tile::{BTile, Tri, inflate_spec, inflate_tile_spec};
use crate::tiling::{tiling_spec, seed};
use crate::pairing::{Rh, fuse, same_diagonal, pair_spec, first_partner};

verus! {

/// Multiplication by `w_s = -phi + (1 + phi) zeta = 1 / (1 - zeta)`, of modulus phi.
pub open spec fn by_ws(p: Pt) -> Pt {
    Pt {
        x: Zphi { m: -p.x.n - p.y.m - p.y.n, n: -p.x.m - p.x.n - p.y.m - 2 * p.y.n },
        y: Zphi { m: p.x.m + p.x.n + p.y.m + p.y.n, n: p.x.m + 2 * p.x.n + p.y.m + 2 * p.y.n },
    }
}

/// Multiplication by the conjugate of `w_s`.
pub open spec fn by_ws_conj(p: Pt) -> Pt {
    Pt {
        x: Zphi { m: p.x.m + p.x.n + p.y.m + p.y.n, n: p.x.m + 2 * p.x.n + p.y.m + 2 * p.y.n },
        y: Zphi { m: -p.x.m - p.x.n - p.y.n, n: -p.x.m - 2 * p.x.n - p.y.m - p.y.n },
    }
}

/// Multiplication by `w_l = psi zeta`, of modulus psi.
pub open spec fn by_wl(p: Pt) -> Pt {
    Pt {
        x: Zphi { m: p.y.m - p.y.n, n: -p.y.m },
        y: Zphi { m: -p.x.m + p.x.n + p.y.m, n: p.x.m + p.y.n },
    }
}

/// Multiplication by the conjugate of `w_l`.
pub open spec fn by_wl_conj(p: Pt) -> Pt {
    Pt {
        x: Zphi { m: p.x.m - p.y.m + p.y.n, n: p.x.n + p.y.m },
        y: Zphi { m: p.x.m - p.x.n, n: -p.x.m },
    }
}

/// A Robinson triangle of its kind: seen from `a`, the apex `b` is the diagonal
/// `c - a` turned and scaled by the kind's fixed factor (`w_s` or `w_l`), or by
/// its mirror image. The legs are thus in golden ratio to the diagonal.
pub open spec fn robinson(t: Tri) -> bool {
    let u = psub(t.b, t.a);
    let v = psub(t.c, t.a);
    match t.kind {
        BTile::S => u == by_ws(v) || u == by_ws_conj(v),
        BTile::L => u == by_wl(v) || u == by_wl_conj(v),
    }
}

pub open spec fn all_robinson(ts: Seq<Tri>) -> bool {
    forall|i: int| 0 <= i < ts.len() ==> #[trigger] robinson(ts[i])
}

/// The substitution rule maps Robinson triangles to Robinson triangles.
pub proof fn lemma_children_robinson(t: Tri)
    requires
        robinson(t),
    ensures
        all_robinson(inflate_tile_spec(t)),
{
    let c = inflate_tile_spec(t);
    if t.kind == BTile::L {
        assert(robinson(c[0]));
        assert(robinson(c[1]));
        assert(robinson(c[2]));
    } else {
        assert(robinson(c[0]));
        assert(robinson(c[1]));
    }
}

proof fn lemma_inflate_robinson(ts: Seq<Tri>)
    requires
        all_robinson(ts),
    ensures
        all_robinson(inflate_spec(ts)),
    decreases ts.len(),
{
    if ts.len() > 0 {
        lemma_inflate_robinson(ts.drop_last());
        assert(robinson(ts[ts.len() - 1]));
        lemma_children_robinson(ts.last());
        let r = inflate_spec(ts);
        let p = inflate_spec(ts.drop_last());
        let q = inflate_tile_spec(ts.last());
        assert forall|i: int| 0 <= i < r.len() implies #[trigger] robinson(r[i]) by {
            if i < p.len() {
                assert(r[i] == p[i]);
            } else {
                assert(r[i] == q[i - p.len()]);
            }
        }
    }
}

proof fn lemma_phi_times(y: Zphi)
    ensures
        zmul(phi(), y) == (Zphi { m: y.n, n: y.m + y.n }),
{
    assert(0 * y.m == 0 && 1 * y.n == y.n && 0 * y.n == 0 && 1 * y.m == y.m);
}

proof fn lemma_seed_robinson(scale: int)
    ensures
        all_robinson(seed(scale)),
{
    let s = seed(scale);
    let k = scale;
    let z = Zphi { m: 0, n: 0 };
    lemma_phi_times(z);
    lemma_phi_times(Zphi { m: k, n: 0 });
    lemma_phi_times(Zphi { m: 0, n: k });
    lemma_phi_times(Zphi { m: -k, n: 0 });
    lemma_phi_times(Zphi { m: 0, n: -k });
    assert(s[0].c == Pt { x: z, y: Zphi { m: k, n: 0 } });
    assert(s[1].a == Pt { x: Zphi { m: -k, n: 0 }, y: Zphi { m: 0, n: k } });
    assert(s[2].c == Pt { x: Zphi { m: 0, n: -k }, y: Zphi { m: 0, n: k } });
    assert(s[3].a == Pt { x: Zphi { m: 0, n: -k }, y: Zphi { m: k, n: 0 } });
    assert(s[5].c == Pt { x: Zphi { m: 0, n: k }, y: Zphi { m: -k, n: 0 } });
    assert(s[6].a == Pt { x: Zphi { m: 0, n: k }, y: Zphi { m: 0, n: -k } });
    assert(s[7].c == Pt { x: Zphi { m: k, n: 0 }, y: Zphi { m: 0, n: -k } });
    assert(s[8].a == Pt { x: z, y: Zphi { m: -k, n: 0 } });
    assert(s[5].a == s[0].a && s[5].b == s[0].b && s[9].c == s[4].c);
    assert(robinson(s[0]) && robinson(s[1]) && robinson(s[2]) && robinson(s[3]) && robinson(s[4]));
    assert(robinson(s[5]) && robinson(s[6]) && robinson(s[7]) && robinson(s[8]) && robinson(s[9]));
    assert(s.len() == 10);
    assert forall|i: int| 0 <= i < s.len() implies #[trigger] robinson(s[i]) by {
        assert(i == 0 || i == 1 || i == 2 || i == 3 || i == 4 || i == 5 || i == 6 || i == 7 || i == 8 || i == 9);
    }
}

/// Every triangle of every generation is a Robinson triangle of its kind.
pub proof fn lemma_tiling_robinson(scale: int, n: nat)
    ensures
        all_robinson(tiling_spec(scale, n)),
    decreases n,
{
    if n == 0 {
        lemma_seed_robinson(scale);
    } else {
        lemma_tiling_robinson(scale, (n - 1) as nat);
        lemma_inflate_robinson(tiling_spec(scale, (n - 1) as nat));
    }
}

/// A Robinson triangle whose diagonal has two distinct ends.
pub open spec fn proper(t: Tri) -> bool {
    robinson(t) && t.a != t.c
}

pub open spec fn all_proper(ts: Seq<Tri>) -> bool {
    forall|i: int| 0 <= i < ts.len() ==> #[trigger] proper(ts[i])
}

proof fn lemma_children_proper(t: Tri)
    requires
        proper(t),
    ensures
        all_proper(inflate_tile_spec(t)),
{
    lemma_children_robinson(t);
    let c = inflate_tile_spec(t);
    assert(psub(t.c, t.a) != Pt { x: Zphi { m: 0, n: 0 }, y: Zphi { m: 0, n: 0 } });
    if t.kind == BTile::L {
        assert(proper(c[0]));
        assert(proper(c[1]));
        assert(proper(c[2]));
    } else {
        assert(proper(c[0]));
        assert(proper(c[1]));
    }
}

proof fn lemma_inflate_proper(ts: Seq<Tri>)
    requires
        all_proper(ts),
    ensures
        all_proper(inflate_spec(ts)),
    decreases ts.len(),
{
    if ts.len() > 0 {
        lemma_inflate_proper(ts.drop_last());
        assert(proper(ts[ts.len() - 1]));
        lemma_children_proper(ts.last());
        let r = inflate_spec(ts);
        let p = inflate_spec(ts.drop_last());
        let q = inflate_tile_spec(ts.last());
        assert forall|i: int| 0 <= i < r.len() implies #[trigger] proper(r[i]) by {
            if i < p.len() {
                assert(r[i] == p[i]);
            } else {
                assert(r[i] == q[i - p.len()]);
            }
        }
    }
}

proof fn lemma_tiling_proper(scale: int, n: nat)
    requires
        scale != 0,
    ensures
        all_proper(tiling_spec(scale, n)),
    decreases n,
{
    lemma_tiling_robinson(scale, n);
    if n == 0 {
        let s = seed(scale);
        assert forall|i: int| 0 <= i < s.len() implies #[trigger] proper(s[i]) by {
            assert(robinson(s[i]));
        }
    } else {
        lemma_tiling_proper(scale, (n - 1) as nat);
        lemma_inflate_proper(tiling_spec(scale, (n - 1) as nat));
    }
}

/// The diagonal of a rhombus has distinct ends, and each apex differs from both.
pub open spec fn apexes_off_diagonal(r: Rh) -> bool {
    &&& r.a != r.c
    &&& r.b != r.a && r.b != r.c
    &&& r.d != r.a && r.d != r.c
}

proof fn lemma_fuse_proper(x: Tri, y: Tri)
    requires
        proper(x),
        proper(y),
        same_diagonal(x, y),
    ensures
        apexes_off_diagonal(fuse(x, y)),
{
    assert(psub(x.c, x.a) != Pt { x: Zphi { m: 0, n: 0 }, y: Zphi { m: 0, n: 0 } });
}

proof fn lemma_pair_proper(ts: Seq<Tri>)
    requires
        all_proper(ts),
    ensures
        forall|k: int| 0 <= k < pair_spec(ts).len() ==> #[trigger] apexes_off_diagonal(pair_spec(ts)[k]),
    decreases ts.len(),
{
    if ts.len() > 0 {
        let x = ts.last();
        let rest = ts.drop_last();
        assert(proper(ts[ts.len() - 1]));
        assert(all_proper(rest)) by {
            assert forall|i: int| 0 <= i < rest.len() implies #[trigger] proper(rest[i]) by {
                assert(rest[i] == ts[i]);
            }
        }
        if exists|i: int| first_partner(x, rest, i) {
            let i = choose|i: int| first_partner(x, rest, i);
            let left = rest.remove(i);
            assert(all_proper(left)) by {
                assert forall|j: int| 0 <= j < left.len() implies #[trigger] proper(left[j]) by {
                    if j < i {
                        assert(left[j] == rest[j]);
                    } else {
                        assert(left[j] == rest[j + 1]);
                    }
                }
            }
            lemma_pair_proper(left);
            assert(proper(rest[i]));
            lemma_fuse_proper(x, rest[i]);
            let out = pair_spec(ts);
            assert(out == seq![fuse(x, rest[i])] + pair_spec(left));
            assert forall|k: int| 0 <= k < out.len() implies #[trigger] apexes_off_diagonal(out[k]) by {
                if k > 0 {
                    assert(out[k] == pair_spec(left)[k - 1]);
                }
            }
        } else {
            lemma_pair_proper(rest);
            assert(pair_spec(ts) == pair_spec(rest));
        }
    }
}

/// In every rhombus of a tiling at nonzero scale, the diagonal has distinct ends
/// and each apex differs from both of them.
pub proof fn lemma_rhombi_apexes_off_diagonal(scale: int, n: nat, k: int)
    requires
        scale != 0,
        0 <= k < pair_spec(tiling_spec(scale, n)).len(),
    ensures
        apexes_off_diagonal(pair_spec(tiling_spec(scale, n))[k]),
{
    lemma_tiling_proper(scale, n);
    lemma_pair_proper(tiling_spec(scale, n));
}

} // verus!
