use vstd::prelude::*;
use crate::golden::{COORD_LIMIT, MIX_LIMIT};
use crate::point::{Point, Pt, pconj, pmix, pbounded, lemma_pmix_bound};

verus! {

/// The two kinds of Robinson triangle (and of the rhombus two of them make).
#[derive(Clone, Copy, PartialEq, Eq, Structural, Debug)]
pub enum BTile {
    L,
    S,
}

/// A Robinson triangle: its vertices in order, with `a`-`c` the shared diagonal.
pub struct Tri {
    pub a: Pt,
    pub b: Pt,
    pub c: Pt,
    pub kind: BTile,
}

pub open spec fn tri(a: Pt, b: Pt, c: Pt, kind: BTile) -> Tri {
    Tri { a, b, c, kind }
}

pub open spec fn tri_bounded(t: Tri, b: int) -> bool {
    pbounded(t.a, b) && pbounded(t.b, b) && pbounded(t.c, b)
}

pub open spec fn all_bounded(ts: Seq<Tri>, b: int) -> bool {
    forall|i: int| 0 <= i < ts.len() ==> #[trigger] tri_bounded(ts[i], b)
}

pub open spec fn treflect(t: Tri) -> Tri {
    tri(pconj(t.a), pconj(t.b), pconj(t.c), t.kind)
}

/// The substitution rule: the children of one triangle, in order.
pub open spec fn inflate_tile_spec(t: Tri) -> Seq<Tri> {
    match t.kind {
        BTile::L => {
            let d = pmix(t.a, t.c);
            let e = pmix(t.a, t.b);
            seq![tri(d, e, t.a, BTile::L), tri(e, d, t.b, BTile::S), tri(t.c, d, t.b, BTile::L)]
        },
        BTile::S => {
            let d = pmix(t.b, t.a);
            seq![tri(d, t.c, t.a, BTile::S), tri(t.c, d, t.b, BTile::L)]
        },
    }
}

/// One round of substitution over a collection: the children of each triangle, in input order.
pub open spec fn inflate_spec(ts: Seq<Tri>) -> Seq<Tri>
    decreases ts.len(),
{
    if ts.len() == 0 {
        Seq::empty()
    } else {
        inflate_spec(ts.drop_last()) + inflate_tile_spec(ts.last())
    }
}

#[derive(Clone, Copy, Debug)]
pub struct RTile {
    pub a: Point,
    pub b: Point,
    pub c: Point,
    pub t: BTile,
}

impl View for RTile {
    type V = Tri;

    open spec fn view(&self) -> Tri {
        Tri { a: self.a@, b: self.b@, c: self.c@, kind: self.t }
    }
}

/// The mathematical triangles that a vector of tiles holds.
pub open spec fn tris(v: Seq<RTile>) -> Seq<Tri> {
    v.map_values(|t: RTile| t@)
}

pub fn rtile(a: Point, b: Point, c: Point, t: BTile) -> (r: RTile)
    ensures
        r@ == tri(a@, b@, c@, t),
{
    RTile { a, b, c, t }
}

/// The triangle reflected across the horizontal axis, kind kept.
pub fn reflect(t: RTile) -> (r: RTile)
    requires
        tri_bounded(t@, COORD_LIMIT as int),
    ensures
        r@ == treflect(t@),
{
    RTile { a: t.a.conj(), b: t.b.conj(), c: t.c.conj(), t: t.t }
}

/// Subdivides one triangle by the substitution rule.
pub fn inflate_tile(t: RTile) -> (r: Vec<RTile>)
    requires
        tri_bounded(t@, MIX_LIMIT as int),
    ensures
        tris(r@) == inflate_tile_spec(t@),
{
    let r = match t.t {
        BTile::L => {
            let d = Point::mix(t.a, t.c);
            let e = Point::mix(t.a, t.b);
            vec![rtile(d, e, t.a, BTile::L), rtile(e, d, t.b, BTile::S), rtile(t.c, d, t.b, BTile::L)]
        },
        BTile::S => {
            let d = Point::mix(t.b, t.a);
            vec![rtile(d, t.c, t.a, BTile::S), rtile(t.c, d, t.b, BTile::L)]
        },
    };
    assert(tris(r@) =~= inflate_tile_spec(t@));
    r
}

/// Children of a triangle whose coordinates lie within `b` lie within `5 * b`.
pub proof fn lemma_inflate_tile_bound(t: Tri, b: int)
    requires
        tri_bounded(t, b),
        b >= 0,
    ensures
        all_bounded(inflate_tile_spec(t), 5 * b),
{
    lemma_pmix_bound(t.a, t.c, b);
    lemma_pmix_bound(t.a, t.b, b);
    lemma_pmix_bound(t.b, t.a, b);
    assert(pbounded(t.a, 5 * b) && pbounded(t.b, 5 * b) && pbounded(t.c, 5 * b));
}

pub proof fn lemma_inflate_take(ts: Seq<Tri>, i: int)
    requires
        0 <= i < ts.len(),
    ensures
        inflate_spec(ts.take(i + 1)) == inflate_spec(ts.take(i)) + inflate_tile_spec(ts[i]),
{
    assert(ts.take(i + 1).drop_last() =~= ts.take(i));
}

/// Subdivides every triangle of the collection, keeping input order.
pub fn inflate(t: Vec<RTile>) -> (r: Vec<RTile>)
    requires
        all_bounded(tris(t@), MIX_LIMIT as int),
    ensures
        tris(r@) == inflate_spec(tris(t@)),
{
    let mut out: Vec<RTile> = Vec::new();
    let mut i: usize = 0;
    while i < t.len()
        invariant
            0 <= i <= t.len(),
            all_bounded(tris(t@), MIX_LIMIT as int),
            tris(out@) == inflate_spec(tris(t@).take(i as int)),
        decreases t.len() - i,
    {
        assert(tri_bounded(tris(t@)[i as int], MIX_LIMIT as int));
        let children = inflate_tile(t[i]);
        proof {
            lemma_inflate_take(tris(t@), i as int);
        }
        let mut j: usize = 0;
        let ghost before = out@;
        while j < children.len()
            invariant
                0 <= j <= children.len(),
                i < t.len(),
                tris(children@) == inflate_tile_spec(t@[i as int]@),
                tris(out@) == tris(before) + tris(children@).take(j as int),
            decreases children.len() - j,
        {
            let ghost prev = out@;
            out.push(children[j]);
            assert(out@ == prev.push(children@[j as int]));
            assert(tris(out@) =~= tris(prev).push(children@[j as int]@));
            assert(tris(children@).take(j as int + 1) =~= tris(children@).take(j as int).push(children@[j as int]@));
            assert(tris(out@) =~= tris(before) + tris(children@).take(j as int + 1));
            j += 1;
        }
        assert(tris(children@).take(j as int) =~= tris(children@));
        assert(tris(t@)[i as int] == t@[i as int]@);
        i += 1;
    }
    assert(tris(t@).take(i as int) =~= tris(t@));
    out
}

} // verus!
