use vstd::prelude::*;
use crate::point::{Point, Pt};
use crate::tile::{BTile, RTile, Tri, tris};

verus! {

/// A rhombus with its vertices in order around it.
pub struct Rh {
    pub a: Pt,
    pub b: Pt,
    pub c: Pt,
    pub d: Pt,
    pub kind: BTile,
}

/// Two triangles share the same diagonal, in the same direction.
pub open spec fn same_diagonal(x: Tri, y: Tri) -> bool {
    x.a == y.a && x.c == y.c
}

/// The rhombus that `x` makes with its partner `y`.
pub open spec fn fuse(x: Tri, y: Tri) -> Rh {
    Rh { a: x.a, b: x.b, c: x.c, d: y.b, kind: x.kind }
}

/// `i` is the first index of `rest` that holds a partner of `x`.
pub open spec fn first_partner(x: Tri, rest: Seq<Tri>, i: int) -> bool {
    &&& 0 <= i < rest.len()
    &&& same_diagonal(x, rest[i])
    &&& forall|j: int| 0 <= j < i ==> !same_diagonal(x, #[trigger] rest[j])
}

/// Greedy pairing: the last triangle takes the first remaining triangle with its
/// diagonal as partner; a triangle without one is dropped.
pub open spec fn pair_spec(ts: Seq<Tri>) -> Seq<Rh>
    decreases ts.len(),
{
    if ts.len() == 0 {
        Seq::empty()
    } else {
        let x = ts.last();
        let rest = ts.drop_last();
        if exists|i: int| first_partner(x, rest, i) {
            let i = choose|i: int| first_partner(x, rest, i);
            seq![fuse(x, rest[i])] + pair_spec(rest.remove(i))
        } else {
            pair_spec(rest)
        }
    }
}

#[derive(Clone, Copy, Debug)]
pub struct Rhomboid {
    pub a: Point,
    pub b: Point,
    pub c: Point,
    pub d: Point,
    pub t: BTile,
}

impl View for Rhomboid {
    type V = Rh;

    open spec fn view(&self) -> Rh {
        Rh { a: self.a@, b: self.b@, c: self.c@, d: self.d@, kind: self.t }
    }
}

pub open spec fn rhs(v: Seq<Rhomboid>) -> Seq<Rh> {
    v.map_values(|r: Rhomboid| r@)
}

proof fn lemma_first_partner_unique(x: Tri, rest: Seq<Tri>, i: int, k: int)
    requires
        first_partner(x, rest, i),
        first_partner(x, rest, k),
    ensures
        i == k,
{
    if i < k {
        assert(!same_diagonal(x, rest[i]));
    } else if k < i {
        assert(!same_diagonal(x, rest[k]));
    }
}

/// Fuses the triangles that share a diagonal into rhombi.
pub fn tiles_to_rhomboids(t: Vec<RTile>) -> (r: Vec<Rhomboid>)
    ensures
        rhs(r@) == pair_spec(tris(t@)),
{
    let mut t = t;
    let ghost all = tris(t@);
    let mut ret: Vec<Rhomboid> = Vec::new();
    assert(rhs(ret@) + pair_spec(tris(t@)) =~= pair_spec(all));
    while t.len() > 0
        invariant
            rhs(ret@) + pair_spec(tris(t@)) == pair_spec(all),
        decreases t.len(),
    {
        let ghost ts = tris(t@);
        let x = t.pop().unwrap();
        let ghost rest = tris(t@);
        assert(rest =~= ts.drop_last());
        assert(x@ == ts.last());
        let mut i: usize = 0;
        while i < t.len() && !(t[i].a == x.a && t[i].c == x.c)
            invariant
                0 <= i <= t.len(),
                tris(t@) == rest,
                forall|j: int| 0 <= j < i ==> !same_diagonal(x@, #[trigger] rest[j]),
            decreases t.len() - i,
        {
            assert(rest[i as int] == t@[i as int]@);
            i += 1;
        }
        if i < t.len() {
            let y = t[i];
            assert(rest[i as int] == y@);
            assert(first_partner(x@, rest, i as int));
            proof {
                let k = choose|k: int| first_partner(ts.last(), ts.drop_last(), k);
                lemma_first_partner_unique(x@, rest, i as int, k);
                assert(pair_spec(ts) == seq![fuse(x@, rest[k])] + pair_spec(rest.remove(k)));
            }
            let ghost before = ret@;
            t.remove(i);
            assert(tris(t@) =~= rest.remove(i as int));
            ret.push(Rhomboid { a: x.a, b: x.b, c: x.c, d: y.b, t: x.t });
            assert(rhs(ret@) =~= rhs(before).push(fuse(x@, y@)));
            assert(rhs(ret@) + pair_spec(tris(t@)) =~= rhs(before) + pair_spec(ts));
        } else {
            assert forall|k: int| !first_partner(x@, rest, k) by {
                if 0 <= k < rest.len() {
                    assert(!same_diagonal(x@, rest[k]));
                }
            }
            assert(pair_spec(ts) == pair_spec(rest));
        }
    }
    assert(tris(t@) =~= Seq::<Tri>::empty());
    assert(rhs(ret@) + Seq::<Rh>::empty() =~= rhs(ret@));
    ret
}

} // verus!
