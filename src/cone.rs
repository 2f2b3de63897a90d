use vstd::prelude::*;

use crate::mesh::{
    bottom_fan, facet, has_edge, is_closed, next_index, prev_index, push_bottom_fan, tri, Facet, StlSolid,
};

verus! {

/// The wall of a cone: for each ring segment, (point, next point, apex).
pub open spec fn cone_side<P>(ring: Seq<P>, apex: P) -> Seq<Facet<P>> {
    Seq::new(ring.len(), |k: int| tri(ring[k], ring[next_index(k, ring.len() as int)], apex))
}

/// The closed cone: bottom fan, then side wall.
pub open spec fn cone_mesh<P>(bottom_point: P, apex: P, ring: Seq<P>) -> Seq<Facet<P>> {
    bottom_fan(bottom_point, ring) + cone_side(ring, apex)
}

/// A cone stitched from a ring of `n` points has `2 n` facets; each wall facet
/// ends at the apex, and every vertex is the base center, the apex or a ring
/// point.
pub proof fn lemma_cone_vertexes<P>(bottom_point: P, apex: P, ring: Seq<P>)
    ensures
        cone_mesh(bottom_point, apex, ring).len() == 2 * ring.len(),
        forall|i: int|
            ring.len() <= i < 2 * ring.len() ==> #[trigger] cone_mesh(bottom_point, apex, ring)[i].vertexes[2]
                == apex,
        forall|i: int, v: int|
            0 <= i < 2 * ring.len() && 0 <= v < 3 ==> {
                let p = #[trigger] cone_mesh(bottom_point, apex, ring)[i].vertexes[v];
                p == bottom_point || p == apex || ring.contains(p)
            },
{
    let mesh = cone_mesh(bottom_point, apex, ring);
    let n = ring.len() as int;
    assert forall|i: int| n <= i < 2 * n implies #[trigger] mesh[i].vertexes[2] == apex by {
        assert(mesh[i] == cone_side(ring, apex)[i - n]);
    }
    assert forall|i: int, v: int| 0 <= i < 2 * n && 0 <= v < 3 implies {
        let p = #[trigger] mesh[i].vertexes[v];
        p == bottom_point || p == apex || ring.contains(p)
    } by {
        let k = if i < n { i } else { i - n };
        let nx = next_index(k, n);
        if i < n {
            assert(mesh[i] == bottom_fan(bottom_point, ring)[k]);
        } else {
            assert(mesh[i] == cone_side(ring, apex)[k]);
        }
        assert(ring.contains(ring[k]));
        assert(ring.contains(ring[nx]));
    }
}

/// A cone mesh is closed and consistently wound, whatever its ring: every
/// edge of the base fan and of the wall is shared with a facet that runs
/// along it the other way.
pub proof fn lemma_cone_closed<P>(bottom_point: P, apex: P, ring: Seq<P>)
    ensures
        is_closed(cone_mesh(bottom_point, apex, ring)),
{
    let mesh = cone_mesh(bottom_point, apex, ring);
    let n = ring.len() as int;
    assert forall|i: int, u: P, v: P|
        0 <= i < mesh.len() && #[trigger] has_edge(mesh[i], u, v) implies exists|j: int|
            0 <= j < mesh.len() && #[trigger] has_edge(mesh[j], v, u) by {
        let k = if i < n { i } else { i - n };
        let nx = next_index(k, n);
        let pv = prev_index(k, n);
        assert(next_index(pv, n) == k);
        assert(mesh[nx] == tri(bottom_point, ring[next_index(nx, n)], ring[nx]));
        assert(mesh[pv] == tri(bottom_point, ring[k], ring[pv]));
        assert(mesh[n + k] == tri(ring[k], ring[nx], apex));
        assert(mesh[k] == tri(bottom_point, ring[nx], ring[k]));
        assert(mesh[n + nx] == tri(ring[nx], ring[next_index(nx, n)], apex));
        assert(mesh[n + pv] == tri(ring[pv], ring[k], apex));
        assert(has_edge(mesh[i], u, v) ==> has_edge(mesh[nx], v, u) || has_edge(mesh[pv], v, u)
            || has_edge(mesh[n + k], v, u) || has_edge(mesh[k], v, u) || has_edge(mesh[n + nx], v, u)
            || has_edge(mesh[n + pv], v, u));
    }
}

/// Appends the wall `cone_side(ring, apex)`.
fn push_cone_side<P: Copy>(out: &mut Vec<Facet<P>>, ring: &Vec<P>, apex: P)
    ensures
        final(out)@ == old(out)@ + cone_side(ring@, apex),
{
    let n = ring.len();
    let ghost side = cone_side(ring@, apex);
    let mut k: usize = 0;
    while k < n
        invariant
            n == ring@.len(),
            side == cone_side(ring@, apex),
            k <= n,
            out@ == old(out)@ + side.subrange(0, k as int),
        decreases n - k,
    {
        let nx: usize = if k + 1 == n { 0 } else { k + 1 };
        out.push(facet(ring[k], ring[nx], apex));
        k = k + 1;
        assert(out@ =~= old(out)@ + side.subrange(0, k as int));
    }
    assert(side.subrange(0, n as int) =~= side);
}

/// Stitches a cone from the center of its base, its apex and the ring of its
/// base. With `n` ring points the mesh has `2 n` facets: `n` in the base fan,
/// `n` in the wall, every wall facet ending at the apex.
pub fn cone_facets<P: Copy>(bottom_point: P, top_point: P, points: &Vec<P>) -> (r: StlSolid<P>)
    requires
        points@.len() <= usize::MAX / 2,
    ensures
        r.facets@ == cone_mesh(bottom_point, top_point, points@),
        r.facets@.len() == 2 * points@.len(),
{
    let mut facets: Vec<Facet<P>> = Vec::new();
    push_bottom_fan(&mut facets, bottom_point, points);
    push_cone_side(&mut facets, points, top_point);
    assert(facets@ =~= cone_mesh(bottom_point, top_point, points@));
    StlSolid { facets }
}

} // verus!
