use vstd::prelude::*;

use crate::mesh::{
    bottom_fan, facet, has_edge, is_closed, next_index, prev_index, push_bottom_fan, push_top_fan,
    top_fan, tri, Facet, StlSolid,
};

verus! {

/// The wall between two rings of equal size: each segment becomes two
/// facets, (bottom, next top, top) and (next top, bottom, next bottom).
pub open spec fn cylinder_side<P>(bottom: Seq<P>, top: Seq<P>) -> Seq<Facet<P>> {
    Seq::new(
        2 * bottom.len(),
        |i: int|
            {
                let k = i / 2;
                let nx = next_index(k, bottom.len() as int);
                if i % 2 == 0 {
                    tri(bottom[k], top[nx], top[k])
                } else {
                    tri(top[nx], bottom[k], bottom[nx])
                }
            },
    )
}

/// The closed cylinder: bottom fan, side wall, then top fan.
pub open spec fn cylinder_mesh<P>(
    bottom_point: P,
    top_point: P,
    bottom: Seq<P>,
    top: Seq<P>,
) -> Seq<Facet<P>> {
    bottom_fan(bottom_point, bottom) + cylinder_side(bottom, top) + top_fan(top_point, top)
}

/// `p` is a ring center or a point of one of the two rings.
pub open spec fn on_cylinder<P>(bottom_point: P, top_point: P, bottom: Seq<P>, top: Seq<P>, p: P) -> bool {
    p == bottom_point || p == top_point || bottom.contains(p) || top.contains(p)
}

/// A cylinder stitched from rings of `n` points has `4 n` facets, and each of
/// their vertexes is a ring center or a ring point: none lies anywhere else.
pub proof fn lemma_cylinder_vertexes<P>(bottom_point: P, top_point: P, bottom: Seq<P>, top: Seq<P>)
    requires
        bottom.len() == top.len(),
    ensures
        cylinder_mesh(bottom_point, top_point, bottom, top).len() == 4 * bottom.len(),
        forall|i: int, v: int|
            0 <= i < 4 * bottom.len() && 0 <= v < 3 ==> on_cylinder(
                bottom_point,
                top_point,
                bottom,
                top,
                #[trigger] cylinder_mesh(bottom_point, top_point, bottom, top)[i].vertexes[v],
            ),
{
    let mesh = cylinder_mesh(bottom_point, top_point, bottom, top);
    let n = bottom.len() as int;
    assert forall|i: int, v: int| 0 <= i < 4 * n && 0 <= v < 3 implies on_cylinder(
        bottom_point,
        top_point,
        bottom,
        top,
        #[trigger] mesh[i].vertexes[v],
    ) by {
        if i < n {
            let nx = next_index(i, n);
            assert(mesh[i] == bottom_fan(bottom_point, bottom)[i]);
            assert(bottom.contains(bottom[nx]));
            assert(bottom.contains(bottom[i]));
        } else if i < 3 * n {
            let x = i - n;
            let k = x / 2;
            let nx = next_index(k, n);
            assert(mesh[i] == cylinder_side(bottom, top)[x]);
            assert(bottom.contains(bottom[k]));
            assert(bottom.contains(bottom[nx]));
            assert(top.contains(top[k]));
            assert(top.contains(top[nx]));
        } else {
            let k = i - 3 * n;
            let nx = next_index(k, n);
            assert(mesh[i] == top_fan(top_point, top)[k]);
            assert(top.contains(top[nx]));
            assert(top.contains(top[k]));
        }
    }
}

/// A cylinder mesh is closed and consistently wound, whatever its rings:
/// every edge of the two fans and of the wall is shared with a facet that
/// runs along it the other way.
pub proof fn lemma_cylinder_closed<P>(bottom_point: P, top_point: P, bottom: Seq<P>, top: Seq<P>)
    requires
        bottom.len() == top.len(),
    ensures
        is_closed(cylinder_mesh(bottom_point, top_point, bottom, top)),
{
    let mesh = cylinder_mesh(bottom_point, top_point, bottom, top);
    let n = bottom.len() as int;
    let b = bottom;
    let t = top;
    assert forall|i: int, u: P, v: P|
        0 <= i < mesh.len() && #[trigger] has_edge(mesh[i], u, v) implies exists|j: int|
            0 <= j < mesh.len() && #[trigger] has_edge(mesh[j], v, u) by {
        let k = if i < n {
            i
        } else if i < 3 * n {
            (i - n) / 2
        } else {
            i - 3 * n
        };
        assert(0 <= k < n);
        let nx = next_index(k, n);
        let pv = prev_index(k, n);
        let nnx = next_index(nx, n);
        assert(next_index(pv, n) == k);
        let lo = n + 2 * k;
        let hi = n + 2 * k + 1;
        let lo_nx = n + 2 * nx;
        let lo_pv = n + 2 * pv;
        assert((lo - n) / 2 == k && (lo - n) % 2 == 0);
        assert((hi - n) / 2 == k && (hi - n) % 2 == 1);
        assert((lo_nx - n) / 2 == nx && (lo_nx - n) % 2 == 0);
        assert((lo_pv + 1 - n) / 2 == pv && (lo_pv + 1 - n) % 2 == 1);
        assert(mesh[k] == tri(bottom_point, b[nx], b[k]));
        assert(mesh[nx] == tri(bottom_point, b[nnx], b[nx]));
        assert(mesh[pv] == tri(bottom_point, b[k], b[pv]));
        assert(mesh[lo] == tri(b[k], t[nx], t[k]));
        assert(mesh[hi] == tri(t[nx], b[k], b[nx]));
        assert(mesh[lo_nx] == tri(b[nx], t[nnx], t[nx]));
        assert(mesh[lo_pv + 1] == tri(t[k], b[pv], b[k]));
        assert(mesh[3 * n + k] == tri(top_point, t[k], t[nx]));
        assert(mesh[3 * n + nx] == tri(top_point, t[nx], t[nnx]));
        assert(mesh[3 * n + pv] == tri(top_point, t[pv], t[k]));
        if i < n {
            assert(mesh[i] == mesh[k]);
        } else if i < 3 * n {
            assert(i == lo || i == hi);
        } else {
            assert(mesh[i] == mesh[3 * n + k]);
        }
        assert(has_edge(mesh[i], u, v) ==> has_edge(mesh[k], v, u) || has_edge(mesh[nx], v, u)
            || has_edge(mesh[pv], v, u) || has_edge(mesh[lo], v, u) || has_edge(mesh[hi], v, u)
            || has_edge(mesh[lo_nx], v, u) || has_edge(mesh[lo_pv + 1], v, u)
            || has_edge(mesh[3 * n + k], v, u) || has_edge(mesh[3 * n + nx], v, u)
            || has_edge(mesh[3 * n + pv], v, u));
    }
}

/// Appends the wall `cylinder_side(bottom, top)`.
fn push_cylinder_side<P: Copy>(out: &mut Vec<Facet<P>>, bottom: &Vec<P>, top: &Vec<P>)
    requires
        bottom@.len() == top@.len(),
        bottom@.len() <= usize::MAX / 4,
    ensures
        final(out)@ == old(out)@ + cylinder_side(bottom@, top@),
{
    let n = bottom.len();
    let ghost side = cylinder_side(bottom@, top@);
    let mut k: usize = 0;
    while k < n
        invariant
            n == bottom@.len(),
            n == top@.len(),
            n <= usize::MAX / 4,
            side == cylinder_side(bottom@, top@),
            k <= n,
            out@ == old(out)@ + side.subrange(0, 2 * k as int),
        decreases n - k,
    {
        let nx: usize = if k + 1 == n { 0 } else { k + 1 };
        out.push(facet(bottom[k], top[nx], top[k]));
        out.push(facet(top[nx], bottom[k], bottom[nx]));
        proof {
            let i = 2 * k as int;
            assert(i / 2 == k as int && i % 2 == 0);
            assert((i + 1) / 2 == k as int && (i + 1) % 2 == 1);
            assert(side[i] == tri(bottom@[k as int], top@[nx as int], top@[k as int]));
            assert(side[i + 1] == tri(top@[nx as int], bottom@[k as int], bottom@[nx as int]));
        }
        k = k + 1;
        assert(out@ =~= old(out)@ + side.subrange(0, 2 * k as int));
    }
    assert(side.subrange(0, 2 * n as int) =~= side);
}

/// Stitches a cylinder from its two ring centers and its two rings of equal
/// size, the top ring point `k` standing above the bottom ring point `k`.
/// With `n` points per ring the mesh has `4 n` facets: `n` in the bottom fan,
/// `2 n` in the wall, `n` in the top fan.
pub fn cylinder_facets<P: Copy>(
    bottom_point: P,
    top_point: P,
    bottom_points: &Vec<P>,
    top_points: &Vec<P>,
) -> (r: StlSolid<P>)
    requires
        bottom_points@.len() == top_points@.len(),
        bottom_points@.len() <= usize::MAX / 4,
    ensures
        r.facets@ == cylinder_mesh(bottom_point, top_point, bottom_points@, top_points@),
        r.facets@.len() == 4 * bottom_points@.len(),
{
    let mut facets: Vec<Facet<P>> = Vec::new();
    push_bottom_fan(&mut facets, bottom_point, bottom_points);
    push_cylinder_side(&mut facets, bottom_points, top_points);
    push_top_fan(&mut facets, top_point, top_points);
    assert(facets@ =~= cylinder_mesh(bottom_point, top_point, bottom_points@, top_points@));
    StlSolid { facets }
}

} // verus!
