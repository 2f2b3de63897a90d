use vstd::prelude::*;

use crate::mesh::{facet, has_edge, is_closed, tri, Facet, StlSolid};

verus! {

/// The eight corners of a box, named by side: left/right along the local X
/// axis, front/back along Y, bottom/top along Z.
#[derive(Clone, Copy, Debug)]
pub struct BoxCorners<P> {
    pub left_front_bottom: P,
    pub right_front_bottom: P,
    pub left_back_bottom: P,
    pub right_back_bottom: P,
    pub left_front_top: P,
    pub right_front_top: P,
    pub left_back_top: P,
    pub right_back_top: P,
}

/// The twelve facets of a box, two per face, each wound outward: bottom,
/// front, right, back, left, top.
pub open spec fn cube_mesh<P>(c: BoxCorners<P>) -> Seq<Facet<P>> {
    seq![
        tri(c.left_front_bottom, c.left_back_bottom, c.right_back_bottom),
        tri(c.right_back_bottom, c.right_front_bottom, c.left_front_bottom),
        tri(c.left_front_bottom, c.right_front_bottom, c.right_front_top),
        tri(c.right_front_top, c.left_front_top, c.left_front_bottom),
        tri(c.right_front_bottom, c.right_back_bottom, c.right_front_top),
        tri(c.right_back_top, c.right_front_top, c.right_back_bottom),
        tri(c.right_back_bottom, c.left_back_bottom, c.right_back_top),
        tri(c.left_back_top, c.right_back_top, c.left_back_bottom),
        tri(c.left_back_bottom, c.left_front_bottom, c.left_back_top),
        tri(c.left_front_top, c.left_back_top, c.left_front_bottom),
        tri(c.left_front_top, c.right_front_top, c.right_back_top),
        tri(c.right_back_top, c.left_back_top, c.left_front_top),
    ]
}

/// A box mesh is closed and consistently wound, whatever its corners: every
/// facet edge is shared with a facet that runs along it the other way.
pub proof fn lemma_cube_closed<P>(c: BoxCorners<P>)
    ensures
        is_closed(cube_mesh(c)),
{
    let mesh = cube_mesh(c);
    assert forall|i: int, u: P, v: P|
        0 <= i < mesh.len() && #[trigger] has_edge(mesh[i], u, v) implies exists|j: int|
            0 <= j < mesh.len() && #[trigger] has_edge(mesh[j], v, u) by {
        assert(has_edge(mesh[i], u, v) ==> has_edge(mesh[0], v, u) || has_edge(mesh[1], v, u)
            || has_edge(mesh[2], v, u) || has_edge(mesh[3], v, u) || has_edge(mesh[4], v, u)
            || has_edge(mesh[5], v, u) || has_edge(mesh[6], v, u) || has_edge(mesh[7], v, u)
            || has_edge(mesh[8], v, u) || has_edge(mesh[9], v, u) || has_edge(mesh[10], v, u)
            || has_edge(mesh[11], v, u));
    }
}

/// Emits the twelve facets of a box from its corners.
pub fn cube_facets<P: Copy>(c: &BoxCorners<P>) -> (r: StlSolid<P>)
    ensures
        r.facets@ == cube_mesh(*c),
        r.facets@.len() == 12,
{
    let mut facets: Vec<Facet<P>> = Vec::new();
    facets.push(facet(c.left_front_bottom, c.left_back_bottom, c.right_back_bottom));
    facets.push(facet(c.right_back_bottom, c.right_front_bottom, c.left_front_bottom));
    facets.push(facet(c.left_front_bottom, c.right_front_bottom, c.right_front_top));
    facets.push(facet(c.right_front_top, c.left_front_top, c.left_front_bottom));
    facets.push(facet(c.right_front_bottom, c.right_back_bottom, c.right_front_top));
    facets.push(facet(c.right_back_top, c.right_front_top, c.right_back_bottom));
    facets.push(facet(c.right_back_bottom, c.left_back_bottom, c.right_back_top));
    facets.push(facet(c.left_back_top, c.right_back_top, c.left_back_bottom));
    facets.push(facet(c.left_back_bottom, c.left_front_bottom, c.left_back_top));
    facets.push(facet(c.left_front_top, c.left_back_top, c.left_front_bottom));
    facets.push(facet(c.left_front_top, c.right_front_top, c.right_back_top));
    facets.push(facet(c.right_back_top, c.left_back_top, c.left_front_top));
    assert(facets@ =~= cube_mesh(*c));
    StlSolid { facets }
}

} // verus!
