use vstd::prelude::*;

verus! {

/// A triangle: three vertexes whose order gives the outward side by the
/// right-hand rule.
#[derive(Clone, Copy, Debug)]
pub struct Facet<P> {
    pub vertexes: [P; 3],
}

/// The facet with vertexes `a`, `b`, `c`, in that order.
pub open spec fn tri<P>(a: P, b: P, c: P) -> Facet<P> {
    Facet { vertexes: [a, b, c] }
}

/// Builds the facet with vertexes `a`, `b`, `c`, in that order.
pub fn facet<P: Copy>(a: P, b: P, c: P) -> (r: Facet<P>)
    ensures
        r == tri(a, b, c),
        r.vertexes@ == seq![a, b, c],
{
    let r = Facet { vertexes: [a, b, c] };
    assert(r.vertexes@ =~= seq![a, b, c]);
    r
}

/// A triangle mesh: an ordered list of facets. No connectivity is enforced;
/// each generator is responsible for the shape of what it emits.
#[derive(Clone, Debug)]
pub struct StlSolid<P> {
    pub facets: Vec<Facet<P>>,
}

/// The index after `k` on a ring of `n` points, wrapping to 0 after the last.
pub open spec fn next_index(k: int, n: int) -> int {
    if k + 1 == n {
        0
    } else {
        k + 1
    }
}

/// The index before `k` on a ring of `n` points, wrapping to `n - 1` before 0.
pub open spec fn prev_index(k: int, n: int) -> int {
    if k == 0 {
        n - 1
    } else {
        k - 1
    }
}

/// Facet `f` runs from `u` straight to `v`: the two are consecutive in its
/// cyclic vertex order.
pub open spec fn has_edge<P>(f: Facet<P>, u: P, v: P) -> bool {
    ||| f.vertexes[0] == u && f.vertexes[1] == v
    ||| f.vertexes[1] == u && f.vertexes[2] == v
    ||| f.vertexes[2] == u && f.vertexes[0] == v
}

/// Each edge of each facet is met by a facet that runs along it the other
/// way: the surface has no border, and neighboring facets agree on which
/// side is outside.
pub open spec fn is_closed<P>(mesh: Seq<Facet<P>>) -> bool {
    forall|i: int, u: P, v: P|
        0 <= i < mesh.len() && #[trigger] has_edge(mesh[i], u, v) ==> exists|j: int|
            0 <= j < mesh.len() && #[trigger] has_edge(mesh[j], v, u)
}

/// The fan that closes a ring seen from below: for each ring segment, the
/// center, the next ring point, then the ring point.
pub open spec fn bottom_fan<P>(center: P, ring: Seq<P>) -> Seq<Facet<P>> {
    Seq::new(
        ring.len(),
        |k: int| tri(center, ring[next_index(k, ring.len() as int)], ring[k]),
    )
}

/// The fan that closes a ring seen from above: for each ring segment, the
/// center, the ring point, then the next ring point.
pub open spec fn top_fan<P>(center: P, ring: Seq<P>) -> Seq<Facet<P>> {
    Seq::new(
        ring.len(),
        |k: int| tri(center, ring[k], ring[next_index(k, ring.len() as int)]),
    )
}

/// Appends the fan of `bottom_fan(center, ring)`.
pub fn push_bottom_fan<P: Copy>(out: &mut Vec<Facet<P>>, center: P, ring: &Vec<P>)
    ensures
        final(out)@ == old(out)@ + bottom_fan(center, ring@),
{
    let n = ring.len();
    let ghost fan = bottom_fan(center, ring@);
    let mut k: usize = 0;
    while k < n
        invariant
            n == ring@.len(),
            fan == bottom_fan(center, ring@),
            k <= n,
            out@ == old(out)@ + fan.subrange(0, k as int),
        decreases n - k,
    {
        let nx: usize = if k + 1 == n { 0 } else { k + 1 };
        out.push(facet(center, ring[nx], ring[k]));
        k = k + 1;
        assert(out@ =~= old(out)@ + fan.subrange(0, k as int));
    }
    assert(fan.subrange(0, n as int) =~= fan);
}

/// Appends the fan of `top_fan(center, ring)`.
pub fn push_top_fan<P: Copy>(out: &mut Vec<Facet<P>>, center: P, ring: &Vec<P>)
    ensures
        final(out)@ == old(out)@ + top_fan(center, ring@),
{
    let n = ring.len();
    let ghost fan = top_fan(center, ring@);
    let mut k: usize = 0;
    while k < n
        invariant
            n == ring@.len(),
            fan == top_fan(center, ring@),
            k <= n,
            out@ == old(out)@ + fan.subrange(0, k as int),
        decreases n - k,
    {
        let nx: usize = if k + 1 == n { 0 } else { k + 1 };
        out.push(facet(center, ring[k], ring[nx]));
        k = k + 1;
        assert(out@ =~= old(out)@ + fan.subrange(0, k as int));
    }
    assert(fan.subrange(0, n as int) =~= fan);
}

/// The facets of each child mesh, child after child.
pub open spec fn children_facets<P>(children: Seq<StlSolid<P>>) -> Seq<Facet<P>> {
    children.map_values(|c: StlSolid<P>| c.facets@).flatten()
}

/// Joins the meshes of a parent's children into one mesh: the facets of the
/// first child, then those of the second, and so on.
pub fn concat_meshes<P: Copy>(children: &Vec<StlSolid<P>>) -> (r: StlSolid<P>)
    ensures
        r.facets@ == children_facets(children@),
{
    let mut facets: Vec<Facet<P>> = Vec::new();
    let mut i: usize = 0;
    while i < children.len()
        invariant
            i <= children@.len(),
            facets@ == children_facets(children@.subrange(0, i as int)),
        decreases children.len() - i,
    {
        let child = &children[i];
        let ghost before = facets@;
        let mut j: usize = 0;
        while j < child.facets.len()
            invariant
                *child == children@[i as int],
                j <= child.facets@.len(),
                facets@ == before + child.facets@.subrange(0, j as int),
            decreases child.facets.len() - j,
        {
            facets.push(child.facets[j]);
            j = j + 1;
            assert(facets@ =~= before + child.facets@.subrange(0, j as int));
        }
        proof {
            let f = |c: StlSolid<P>| c.facets@;
            let prev = children@.subrange(0, i as int);
            assert(children@.subrange(0, i + 1).map_values(f) =~= prev.map_values(f).push(child.facets@));
            prev.map_values(f).lemma_flatten_push(child.facets@);
            assert(child.facets@.subrange(0, child.facets@.len() as int) =~= child.facets@);
        }
        i = i + 1;
    }
    assert(children@.subrange(0, children@.len() as int) =~= children@);
    StlSolid { facets }
}

/// Applies `transform` to every vertex of every facet, keeping the order of
/// facets and of the vertexes within each facet.
pub fn map_vertexes<P: Copy, F: Fn(P) -> P>(mesh: &StlSolid<P>, transform: F) -> (r: StlSolid<P>)
    requires
        forall|i: int, v: int|
            0 <= i < mesh.facets@.len() && 0 <= v < 3 ==> transform.requires(
                (#[trigger] mesh.facets@[i].vertexes[v],),
            ),
    ensures
        is_mapped(*mesh, transform, r),
{
    let mut facets: Vec<Facet<P>> = Vec::new();
    let mut i: usize = 0;
    while i < mesh.facets.len()
        invariant
            i <= mesh.facets@.len(),
            facets@.len() == i,
            forall|k: int, v: int|
                0 <= k < mesh.facets@.len() && 0 <= v < 3 ==> transform.requires(
                    (#[trigger] mesh.facets@[k].vertexes[v],),
                ),
            forall|k: int, v: int|
                0 <= k < i && 0 <= v < 3 ==> transform.ensures(
                    (mesh.facets@[k].vertexes[v],),
                    #[trigger] facets@[k].vertexes[v],
                ),
        decreases mesh.facets.len() - i,
    {
        let src = mesh.facets[i].vertexes;
        assert(transform.requires((mesh.facets@[i as int].vertexes[0],)));
        assert(transform.requires((mesh.facets@[i as int].vertexes[1],)));
        assert(transform.requires((mesh.facets@[i as int].vertexes[2],)));
        let a = transform(src[0]);
        let b = transform(src[1]);
        let c = transform(src[2]);
        facets.push(facet(a, b, c));
        i = i + 1;
    }
    StlSolid { facets }
}

/// `r` is what `map_vertexes(mesh, transform)` returns.
pub open spec fn is_mapped<P, F: Fn(P) -> P>(mesh: StlSolid<P>, transform: F, r: StlSolid<P>) -> bool {
    &&& r.facets@.len() == mesh.facets@.len()
    &&& forall|i: int, v: int|
        0 <= i < mesh.facets@.len() && 0 <= v < 3 ==> transform.ensures(
            (mesh.facets@[i].vertexes[v],),
            #[trigger] r.facets@[i].vertexes[v],
        )
}

/// Mapping a mesh by a transform and then by a transform that undoes it (a
/// translation by `v`, then by `-v`) gives back the mesh it started from: the same
/// facets, in the same order, with the same vertexes.
pub proof fn lemma_map_round_trip<P, F: Fn(P) -> P, G: Fn(P) -> P>(
    mesh: StlSolid<P>,
    forth: F,
    back: G,
    moved: StlSolid<P>,
    returned: StlSolid<P>,
)
    requires
        forall|p: P, q: P, r: P| forth.ensures((p,), q) && back.ensures((q,), r) ==> r == p,
        is_mapped(mesh, forth, moved),
        is_mapped(moved, back, returned),
    ensures
        returned.facets@ == mesh.facets@,
{
    assert forall|i: int| 0 <= i < mesh.facets@.len() implies returned.facets@[i] == mesh.facets@[i] by {
        assert forall|v: int| 0 <= v < 3 implies returned.facets@[i].vertexes[v]
            == mesh.facets@[i].vertexes[v] by {
            assert(forth.ensures((mesh.facets@[i].vertexes[v],), moved.facets@[i].vertexes[v]));
            assert(back.ensures((moved.facets@[i].vertexes[v],), returned.facets@[i].vertexes[v]));
        }
        assert(returned.facets@[i].vertexes =~= mesh.facets@[i].vertexes);
    }
    assert(returned.facets@ =~= mesh.facets@);
}

} // verus!
