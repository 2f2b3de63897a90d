use vstd::prelude::*;

use crate::mesh::{facet, tri, Facet, StlSolid};

verus! {

/// A sign pattern: the coordinates that a mirrored copy negates.
#[derive(Clone, Copy, Debug, PartialEq, Eq, Structural)]
pub struct Octant {
    pub negative_x: bool,
    pub negative_y: bool,
    pub negative_z: bool,
}

/// A point of the positive octant together with the octant it is mirrored
/// into.
#[derive(Clone, Copy, Debug)]
pub struct Mirrored<P> {
    pub point: P,
    pub octant: Octant,
}

/// Octant number `k` (0 to 7): bit 0 negates X, bit 1 negates Y, bit 2 negates Z.
pub open spec fn octant_spec(k: int) -> Octant {
    Octant { negative_x: k % 2 == 1, negative_y: (k / 2) % 2 == 1, negative_z: (k / 4) % 2 == 1 }
}

/// A mirror that negates an odd number of axes turns a facet inside out, so
/// its copies are emitted with the last two vertexes swapped.
pub open spec fn reverses_winding(o: Octant) -> bool {
    (o.negative_x != o.negative_y) != o.negative_z
}

impl Octant {
    /// Octant number `k`: bit 0 negates X, bit 1 negates Y, bit 2 negates Z.
    pub fn from_index(k: usize) -> (o: Octant)
        requires
            k < 8,
        ensures
            o == octant_spec(k as int),
    {
        Octant { negative_x: k % 2 == 1, negative_y: (k / 2) % 2 == 1, negative_z: (k / 4) % 2 == 1 }
    }

    /// Whether copies into this octant have their winding reversed.
    pub fn reverses_winding(&self) -> (r: bool)
        ensures
            r == reverses_winding(*self),
    {
        (self.negative_x != self.negative_y) != self.negative_z
    }
}

/// The copy of facet `f` in octant `o`, rewound when the mirror reverses it.
pub open spec fn mirror_facet<P>(f: Facet<P>, o: Octant) -> Facet<Mirrored<P>> {
    let a = Mirrored { point: f.vertexes[0], octant: o };
    let b = Mirrored { point: f.vertexes[1], octant: o };
    let c = Mirrored { point: f.vertexes[2], octant: o };
    if reverses_winding(o) {
        tri(a, c, b)
    } else {
        tri(a, b, c)
    }
}

/// The copy of the whole patch in octant number `k`.
pub open spec fn mirror_block<P>(patch: Seq<Facet<P>>, k: int) -> Seq<Facet<Mirrored<P>>> {
    Seq::new(patch.len(), |i: int| mirror_facet(patch[i], octant_spec(k)))
}

/// The copies of the patch in octants `0` to `k - 1`, one block after another.
pub open spec fn mirror_blocks<P>(patch: Seq<Facet<P>>, k: int) -> Seq<Facet<Mirrored<P>>>
    decreases k,
{
    if k <= 0 {
        Seq::empty()
    } else {
        mirror_blocks(patch, k - 1) + mirror_block(patch, k - 1)
    }
}

/// The patch copied into all eight octants.
pub open spec fn mirror_octants<P>(patch: Seq<Facet<P>>) -> Seq<Facet<Mirrored<P>>> {
    mirror_blocks(patch, 8)
}

/// A square grid of `m + 1` rows of `m + 1` points each (`m >= 0`).
pub open spec fn is_grid<P>(grid: Seq<Vec<P>>) -> bool {
    &&& grid.len() >= 1
    &&& forall|i: int| 0 <= i < grid.len() ==> #[trigger] grid[i]@.len() == grid.len()
}

/// The facets of the grid cells of row `i`. A cell spans points
/// `aa = (i, j)`, `ab = (i, j + 1)`, `ba = (i + 1, j)`, `bb = (i + 1, j + 1)`
/// and gives `(aa, ba, ab)` then `(bb, ab, ba)`. In the last row `ba` and
/// `bb` lie on the axis of the azimuthal rotation and coincide, so the cell
/// gives its first facet alone.
pub open spec fn patch_row<P>(grid: Seq<Vec<P>>, i: int) -> Seq<Facet<P>> {
    let m = grid.len() - 1;
    if i + 1 < m {
        Seq::new(
            (2 * m) as nat,
            |x: int|
                {
                    let j = x / 2;
                    if x % 2 == 0 {
                        tri(grid[i]@[j], grid[i + 1]@[j], grid[i]@[j + 1])
                    } else {
                        tri(grid[i + 1]@[j + 1], grid[i]@[j + 1], grid[i + 1]@[j])
                    }
                },
        )
    } else {
        Seq::new(m as nat, |j: int| tri(grid[i]@[j], grid[i + 1]@[j], grid[i]@[j + 1]))
    }
}

/// The facets of rows `0` to `i - 1`, in order.
pub open spec fn patch_rows<P>(grid: Seq<Vec<P>>, i: int) -> Seq<Facet<P>>
    decreases i,
{
    if i <= 0 {
        Seq::empty()
    } else {
        patch_rows(grid, i - 1) + patch_row(grid, i - 1)
    }
}

/// The surface of one octant, from all rows of grid cells.
pub open spec fn octant_patch<P>(grid: Seq<Vec<P>>) -> Seq<Facet<P>> {
    patch_rows(grid, grid.len() - 1)
}

/// The whole sphere: the octant patch copied into all eight octants.
pub open spec fn sphere_mesh<P>(grid: Seq<Vec<P>>) -> Seq<Facet<Mirrored<P>>> {
    mirror_octants(octant_patch(grid))
}

/// Row `i` of the patch has `2 m` facets, but the last row, which has `m`.
proof fn lemma_patch_rows_len<P>(grid: Seq<Vec<P>>, i: int)
    requires
        grid.len() >= 1,
        0 <= i <= grid.len() - 1,
    ensures
        i < grid.len() - 1 ==> patch_rows(grid, i).len() == 2 * (grid.len() - 1) * i,
        i == grid.len() - 1 ==> patch_rows(grid, i).len() == (grid.len() - 1) * (2 * grid.len() - 3),
    decreases i,
{
    let m = grid.len() - 1;
    if i == 0 {
        assert(2 * m * 0 == 0) by (nonlinear_arith);
        assert(m == 0 ==> m * (2 * m - 1) == 0) by (nonlinear_arith);
    } else {
        lemma_patch_rows_len(grid, i - 1);
        assert(2 * m * (i - 1) + 2 * m == 2 * m * i) by (nonlinear_arith);
        assert(2 * m * (m - 1) + m == m * (2 * m - 1)) by (nonlinear_arith);
    }
}

/// Each of the `k` blocks holds one copy of every patch facet.
proof fn lemma_mirror_blocks_len<P>(patch: Seq<Facet<P>>, k: int)
    requires
        0 <= k,
    ensures
        mirror_blocks(patch, k).len() == k * patch.len(),
    decreases k,
{
    if k == 0 {
        assert(0 * patch.len() == 0) by (nonlinear_arith);
    } else {
        lemma_mirror_blocks_len(patch, k - 1);
        assert((k - 1) * patch.len() + patch.len() == k * patch.len()) by (nonlinear_arith);
    }
}

/// `p` is one of the points of the grid.
pub open spec fn on_grid<P>(grid: Seq<Vec<P>>, p: P) -> bool {
    exists|i: int, j: int| 0 <= i < grid.len() && 0 <= j < grid.len() && #[trigger] grid[i]@[j] == p
}

proof fn lemma_on_grid<P>(grid: Seq<Vec<P>>, i: int, j: int)
    requires
        0 <= i < grid.len(),
        0 <= j < grid.len(),
    ensures
        on_grid(grid, grid[i]@[j]),
{
    assert(grid[i]@[j] == grid[i]@[j]);
}

/// Every vertex of the first `i` rows of the patch is a grid point.
proof fn lemma_patch_rows_on_grid<P>(grid: Seq<Vec<P>>, i: int)
    requires
        is_grid(grid),
        0 <= i <= grid.len() - 1,
    ensures
        forall|x: int, v: int|
            0 <= x < patch_rows(grid, i).len() && 0 <= v < 3 ==> on_grid(
                grid,
                #[trigger] patch_rows(grid, i)[x].vertexes[v],
            ),
    decreases i,
{
    if i > 0 {
        lemma_patch_rows_on_grid(grid, i - 1);
        let r = i - 1;
        let m = grid.len() - 1;
        let rows = patch_rows(grid, i);
        let prev = patch_rows(grid, r);
        let row = patch_row(grid, r);
        assert forall|x: int, v: int| 0 <= x < rows.len() && 0 <= v < 3 implies on_grid(
            grid,
            #[trigger] rows[x].vertexes[v],
        ) by {
            if x < prev.len() {
                assert(rows[x] == prev[x]);
            } else {
                let y = x - prev.len();
                assert(rows[x] == row[y]);
                let j = if r + 1 < m { y / 2 } else { y };
                assert(0 <= j < m);
                lemma_on_grid(grid, r, j);
                lemma_on_grid(grid, r, j + 1);
                lemma_on_grid(grid, r + 1, j);
                lemma_on_grid(grid, r + 1, j + 1);
            }
        }
    }
}

/// Every vertex of the first `k` blocks is a copy of a grid point, and the
/// three vertexes of each facet share their octant.
proof fn lemma_mirror_blocks_on_grid<P>(grid: Seq<Vec<P>>, patch: Seq<Facet<P>>, k: int)
    requires
        0 <= k,
        forall|x: int, v: int|
            0 <= x < patch.len() && 0 <= v < 3 ==> on_grid(grid, #[trigger] patch[x].vertexes[v]),
    ensures
        forall|x: int, v: int|
            0 <= x < mirror_blocks(patch, k).len() && 0 <= v < 3 ==> {
                let q = #[trigger] mirror_blocks(patch, k)[x].vertexes[v];
                on_grid(grid, q.point) && q.octant == mirror_blocks(patch, k)[x].vertexes[0].octant
            },
    decreases k,
{
    if k == 0 {
        assert(mirror_blocks(patch, k).len() == 0);
    } else {
        lemma_mirror_blocks_on_grid(grid, patch, k - 1);
        let prev_len = mirror_blocks(patch, k - 1).len();
        assert forall|x: int, v: int| 0 <= x < mirror_blocks(patch, k).len() && 0 <= v < 3 implies {
            let q = #[trigger] mirror_blocks(patch, k)[x].vertexes[v];
            on_grid(grid, q.point) && q.octant == mirror_blocks(patch, k)[x].vertexes[0].octant
        } by {
            if x < prev_len {
                assert(mirror_blocks(patch, k)[x] == mirror_blocks(patch, k - 1)[x]);
            } else {
                let f = x - prev_len;
                assert(mirror_blocks(patch, k)[x] == mirror_facet(patch[f], octant_spec(k - 1)));
                assert(on_grid(grid, patch[f].vertexes[0]));
                assert(on_grid(grid, patch[f].vertexes[1]));
                assert(on_grid(grid, patch[f].vertexes[2]));
            }
        }
    }
}

/// Every vertex of a tessellated sphere is a grid point of the positive
/// octant tagged with an octant, and the three vertexes of a facet share
/// their octant.
pub proof fn lemma_sphere_vertexes<P>(grid: Seq<Vec<P>>)
    requires
        is_grid(grid),
    ensures
        forall|x: int, v: int|
            0 <= x < sphere_mesh(grid).len() && 0 <= v < 3 ==> {
                let q = #[trigger] sphere_mesh(grid)[x].vertexes[v];
                on_grid(grid, q.point) && q.octant == sphere_mesh(grid)[x].vertexes[0].octant
            },
{
    lemma_patch_rows_on_grid(grid, grid.len() - 1);
    lemma_mirror_blocks_on_grid(grid, octant_patch(grid), 8);
}

/// `p` mirrored into octant `o`: the flagged coordinates negated. In this
/// exact model a position is a triple of integers.
pub open spec fn reflect(p: (int, int, int), o: Octant) -> (int, int, int) {
    (
        if o.negative_x { -p.0 } else { p.0 },
        if o.negative_y { -p.1 } else { p.1 },
        if o.negative_z { -p.2 } else { p.2 },
    )
}

/// The vector from `a` to `b`.
pub open spec fn between(a: (int, int, int), b: (int, int, int)) -> (int, int, int) {
    (b.0 - a.0, b.1 - a.1, b.2 - a.2)
}

/// The cross product `a × b`.
pub open spec fn cross(a: (int, int, int), b: (int, int, int)) -> (int, int, int) {
    (a.1 * b.2 - a.2 * b.1, a.2 * b.0 - a.0 * b.2, a.0 * b.1 - a.1 * b.0)
}

/// The (unnormalized) normal of a facet: `(v1 → v2) × (v2 → v3)`.
pub open spec fn facet_normal(f: Facet<(int, int, int)>) -> (int, int, int) {
    cross(between(f.vertexes[0], f.vertexes[1]), between(f.vertexes[1], f.vertexes[2]))
}

/// A mirrored facet with each vertex moved into its octant.
pub open spec fn placed(f: Facet<Mirrored<(int, int, int)>>) -> Facet<(int, int, int)> {
    tri(
        reflect(f.vertexes[0].point, f.vertexes[0].octant),
        reflect(f.vertexes[1].point, f.vertexes[1].octant),
        reflect(f.vertexes[2].point, f.vertexes[2].octant),
    )
}

/// `v` scaled by `-1`.
pub open spec fn negated(v: (int, int, int)) -> (int, int, int) {
    (-v.0, -v.1, -v.2)
}

/// Reflecting both factors reflects the cross product, negated when the
/// mirror reverses orientation.
proof fn lemma_cross_reflect(u: (int, int, int), w: (int, int, int), o: Octant)
    ensures
        reverses_winding(o) ==> cross(reflect(u, o), reflect(w, o)) == negated(reflect(cross(u, w), o)),
        !reverses_winding(o) ==> cross(reflect(u, o), reflect(w, o)) == reflect(cross(u, w), o),
{
    lemma_neg_mul(u.0, w.1);
    lemma_neg_mul(u.0, w.2);
    lemma_neg_mul(u.1, w.0);
    lemma_neg_mul(u.1, w.2);
    lemma_neg_mul(u.2, w.0);
    lemma_neg_mul(u.2, w.1);
}

proof fn lemma_neg_mul(a: int, b: int)
    ensures
        (-a) * b == -(a * b),
        a * (-b) == -(a * b),
        (-a) * (-b) == a * b,
{
    assert((-a) * b == -(a * b)) by (nonlinear_arith);
    assert(a * (-b) == -(a * b)) by (nonlinear_arith);
    assert((-a) * (-b) == a * b) by (nonlinear_arith);
}

/// Reflection commutes with taking the vector between two points.
proof fn lemma_between_reflect(a: (int, int, int), b: (int, int, int), o: Octant)
    ensures
        between(reflect(a, o), reflect(b, o)) == reflect(between(a, b), o),
{
}

/// Swapping the last two vertexes of a facet negates its normal.
proof fn lemma_swap_negates_normal(a: (int, int, int), b: (int, int, int), c: (int, int, int))
    ensures
        facet_normal(tri(a, c, b)) == negated(facet_normal(tri(a, b, c))),
{
    let n = facet_normal(tri(a, b, c));
    let r = facet_normal(tri(a, c, b));
    assert(r.0 == -n.0) by (nonlinear_arith)
        requires
            n.0 == (b.1 - a.1) * (c.2 - b.2) - (b.2 - a.2) * (c.1 - b.1),
            r.0 == (c.1 - a.1) * (b.2 - c.2) - (c.2 - a.2) * (b.1 - c.1),
    ;
    assert(r.1 == -n.1) by (nonlinear_arith)
        requires
            n.1 == (b.2 - a.2) * (c.0 - b.0) - (b.0 - a.0) * (c.2 - b.2),
            r.1 == (c.2 - a.2) * (b.0 - c.0) - (c.0 - a.0) * (b.2 - c.2),
    ;
    assert(r.2 == -n.2) by (nonlinear_arith)
        requires
            n.2 == (b.0 - a.0) * (c.1 - b.1) - (b.1 - a.1) * (c.0 - b.0),
            r.2 == (c.0 - a.0) * (b.1 - c.1) - (c.1 - a.1) * (b.0 - c.0),
    ;
}

/// Copying a facet into an octant, with the rewinding that `mirror_facet`
/// applies, turns its normal into the mirror image of the normal it had. So
/// a facet of the positive octant that faces away from the center still faces
/// away from it in every copy.
pub proof fn lemma_mirror_keeps_outward_normal(f: Facet<(int, int, int)>, o: Octant)
    ensures
        facet_normal(placed(mirror_facet(f, o))) == reflect(facet_normal(f), o),
{
    let a = f.vertexes[0];
    let b = f.vertexes[1];
    let c = f.vertexes[2];
    let ra = reflect(a, o);
    let rb = reflect(b, o);
    let rc = reflect(c, o);
    assert(f == tri(a, b, c)) by {
        assert(f.vertexes =~= [a, b, c]);
    }
    lemma_between_reflect(a, b, o);
    lemma_between_reflect(b, c, o);
    lemma_cross_reflect(between(a, b), between(b, c), o);
    if reverses_winding(o) {
        assert(placed(mirror_facet(f, o)) == tri(ra, rc, rb));
        lemma_swap_negates_normal(ra, rb, rc);
    } else {
        assert(placed(mirror_facet(f, o)) == tri(ra, rb, rc));
    }
}

/// Emits the facets of one octant of a sphere from its grid of points. Row
/// `i`, column `j` of the grid is the pole rotated by the `i`-th polar angle,
/// then by the `j`-th azimuthal angle; the last polar angle is the right
/// angle that brings the pole onto the azimuthal axis, where the points of
/// that row coincide.
pub fn octant_patch_facets<P: Copy>(grid: &Vec<Vec<P>>) -> (r: Vec<Facet<P>>)
    requires
        is_grid(grid@),
    ensures
        r@ == octant_patch(grid@),
        r@.len() == (grid@.len() - 1) * (2 * grid@.len() - 3),
{
    proof {
        lemma_patch_rows_len(grid@, grid@.len() - 1);
    }
    let m: usize = grid.len() - 1;
    let mut out: Vec<Facet<P>> = Vec::new();
    let mut i: usize = 0;
    while i < m
        invariant
            is_grid(grid@),
            m + 1 == grid@.len(),
            i <= m,
            out@ == patch_rows(grid@, i as int),
        decreases m - i,
    {
        let row_a = &grid[i];
        let row_b = &grid[i + 1];
        let last = i + 1 == m;
        let ghost row = patch_row(grid@, i as int);
        let ghost before = out@;
        assert(row_a@.len() == m + 1 && row_b@.len() == m + 1) by {
            assert(grid@[i as int]@.len() == grid@.len());
            assert(grid@[i + 1]@.len() == grid@.len());
        }
        let mut j: usize = 0;
        while j < m
            invariant
                is_grid(grid@),
                m + 1 == grid@.len(),
                i < m,
                last == (i + 1 == m),
                *row_a == grid@[i as int],
                *row_b == grid@[i + 1],
                row_a@.len() == m + 1,
                row_b@.len() == m + 1,
                row == patch_row(grid@, i as int),
                j <= m,
                last ==> out@ == before + row.subrange(0, j as int),
                !last ==> out@ == before + row.subrange(0, 2 * j as int),
            decreases m - j,
        {
            out.push(facet(row_a[j], row_b[j], row_a[j + 1]));
            if !last {
                out.push(facet(row_b[j + 1], row_a[j + 1], row_b[j]));
                proof {
                    let x = 2 * j as int;
                    assert(x / 2 == j as int && x % 2 == 0);
                    assert((x + 1) / 2 == j as int && (x + 1) % 2 == 1);
                }
            }
            j = j + 1;
            proof {
                if last {
                    assert(out@ =~= before + row.subrange(0, j as int));
                } else {
                    assert(out@ =~= before + row.subrange(0, 2 * j as int));
                }
            }
        }
        proof {
            if last {
                assert(row.subrange(0, m as int) =~= row);
            } else {
                assert(row.subrange(0, 2 * m as int) =~= row);
            }
        }
        i = i + 1;
    }
    out
}

/// Copies a patch into all eight octants: block `k` holds every patch facet,
/// in order, tagged with octant `k` and rewound when that octant's mirror
/// reverses orientation.
pub fn mirror_into_octants<P: Copy>(patch: &Vec<Facet<P>>) -> (r: Vec<Facet<Mirrored<P>>>)
    ensures
        r@ == mirror_octants(patch@),
        r@.len() == 8 * patch@.len(),
{
    proof {
        lemma_mirror_blocks_len(patch@, 8);
    }
    let n = patch.len();
    let mut out: Vec<Facet<Mirrored<P>>> = Vec::new();
    let mut k: usize = 0;
    while k < 8
        invariant
            n == patch@.len(),
            k <= 8,
            out@ == mirror_blocks(patch@, k as int),
        decreases 8 - k,
    {
        let o = Octant::from_index(k);
        let reversed = o.reverses_winding();
        let ghost block = mirror_block(patch@, k as int);
        let ghost before = out@;
        let mut f: usize = 0;
        while f < n
            invariant
                n == patch@.len(),
                k < 8,
                o == octant_spec(k as int),
                reversed == reverses_winding(o),
                block == mirror_block(patch@, k as int),
                f <= n,
                out@ == before + block.subrange(0, f as int),
            decreases n - f,
        {
            let v = patch[f].vertexes;
            let a = Mirrored { point: v[0], octant: o };
            let b = Mirrored { point: v[1], octant: o };
            let c = Mirrored { point: v[2], octant: o };
            if reversed {
                out.push(facet(a, c, b));
            } else {
                out.push(facet(a, b, c));
            }
            f = f + 1;
            assert(out@ =~= before + block.subrange(0, f as int));
        }
        assert(block.subrange(0, n as int) =~= block);
        k = k + 1;
    }
    out
}

/// Tessellates a sphere from the grid of its positive octant: the patch of
/// `octant_patch_facets`, mirrored by `mirror_into_octants`.
pub fn sphere_facets<P: Copy>(grid: &Vec<Vec<P>>) -> (r: StlSolid<Mirrored<P>>)
    requires
        is_grid(grid@),
    ensures
        r.facets@ == sphere_mesh(grid@),
        r.facets@.len() == 8 * (grid@.len() - 1) * (2 * grid@.len() - 3),
{
    let patch = octant_patch_facets(grid);
    let facets = mirror_into_octants(&patch);
    proof {
        let n = grid@.len();
        assert(8 * ((n - 1) * (2 * n - 3)) == 8 * (n - 1) * (2 * n - 3)) by (nonlinear_arith);
    }
    StlSolid { facets }
}

} // verus!
