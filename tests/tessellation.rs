use typed_scad::cone::cone_facets;
use typed_scad::cube::{cube_facets, BoxCorners};
use typed_scad::cylinder::cylinder_facets;
use typed_scad::mesh::{facet, Facet};
use typed_scad::sphere::{mirror_into_octants, octant_patch_facets, sphere_facets, Mirrored, Octant};

type P = (i64, i64, i64);

fn normal(f: &Facet<P>) -> P {
    let [a, b, c] = f.vertexes;
    let u = (b.0 - a.0, b.1 - a.1, b.2 - a.2);
    let w = (c.0 - b.0, c.1 - b.1, c.2 - b.2);
    (u.1 * w.2 - u.2 * w.1, u.2 * w.0 - u.0 * w.2, u.0 * w.1 - u.1 * w.0)
}

fn dot(a: P, b: P) -> i64 {
    a.0 * b.0 + a.1 * b.1 + a.2 * b.2
}

fn place(m: Mirrored<P>) -> P {
    let (x, y, z) = m.point;
    (
        if m.octant.negative_x { -x } else { x },
        if m.octant.negative_y { -y } else { y },
        if m.octant.negative_z { -z } else { z },
    )
}

fn square_ring(z: i64) -> Vec<P> {
    vec![(0, 10, z), (-10, 0, z), (0, -10, z), (10, 0, z)]
}

#[test]
fn cylinder_facet_count_and_levels() {
    let bottom = square_ring(0);
    let top = square_ring(5);
    let mesh = cylinder_facets((0, 0, 0), (0, 0, 5), &bottom, &top);
    assert_eq!(mesh.facets.len(), 4 * 4);
    for f in &mesh.facets {
        for v in f.vertexes {
            assert!(v.2 == 0 || v.2 == 5);
            if v.0 != 0 || v.1 != 0 {
                assert_eq!(v.0 * v.0 + v.1 * v.1, 100);
            }
        }
    }
}

#[test]
fn cylinder_layout() {
    let bottom = vec![1, 2, 3];
    let top = vec![11, 12, 13];
    let mesh = cylinder_facets(0, 10, &bottom, &top);
    let got: Vec<[i32; 3]> = mesh.facets.iter().map(|f| f.vertexes).collect();
    assert_eq!(
        got,
        vec![
            [0, 2, 1], [0, 3, 2], [0, 1, 3],
            [1, 12, 11], [12, 1, 2],
            [2, 13, 12], [13, 2, 3],
            [3, 11, 13], [11, 3, 1],
            [10, 11, 12], [10, 12, 13], [10, 13, 11],
        ]
    );
}

#[test]
fn cylinder_faces_outward() {
    let bottom = square_ring(0);
    let top = square_ring(5);
    let mesh = cylinder_facets((0, 0, 0), (0, 0, 5), &bottom, &top);
    for f in &mesh.facets {
        let n = normal(f);
        let a = f.vertexes[0];
        let b = f.vertexes[1];
        let c = f.vertexes[2];
        let centroid = (a.0 + b.0 + c.0, a.1 + b.1 + c.1, a.2 + b.2 + c.2 - 3 * 5 / 2);
        assert!(dot(n, centroid) > 0, "facet {:?}", f.vertexes);
    }
}

#[test]
fn empty_ring_gives_empty_mesh() {
    let mesh = cylinder_facets(0, 1, &vec![], &vec![]);
    assert!(mesh.facets.is_empty());
    let mesh = cone_facets(0, 1, &vec![]);
    assert!(mesh.facets.is_empty());
}

#[test]
fn cone_apex() {
    let ring = square_ring(0);
    let mesh = cone_facets((0, 0, 0), (0, 0, 7), &ring);
    assert_eq!(mesh.facets.len(), 2 * 4);
    for f in &mesh.facets[4..] {
        assert_eq!(f.vertexes[2], (0, 0, 7));
    }
    for f in &mesh.facets {
        let n = normal(f);
        let [a, b, c] = f.vertexes;
        let centroid = (a.0 + b.0 + c.0, a.1 + b.1 + c.1, 3 * (a.2 + b.2 + c.2) - 7 * 3);
        assert!(dot(n, centroid) > 0, "facet {:?}", f.vertexes);
    }
}

#[test]
fn cone_layout() {
    let mesh = cone_facets(0, 9, &vec![1, 2, 3]);
    let got: Vec<[i32; 3]> = mesh.facets.iter().map(|f| f.vertexes).collect();
    assert_eq!(got, vec![[0, 2, 1], [0, 3, 2], [0, 1, 3], [1, 2, 9], [2, 3, 9], [3, 1, 9]]);
}

#[test]
fn cube_faces_outward() {
    let corners = BoxCorners {
        left_front_bottom: (0, 0, 0),
        right_front_bottom: (10, 0, 0),
        left_back_bottom: (0, 11, 0),
        right_back_bottom: (10, 11, 0),
        left_front_top: (0, 0, 12),
        right_front_top: (10, 0, 12),
        left_back_top: (0, 11, 12),
        right_back_top: (10, 11, 12),
    };
    let mesh = cube_facets(&corners);
    assert_eq!(mesh.facets.len(), 12);
    for f in &mesh.facets {
        let n = normal(f);
        let [a, b, c] = f.vertexes;
        let centroid = (2 * (a.0 + b.0 + c.0) - 30, 2 * (a.1 + b.1 + c.1) - 33, 2 * (a.2 + b.2 + c.2) - 36);
        assert!(dot(n, centroid) > 0, "facet {:?}", f.vertexes);
    }
}

#[test]
fn octants() {
    assert_eq!(Octant::from_index(0), Octant { negative_x: false, negative_y: false, negative_z: false });
    assert_eq!(Octant::from_index(5), Octant { negative_x: true, negative_y: false, negative_z: true });
    assert_eq!(Octant::from_index(6), Octant { negative_x: false, negative_y: true, negative_z: true });
    let reversing: Vec<bool> = (0..8).map(|k| Octant::from_index(k).reverses_winding()).collect();
    assert_eq!(reversing, vec![false, true, true, false, true, false, false, true]);
}

fn grid(m: usize) -> Vec<Vec<(usize, usize)>> {
    (0..=m).map(|i| (0..=m).map(|j| (i, j)).collect()).collect()
}

#[test]
fn octant_patch_layout() {
    let patch = octant_patch_facets(&grid(2));
    let got: Vec<[(usize, usize); 3]> = patch.iter().map(|f| f.vertexes).collect();
    assert_eq!(
        got,
        vec![
            [(0, 0), (1, 0), (0, 1)],
            [(1, 1), (0, 1), (1, 0)],
            [(0, 1), (1, 1), (0, 2)],
            [(1, 2), (0, 2), (1, 1)],
            [(1, 0), (2, 0), (1, 1)],
            [(1, 1), (2, 1), (1, 2)],
        ]
    );
}

#[test]
fn sphere_facet_count() {
    for m in 1..8 {
        let mesh = sphere_facets(&grid(m));
        assert_eq!(mesh.facets.len(), 8 * m * (2 * m - 1));
    }
    assert!(sphere_facets(&grid(0)).facets.is_empty());
}

#[test]
fn mirrored_copies_face_outward() {
    let f = facet((10i64, 0, 0), (0, 10, 0), (0, 0, 10));
    let n = normal(&f);
    assert!(dot(n, (1, 1, 1)) > 0);
    let copies = mirror_into_octants(&vec![f]);
    assert_eq!(copies.len(), 8);
    for (k, copy) in copies.iter().enumerate() {
        let o = Octant::from_index(k);
        assert_eq!(copy.vertexes[0].octant, o);
        let placed = facet(place(copy.vertexes[0]), place(copy.vertexes[1]), place(copy.vertexes[2]));
        let outward = place(Mirrored { point: (1, 1, 1), octant: o });
        assert!(dot(normal(&placed), outward) > 0, "octant {k}");
        assert_eq!(normal(&placed), place(Mirrored { point: n, octant: o }));
    }
}

fn closed<T: PartialEq + Copy>(facets: &[Facet<T>]) -> bool {
    let edges = |f: &Facet<T>| {
        let [a, b, c] = f.vertexes;
        [(a, b), (b, c), (c, a)]
    };
    facets.iter().all(|f| {
        edges(f).iter().all(|(u, v)| facets.iter().any(|g| edges(g).contains(&(*v, *u))))
    })
}

#[test]
fn generated_meshes_are_closed() {
    let ring: Vec<u32> = (1..=7).collect();
    let top: Vec<u32> = (11..=17).collect();
    assert!(closed(&cylinder_facets(0, 10, &ring, &top).facets));
    assert!(closed(&cone_facets(0, 10, &ring).facets));
    let corners = BoxCorners {
        left_front_bottom: 0,
        right_front_bottom: 1,
        left_back_bottom: 2,
        right_back_bottom: 3,
        left_front_top: 4,
        right_front_top: 5,
        left_back_top: 6,
        right_back_top: 7,
    };
    assert!(closed(&cube_facets(&corners).facets));
    assert!(!closed(&octant_patch_facets(&grid(3))));
}
