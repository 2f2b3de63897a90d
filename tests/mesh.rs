use typed_scad::mesh::{concat_meshes, facet, map_vertexes, StlSolid};

#[test]
fn concat_keeps_child_order() {
    let a = StlSolid { facets: vec![facet(1, 2, 3), facet(4, 5, 6)] };
    let b = StlSolid { facets: vec![] };
    let c = StlSolid { facets: vec![facet(7, 8, 9)] };
    let all = concat_meshes(&vec![a, b, c]);
    let got: Vec<[i32; 3]> = all.facets.iter().map(|f| f.vertexes).collect();
    assert_eq!(got, vec![[1, 2, 3], [4, 5, 6], [7, 8, 9]]);
    assert!(concat_meshes::<i32>(&vec![]).facets.is_empty());
}

#[test]
fn map_moves_every_vertex() {
    let mesh = StlSolid { facets: vec![facet((0, 0, 0), (10, 0, 0), (0, 10, 0))] };
    let moved = map_vertexes(&mesh, |(x, y, z): (i64, i64, i64)| (x + 3, y - 2, z + 1));
    assert_eq!(moved.facets[0].vertexes, [(3, -2, 1), (13, -2, 1), (3, 8, 1)]);
}

#[test]
fn translate_there_and_back() {
    let mesh = StlSolid {
        facets: vec![facet((0, 0, 0), (10, 0, 0), (0, 10, 0)), facet((1, 2, 3), (4, 5, 6), (7, 8, 9))],
    };
    let v = (5i64, -7i64, 11i64);
    let moved = map_vertexes(&mesh, |(x, y, z): (i64, i64, i64)| (x + v.0, y + v.1, z + v.2));
    let back = map_vertexes(&moved, |(x, y, z): (i64, i64, i64)| (x - v.0, y - v.1, z - v.2));
    for (a, b) in mesh.facets.iter().zip(back.facets.iter()) {
        assert_eq!(a.vertexes, b.vertexes);
    }
    assert_ne!(moved.facets[0].vertexes, mesh.facets[0].vertexes);
}
