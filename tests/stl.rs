use typed_scad::stl::{
    write_facet, write_facets_count, write_header, write_stl, StlFacet, StlWriteError,
};

fn facet_of(values: [f32; 12]) -> StlFacet {
    let b: Vec<u32> = values.iter().map(|v| v.to_bits()).collect();
    StlFacet {
        normal: [b[0], b[1], b[2]],
        vertexes: [[b[3], b[4], b[5]], [b[6], b[7], b[8]], [b[9], b[10], b[11]]],
    }
}

fn u32_at(bytes: &[u8], at: usize) -> u32 {
    u32::from_le_bytes([bytes[at], bytes[at + 1], bytes[at + 2], bytes[at + 3]])
}

fn f32_at(bytes: &[u8], at: usize) -> f32 {
    f32::from_bits(u32_at(bytes, at))
}

#[test]
fn header_is_eighty_zero_bytes() {
    let mut out = vec![7u8];
    write_header(&mut out);
    assert_eq!(out.len(), 81);
    assert_eq!(out[0], 7);
    assert!(out[1..].iter().all(|b| *b == 0));
}

#[test]
fn facets_count_is_little_endian() {
    let mut out = vec![];
    assert_eq!(write_facets_count(&mut out, 0x0102_0304), Ok(()));
    assert_eq!(out, vec![4, 3, 2, 1]);

    let mut out = vec![];
    assert_eq!(write_facets_count(&mut out, 5), Ok(()));
    assert_eq!(out, vec![5, 0, 0, 0]);

    let mut out = vec![];
    assert_eq!(write_facets_count(&mut out, u32::MAX as usize), Ok(()));
    assert_eq!(out, vec![255, 255, 255, 255]);
}

#[test]
fn too_many_facets() {
    let mut out = vec![9u8];
    assert_eq!(
        write_facets_count(&mut out, u32::MAX as usize + 1),
        Err(StlWriteError::TooManyFacets)
    );
    assert_eq!(out, vec![9]);
}

#[test]
fn facet_record() {
    let f = facet_of([0.0, 0.0, 1.0, 0.0, 0.0, 0.0, 10.0, 0.0, 0.0, 0.0, 10.0, 0.0]);
    let mut out = vec![];
    write_facet(&mut out, &f);
    assert_eq!(out.len(), 50);
    assert_eq!(&out[8..12], &[0x00, 0x00, 0x80, 0x3f]);
    assert_eq!(f32_at(&out, 2 * 4), 1.0);
    assert_eq!(f32_at(&out, 6 * 4), 10.0);
    assert_eq!(f32_at(&out, 10 * 4), 10.0);
    assert_eq!(&out[48..50], &[0, 0]);
}

#[test]
fn write_whole_file() {
    let facets = vec![
        facet_of([0.0, -1.0, 0.0, 0.0, 0.0, 0.0, 10.0, 0.0, 0.0, 0.0, 0.0, 10.0]),
        facet_of([0.5, 0.5, 0.5, 10.0, 0.0, 0.0, 0.0, 10.0, 0.0, 0.0, 0.0, 10.0]),
        facet_of([-1.0, 0.0, 0.0, 0.0, 0.0, 0.0, 0.0, 0.0, 10.0, 0.0, 10.0, 0.0]),
        facet_of([0.0, 0.0, -1.0, 0.0, 0.0, 0.0, 0.0, 10.0, 0.0, 10.0, 0.0, 0.0]),
    ];
    let mut out = vec![];
    assert_eq!(write_stl(&mut out, &facets), Ok(()));

    let header_bytes = 80;
    let facet_count_bytes = 4;
    let facet_bytes = 4 * 3 + 4 * 3 * 3 + 2;
    assert_eq!(out.len(), header_bytes + facet_count_bytes + facet_bytes * facets.len());
    assert_eq!(u32_at(&out, header_bytes), facets.len() as u32);
    for i in 0..facets.len() {
        let start = header_bytes + facet_count_bytes + facet_bytes * i;
        assert_eq!(u32_at(&out, start), facets[i].normal[0]);
        assert_eq!(u32_at(&out, start + 12), facets[i].vertexes[0][0]);
        assert_eq!(u32_at(&out, start + 44), facets[i].vertexes[2][2]);
    }
    assert_eq!(f32_at(&out, 84 + 50 + 12), 10.0);
}

#[test]
fn write_empty_mesh() {
    let mut out = vec![];
    assert_eq!(write_stl(&mut out, &vec![]), Ok(()));
    assert_eq!(out.len(), 84);
    assert_eq!(u32_at(&out, 80), 0);
}
