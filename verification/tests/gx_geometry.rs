use mkwii_recorder::gx::{
    attribute_indices, build_mesh_topology, decode_matrix_primitive, first_unknown_kind, indices_fit_u32,
    GXAttr, IndexedVertex, MatrixPrimitiveData, MeshData, Primitive, PrimitiveType,
};

fn vertex(tag: u16) -> IndexedVertex {
    let mut indices = [0u16; 26];
    for (i, slot) in indices.iter_mut().enumerate() {
        *slot = tag * 100 + i as u16;
    }
    IndexedVertex { indices }
}

fn encode(prims: &[(u8, Vec<u16>)]) -> Vec<u8> {
    let mut buf = Vec::new();
    for (kind, tags) in prims {
        let n = tags.len() as u32;
        buf.push(*kind);
        buf.push((n >> 16) as u8);
        buf.push((n >> 8) as u8);
        buf.push(n as u8);
        for t in tags {
            for idx in vertex(*t).indices {
                buf.extend_from_slice(&idx.to_le_bytes());
            }
        }
    }
    buf
}

fn prim(kind: PrimitiveType, n: u16) -> Primitive {
    Primitive { prim_type: kind, vertices: (0..n).map(vertex).collect() }
}

#[test]
fn primitive_type_bytes() {
    let hex: Vec<u8> = (0u8..8).map(|v| PrimitiveType::from_u8(v).to_hex()).collect();
    assert_eq!(hex, vec![0x80, 0x88, 0x90, 0x98, 0xA0, 0xA8, 0xB0, 0xB8]);
    assert_eq!(PrimitiveType::from_u8(3), PrimitiveType::TriangleStrip);
}

#[test]
fn descriptor_bits() {
    let vcd = (1 << 9) | (1 << 10);
    assert!(GXAttr::has_attribute(vcd, &GXAttr::POS));
    assert!(GXAttr::has_attribute(vcd, &GXAttr::NRM));
    assert!(!GXAttr::has_attribute(vcd, &GXAttr::TEX0));
    assert!(GXAttr::has_attribute(-1, &GXAttr::TEX7));
    assert!(!GXAttr::has_attribute(0, &GXAttr::PNMTXIDX));
    assert_eq!(GXAttr::TEX0.index(), 13);
    assert_eq!(GXAttr::POS.index(), 9);
}

#[test]
fn decode_reads_headers_and_little_endian_slots() {
    let buf = encode(&[(2, vec![1, 2, 3]), (3, vec![4, 5, 6, 7])]);
    let mesh = MeshData { mprims: vec![MatrixPrimitiveData { vertex_data_buffer: buf }] };
    assert_eq!(first_unknown_kind(&mesh), None);
    let prims = decode_matrix_primitive(&mesh);
    assert_eq!(prims.len(), 2);
    assert_eq!(prims[0].prim_type, PrimitiveType::Triangles);
    assert_eq!(prims[1].prim_type, PrimitiveType::TriangleStrip);
    assert_eq!(prims[1].vertices.len(), 4);
    assert_eq!(prims[1].vertices[2].indices, vertex(6).indices);
    assert_eq!(prims[0].vertices[0].indices[25], 125);
}

#[test]
fn decode_stops_at_empty_or_truncated_primitives() {
    let mut buf = encode(&[(0, vec![1, 2, 3, 4])]);
    buf.extend_from_slice(&[2, 0, 0, 0]);
    buf.extend(encode(&[(2, vec![9, 9, 9])]));
    let mesh = MeshData { mprims: vec![MatrixPrimitiveData { vertex_data_buffer: buf }] };
    assert_eq!(decode_matrix_primitive(&mesh).len(), 1);

    let mut buf = encode(&[(4, vec![1, 2, 3])]);
    buf.extend_from_slice(&[2, 0, 0, 2]);
    buf.extend_from_slice(&[0u8; 60]);
    let mesh = MeshData { mprims: vec![MatrixPrimitiveData { vertex_data_buffer: buf }] };
    let prims = decode_matrix_primitive(&mesh);
    assert_eq!(prims.len(), 1);
    assert_eq!(prims[0].prim_type, PrimitiveType::TriangleFan);
}

#[test]
fn decode_concatenates_matrix_primitives() {
    let a = encode(&[(2, vec![1, 2, 3])]);
    let b = encode(&[(0, vec![4, 5, 6, 7]), (7, vec![8])]);
    let mesh = MeshData {
        mprims: vec![
            MatrixPrimitiveData { vertex_data_buffer: a },
            MatrixPrimitiveData { vertex_data_buffer: b },
        ],
    };
    let kinds: Vec<PrimitiveType> = decode_matrix_primitive(&mesh).iter().map(|p| p.prim_type).collect();
    assert_eq!(kinds, vec![PrimitiveType::Triangles, PrimitiveType::Quads, PrimitiveType::Points]);
}

#[test]
fn unknown_primitive_kind_is_detected() {
    let buf = encode(&[(2, vec![1, 2, 3]), (9, vec![1, 2, 3])]);
    let mesh = MeshData { mprims: vec![MatrixPrimitiveData { vertex_data_buffer: buf }] };
    assert_eq!(first_unknown_kind(&mesh), Some(9));
    // An unknown kind that decoding never reaches does not matter.
    let mut buf = encode(&[(2, vec![1, 2, 3])]);
    buf.extend_from_slice(&[9, 0, 0, 5]);
    let mesh = MeshData { mprims: vec![MatrixPrimitiveData { vertex_data_buffer: buf }] };
    assert_eq!(first_unknown_kind(&mesh), None);
    // The first unknown kind in buffer order is reported.
    let a = encode(&[(12, vec![1])]);
    let b = encode(&[(8, vec![1])]);
    let mesh = MeshData {
        mprims: vec![
            MatrixPrimitiveData { vertex_data_buffer: encode(&[(2, vec![1, 2, 3])]) },
            MatrixPrimitiveData { vertex_data_buffer: a },
            MatrixPrimitiveData { vertex_data_buffer: b },
        ],
    };
    assert_eq!(first_unknown_kind(&mesh), Some(12));
}

#[test]
fn topology_of_each_kind() {
    let (v, i) = build_mesh_topology(&vec![prim(PrimitiveType::Quads, 4)]);
    assert_eq!(v.len(), 4);
    assert_eq!(i, vec![0, 1, 2, 0, 2, 3]);
    let (_, i) = build_mesh_topology(&vec![prim(PrimitiveType::Triangles, 3)]);
    assert_eq!(i, vec![0, 1, 2]);
    let (_, i) = build_mesh_topology(&vec![prim(PrimitiveType::TriangleStrip, 5)]);
    assert_eq!(i, vec![0, 1, 2, 1, 3, 2, 2, 3, 4]);
    let (_, i) = build_mesh_topology(&vec![prim(PrimitiveType::TriangleFan, 5)]);
    assert_eq!(i, vec![0, 1, 2, 0, 2, 3, 0, 3, 4]);
    let (v, i) = build_mesh_topology(&vec![prim(PrimitiveType::Lines, 4), prim(PrimitiveType::Points, 2)]);
    assert_eq!(v.len(), 6);
    assert!(i.is_empty());
}

#[test]
fn topology_offsets_later_primitives() {
    let prims = vec![
        prim(PrimitiveType::Triangles, 3),
        prim(PrimitiveType::Lines, 2),
        prim(PrimitiveType::Quads2, 8),
        prim(PrimitiveType::TriangleFan, 3),
    ];
    let (v, i) = build_mesh_topology(&prims);
    assert_eq!(v.len(), 16);
    assert_eq!(v[5].indices, vertex(0).indices);
    assert_eq!(
        i,
        vec![0, 1, 2, 5, 6, 7, 5, 7, 8, 9, 10, 11, 9, 11, 12, 13, 14, 15]
    );
    assert_eq!(i.len() % 3, 0);
    assert!(i.iter().all(|&x| (x as usize) < v.len()));
}

#[test]
fn ragged_quads_reach_past_the_vertices() {
    let (v, i) = build_mesh_topology(&vec![prim(PrimitiveType::Quads, 5)]);
    assert_eq!(v.len(), 5);
    assert_eq!(i, vec![0, 1, 2, 0, 2, 3, 4, 5, 6, 4, 6, 7]);
}

#[test]
fn short_strips_and_fans_give_no_triangle() {
    let (_, i) = build_mesh_topology(&vec![prim(PrimitiveType::TriangleStrip, 2), prim(PrimitiveType::TriangleFan, 1)]);
    assert!(i.is_empty());
}

#[test]
fn attribute_slots() {
    let vs = vec![vertex(1), vertex(2)];
    assert_eq!(attribute_indices(&vs, GXAttr::POS), vec![109, 209]);
    assert_eq!(attribute_indices(&vs, GXAttr::TEX0), vec![113, 213]);
}

#[test]
fn ordinary_meshes_fit_u32_indices() {
    assert!(indices_fit_u32(&vec![prim(PrimitiveType::Quads, 5), prim(PrimitiveType::Triangles, 3)]));
    assert!(indices_fit_u32(&vec![]));
}
