use mkwii_recorder::kcl::{
    material_groups, offsets_ordered, BaseType, ColorText, Flag, Header, ParsedKcl, Prism,
    Sections,
};
use mkwii_recorder::obj::scan_obj;

fn push_u32(v: &mut Vec<u8>, x: u32) {
    v.extend_from_slice(&x.to_be_bytes());
}

fn push_u16(v: &mut Vec<u8>, x: u16) {
    v.extend_from_slice(&x.to_be_bytes());
}

fn push_prism(v: &mut Vec<u8>, height: f32, idx: [u16; 5], flag: u16) {
    push_u32(v, height.to_bits());
    for i in idx {
        push_u16(v, i);
    }
    push_u16(v, flag);
}

/// A small KCL file: three positions at 0x10, three normals at 0x34, two prisms at 0x58.
fn sample_kcl() -> Vec<u8> {
    let mut v = Vec::new();
    push_u32(&mut v, 0x10);
    push_u32(&mut v, 0x34);
    push_u32(&mut v, 0x48);
    push_u32(&mut v, 0x78);
    for x in [0.0f32, 0.0, 0.0, 1.0, 0.0, 0.0, 0.0, 0.0, 1.0] {
        push_u32(&mut v, x.to_bits());
    }
    for x in [0.0f32, 1.0, 0.0, 1.0, 0.0, 0.0, 0.0, 0.0, 1.0] {
        push_u32(&mut v, x.to_bits());
    }
    assert_eq!(v.len(), 0x58);
    push_prism(&mut v, 1.0, [1, 0, 1, 0, 2], 0x000C);
    push_prism(&mut v, 2.0, [2, 1, 0, 1, 2], 0x0020);
    assert_eq!(v.len(), 0x78);
    v
}

fn colors() -> Vec<ColorText> {
    (0..32)
        .map(|d| ColorText { rgb: format!("r{}", d), alpha: format!("a{}", d) })
        .collect()
}

#[test]
fn base_type_uses_the_low_five_bits() {
    assert_eq!(BaseType::from_u16(0x0000), Ok(BaseType::Road));
    assert_eq!(BaseType::from_u16(0x000C), Ok(BaseType::Wall));
    assert_eq!(BaseType::from_u16(0x0025), Ok(BaseType::SlipperyRoad2));
    assert_eq!(BaseType::from_u16(0xFFFF), Ok(BaseType::InvisibleWall2));
    assert_eq!(Flag::from_u16(0x1F0A), Ok(Flag { base_type: BaseType::SolidFall }));
}

#[test]
fn base_type_code_roundtrip() {
    for d in 0u16..32 {
        let b = BaseType::from_u16(d).unwrap();
        assert_eq!(b.discriminant() as u16, d);
        assert_eq!(BaseType::from_u16(d + 32 * 5).unwrap(), b);
    }
}

#[test]
fn base_type_names_are_distinct() {
    let names: Vec<&str> = (0u16..32).map(|d| BaseType::from_u16(d).unwrap().name()).collect();
    for i in 0..32 {
        for j in 0..32 {
            if i != j {
                assert_ne!(names[i], names[j]);
            }
        }
    }
    assert_eq!(BaseType::ForceRecalculation.name(), "force_recalc");
    assert_eq!(BaseType::HalfPipeInvisibleWall.name(), "halfpipe_invis");
}

#[test]
fn base_type_colors() {
    assert_eq!(BaseType::Road.color(), [255, 255, 255, 255]);
    assert_eq!(BaseType::InvisibleWall.color(), [0, 0, 153, 200]);
    assert_eq!(BaseType::SoundTrigger.color(), [255, 0, 255, 50]);
    assert_eq!(BaseType::SolidFall.color(), [179, 26, 26, 255]);
}

#[test]
fn header_parse() {
    let data = sample_kcl();
    assert_eq!(
        Header::parse(&data),
        Ok(Header {
            pos_data_offset: 0x10,
            nrm_data_offset: 0x34,
            prism_data_offset: 0x48,
            block_data_offset: 0x78,
        })
    );
    assert_eq!(Header::parse(&data[..15]), Err("Not enough data to read u32".to_string()));
}

#[test]
fn prism_parse_and_errors() {
    let data = sample_kcl();
    let p = Prism::parse(&data, 0x58).unwrap();
    assert_eq!(f32::from_bits(p.height_bits), 1.0);
    assert_eq!((p.pos_i, p.fnrm_i, p.enrm1_i, p.enrm2_i, p.enrm3_i), (1, 0, 1, 0, 2));
    assert_eq!(p.flag.base_type, BaseType::Wall);
    assert_eq!(Prism::parse(&data, 0x78 - 3), Err("Not enough data to read f32".to_string()));
    assert_eq!(Prism::parse(&data, 0x78 - 10), Err("Not enough data to read u16".to_string()));
    assert!(Prism::parse(&data, 0x78 - 16).is_ok());
}

#[test]
fn sections_parse_reads_what_the_prisms_use() {
    let data = sample_kcl();
    let header = Header::parse(&data).unwrap();
    let sec = Sections::parse(&data, &header).unwrap();
    assert_eq!(sec.prisms.len(), 2);
    assert_eq!(sec.position_vectors.len(), 3);
    assert_eq!(sec.normals.len(), 3);
    assert_eq!(sec.position_vectors[1], [1.0f32.to_bits(), 0, 0]);
    assert_eq!(sec.normals[0], [0, 1.0f32.to_bits(), 0]);
    assert_eq!(sec.prisms[1].flag.base_type, BaseType::Road);
}

#[test]
fn sections_parse_errors() {
    let data = sample_kcl();
    let header = Header::parse(&data).unwrap();
    // The second prism is cut inside its height.
    let cut = &data[..0x68 + 2];
    assert_eq!(Sections::parse(cut, &header).err(), Some("Not enough data to read f32".to_string()));
    // The second prism is cut inside its indices.
    let cut = &data[..0x68 + 6];
    assert_eq!(Sections::parse(cut, &header).err(), Some("Not enough data to read u16".to_string()));
    // The positions run past the end.
    let mut h = header;
    h.pos_data_offset = 0x70;
    assert_eq!(
        Sections::parse(&data, &h).err(),
        Some("Not enough data to read f32 vec".to_string())
    );
    // No prism at all: one position and one normal are still read.
    let mut h = header;
    h.block_data_offset = h.prism_data_offset + 16;
    let sec = Sections::parse(&data, &h).unwrap();
    assert_eq!((sec.prisms.len(), sec.position_vectors.len(), sec.normals.len()), (0, 1, 1));
}

#[test]
fn parsed_kcl_errors() {
    assert_eq!(ParsedKcl::parse(&[0u8; 10]).err(), Some("Not enough data to read u32".to_string()));
    let data = sample_kcl();
    assert!(offsets_ordered(&data));
    let mut bad = data.clone();
    bad[15] = 0x50;
    assert!(!offsets_ordered(&bad));
    assert!(offsets_ordered(&[0u8; 3]));
}

#[test]
fn groups_follow_class_codes() {
    let data = sample_kcl();
    let parsed = ParsedKcl::parse(&data).unwrap();
    let groups = material_groups(&parsed.sections.prisms);
    assert_eq!(groups.len(), 2);
    assert_eq!(groups[0].base_type, BaseType::Road);
    assert_eq!(groups[0].prism_indices, vec![1]);
    assert_eq!(groups[1].base_type, BaseType::Wall);
    assert_eq!(groups[1].prism_indices, vec![0]);
}

#[test]
fn groups_partition_the_prisms() {
    let data = sample_kcl();
    let parsed = ParsedKcl::parse(&data).unwrap();
    let mut prisms = parsed.sections.prisms.clone();
    for code in [5u16, 0, 5, 31, 0] {
        let mut p = prisms[0];
        p.flag = Flag::from_u16(code).unwrap();
        prisms.push(p);
    }
    let groups = material_groups(&prisms);
    let codes: Vec<u8> = groups.iter().map(|g| g.base_type.discriminant()).collect();
    assert_eq!(codes, vec![0, 5, 12, 31]);
    let mut seen: Vec<usize> = groups.iter().flat_map(|g| g.prism_indices.clone()).collect();
    seen.sort();
    assert_eq!(seen, (0..prisms.len()).collect::<Vec<_>>());
    assert_eq!(groups[0].prism_indices, vec![1, 3, 6]);
    assert_eq!(groups[1].prism_indices, vec![2, 4]);
}

#[test]
fn obj_and_mtl_text() {
    let data = sample_kcl();
    let parsed = ParsedKcl::parse(&data).unwrap();
    let vertex_lines = vec!["V0\n".to_string(), "V1\n".to_string()];
    let out = parsed.to_obj_mtl(&vertex_lines, &colors());
    assert_eq!(out.obj, "g road\nusemtl road\nV1\nf 1 2 3\n\ng wall\nusemtl wall\nV0\nf 4 5 6\n\n");
    assert_eq!(
        out.mtl,
        "newmtl road\nKa r0\nKd r0\nKs 0.0000 0.0000 0.0000\nNs 32.0000\nd a0\n\n\
         newmtl wall\nKa r12\nKd r12\nKs 0.0000 0.0000 0.0000\nNs 32.0000\nd a12\n\n"
    );
}

#[test]
fn obj_numbers_vertices_across_groups() {
    let data = sample_kcl();
    let parsed = ParsedKcl::parse(&data).unwrap();
    let mut prisms = parsed.sections.prisms.clone();
    for _ in 0..3 {
        prisms.push(prisms[1]);
    }
    let kcl = ParsedKcl {
        sections: Sections {
            position_vectors: parsed.sections.position_vectors.clone(),
            normals: parsed.sections.normals.clone(),
            prisms,
        },
    };
    let lines: Vec<String> = (0..5).map(|i| format!("P{}\n", i)).collect();
    let out = kcl.to_obj_mtl(&lines, &colors());
    let faces: Vec<&str> = out.obj.lines().filter(|l| l.starts_with("f ")).collect();
    assert_eq!(faces, vec!["f 1 2 3", "f 4 5 6", "f 7 8 9", "f 10 11 12", "f 13 14 15"]);
    assert!(out.obj.starts_with("g road\nusemtl road\nP1\nf 1 2 3\nP2\nf 4 5 6\n"));
}

#[test]
fn empty_collision_model_gives_empty_text() {
    let kcl = ParsedKcl {
        sections: Sections { position_vectors: vec![], normals: vec![], prisms: vec![] },
    };
    let out = kcl.to_obj_mtl(&vec![], &colors());
    assert_eq!(out.obj, "");
    assert_eq!(out.mtl, "");
}

#[test]
fn obj_text_reads_back_as_written() {
    let data = sample_kcl();
    let parsed = ParsedKcl::parse(&data).unwrap();
    let mut prisms = parsed.sections.prisms.clone();
    prisms.push(prisms[0]);
    prisms.push(prisms[1]);
    let kcl = ParsedKcl {
        sections: Sections {
            position_vectors: parsed.sections.position_vectors.clone(),
            normals: parsed.sections.normals.clone(),
            prisms,
        },
    };
    let lines: Vec<String> =
        (0..4).map(|i| format!("v {} 0 0\nv 0 {} 0\nv 0 0 {}\n", i, i, i)).collect();
    let out = kcl.to_obj_mtl(&lines, &colors());
    let scan = scan_obj(&out.obj);
    assert!(scan.error.is_none());
    assert_eq!(scan.vertices.len(), 12);
    assert_eq!(scan.faces, vec![[0, 1, 2], [3, 4, 5], [6, 7, 8], [9, 10, 11]]);
    let groups: Vec<(String, Vec<usize>)> =
        scan.groups.iter().map(|g| (g.name.iter().collect(), g.faces.clone())).collect();
    assert_eq!(groups, vec![("road".to_string(), vec![0, 1]), ("wall".to_string(), vec![2, 3])]);
}

#[test]
fn flag_bits_above_the_class_do_not_matter() {
    let data = sample_kcl();
    let mut changed = data.clone();
    // The flag words of the two prisms sit at 0x58 + 14 and 0x68 + 14.
    changed[0x58 + 14] = 0xAB;
    changed[0x58 + 15] = 0x0C | 0xE0;
    changed[0x68 + 14] = 0x12;
    let a = ParsedKcl::parse(&data).unwrap();
    let b = ParsedKcl::parse(&changed).unwrap();
    assert_eq!(a.sections.prisms, b.sections.prisms);
    assert_eq!(a.sections.position_vectors, b.sections.position_vectors);
    assert_eq!(a.sections.normals, b.sections.normals);
    let lines = vec!["v 0 0 0\nv 1 0 0\nv 0 1 0\n".to_string(); 2];
    let oa = a.to_obj_mtl(&lines, &colors());
    let ob = b.to_obj_mtl(&lines, &colors());
    assert_eq!(oa.obj, ob.obj);
    assert_eq!(oa.mtl, ob.mtl);
}

#[test]
fn converting_twice_gives_the_same_text() {
    let data = sample_kcl();
    let a = ParsedKcl::parse(&data).unwrap();
    let b = ParsedKcl::parse(&data).unwrap();
    let lines = vec!["v 0 0 0\nv 1 0 0\nv 0 1 0\n".to_string(); 2];
    assert_eq!(a.to_obj_mtl(&lines, &colors()).obj, b.to_obj_mtl(&lines, &colors()).obj);
    assert_eq!(a.to_obj_mtl(&lines, &colors()).mtl, b.to_obj_mtl(&lines, &colors()).mtl);
}

#[test]
fn prism_indices_name_vectors_that_were_read() {
    let parsed = ParsedKcl::parse(&sample_kcl()).unwrap();
    let s = &parsed.sections;
    for p in &s.prisms {
        assert!((p.pos_i as usize) < s.position_vectors.len());
        for n in [p.fnrm_i, p.enrm1_i, p.enrm2_i, p.enrm3_i] {
            assert!((n as usize) < s.normals.len());
        }
    }
}
