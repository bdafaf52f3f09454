use mkwii_recorder::obj::{scan_obj, ObjScan};

fn text(v: &[char]) -> String {
    v.iter().collect()
}

fn vertices(s: &ObjScan) -> Vec<[String; 3]> {
    s.vertices.iter().map(|v| [text(&v.x), text(&v.y), text(&v.z)]).collect()
}

fn groups(s: &ObjScan) -> Vec<(String, Vec<usize>)> {
    s.groups.iter().map(|g| (text(&g.name), g.faces.clone())).collect()
}

#[test]
fn reads_vertices_faces_and_groups() {
    let data = "# a comment\nv 1.0 2.0 3.0\nv 4 5 6 7\n\nvn 0 1 0\nf 1 2 3\ng top\nf 3/1/1 2//5 1\nusemtl wall\nf 2 3 1\ng top\nf 1 1 1\n";
    let s = scan_obj(data);
    assert!(s.error.is_none());
    assert_eq!(
        vertices(&s),
        vec![
            ["1.0".to_string(), "2.0".to_string(), "3.0".to_string()],
            ["4".to_string(), "5".to_string(), "6".to_string()],
        ]
    );
    assert_eq!(s.faces, vec![[0, 1, 2], [2, 1, 0], [1, 2, 0], [0, 0, 0]]);
    assert_eq!(
        groups(&s),
        vec![
            ("default".to_string(), vec![0]),
            ("top".to_string(), vec![1, 3]),
            ("wall".to_string(), vec![2]),
        ]
    );
}

#[test]
fn unicode_white_space_separates_fields() {
    let s = scan_obj("  v\t1\u{3000}2\u{a0}3  \r\nf +1 0 2\r\n");
    assert!(s.error.is_none());
    assert_eq!(vertices(&s), vec![["1".to_string(), "2".to_string(), "3".to_string()]]);
    assert_eq!(s.faces, vec![[0, 0, 1]]);
}

#[test]
fn short_vertex_line_is_an_error() {
    let s = scan_obj("v 1 2 3\nf 1 1 1\nv 1 2\nv 4 5 6\n");
    assert_eq!(s.error, Some("Invalid vertex format".to_string()));
    assert_eq!(s.vertices.len(), 1);
    assert_eq!(s.faces.len(), 1);
}

#[test]
fn short_face_line_is_an_error() {
    let s = scan_obj("f 1 2\n");
    assert_eq!(s.error, Some("Invalid face format".to_string()));
}

#[test]
fn bad_face_index_is_an_error() {
    for bad in ["f 1 x 3", "f 1 -2 3", "f /1 2 3", "f + 2 3", "f 1 2 99999999999999999999999"] {
        let s = scan_obj(bad);
        assert_eq!(s.error, Some("Failed to parse face index".to_string()), "{}", bad);
        assert!(s.faces.is_empty());
        assert!(s.groups.is_empty());
    }
}

#[test]
fn empty_text_reads_nothing() {
    let s = scan_obj("");
    assert!(s.error.is_none() && s.vertices.is_empty() && s.faces.is_empty() && s.groups.is_empty());
}

#[test]
fn group_lines_without_a_name_keep_the_current_group() {
    let s = scan_obj("g first\ng\nusemtl\nf 1 2 3\n#g second\nf 1 2 3");
    assert_eq!(groups(&s), vec![("first".to_string(), vec![0, 1])]);
}

#[test]
fn blank_comment_and_unknown_lines_change_nothing() {
    let a = "v 1 2 3\ng top\n";
    let b = "f 1 1 1\nusemtl m\nf 1 1 1\n";
    let plain = scan_obj(&format!("{}{}", a, b));
    let padded = scan_obj(&format!("{}   \n# note\nvn 0 0 1\no x\ns 1\nmtllib a.mtl\n{}", a, b));
    assert_eq!(vertices(&plain), vertices(&padded));
    assert_eq!(plain.faces, padded.faces);
    assert_eq!(groups(&plain), groups(&padded));
    assert_eq!(plain.error, padded.error);
}

#[test]
fn ignored_lines_anywhere_change_nothing() {
    let plain = scan_obj("v 1 2 3\nf 1 1 1\ng top\nf 1 1 1\n");
    let padded = scan_obj("\n# head\nv 1 2 3\nvt 0 0\nf 1 1 1\n  # mid\ng top\ns off\n\nf 1 1 1\nvn 0 0 1\n# tail\n");
    assert_eq!(vertices(&plain), vertices(&padded));
    assert_eq!(plain.faces, padded.faces);
    assert_eq!(groups(&plain), groups(&padded));
    assert_eq!(plain.error, padded.error);
}
