use smd_viewer::mesh::{parse_smd, Mesh};

const MODEL: &str = "version 1
nodes
0 \"root\" -1
end
skeleton
time 0
0 0 0 0 0 0 0
end
triangles
skin
0 1.0 2.0 3.0 0.0 0.0 1.0 0.5 0.25 1 0 1.0
0 4 5 6 0 1 0 1 0 1 0 1
0 -7.5 8e2 .5 1 0 0 0 1 1 0 1
metal
0 10 11 12 0 0 -1 0.1 0.2 1 3 0.5
  0 13 14 15 0 0 -1 0.3 0.4 1 3 0.5
0 16 17 18 0 0 -1 0.5 0.6 1 3 0.5
skin
0 19 20 21 1 1 1 0.7 0.8 1 0 1
0 22 23 24 1 1 1 0.9 1.0 1 0 1
0 25 26 27 1 1 1 0 0 1 0 1
end
";

fn texts(v: &[String]) -> Vec<&str> {
    v.iter().map(|s| s.as_str()).collect()
}

fn mesh<'a>(meshes: &'a [(String, Mesh)], name: &str) -> &'a Mesh {
    &meshes.iter().find(|(n, _)| n == name).unwrap().1
}

#[test]
fn meshes_follow_first_appearance_of_textures() {
    let meshes = parse_smd(MODEL).unwrap();
    let names: Vec<&str> = meshes.iter().map(|(n, _)| n.as_str()).collect();
    assert_eq!(names, vec!["skin", "metal"]);
}

#[test]
fn positions_are_gathered_per_texture_in_file_order() {
    let meshes = parse_smd(MODEL).unwrap();
    let skin = mesh(&meshes, "skin");
    assert_eq!(
        texts(&skin.positions),
        vec![
            "1.0", "2.0", "3.0", "4", "5", "6", "-7.5", "8e2", ".5", "19", "20", "21", "22", "23",
            "24", "25", "26", "27"
        ]
    );
    let metal = mesh(&meshes, "metal");
    assert_eq!(
        texts(&metal.positions),
        vec!["10", "11", "12", "13", "14", "15", "16", "17", "18"]
    );
}

#[test]
fn normals_and_uv_are_gathered_per_texture() {
    let meshes = parse_smd(MODEL).unwrap();
    let metal = mesh(&meshes, "metal");
    assert_eq!(
        texts(&metal.normals),
        vec!["0", "0", "-1", "0", "0", "-1", "0", "0", "-1"]
    );
    assert_eq!(texts(&metal.uv), vec!["0.1", "0.2", "0.3", "0.4", "0.5", "0.6"]);
    let skin = mesh(&meshes, "skin");
    assert_eq!(skin.uv.len(), 12);
    assert_eq!(skin.normals.len(), 18);
}

#[test]
fn number_texts_read_as_floats() {
    let meshes = parse_smd(MODEL).unwrap();
    let skin = mesh(&meshes, "skin");
    let values: Vec<f32> = skin.positions.iter().map(|t| t.parse::<f32>().unwrap()).collect();
    assert_eq!(values[6], -7.5);
    assert_eq!(values[7], 800.0);
    assert_eq!(values[8], 0.5);
}

#[test]
fn windows_line_endings_are_accepted() {
    let crlf = MODEL.replace('\n', "\r\n");
    let meshes = parse_smd(&crlf).unwrap();
    assert_eq!(meshes.len(), 2);
    assert_eq!(mesh(&meshes, "metal").positions.len(), 9);
}

#[test]
fn vertex_animation_section_is_optional_and_ignored() {
    let with_animation = format!("{}vertexanimation\ntime 0\n0 1 2 3 0 0 1\nend\n", MODEL);
    let a = parse_smd(&with_animation).unwrap();
    let b = parse_smd(MODEL).unwrap();
    assert_eq!(a.len(), b.len());
    for ((na, ma), (nb, mb)) in a.iter().zip(b.iter()) {
        assert_eq!(na, nb);
        assert_eq!(ma.positions, mb.positions);
    }
}

#[test]
fn trailing_text_after_the_document_is_ignored() {
    let longer = format!("{}anything at all \u{e9}", MODEL);
    let meshes = parse_smd(&longer).unwrap();
    assert_eq!(meshes.len(), 2);
}

#[test]
fn empty_triangle_section_gives_no_meshes() {
    let doc = "version 1\nnodes\nend\nskeleton\nend\ntriangles\nend\n";
    assert_eq!(parse_smd(doc).unwrap().len(), 0);
}

#[test]
fn missing_header_is_a_tag_error() {
    let doc = "nodes\nend\n";
    assert_eq!(
        parse_smd(doc).unwrap_err(),
        "Parsing error: Parsing Error: Error { input: \"nodes\\nend\\n\", code: Tag }"
    );
}

#[test]
fn missing_end_of_nodes_is_a_take_until_error() {
    let doc = "version 1\nnodes\n0 root\n";
    assert_eq!(
        parse_smd(doc).unwrap_err(),
        "Parsing error: Parsing Error: Error { input: \"0 root\\n\", code: TakeUntil }"
    );
}

#[test]
fn exponent_without_digits_is_a_failure() {
    let doc = "version 1\nnodes\nend\nskeleton\nend\ntriangles\nt\n0 1e x\n";
    assert_eq!(
        parse_smd(doc).unwrap_err(),
        "Parsing error: Parsing Failure: Error { input: \"1e x\\n\", code: Float }"
    );
}

#[test]
fn bone_index_beyond_u32_fails_where_the_vertex_starts() {
    let doc = "version 1\nnodes\nend\nskeleton\nend\ntriangles\nt\n  4294967296 0 0 0 0 0 0 0 0 1 0 1\n";
    assert_eq!(
        parse_smd(doc).unwrap_err(),
        "Parsing error: Parsing Error: Error { input: \"4294967296 0 0 0 0 0 0 0 0 1 0 1\\n\", code: Fail }"
    );
}

#[test]
fn largest_u32_bone_index_is_accepted() {
    let v = "4294967295 0 0 0 0 0 0 0 0 4294967295 4294967295 1\n";
    let doc = format!("version 1\nnodes\nend\nskeleton\nend\ntriangles\nt\n{v}{v}{v}end\n");
    assert_eq!(parse_smd(&doc).unwrap().len(), 1);
}

#[test]
fn infinity_reads_only_inf() {
    let doc = "version 1\nnodes\nend\nskeleton\nend\ntriangles\nt\n0 infinity 0 0 0 0 0 0 0 1 0 1\n";
    assert_eq!(
        parse_smd(doc).unwrap_err(),
        "Parsing error: Parsing Error: Error { input: \"inity 0 0 0 0 0 0 0 1 0 1\\n\", code: Space }"
    );
}

#[test]
fn special_number_words_are_numbers() {
    let v = "0 NaN inf INF 0 0 1 0 0 1 0 1\n";
    let doc = format!("version 1\nnodes\nend\nskeleton\nend\ntriangles\nt\n{v}{v}{v}end\n");
    let meshes = parse_smd(&doc).unwrap();
    assert_eq!(texts(&meshes[0].1.positions)[..3], ["NaN", "inf", "INF"]);
}

#[test]
fn missing_triangle_line_ending_is_a_crlf_error() {
    let doc = "version 1\nnodes\nend\nskeleton\nend\ntriangles\nt x\n";
    assert_eq!(
        parse_smd(doc).unwrap_err(),
        "Parsing error: Parsing Error: Error { input: \" x\\n\", code: CrLf }"
    );
}

#[test]
fn non_ascii_text_in_skipped_sections_is_kept_out_of_the_way() {
    let doc = "version 1\nnodes\n0 \"r\u{f6}\u{f6}t\" -1\nend\nskeleton\nend\ntriangles\n\u{e9}\n";
    assert_eq!(
        parse_smd(doc).unwrap_err(),
        "Parsing error: Parsing Error: Error { input: \"\u{e9}\\n\", code: AlphaNumeric }"
    );
}

#[test]
fn header_without_version_number_is_a_digit_error() {
    let doc = "version x\nnodes\nend\n";
    assert_eq!(
        parse_smd(doc).unwrap_err(),
        "Parsing error: Parsing Error: Error { input: \"x\\nnodes\\nend\\n\", code: Digit }"
    );
}

#[test]
fn word_instead_of_number_is_a_float_error() {
    let doc = "version 1\nnodes\nend\nskeleton\nend\ntriangles\nt\n0 x 0 0\n";
    assert_eq!(
        parse_smd(doc).unwrap_err(),
        "Parsing error: Parsing Error: Error { input: \"x 0 0\\n\", code: Float }"
    );
}

#[test]
fn each_texture_has_exactly_one_mesh() {
    let meshes = parse_smd(MODEL).unwrap();
    let mut names: Vec<&str> = meshes.iter().map(|(n, _)| n.as_str()).collect();
    names.sort();
    names.dedup();
    assert_eq!(names.len(), meshes.len());
}

#[test]
fn meshes_hold_nine_positions_per_triangle_in_all() {
    let meshes = parse_smd(MODEL).unwrap();
    let total: usize = meshes.iter().map(|(_, m)| m.positions.len()).sum();
    assert_eq!(total, 9 * 3);
    let skin = mesh(&meshes, "skin");
    assert_eq!(skin.positions.len(), 9 * 2);
    assert_eq!(skin.normals.len(), 9 * 2);
    assert_eq!(skin.uv.len(), 6 * 2);
}

#[test]
fn module_path_of_the_reader_is_kept() {
    let a = smd_viewer::smd::parse_smd(MODEL).unwrap();
    assert_eq!(a.len(), 2);
}
