use smd_viewer::error::{Severity, SmdError, SmdErrorKind};
use smd_viewer::number::float_token_end;
use smd_viewer::smd::{
    parse_blocks, parse_header, parse_nodes, parse_skeleton, parse_triangle, parse_triangles,
    parse_vertex, parse_vertexanimation, read_u32, Span,
};
use smd_viewer::text::{find_bytes, read_token, text_at, Keyword, Token};

#[test]
fn float_texts_end_where_nom_says() {
    assert_eq!(float_token_end(b"1.5 x", 0), Ok(3));
    assert_eq!(float_token_end(b"-2", 0), Ok(2));
    assert_eq!(float_token_end(b"+.5e-3,", 0), Ok(6));
    assert_eq!(float_token_end(b"7.", 0), Ok(2));
    assert_eq!(float_token_end(b"x nan", 2), Ok(5));
    assert_eq!(float_token_end(b"Infinity", 0), Ok(3));
    assert_eq!(float_token_end(b"1e", 0), Err(Severity::Failure));
    assert_eq!(float_token_end(b"1E+x", 0), Err(Severity::Failure));
    assert_eq!(float_token_end(b".", 0), Err(Severity::Error));
    assert_eq!(float_token_end(b"-inf", 0), Err(Severity::Error));
    assert_eq!(float_token_end(b"", 0), Err(Severity::Error));
}

#[test]
fn tokens_read_as_in_the_grammar() {
    let s = b"end\r\n  12ab";
    assert_eq!(read_token(s, 0, Token::Word(Keyword::End)), Ok(3));
    assert_eq!(read_token(s, 3, Token::LineEnding), Ok(5));
    assert_eq!(read_token(s, 5, Token::Spaces), Ok(7));
    assert_eq!(read_token(s, 7, Token::Digits), Ok(9));
    assert_eq!(read_token(s, 7, Token::AlphaNum), Ok(11));
    assert_eq!(read_token(s, 3, Token::Blanks), Ok(7));
    assert_eq!(
        read_token(s, 0, Token::Digits),
        Err(SmdError { offset: 0, kind: SmdErrorKind::Digit, severity: Severity::Error })
    );
    assert_eq!(
        read_token(s, 2, Token::LineEnding),
        Err(SmdError { offset: 2, kind: SmdErrorKind::CrLf, severity: Severity::Error })
    );
    assert_eq!(read_token(s, 4, Token::LineEnding), Ok(5));
}

#[test]
fn until_end_stops_at_the_first_end_even_inside_a_word() {
    let s = b"nodes\nbackend\nend\n";
    assert_eq!(read_token(s, 6, Token::UntilEnd), Ok(10));
    assert_eq!(find_bytes(s, 0, &b"end".to_vec()), Some(10));
    assert_eq!(find_bytes(s, 11, &b"end".to_vec()), Some(14));
    assert_eq!(find_bytes(s, 15, &b"end".to_vec()), None);
    assert!(text_at(s, 14, &b"end".to_vec()));
}

#[test]
fn integers_must_fit_in_32_bits() {
    let s = b"4294967295 4294967296";
    assert_eq!(read_u32(s, 0, 10), Some(u32::MAX));
    assert_eq!(read_u32(s, 11, 21), None);
    assert_eq!(read_u32(s, 0, 0), Some(0));
}

#[test]
fn vertex_keeps_where_its_numbers_stand() {
    let s = b"3 1 2 3 4 5 6 0.5 0.25 1 7 0.75\n";
    let (end, v) = parse_vertex(s, 0).unwrap();
    assert_eq!(end, 31);
    assert_eq!(v.parent_bone, 3);
    assert_eq!(v.links, 1);
    assert_eq!(v.bone_id, 7);
    assert_eq!(v.pos_x, Span { start: 2, end: 3 });
    assert_eq!(v.u, Span { start: 14, end: 17 });
    assert_eq!(v.weight, Span { start: 27, end: 31 });
}

#[test]
fn triangle_reads_name_and_three_vertices() {
    let v = "0 1 2 3 0 0 1 0 0 1 0 1\n";
    let s = format!("rock\n{v}\n\n{v}{v}rest");
    let (end, t) = parse_triangle(s.as_bytes(), 0).unwrap();
    assert_eq!(t.texture, Span { start: 0, end: 4 });
    assert_eq!(&s[end..], "rest");
    assert_eq!(&s[t.v2.pos_y.start..t.v2.pos_y.end], "2");
}

#[test]
fn sections_end_after_their_end_line() {
    let s = b"version 1\nnodes\n0 \"a\" -1\nend\nskeleton\ntime 0\nend\ntriangles\nend\nvertexanimation\nend\n";
    let a = parse_header(s, 0).unwrap();
    assert_eq!(a, 10);
    let b = parse_nodes(s, a).unwrap();
    assert_eq!(b, 29);
    let c = parse_skeleton(s, b).unwrap();
    let (d, ts) = parse_triangles(s, c).unwrap();
    assert!(ts.is_empty());
    let e = parse_vertexanimation(s, d).unwrap();
    assert_eq!(e, s.len());
    let (end, blocks) = parse_blocks(s).unwrap();
    assert_eq!(end, s.len());
    assert!(blocks.triangles.is_empty());
}

#[test]
fn missing_vertex_animation_leaves_the_end_after_triangles() {
    let s = b"version 1\nnodes\nend\nskeleton\nend\ntriangles\nend\nmore";
    let (end, _) = parse_blocks(s).unwrap();
    assert_eq!(end, s.len() - 4);
    assert_eq!(
        parse_vertexanimation(s, end),
        Err(SmdError { offset: end, kind: SmdErrorKind::Tag, severity: Severity::Error })
    );
}
