//! Where the pieces of a triangle stand in the file: the texture name on its
//! own line, then the three vertex lines one after another, and the
//! triangles of a document one after another.

use vstd::prelude::*;
use crate::smd::{
    blocks_end, end_line_tokens, header_tokens, lemma_blocks_end, lemma_scan_end, lemma_triangle_end,
    lemma_vertex_line_end, lemma_vertex_tokens, name_line_tokens, scan_end, section_tokens,
    triangle_end, triangle_list_end, vertex_end, vertex_line_end, vertex_tokens,
};
use crate::text::{
    is_alnum, lemma_run_end, lemma_scan, lemma_scan_at, run_end, scan, token_start, ByteClass,
    Keyword, Token,
};

verus! {

/// A vertex starts with its parent bone, before its position's x, and ends
/// with its weight.
proof fn lemma_vertex_layout(s: Seq<u8>, i: int)
    requires
        0 <= i <= s.len() <= usize::MAX,
    ensures
        vertex_end(s, i) matches Ok((j, v)) ==> i < v.pos_x.start && v.weight.end == j <= s.len(),
{
    if let Ok((j, v)) = vertex_end(s, i) {
        let e = scan(s, i, vertex_tokens())->Ok_0;
        lemma_scan(s, i, vertex_tokens());
        lemma_vertex_tokens(s, i, e);
        lemma_scan_at(s, i, vertex_tokens(), 0);
        assert(vertex_tokens()[0] == Token::Digits);
        assert(token_start(i, e, 0) == i);
        assert(e[0] <= e[1]);
    }
}

proof fn lemma_vertex_line_layout(s: Seq<u8>, i: int)
    requires
        0 <= i <= s.len() <= usize::MAX,
    ensures
        vertex_line_end(s, i) matches Ok((j, v)) ==> i < v.pos_x.start && v.weight.end < j <= s.len()
            && (s[v.weight.end as int] == 10 || s[v.weight.end as int] == 13),
{
    lemma_run_end(s, i, ByteClass::MultiSpace);
    let a = run_end(s, i, ByteClass::MultiSpace);
    lemma_vertex_layout(s, a);
}

/// A triangle read at `i`: its texture name is the run of letters and digits
/// that starts at `i` and ends at a line break; then come its first, second
/// and third vertex lines, in that order, each after the one before.
pub proof fn law_triangle_layout(s: Seq<u8>, i: int)
    requires
        0 <= i <= s.len() <= usize::MAX,
    ensures
        triangle_end(s, i) matches Ok((j, t)) ==> {
            &&& t.texture.start == i < t.texture.end < s.len()
            &&& forall|m: int| i <= m < t.texture.end ==> is_alnum(#[trigger] s[m])
            &&& (s[t.texture.end as int] == 10 || s[t.texture.end as int] == 13)
            &&& t.texture.end < t.v1.pos_x.start
            &&& t.v1.weight.end < t.v2.pos_x.start
            &&& t.v2.weight.end < t.v3.pos_x.start
            &&& t.v3.weight.end < j <= s.len()
        },
{
    if let Ok((j, t)) = triangle_end(s, i) {
        let toks = name_line_tokens();
        let e = scan(s, i, toks)->Ok_0;
        lemma_scan(s, i, toks);
        lemma_scan_at(s, i, toks, 0);
        lemma_scan_at(s, i, toks, 1);
        assert(toks[0] == Token::AlphaNum && toks[1] == Token::LineEnding);
        assert(token_start(i, e, 0) == i);
        assert(token_start(i, e, 1) == e[0]);
        lemma_run_end(s, i, ByteClass::AlphaNum);
        let p0 = e[1] as int;
        lemma_vertex_line_layout(s, p0);
        let (p1, v1) = vertex_line_end(s, p0)->Ok_0;
        lemma_vertex_line_layout(s, p1);
        let (p2, v2) = vertex_line_end(s, p1)->Ok_0;
        lemma_vertex_line_layout(s, p2);
        lemma_vertex_line_end(s, p0);
        lemma_vertex_line_end(s, p1);
    }
}

/// Triangles read from `i`: each starts at or after `i`, and each comes
/// after the one before it in the list.
proof fn lemma_list_order(s: Seq<u8>, i: int)
    requires
        0 <= i <= s.len() <= usize::MAX,
    ensures
        triangle_list_end(s, i) matches Ok((j, ts)) ==> {
            &&& forall|k: int| 0 <= k < ts.len() ==> i <= (#[trigger] ts[k]).texture.start
            &&& forall|a: int, b: int| 0 <= a < b < ts.len() ==> (#[trigger] ts[a]).v3.weight.end
                < (#[trigger] ts[b]).texture.start
        },
    decreases s.len() - i,
{
    lemma_scan(s, i, end_line_tokens());
    if scan(s, i, end_line_tokens()) is Err {
        lemma_triangle_end(s, i);
        if let Ok((j, t)) = triangle_end(s, i) {
            if j > i {
                lemma_list_order(s, j);
                law_triangle_layout(s, i);
                if let Ok((k, rest)) = triangle_list_end(s, j) {
                    let all = seq![t] + rest;
                    assert forall|x: int| 0 <= x < all.len() implies i <= (#[trigger] all[x]).texture.start by {
                        if x > 0 {
                            assert(all[x] == rest[x - 1]);
                        }
                    }
                    assert forall|a: int, b: int| 0 <= a < b < all.len() implies (#[trigger] all[a]).v3.weight.end
                        < (#[trigger] all[b]).texture.start by {
                        assert(all[b] == rest[b - 1]);
                        if a > 0 {
                            assert(all[a] == rest[a - 1]);
                        }
                    }
                }
            }
        }
    }
}

/// The triangles of a document come in the order in which they stand in
/// the file: each one ends before the next one starts.
pub proof fn law_triangles_in_file_order(s: Seq<u8>)
    requires
        s.len() <= usize::MAX,
    ensures
        blocks_end(s) matches Ok((j, ts)) ==> forall|a: int, b: int| 0 <= a < b < ts.len()
            ==> (#[trigger] ts[a]).v3.weight.end < (#[trigger] ts[b]).texture.start,
{
    reveal(blocks_end);
    lemma_blocks_end(s);
    if let Ok((j, ts)) = blocks_end(s) {
        lemma_scan_end(s, 0, header_tokens());
        let a = scan_end(s, 0, header_tokens())->Ok_0;
        lemma_scan_end(s, a, section_tokens(Keyword::Nodes));
        let b = scan_end(s, a, section_tokens(Keyword::Nodes))->Ok_0;
        lemma_scan_end(s, b, section_tokens(Keyword::Skeleton));
        let c = scan_end(s, b, section_tokens(Keyword::Skeleton))->Ok_0;
        let hdr = seq![Token::Word(Keyword::Triangles), Token::LineEnding];
        lemma_scan(s, c, hdr);
        let ends = scan(s, c, hdr)->Ok_0;
        lemma_list_order(s, ends[1] as int);
    }
}

} // verus!
