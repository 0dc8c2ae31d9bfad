//! Reading a document does not look past its end: text appended after a
//! document that parses changes none of its triangles.

use vstd::prelude::*;
use crate::number::{decimal_end, float_end, mantissa_end, sign_end, word_inf, word_infinity, word_nan, word_no_case_at};
use crate::mesh::{
    meshes_of, span_texts, texture_attribute, texture_names, triangle_attribute, Attribute, Mesh,
};
use crate::smd::{
    blocks_end, end_line_tokens, header_tokens, lemma_triangle_end, lemma_vertex_end, lemma_vertex_line_end,
    name_line_tokens, scan_end, section_tokens, span_text, token_span, triangle_end, triangle_list_end,
    triangles_end, vertex_end, vertex_line_end, vertex_tokens, Triangle,
};
use crate::text::{
    find_text, has_text_at, keyword_text, lemma_run_end, lemma_scan, lemma_scan_at, run_end, scan, token_end,
    token_start, ByteClass, Keyword, Token,
};

verus! {

pub proof fn lemma_run_end_ext(s: Seq<u8>, t: Seq<u8>, i: int, c: ByteClass)
    requires
        0 <= i <= s.len(),
        run_end(s, i, c) < s.len(),
    ensures
        run_end(s + t, i, c) == run_end(s, i, c),
    decreases s.len() - i,
{
    if i < s.len() && crate::text::in_class(c, s[i]) {
        lemma_run_end_ext(s, t, i + 1, c);
    }
}

proof fn lemma_text_at_ext(s: Seq<u8>, t: Seq<u8>, i: int, w: Seq<u8>)
    requires
        0 <= i,
        i + w.len() <= s.len(),
    ensures
        has_text_at(s + t, i, w) == has_text_at(s, i, w),
{
    assert((s + t).subrange(i, i + w.len()) =~= s.subrange(i, i + w.len()));
}

proof fn lemma_find_text_ext(s: Seq<u8>, t: Seq<u8>, i: int, w: Seq<u8>, k: int)
    requires
        0 <= i <= s.len(),
        find_text(s, i, w) == Some(k),
        w.len() > 0,
    ensures
        find_text(s + t, i, w) == Some(k),
    decreases s.len() - i,
{
    crate::text::lemma_find_text(s, i, w);
    lemma_text_at_ext(s, t, i, w);
    if !has_text_at(s, i, w) {
        lemma_find_text_ext(s, t, i + 1, w, k);
    }
}

proof fn lemma_word_ext(s: Seq<u8>, t: Seq<u8>, i: int, w: Seq<u8>)
    requires
        0 <= i,
        i + w.len() <= s.len(),
    ensures
        word_no_case_at(s + t, i, w) == word_no_case_at(s, i, w),
{
    if word_no_case_at(s, i, w) {
        assert forall|k: int| 0 <= k < w.len() implies crate::number::lower(#[trigger] (s + t)[i + k]) == w[k] by {
            assert((s + t)[i + k] == s[i + k]);
        }
    }
    if word_no_case_at(s + t, i, w) {
        assert forall|k: int| 0 <= k < w.len() implies crate::number::lower(#[trigger] s[i + k]) == w[k] by {
            assert((s + t)[i + k] == s[i + k]);
        }
    }
}

pub proof fn lemma_float_end_ext(s: Seq<u8>, t: Seq<u8>, i: int, j: int)
    requires
        0 <= i <= s.len(),
        float_end(s, i) == Ok::<int, crate::error::Severity>(j),
        j < s.len(),
    ensures
        float_end(s + t, i) == Ok::<int, crate::error::Severity>(j),
{
    let ss = s + t;
    crate::number::lemma_float_end(s, i);
    let p = sign_end(s, i);
    assert(sign_end(ss, i) == p);
    lemma_run_end(s, p, ByteClass::Digit);
    let d = run_end(s, p, ByteClass::Digit);
    if let Ok(m) = decimal_end(s, i) {
        let me = mantissa_end(s, p)->Some_0;
        if d > p {
            lemma_run_end_ext(s, t, p, ByteClass::Digit);
            if d < s.len() && s[d] == 46 {
                lemma_run_end(s, d + 1, ByteClass::Digit);
                lemma_run_end_ext(s, t, d + 1, ByteClass::Digit);
            }
        } else {
            lemma_run_end(s, p + 1, ByteClass::Digit);
            if d < s.len() {
                lemma_run_end_ext(s, t, p, ByteClass::Digit);
            }
            lemma_run_end_ext(s, t, p + 1, ByteClass::Digit);
        }
        assert(mantissa_end(ss, p) == mantissa_end(s, p));
        if 0 <= me < s.len() && (s[me] == 101 || s[me] == 69) {
            let q = sign_end(s, me + 1);
            assert(sign_end(ss, me + 1) == q);
            lemma_run_end(s, q, ByteClass::Digit);
            lemma_run_end_ext(s, t, q, ByteClass::Digit);
        }
    } else {
        let w = if word_no_case_at(s, i, word_nan()) {
            word_nan()
        } else if word_no_case_at(s, i, word_inf()) {
            word_inf()
        } else {
            word_infinity()
        };
        assert(word_no_case_at(s, i, w));
        assert(crate::number::lower(s[i + 0]) == w[0]);
        assert(p == i);
        assert(d == i);
        assert(ss[i] == s[i]);
        assert(run_end(ss, i, ByteClass::Digit) == i);
        assert(mantissa_end(ss, p) is None);
        lemma_word_ext(s, t, i, word_nan());
        if !word_no_case_at(s, i, word_nan()) {
            lemma_word_ext(s, t, i, word_inf());
            if !word_no_case_at(s, i, word_inf()) {
                lemma_word_ext(s, t, i, word_infinity());
            }
        }
    }
}

/// Tokens that decide by the bytes they consume alone.
pub open spec fn fixed_token(tok: Token) -> bool {
    tok is Word || tok is LineEnding || tok is UntilEnd
}

pub proof fn lemma_token_end_ext(s: Seq<u8>, t: Seq<u8>, i: int, tok: Token, j: int)
    requires
        0 <= i <= s.len() <= usize::MAX,
        token_end(s, i, tok) == Ok::<int, crate::error::SmdError>(j),
        j < s.len() || fixed_token(tok),
    ensures
        token_end(s + t, i, tok) == Ok::<int, crate::error::SmdError>(j),
{
    let ss = s + t;
    match tok {
        Token::Word(k) => lemma_text_at_ext(s, t, i, keyword_text(k)),
        Token::LineEnding => {},
        Token::Digits => lemma_run_end_ext(s, t, i, ByteClass::Digit),
        Token::Spaces => lemma_run_end_ext(s, t, i, ByteClass::Space),
        Token::AlphaNum => lemma_run_end_ext(s, t, i, ByteClass::AlphaNum),
        Token::Blanks => lemma_run_end_ext(s, t, i, ByteClass::MultiSpace),
        Token::UntilEnd => lemma_find_text_ext(s, t, i, keyword_text(Keyword::End), j),
        Token::Float => lemma_float_end_ext(s, t, i, j),
    }
}

/// A scan that ends with a line ending, or ends before the end of the input,
/// reads the same from a longer input.
pub proof fn lemma_scan_ext(s: Seq<u8>, t: Seq<u8>, i: int, toks: Seq<Token>)
    requires
        0 <= i <= s.len() <= usize::MAX,
        scan(s, i, toks) is Ok,
        toks.len() > 0,
        scan(s, i, toks)->Ok_0.last() < s.len() || toks.last() == Token::LineEnding,
    ensures
        scan(s + t, i, toks) == scan(s, i, toks),
    decreases toks.len(),
{
    crate::text::lemma_token_end(s, i, toks[0]);
    let j = token_end(s, i, toks[0])->Ok_0;
    let tail = toks.drop_first();
    let ends = scan(s, i, toks)->Ok_0;
    lemma_scan(s, i, toks);
    if toks.len() == 1 {
        assert(ends[0] == j);
        assert(ends.last() == j);
        lemma_token_end_ext(s, t, i, toks[0], j);
        assert(scan(s + t, j, tail) == scan(s, j, tail));
    } else {
        let rest = scan(s, j, tail)->Ok_0;
        lemma_scan(s, j, tail);
        assert(ends == seq![j as usize] + rest);
        assert(ends.last() == rest.last());
        assert(tail.last() == toks.last());
        let n = tail.len() - 1;
        lemma_scan_at(s, j, tail, n);
        assert(j <= token_start(j, rest, n));
        assert(j < s.len());
        lemma_token_end_ext(s, t, i, toks[0], j);
        lemma_scan_ext(s, t, j, tail);
    }
}

proof fn lemma_span_text_ext(s: Seq<u8>, t: Seq<u8>, sp: crate::smd::Span)
    requires
        sp.start <= sp.end <= s.len(),
    ensures
        span_text(s + t, sp) == span_text(s, sp),
{
    assert(span_text(s + t, sp) =~= span_text(s, sp));
}

pub proof fn lemma_vertex_end_ext(s: Seq<u8>, t: Seq<u8>, i: int)
    requires
        0 <= i <= s.len(),
        (s + t).len() <= usize::MAX,
        vertex_end(s, i) is Ok,
        vertex_end(s, i)->Ok_0.0 < s.len(),
    ensures
        vertex_end(s + t, i) == vertex_end(s, i),
{
    let ends = scan(s, i, vertex_tokens())->Ok_0;
    lemma_scan(s, i, vertex_tokens());
    lemma_scan_ext(s, t, i, vertex_tokens());
    assert(token_start(i, ends, 0) == i);
    assert(token_start(i, ends, 18) == ends[17]);
    assert(token_start(i, ends, 20) == ends[19]);
    lemma_span_text_ext(s, t, token_span(i, ends, 0));
    lemma_span_text_ext(s, t, token_span(i, ends, 18));
    lemma_span_text_ext(s, t, token_span(i, ends, 20));
}

pub proof fn lemma_vertex_line_end_ext(s: Seq<u8>, t: Seq<u8>, i: int)
    requires
        0 <= i <= s.len(),
        (s + t).len() <= usize::MAX,
        vertex_line_end(s, i) is Ok,
    ensures
        vertex_line_end(s + t, i) == vertex_line_end(s, i),
{
    let a = run_end(s, i, ByteClass::MultiSpace);
    lemma_run_end(s, i, ByteClass::MultiSpace);
    lemma_vertex_end(s, a);
    let b = vertex_end(s, a)->Ok_0.0;
    crate::text::lemma_token_end(s, b, Token::LineEnding);
    lemma_run_end_ext(s, t, i, ByteClass::MultiSpace);
    lemma_vertex_end_ext(s, t, a);
    lemma_token_end_ext(s, t, b, Token::LineEnding, token_end(s, b, Token::LineEnding)->Ok_0);
}

pub proof fn lemma_triangle_end_ext(s: Seq<u8>, t: Seq<u8>, i: int)
    requires
        0 <= i <= s.len(),
        (s + t).len() <= usize::MAX,
        triangle_end(s, i) is Ok,
    ensures
        triangle_end(s + t, i) == triangle_end(s, i),
        triangle_end(s, i)->Ok_0.0 >= i + 5,
{
    let ends = scan(s, i, name_line_tokens())->Ok_0;
    lemma_scan(s, i, name_line_tokens());
    lemma_scan_ext(s, t, i, name_line_tokens());
    lemma_scan_at(s, i, name_line_tokens(), 0);
    lemma_scan_at(s, i, name_line_tokens(), 1);
    assert(token_start(i, ends, 0) == i);
    assert(token_start(i, ends, 1) == ends[0]);
    let p0 = ends[1] as int;
    lemma_vertex_line_end(s, p0);
    lemma_vertex_line_end_ext(s, t, p0);
    let p1 = vertex_line_end(s, p0)->Ok_0.0;
    lemma_vertex_line_end(s, p1);
    lemma_vertex_line_end_ext(s, t, p1);
    let p2 = vertex_line_end(s, p1)->Ok_0.0;
    lemma_vertex_line_end(s, p2);
    lemma_vertex_line_end_ext(s, t, p2);
}

/// Whether the `end` line stands at `i` is decided by the five bytes from
/// `i` on.
proof fn lemma_end_line_ext(s: Seq<u8>, t: Seq<u8>, i: int)
    requires
        0 <= i,
        i + 5 <= s.len(),
    ensures
        scan(s + t, i, end_line_tokens()) == scan(s, i, end_line_tokens()),
{
    let ss = s + t;
    let toks = end_line_tokens();
    lemma_text_at_ext(s, t, i, keyword_text(Keyword::End));
    assert(ss[i + 3] == s[i + 3] && ss[i + 4] == s[i + 4]);
    assert(token_end(ss, i, toks[0]) == token_end(s, i, toks[0]));
    if let Ok(j) = token_end(s, i, toks[0]) {
        let tail = toks.drop_first();
        assert(token_end(ss, j, tail[0]) == token_end(s, j, tail[0]));
        assert(tail.drop_first().len() == 0);
        if let Ok(k) = token_end(s, j, tail[0]) {
            assert(scan(ss, k, tail.drop_first()) == scan(s, k, tail.drop_first()));
        }
        assert(scan(ss, j, tail) == scan(s, j, tail));
    }
}

pub proof fn lemma_triangle_list_end_ext(s: Seq<u8>, t: Seq<u8>, i: int)
    requires
        0 <= i <= s.len(),
        (s + t).len() <= usize::MAX,
        triangle_list_end(s, i) is Ok,
    ensures
        triangle_list_end(s + t, i) == triangle_list_end(s, i),
    decreases s.len() - i,
{
    let ss = s + t;
    lemma_scan(s, i, end_line_tokens());
    if scan(s, i, end_line_tokens()) is Ok {
        lemma_scan_ext(s, t, i, end_line_tokens());
    } else {
        lemma_triangle_end(s, i);
        lemma_triangle_end_ext(s, t, i);
        lemma_end_line_ext(s, t, i);
        let j = triangle_end(s, i)->Ok_0.0;
        lemma_triangle_list_end_ext(s, t, j);
    }
}

pub proof fn lemma_triangles_end_ext(s: Seq<u8>, t: Seq<u8>, i: int)
    requires
        0 <= i <= s.len(),
        (s + t).len() <= usize::MAX,
        triangles_end(s, i) is Ok,
    ensures
        triangles_end(s + t, i) == triangles_end(s, i),
{
    let toks = seq![Token::Word(Keyword::Triangles), Token::LineEnding];
    lemma_scan(s, i, toks);
    lemma_scan_ext(s, t, i, toks);
    let ends = scan(s, i, toks)->Ok_0;
    lemma_triangle_list_end_ext(s, t, ends[1] as int);
}

pub proof fn lemma_scan_end_ext(s: Seq<u8>, t: Seq<u8>, i: int, toks: Seq<Token>)
    requires
        0 <= i <= s.len(),
        (s + t).len() <= usize::MAX,
        toks.len() > 0,
        toks.last() == Token::LineEnding,
        scan_end(s, i, toks) is Ok,
    ensures
        scan_end(s + t, i, toks) == scan_end(s, i, toks),
{
    lemma_scan_ext(s, t, i, toks);
}

/// Appending text after a document that parses leaves its triangles as they
/// were.
pub proof fn law_blocks_ignore_appended_text(s: Seq<u8>, t: Seq<u8>)
    requires
        (s + t).len() <= usize::MAX,
        blocks_end(s) is Ok,
    ensures
        blocks_end(s + t) is Ok,
        blocks_end(s + t)->Ok_0.1 == blocks_end(s)->Ok_0.1,
{
    reveal(blocks_end);
    crate::smd::lemma_blocks_end(s);
    let ss = s + t;
    crate::smd::lemma_scan_end(s, 0, header_tokens());
    assert(header_tokens().last() == Token::LineEnding);
    lemma_scan_end_ext(s, t, 0, header_tokens());
    let a = scan_end(s, 0, header_tokens())->Ok_0;
    crate::smd::lemma_scan_end(s, a, section_tokens(Keyword::Nodes));
    assert(section_tokens(Keyword::Nodes).last() == Token::LineEnding);
    lemma_scan_end_ext(s, t, a, section_tokens(Keyword::Nodes));
    let b = scan_end(s, a, section_tokens(Keyword::Nodes))->Ok_0;
    crate::smd::lemma_scan_end(s, b, section_tokens(Keyword::Skeleton));
    assert(section_tokens(Keyword::Skeleton).last() == Token::LineEnding);
    lemma_scan_end_ext(s, t, b, section_tokens(Keyword::Skeleton));
    let c = scan_end(s, b, section_tokens(Keyword::Skeleton))->Ok_0;
    lemma_triangles_end_ext(s, t, c);
}

proof fn lemma_grouping_ext(s: Seq<u8>, t: Seq<u8>, ts: Seq<Triangle>, name: Seq<u8>, a: Attribute)
    requires
        forall|k: int| 0 <= k < ts.len() ==> crate::smd::triangle_spans_ok(s, #[trigger] ts[k]),
    ensures
        texture_names(s + t, ts) == texture_names(s, ts),
        texture_attribute(s + t, ts, name, a) == texture_attribute(s, ts, name, a),
    decreases ts.len(),
{
    if ts.len() > 0 {
        let prev = ts.drop_last();
        assert forall|k: int| 0 <= k < prev.len() implies crate::smd::triangle_spans_ok(s, #[trigger] prev[k]) by {
            assert(prev[k] == ts[k]);
        }
        lemma_grouping_ext(s, t, prev, name, a);
        let last = ts.last();
        assert(crate::smd::triangle_spans_ok(s, ts[ts.len() - 1]));
        lemma_span_text_ext(s, t, last.texture);
        crate::mesh::lemma_attribute_spans(s, last, a);
        let sps = triangle_attribute(last, a);
        assert(span_texts(s + t, sps) =~= span_texts(s, sps)) by {
            assert forall|k: int| 0 <= k < sps.len() implies span_text(s + t, sps[k]) == span_text(s, sps[k]) by {
                assert(crate::smd::ascii_span(s, sps[k]));
                lemma_span_text_ext(s, t, sps[k]);
            }
        }
    }
}

/// Appending text after a document that parses changes none of its meshes:
/// the meshes of the longer input are those of the document.
pub proof fn law_meshes_ignore_appended_text(s: Seq<u8>, t: Seq<u8>, r: Seq<(String, Mesh)>)
    requires
        (s + t).len() <= usize::MAX,
        blocks_end(s) is Ok,
    ensures
        blocks_end(s + t) is Ok,
        meshes_of(s + t, blocks_end(s + t)->Ok_0.1, r) == meshes_of(s, blocks_end(s)->Ok_0.1, r),
{
    law_blocks_ignore_appended_text(s, t);
    crate::smd::lemma_blocks_end(s);
    let ts = blocks_end(s)->Ok_0.1;
    lemma_grouping_ext(s, t, ts, seq![], Attribute::Positions);
    assert forall|name: Seq<u8>, a: Attribute| texture_attribute(s + t, ts, name, a) == texture_attribute(s, ts, name, a) by {
        lemma_grouping_ext(s, t, ts, name, a);
    }
}

} // verus!
