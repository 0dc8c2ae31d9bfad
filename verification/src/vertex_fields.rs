//! A vertex line read as the fields a reader of the file sees: the runs of
//! bytes between spaces and tabs, in order.

use vstd::prelude::*;
use crate::number::lemma_float_end_no_blank;
use crate::smd::{digits_value, lemma_vertex_tokens, span_text, vertex_end, vertex_tokens, Span};
use crate::text::{is_digit, is_space, lemma_run_end, lemma_scan, lemma_scan_at, scan, token_start, ByteClass, Token};

verus! {

/// Where the field that starts at `p` ends: at the first space or tab, or at
/// `j`.
pub open spec fn field_end(s: Seq<u8>, p: int, j: int) -> int
    decreases j - p,
{
    if 0 <= p < j && p < s.len() && !is_space(s[p]) {
        field_end(s, p + 1, j)
    } else {
        p
    }
}

pub proof fn lemma_field_end_after(s: Seq<u8>, p: int, j: int)
    ensures
        p <= field_end(s, p, j),
        p <= j ==> field_end(s, p, j) <= j,
    decreases j - p,
{
    if 0 <= p < j && p < s.len() && !is_space(s[p]) {
        lemma_field_end_after(s, p + 1, j);
    }
}

/// The fields of bytes `p..j` of `s`: its longest runs of bytes other than
/// space and tab, from left to right.
pub open spec fn fields(s: Seq<u8>, p: int, j: int) -> Seq<Span>
    decreases j - p,
{
    if p < 0 || p >= j || p >= s.len() {
        seq![]
    } else if is_space(s[p]) {
        fields(s, p + 1, j)
    } else {
        let e = field_end(s, p + 1, j);
        proof {
            lemma_field_end_after(s, p + 1, j);
            assert(p < e <= j);
        }
        seq![Span { start: p as usize, end: e as usize }] + fields(s, e, j)
    }
}

proof fn lemma_field_end_at(s: Seq<u8>, p: int, q: int, j: int)
    requires
        0 <= p <= q <= j <= s.len(),
        forall|m: int| p <= m < q ==> !is_space(#[trigger] s[m]),
        q == j || is_space(s[q]),
    ensures
        field_end(s, p, j) == q,
    decreases q - p,
{
    if p < q {
        lemma_field_end_at(s, p + 1, q, j);
    }
}

proof fn lemma_fields_skip(s: Seq<u8>, p: int, q: int, j: int)
    requires
        0 <= p <= q <= j <= s.len(),
        forall|m: int| p <= m < q ==> is_space(#[trigger] s[m]),
    ensures
        fields(s, p, j) == fields(s, q, j),
    decreases q - p,
{
    if p < q {
        lemma_fields_skip(s, p + 1, q, j);
    }
}

/// A field `a..b`, then blanks `b..c`.
proof fn lemma_fields_pair(s: Seq<u8>, a: int, b: int, c: int, j: int)
    requires
        0 <= a < b < c <= j <= s.len() <= usize::MAX,
        forall|m: int| a <= m < b ==> !is_space(#[trigger] s[m]),
        forall|m: int| b <= m < c ==> is_space(#[trigger] s[m]),
    ensures
        fields(s, a, j) == seq![Span { start: a as usize, end: b as usize }] + fields(s, c, j),
{
    lemma_field_end_at(s, a + 1, b, j);
    lemma_fields_skip(s, b, c, j);
}

/// A last field `a..j`.
proof fn lemma_fields_last(s: Seq<u8>, a: int, j: int)
    requires
        0 <= a < j <= s.len() <= usize::MAX,
        forall|m: int| a <= m < j ==> !is_space(#[trigger] s[m]),
    ensures
        fields(s, a, j) == seq![Span { start: a as usize, end: j as usize }],
{
    lemma_field_end_at(s, a + 1, j, j);
    assert(fields(s, j, j) == Seq::<Span>::empty());
    assert(seq![Span { start: a as usize, end: j as usize }] + Seq::<Span>::empty()
        =~= seq![Span { start: a as usize, end: j as usize }]);
}

/// The bytes of token `k` of a scan: blanks for a separator, no blank for a
/// number.
proof fn lemma_token_bytes(s: Seq<u8>, i: int, toks: Seq<Token>, k: int)
    requires
        0 <= i <= s.len() <= usize::MAX,
        scan(s, i, toks) is Ok,
        0 <= k < toks.len(),
        toks[k] == Token::Spaces || toks[k] == Token::Float || toks[k] == Token::Digits,
    ensures
        ({
            let ends = scan(s, i, toks)->Ok_0;
            let a = token_start(i, ends, k);
            &&& 0 <= a < ends[k] <= s.len()
            &&& toks[k] == Token::Spaces ==> forall|m: int| a <= m < ends[k] ==> is_space(#[trigger] s[m])
            &&& toks[k] != Token::Spaces ==> forall|m: int| a <= m < ends[k] ==> !is_space(#[trigger] s[m])
        }),
{
    let ends = scan(s, i, toks)->Ok_0;
    let a = token_start(i, ends, k);
    lemma_scan(s, i, toks);
    lemma_scan_at(s, i, toks, k);
    if toks[k] == Token::Spaces {
        lemma_run_end(s, a, ByteClass::Space);
    } else if toks[k] == Token::Float {
        lemma_float_end_no_blank(s, a);
    } else {
        assert forall|m: int| a <= m < ends[k] implies !is_space(#[trigger] s[m]) by {
            assert(is_digit(s[m]));
        }
    }
}

/// Number `k` of a vertex line and the blanks after it.
proof fn lemma_vertex_pair(s: Seq<u8>, i: int, k: int)
    requires
        0 <= i <= s.len() <= usize::MAX,
        scan(s, i, vertex_tokens()) is Ok,
        0 <= k < 22,
        vertex_tokens()[k] != Token::Spaces,
        vertex_tokens()[k] == Token::Float || vertex_tokens()[k] == Token::Digits,
        vertex_tokens()[k + 1] == Token::Spaces,
    ensures
        ({
            let e = scan(s, i, vertex_tokens())->Ok_0;
            let a = token_start(i, e, k);
            fields(s, a, e[22] as int) == seq![Span { start: a as usize, end: e[k] }] + fields(s, e[k + 1] as int, e[22] as int)
        }),
{
    let toks = vertex_tokens();
    let e = scan(s, i, toks)->Ok_0;
    lemma_scan(s, i, toks);
    lemma_token_bytes(s, i, toks, k);
    lemma_token_bytes(s, i, toks, k + 1);
    assert(token_start(i, e, k + 1) == e[k]);
    lemma_fields_pair(s, token_start(i, e, k), e[k] as int, e[k + 1] as int, e[22] as int);
}

/// A vertex line is read field by field: its twelve fields, in order, are
/// the parent bone, the position's x, y and z, the normal's x, y and z, the
/// texture coordinates u and v, the number of links, the linked bone and the
/// weight. So the normal's x is the fifth field of the line, after the
/// three position numbers.
pub proof fn law_vertex_fields(s: Seq<u8>, i: int)
    requires
        0 <= i <= s.len() <= usize::MAX,
    ensures
        vertex_end(s, i) matches Ok((j, v)) ==> {
            let f = fields(s, i, j);
            &&& f.len() == 12
            &&& digits_value(span_text(s, f[0])) == v.parent_bone
            &&& f[1] == v.pos_x
            &&& f[2] == v.pos_y
            &&& f[3] == v.pos_z
            &&& f[4] == v.norm_x
            &&& f[5] == v.norm_y
            &&& f[6] == v.norm_z
            &&& f[7] == v.u
            &&& f[8] == v.v
            &&& digits_value(span_text(s, f[9])) == v.links
            &&& digits_value(span_text(s, f[10])) == v.bone_id
            &&& f[11] == v.weight
        },
{
    if let Ok((j, v)) = vertex_end(s, i) {
        let toks = vertex_tokens();
        let e = scan(s, i, toks)->Ok_0;
        lemma_scan(s, i, toks);
        lemma_vertex_tokens(s, i, e);
        assert(toks[0] == Token::Digits && toks[1] == Token::Spaces && toks[2] == Token::Float);
        assert(toks[3] == Token::Spaces && toks[4] == Token::Float && toks[5] == Token::Spaces);
        assert(toks[6] == Token::Float && toks[7] == Token::Spaces && toks[8] == Token::Float);
        assert(toks[9] == Token::Spaces && toks[10] == Token::Float && toks[11] == Token::Spaces);
        assert(toks[12] == Token::Float && toks[13] == Token::Spaces && toks[14] == Token::Float);
        assert(toks[15] == Token::Spaces && toks[16] == Token::Float && toks[17] == Token::Spaces);
        assert(toks[18] == Token::Digits && toks[19] == Token::Spaces && toks[20] == Token::Digits);
        assert(toks[21] == Token::Spaces && toks[22] == Token::Float);
        assert(j == e[22]);
        lemma_vertex_pair(s, i, 0);
        lemma_vertex_pair(s, i, 2);
        lemma_vertex_pair(s, i, 4);
        lemma_vertex_pair(s, i, 6);
        lemma_vertex_pair(s, i, 8);
        lemma_vertex_pair(s, i, 10);
        lemma_vertex_pair(s, i, 12);
        lemma_vertex_pair(s, i, 14);
        lemma_vertex_pair(s, i, 16);
        lemma_vertex_pair(s, i, 18);
        lemma_vertex_pair(s, i, 20);
        lemma_token_bytes(s, i, toks, 22);
        lemma_fields_last(s, e[21] as int, j);
        assert(token_start(i, e, 0) == i);
        assert(token_start(i, e, 2) == e[1]);
        assert(token_start(i, e, 4) == e[3]);
        assert(token_start(i, e, 6) == e[5]);
        assert(token_start(i, e, 8) == e[7]);
        assert(token_start(i, e, 10) == e[9]);
        assert(token_start(i, e, 12) == e[11]);
        assert(token_start(i, e, 14) == e[13]);
        assert(token_start(i, e, 16) == e[15]);
        assert(token_start(i, e, 18) == e[17]);
        assert(token_start(i, e, 20) == e[19]);
        assert(token_start(i, e, 22) == e[21]);
        let f = fields(s, i, j);
        assert(f =~= seq![
            Span { start: i as usize, end: e[0] }, Span { start: e[1], end: e[2] },
            Span { start: e[3], end: e[4] }, Span { start: e[5], end: e[6] },
            Span { start: e[7], end: e[8] }, Span { start: e[9], end: e[10] },
            Span { start: e[11], end: e[12] }, Span { start: e[13], end: e[14] },
            Span { start: e[15], end: e[16] }, Span { start: e[17], end: e[18] },
            Span { start: e[19], end: e[20] }, Span { start: e[21], end: e[22] },
        ]);
    }
}

} // verus!
