//! The grammar of SMD documents: a header, the `nodes` and `skeleton`
//! sections, the `triangles` section and an optional `vertexanimation`
//! section.

use vstd::prelude::*;
use crate::error::{error_at, make_error, Severity, SmdError, SmdErrorKind};
pub use crate::mesh::{parse_smd, Mesh};
use crate::text::{is_digit, lemma_scan, lemma_scan_at, on_char_start, read_token, read_tokens, run_end, scan, token_end, token_start, ByteClass, Keyword, Token};

verus! {

/// The place of a piece of text in the input: bytes `start..end`.
#[derive(Clone, Copy, Debug, PartialEq, Eq, Structural)]
pub struct Span {
    pub start: usize,
    pub end: usize,
}

/// The bytes a span covers.
pub open spec fn span_text(s: Seq<u8>, sp: Span) -> Seq<u8> {
    s.subrange(sp.start as int, sp.end as int)
}

/// The value of a run of decimal digits.
pub open spec fn digits_value(d: Seq<u8>) -> nat
    decreases d.len(),
{
    if d.len() == 0 {
        0
    } else {
        digits_value(d.drop_last()) * 10 + (d.last() - 48) as nat
    }
}

proof fn lemma_digits_value_prefix(d: Seq<u8>, k: int)
    requires
        0 <= k <= d.len(),
        forall|m: int| 0 <= m < d.len() ==> is_digit(#[trigger] d[m]),
    ensures
        digits_value(d.take(k)) <= digits_value(d),
    decreases d.len() - k,
{
    if k < d.len() {
        lemma_digits_value_prefix(d, k + 1);
        assert(d.take(k + 1).drop_last() =~= d.take(k));
    } else {
        assert(d.take(k) =~= d);
    }
}

/// The value of the digits `s[a..b]` as a `u32`, if it fits.
pub fn read_u32(s: &[u8], a: usize, b: usize) -> (r: Option<u32>)
    requires
        a <= b <= s@.len(),
        forall|m: int| a <= m < b ==> is_digit(#[trigger] s@[m]),
    ensures
        r == (if digits_value(s@.subrange(a as int, b as int)) <= u32::MAX {
            Some(digits_value(s@.subrange(a as int, b as int)) as u32)
        } else {
            None::<u32>
        }),
{
    let ghost d = s@.subrange(a as int, b as int);
    let mut acc: u64 = 0;
    let mut k = a;
    proof {
        assert(d.take(0) =~= Seq::<u8>::empty());
    }
    while k < b
        invariant
            a <= k <= b <= s@.len(),
            d == s@.subrange(a as int, b as int),
            forall|m: int| a <= m < b ==> is_digit(#[trigger] s@[m]),
            acc == digits_value(d.take(k - a)),
            acc <= u32::MAX,
        decreases b - k,
    {
        proof {
            assert(d.take(k - a + 1).drop_last() =~= d.take(k - a));
            assert(d[k - a] == s@[k as int]);
        }
        acc = acc * 10 + (s[k] - 48) as u64;
        k = k + 1;
        if acc > 0xffff_ffff {
            proof {
                assert forall|m: int| 0 <= m < d.len() implies is_digit(#[trigger] d[m]) by {
                    assert(d[m] == s@[a + m]);
                }
                lemma_digits_value_prefix(d, k - a);
            }
            return None;
        }
    }
    proof {
        assert(d.take(k - a) =~= d);
    }
    Some(acc as u32)
}

/// One vertex line of a triangle: the parent bone, the position, the
/// normal, the texture coordinates, and one bone link with its weight.
/// Numbers are kept as the places of their text in the input.
#[derive(Clone, Copy, Debug, PartialEq, Eq, Structural)]
pub struct Vertex {
    pub parent_bone: u32,
    pub pos_x: Span,
    pub pos_y: Span,
    pub pos_z: Span,
    pub norm_x: Span,
    pub norm_y: Span,
    pub norm_z: Span,
    pub u: Span,
    pub v: Span,
    pub links: u32,
    pub bone_id: u32,
    pub weight: Span,
}

/// A vertex line: `bone x y z nx ny nz u v links bone weight`, separated by
/// blanks.
pub open spec fn vertex_tokens() -> Seq<Token> {
    seq![
        Token::Digits, Token::Spaces,
        Token::Float, Token::Spaces, Token::Float, Token::Spaces, Token::Float, Token::Spaces,
        Token::Float, Token::Spaces, Token::Float, Token::Spaces, Token::Float, Token::Spaces,
        Token::Float, Token::Spaces, Token::Float, Token::Spaces,
        Token::Digits, Token::Spaces, Token::Digits, Token::Spaces, Token::Float,
    ]
}

pub fn vertex_token_list() -> (r: Vec<Token>)
    ensures
        r@ == vertex_tokens(),
{
    let r = vec![
        Token::Digits, Token::Spaces,
        Token::Float, Token::Spaces, Token::Float, Token::Spaces, Token::Float, Token::Spaces,
        Token::Float, Token::Spaces, Token::Float, Token::Spaces, Token::Float, Token::Spaces,
        Token::Float, Token::Spaces, Token::Float, Token::Spaces,
        Token::Digits, Token::Spaces, Token::Digits, Token::Spaces, Token::Float,
    ];
    assert(r@ =~= vertex_tokens());
    r
}

/// The span of token `k` of a scan from `i` that ended its tokens at `ends`.
pub open spec fn token_span(i: int, ends: Seq<usize>, k: int) -> Span {
    Span { start: token_start(i, ends, k) as usize, end: ends[k] }
}

/// The vertex whose tokens were read from `i` and ended at `ends`.
pub open spec fn vertex_from(i: int, ends: Seq<usize>, parent_bone: u32, links: u32, bone_id: u32) -> Vertex {
    Vertex {
        parent_bone,
        pos_x: token_span(i, ends, 2),
        pos_y: token_span(i, ends, 4),
        pos_z: token_span(i, ends, 6),
        norm_x: token_span(i, ends, 8),
        norm_y: token_span(i, ends, 10),
        norm_z: token_span(i, ends, 12),
        u: token_span(i, ends, 14),
        v: token_span(i, ends, 16),
        links,
        bone_id,
        weight: token_span(i, ends, 22),
    }
}

/// A vertex at byte `i`: its tokens, then its three integers, each of which
/// must fit in a `u32` (else a `Fail` error where the vertex starts).
pub open spec fn vertex_end(s: Seq<u8>, i: int) -> Result<(int, Vertex), SmdError> {
    match scan(s, i, vertex_tokens()) {
        Err(e) => Err(e),
        Ok(ends) => {
            let parent_bone = digits_value(span_text(s, token_span(i, ends, 0)));
            let links = digits_value(span_text(s, token_span(i, ends, 18)));
            let bone_id = digits_value(span_text(s, token_span(i, ends, 20)));
            if parent_bone <= u32::MAX && links <= u32::MAX && bone_id <= u32::MAX {
                Ok((ends[22] as int, vertex_from(i, ends, parent_bone as u32, links as u32, bone_id as u32)))
            } else {
                Err(error_at(i, SmdErrorKind::Fail))
            }
        },
    }
}

pub proof fn lemma_vertex_tokens(s: Seq<u8>, i: int, ends: Seq<usize>)
    requires
        0 <= i <= s.len() <= usize::MAX,
        scan(s, i, vertex_tokens()) == Ok::<Seq<usize>, SmdError>(ends),
    ensures
        ends.len() == 23,
        forall|k: int| 0 <= k < 23 ==> token_start(i, ends, k) <= #[trigger] ends[k] <= s.len(),
        forall|m: int| i <= m < ends[0] ==> is_digit(#[trigger] s[m]),
        forall|m: int| ends[17] <= m < ends[18] ==> is_digit(#[trigger] s[m]),
        forall|m: int| ends[19] <= m < ends[20] ==> is_digit(#[trigger] s[m]),
{
    lemma_scan(s, i, vertex_tokens());
    lemma_scan_at(s, i, vertex_tokens(), 0);
    lemma_scan_at(s, i, vertex_tokens(), 18);
    lemma_scan_at(s, i, vertex_tokens(), 20);
    assert(vertex_tokens()[0] == Token::Digits);
    assert(vertex_tokens()[18] == Token::Digits);
    assert(vertex_tokens()[20] == Token::Digits);
    assert(token_start(i, ends, 0) == i);
    assert(token_start(i, ends, 18) == ends[17]);
    assert(token_start(i, ends, 20) == ends[19]);
}

/// Reads one vertex at byte `i`; returns where it ends.
pub fn parse_vertex(s: &[u8], i: usize) -> (r: Result<(usize, Vertex), SmdError>)
    requires
        i <= s@.len(),
    ensures
        match r {
            Ok((j, v)) => vertex_end(s@, i as int) == Ok::<(int, Vertex), SmdError>((j as int, v)),
            Err(e) => vertex_end(s@, i as int) == Err::<(int, Vertex), SmdError>(e),
        },
{
    let n = s.len();
    let toks = vertex_token_list();
    let ends = match read_tokens(s, i, &toks) {
        Ok(ends) => ends,
        Err(e) => return Err(e),
    };
    proof {
        lemma_vertex_tokens(s@, i as int, ends@);
    }
    let parent_bone = read_u32(s, i, ends[0]);
    let links = read_u32(s, ends[17], ends[18]);
    let bone_id = read_u32(s, ends[19], ends[20]);
    match (parent_bone, links, bone_id) {
        (Some(parent_bone), Some(links), Some(bone_id)) => {
            let vertex = Vertex {
                parent_bone,
                pos_x: Span { start: ends[1], end: ends[2] },
                pos_y: Span { start: ends[3], end: ends[4] },
                pos_z: Span { start: ends[5], end: ends[6] },
                norm_x: Span { start: ends[7], end: ends[8] },
                norm_y: Span { start: ends[9], end: ends[10] },
                norm_z: Span { start: ends[11], end: ends[12] },
                u: Span { start: ends[13], end: ends[14] },
                v: Span { start: ends[15], end: ends[16] },
                links,
                bone_id,
                weight: Span { start: ends[21], end: ends[22] },
            };
            Ok((ends[22], vertex))
        },
        _ => Err(make_error(i, SmdErrorKind::Fail)),
    }
}

/// A vertex on a line of its own: blanks (line breaks included), the
/// vertex, then a line ending.
pub open spec fn vertex_line_end(s: Seq<u8>, i: int) -> Result<(int, Vertex), SmdError> {
    match vertex_end(s, run_end(s, i, ByteClass::MultiSpace)) {
        Err(e) => Err(e),
        Ok((b, v)) => match token_end(s, b, Token::LineEnding) {
            Err(e) => Err(e),
            Ok(c) => Ok((c, v)),
        },
    }
}

/// A triangle: the name of its texture on a line, then three vertex lines.
#[derive(Clone, Copy, Debug, PartialEq, Eq, Structural)]
pub struct Triangle {
    pub texture: Span,
    pub v1: Vertex,
    pub v2: Vertex,
    pub v3: Vertex,
}

pub open spec fn name_line_tokens() -> Seq<Token> {
    seq![Token::AlphaNum, Token::LineEnding]
}

/// A triangle at byte `i`.
pub open spec fn triangle_end(s: Seq<u8>, i: int) -> Result<(int, Triangle), SmdError> {
    match scan(s, i, name_line_tokens()) {
        Err(e) => Err(e),
        Ok(ends) => match vertex_line_end(s, ends[1] as int) {
            Err(e) => Err(e),
            Ok((p1, v1)) => match vertex_line_end(s, p1) {
                Err(e) => Err(e),
                Ok((p2, v2)) => match vertex_line_end(s, p2) {
                    Err(e) => Err(e),
                    Ok((p3, v3)) => Ok(
                        (p3, Triangle { texture: Span { start: i as usize, end: ends[0] }, v1, v2, v3 }),
                    ),
                },
            },
        },
    }
}

/// The positions and texts that a parse step reaches are well placed: after
/// the step's start, inside the input, and on character starts.
pub open spec fn step_ok(s: Seq<u8>, i: int, j: int) -> bool {
    &&& i <= j <= s.len()
    &&& (on_char_start(s, i) ==> on_char_start(s, j))
}

/// An error reported by a step that started at `i` is placed like a position
/// the step reaches.
pub open spec fn error_ok(s: Seq<u8>, i: int, e: SmdError) -> bool {
    step_ok(s, i, e.offset as int)
}

/// A non-empty span of ASCII bytes inside the input.
pub open spec fn ascii_span(s: Seq<u8>, sp: Span) -> bool {
    &&& sp.start < sp.end <= s.len()
    &&& forall|k: int| sp.start <= k < sp.end ==> #[trigger] s[k] < 128
}

/// Every number text of the vertex is a non-empty ASCII span.
pub open spec fn vertex_spans_ok(s: Seq<u8>, v: Vertex) -> bool {
    &&& ascii_span(s, v.pos_x)
    &&& ascii_span(s, v.pos_y)
    &&& ascii_span(s, v.pos_z)
    &&& ascii_span(s, v.norm_x)
    &&& ascii_span(s, v.norm_y)
    &&& ascii_span(s, v.norm_z)
    &&& ascii_span(s, v.u)
    &&& ascii_span(s, v.v)
    &&& ascii_span(s, v.weight)
}

/// The texture name and every number text of the triangle are non-empty
/// ASCII spans.
pub open spec fn triangle_spans_ok(s: Seq<u8>, t: Triangle) -> bool {
    &&& ascii_span(s, t.texture)
    &&& vertex_spans_ok(s, t.v1)
    &&& vertex_spans_ok(s, t.v2)
    &&& vertex_spans_ok(s, t.v3)
}

proof fn lemma_vertex_float(s: Seq<u8>, i: int, k: int)
    requires
        0 <= i <= s.len() <= usize::MAX,
        scan(s, i, vertex_tokens()) is Ok,
        k == 2 || k == 4 || k == 6 || k == 8 || k == 10 || k == 12 || k == 14 || k == 16 || k == 22,
    ensures
        ascii_span(s, token_span(i, scan(s, i, vertex_tokens())->Ok_0, k)),
{
    lemma_scan(s, i, vertex_tokens());
    lemma_scan_at(s, i, vertex_tokens(), k);
    assert(vertex_tokens()[k] == Token::Float);
    let ends = scan(s, i, vertex_tokens())->Ok_0;
    assert(token_start(i, ends, k) == ends[k - 1]);
}

pub proof fn lemma_vertex_end(s: Seq<u8>, i: int)
    requires
        0 <= i <= s.len() <= usize::MAX,
    ensures
        vertex_end(s, i) matches Ok((j, v)) ==> step_ok(s, i, j) && i < j && vertex_spans_ok(s, v),
        vertex_end(s, i) matches Err(e) ==> error_ok(s, i, e) && e.kind != SmdErrorKind::ManyTill,
{
    lemma_scan(s, i, vertex_tokens());
    if let Ok(ends) = scan(s, i, vertex_tokens()) {
        lemma_vertex_float(s, i, 2);
        lemma_vertex_float(s, i, 4);
        lemma_vertex_float(s, i, 6);
        lemma_vertex_float(s, i, 8);
        lemma_vertex_float(s, i, 10);
        lemma_vertex_float(s, i, 12);
        lemma_vertex_float(s, i, 14);
        lemma_vertex_float(s, i, 16);
        lemma_vertex_float(s, i, 22);
        lemma_scan_at(s, i, vertex_tokens(), 0);
        assert(vertex_tokens()[0] == Token::Digits);
        assert(token_start(i, ends, 0) == i);
        assert(i < ends[0] <= ends[22]);
    }
}

pub proof fn lemma_vertex_line_end(s: Seq<u8>, i: int)
    requires
        0 <= i <= s.len() <= usize::MAX,
    ensures
        vertex_line_end(s, i) matches Ok((j, v)) ==> step_ok(s, i, j) && i < j && vertex_spans_ok(s, v),
        vertex_line_end(s, i) matches Err(e) ==> error_ok(s, i, e) && e.kind != SmdErrorKind::ManyTill,
{
    crate::text::lemma_token_end(s, i, Token::Blanks);
    let a = run_end(s, i, ByteClass::MultiSpace);
    lemma_vertex_end(s, a);
    if let Ok((b, v)) = vertex_end(s, a) {
        crate::text::lemma_token_end(s, b, Token::LineEnding);
    }
}

#[verifier::rlimit(40)]
pub proof fn lemma_triangle_end(s: Seq<u8>, i: int)
    requires
        0 <= i <= s.len() <= usize::MAX,
    ensures
        triangle_end(s, i) matches Ok((j, t)) ==> step_ok(s, i, j) && i < j && triangle_spans_ok(s, t)
            && t.texture.start == i,
        triangle_end(s, i) matches Err(e) ==> error_ok(s, i, e) && e.kind != SmdErrorKind::ManyTill,
{
    lemma_scan(s, i, name_line_tokens());
    if let Ok(ends) = scan(s, i, name_line_tokens()) {
        assert(name_line_tokens()[0] == Token::AlphaNum);
        lemma_scan_at(s, i, name_line_tokens(), 0);
        assert(token_start(i, ends, 0) == i);
        assert(token_start(i, ends, 1) == ends[0]);
        let p0 = ends[1] as int;
        lemma_vertex_line_end(s, p0);
        if let Ok((p1, v1)) = vertex_line_end(s, p0) {
            lemma_vertex_line_end(s, p1);
            if let Ok((p2, v2)) = vertex_line_end(s, p1) {
                lemma_vertex_line_end(s, p2);
            }
        }
    }
}

/// Reads the vertex line at byte `i`.
fn parse_vertex_line(s: &[u8], i: usize) -> (r: Result<(usize, Vertex), SmdError>)
    requires
        i <= s@.len(),
    ensures
        match r {
            Ok((j, v)) => vertex_line_end(s@, i as int) == Ok::<(int, Vertex), SmdError>((j as int, v)),
            Err(e) => vertex_line_end(s@, i as int) == Err::<(int, Vertex), SmdError>(e),
        },
{
    let n = s.len();
    let a = crate::text::skip_run(s, i, ByteClass::MultiSpace);
    proof {
        crate::text::lemma_run_end(s@, i as int, ByteClass::MultiSpace);
    }
    let (b, v) = match parse_vertex(s, a) {
        Ok(r) => r,
        Err(e) => return Err(e),
    };
    proof {
        lemma_vertex_end(s@, a as int);
    }
    match read_token(s, b, Token::LineEnding) {
        Ok(c) => Ok((c, v)),
        Err(e) => Err(e),
    }
}

/// Reads one triangle at byte `i`; returns where it ends.
pub fn parse_triangle(s: &[u8], i: usize) -> (r: Result<(usize, Triangle), SmdError>)
    requires
        i <= s@.len(),
    ensures
        match r {
            Ok((j, t)) => triangle_end(s@, i as int) == Ok::<(int, Triangle), SmdError>((j as int, t)),
            Err(e) => triangle_end(s@, i as int) == Err::<(int, Triangle), SmdError>(e),
        },
{
    let n = s.len();
    let toks = vec![Token::AlphaNum, Token::LineEnding];
    proof {
        assert(toks@ =~= name_line_tokens());
        lemma_scan(s@, i as int, name_line_tokens());
    }
    let ends = match read_tokens(s, i, &toks) {
        Ok(ends) => ends,
        Err(e) => return Err(e),
    };
    let (p1, v1) = match parse_vertex_line(s, ends[1]) {
        Ok(r) => r,
        Err(e) => return Err(e),
    };
    proof {
        lemma_vertex_line_end(s@, ends@[1] as int);
    }
    let (p2, v2) = match parse_vertex_line(s, p1) {
        Ok(r) => r,
        Err(e) => return Err(e),
    };
    proof {
        lemma_vertex_line_end(s@, p1 as int);
    }
    let (p3, v3) = match parse_vertex_line(s, p2) {
        Ok(r) => r,
        Err(e) => return Err(e),
    };
    Ok((p3, Triangle { texture: Span { start: i, end: ends[0] }, v1, v2, v3 }))
}

pub open spec fn end_line_tokens() -> Seq<Token> {
    seq![Token::Word(Keyword::End), Token::LineEnding]
}

/// Triangles from byte `i` up to and including the line `end`: the `end`
/// line is looked for first; where it is not there a triangle must be. A
/// triangle that consumed nothing would be refused with `ManyTill`.
pub open spec fn triangle_list_end(s: Seq<u8>, i: int) -> Result<(int, Seq<Triangle>), SmdError>
    decreases s.len() - i when 0 <= i <= s.len() <= usize::MAX
{
    match scan(s, i, end_line_tokens()) {
        Ok(ends) => Ok((ends[1] as int, seq![])),
        Err(_) => match triangle_end(s, i) {
            Err(e) => Err(e),
            Ok((j, t)) => if j <= i {
                Err(error_at(j, SmdErrorKind::ManyTill))
            } else {
                proof {
                    lemma_triangle_end(s, i);
                }
                match triangle_list_end(s, j) {
                    Err(e) => Err(e),
                    Ok((k, ts)) => Ok((k, seq![t] + ts)),
                }
            },
        },
    }
}

/// The `triangles` line, then the triangles up to the `end` line.
pub open spec fn triangles_end(s: Seq<u8>, i: int) -> Result<(int, Seq<Triangle>), SmdError> {
    match scan(s, i, seq![Token::Word(Keyword::Triangles), Token::LineEnding]) {
        Err(e) => Err(e),
        Ok(ends) => triangle_list_end(s, ends[1] as int),
    }
}

pub proof fn lemma_triangle_list_end(s: Seq<u8>, i: int)
    requires
        0 <= i <= s.len() <= usize::MAX,
    ensures
        triangle_list_end(s, i) matches Ok((j, ts)) ==> step_ok(s, i, j)
            && forall|k: int| 0 <= k < ts.len() ==> triangle_spans_ok(s, #[trigger] ts[k]),
        triangle_list_end(s, i) matches Err(e) ==> error_ok(s, i, e),
    decreases s.len() - i,
{
    lemma_scan(s, i, end_line_tokens());
    if scan(s, i, end_line_tokens()) is Err {
        lemma_triangle_end(s, i);
        if let Ok((j, t)) = triangle_end(s, i) {
            if j > i {
                lemma_triangle_list_end(s, j);
                if let Ok((k, ts)) = triangle_list_end(s, j) {
                    let all = seq![t] + ts;
                    assert forall|m: int| 0 <= m < all.len() implies triangle_spans_ok(s, #[trigger] all[m]) by {
                        if m > 0 {
                            assert(all[m] == ts[m - 1]);
                        }
                    }
                }
            }
        }
    }
}

/// The result of a list parse that continues one already begun with `done`.
pub open spec fn continue_with(done: Seq<Triangle>, r: Result<(int, Seq<Triangle>), SmdError>) -> Result<(int, Seq<Triangle>), SmdError> {
    match r {
        Ok((k, ts)) => Ok((k, done + ts)),
        Err(e) => Err(e),
    }
}

/// Reads triangles from byte `i` up to and including the `end` line.
pub fn parse_triangle_list(s: &[u8], i: usize) -> (r: Result<(usize, Vec<Triangle>), SmdError>)
    requires
        i <= s@.len(),
    ensures
        match r {
            Ok((j, ts)) => triangle_list_end(s@, i as int) == Ok::<(int, Seq<Triangle>), SmdError>((j as int, ts@)),
            Err(e) => triangle_list_end(s@, i as int) == Err::<(int, Seq<Triangle>), SmdError>(e),
        },
{
    let n = s.len();
    let end_toks = vec![Token::Word(Keyword::End), Token::LineEnding];
    let mut tris: Vec<Triangle> = Vec::new();
    let mut pos = i;
    proof {
        assert(end_toks@ =~= end_line_tokens());
        match triangle_list_end(s@, i as int) {
            Ok((k, ts)) => assert(tris@ + ts =~= ts),
            Err(_) => {},
        }
    }
    loop
        invariant
            n == s@.len(),
            pos <= n,
            end_toks@ == end_line_tokens(),
            triangle_list_end(s@, i as int) == continue_with(tris@, triangle_list_end(s@, pos as int)),
        decreases n - pos,
    {
        proof {
            lemma_scan(s@, pos as int, end_line_tokens());
        }
        match read_tokens(s, pos, &end_toks) {
            Ok(ends) => {
                return Ok((ends[1], tris));
            },
            Err(_) => {},
        }
        proof {
            lemma_triangle_end(s@, pos as int);
        }
        match parse_triangle(s, pos) {
            Err(e) => {
                return Err(e);
            },
            Ok((j, t)) => {
                if j <= pos {
                    return Err(make_error(j, SmdErrorKind::ManyTill));
                }
                proof {
                    match triangle_list_end(s@, j as int) {
                        Ok((k, ts)) => {
                            assert(tris@.push(t) + ts =~= tris@ + (seq![t] + ts));
                        },
                        Err(_) => {},
                    }
                }
                tris.push(t);
                pos = j;
            },
        }
    }
}

/// Reads the `triangles` section at byte `i`.
pub fn parse_triangles(s: &[u8], i: usize) -> (r: Result<(usize, Vec<Triangle>), SmdError>)
    requires
        i <= s@.len(),
    ensures
        match r {
            Ok((j, ts)) => triangles_end(s@, i as int) == Ok::<(int, Seq<Triangle>), SmdError>((j as int, ts@)),
            Err(e) => triangles_end(s@, i as int) == Err::<(int, Seq<Triangle>), SmdError>(e),
        },
{
    let n = s.len();
    let toks = vec![Token::Word(Keyword::Triangles), Token::LineEnding];
    proof {
        assert(toks@ =~= seq![Token::Word(Keyword::Triangles), Token::LineEnding]);
        lemma_scan(s@, i as int, toks@);
    }
    match read_tokens(s, i, &toks) {
        Err(e) => Err(e),
        Ok(ends) => parse_triangle_list(s, ends[1]),
    }
}

/// Where a scan of `toks` from `i` ends.
pub open spec fn scan_end(s: Seq<u8>, i: int, toks: Seq<Token>) -> Result<int, SmdError> {
    match scan(s, i, toks) {
        Ok(ends) => Ok(ends.last() as int),
        Err(e) => Err(e),
    }
}

/// `version`, blanks, a number, a line ending.
pub open spec fn header_tokens() -> Seq<Token> {
    seq![Token::Word(Keyword::Version), Token::Blanks, Token::Digits, Token::LineEnding]
}

/// A section whose content is skipped: its keyword on a line, anything up
/// to the first `end`, then `end` and a line ending.
pub open spec fn section_tokens(k: Keyword) -> Seq<Token> {
    seq![Token::Word(k), Token::LineEnding, Token::UntilEnd, Token::Word(Keyword::End), Token::LineEnding]
}

pub proof fn lemma_scan_end(s: Seq<u8>, i: int, toks: Seq<Token>)
    requires
        0 <= i <= s.len() <= usize::MAX,
        toks.len() > 0,
    ensures
        scan_end(s, i, toks) matches Ok(j) ==> step_ok(s, i, j),
        scan_end(s, i, toks) matches Err(e) ==> error_ok(s, i, e),
{
    lemma_scan(s, i, toks);
}

fn read_section(s: &[u8], i: usize, toks: Vec<Token>) -> (r: Result<usize, SmdError>)
    requires
        i <= s@.len(),
        toks@.len() > 0,
    ensures
        match r {
            Ok(j) => scan_end(s@, i as int, toks@) == Ok::<int, SmdError>(j as int),
            Err(e) => scan_end(s@, i as int, toks@) == Err::<int, SmdError>(e),
        },
{
    let n = s.len();
    proof {
        lemma_scan(s@, i as int, toks@);
    }
    match read_tokens(s, i, &toks) {
        Ok(ends) => Ok(ends[ends.len() - 1]),
        Err(e) => Err(e),
    }
}

/// Reads the header line at byte `i`.
pub fn parse_header(s: &[u8], i: usize) -> (r: Result<usize, SmdError>)
    requires
        i <= s@.len(),
    ensures
        match r {
            Ok(j) => scan_end(s@, i as int, header_tokens()) == Ok::<int, SmdError>(j as int),
            Err(e) => scan_end(s@, i as int, header_tokens()) == Err::<int, SmdError>(e),
        },
{
    let toks = vec![Token::Word(Keyword::Version), Token::Blanks, Token::Digits, Token::LineEnding];
    assert(toks@ =~= header_tokens());
    read_section(s, i, toks)
}

fn read_skipped_section(s: &[u8], i: usize, k: Keyword) -> (r: Result<usize, SmdError>)
    requires
        i <= s@.len(),
    ensures
        match r {
            Ok(j) => scan_end(s@, i as int, section_tokens(k)) == Ok::<int, SmdError>(j as int),
            Err(e) => scan_end(s@, i as int, section_tokens(k)) == Err::<int, SmdError>(e),
        },
{
    let toks = vec![Token::Word(k), Token::LineEnding, Token::UntilEnd, Token::Word(Keyword::End), Token::LineEnding];
    assert(toks@ =~= section_tokens(k));
    read_section(s, i, toks)
}

/// Reads the `nodes` section at byte `i`.
pub fn parse_nodes(s: &[u8], i: usize) -> (r: Result<usize, SmdError>)
    requires
        i <= s@.len(),
    ensures
        match r {
            Ok(j) => scan_end(s@, i as int, section_tokens(Keyword::Nodes)) == Ok::<int, SmdError>(j as int),
            Err(e) => scan_end(s@, i as int, section_tokens(Keyword::Nodes)) == Err::<int, SmdError>(e),
        },
{
    read_skipped_section(s, i, Keyword::Nodes)
}

/// Reads the `skeleton` section at byte `i`.
pub fn parse_skeleton(s: &[u8], i: usize) -> (r: Result<usize, SmdError>)
    requires
        i <= s@.len(),
    ensures
        match r {
            Ok(j) => scan_end(s@, i as int, section_tokens(Keyword::Skeleton)) == Ok::<int, SmdError>(j as int),
            Err(e) => scan_end(s@, i as int, section_tokens(Keyword::Skeleton)) == Err::<int, SmdError>(e),
        },
{
    read_skipped_section(s, i, Keyword::Skeleton)
}

/// Reads the `vertexanimation` section at byte `i`.
pub fn parse_vertexanimation(s: &[u8], i: usize) -> (r: Result<usize, SmdError>)
    requires
        i <= s@.len(),
    ensures
        match r {
            Ok(j) => scan_end(s@, i as int, section_tokens(Keyword::VertexAnimation)) == Ok::<int, SmdError>(j as int),
            Err(e) => scan_end(s@, i as int, section_tokens(Keyword::VertexAnimation)) == Err::<int, SmdError>(e),
        },
{
    read_skipped_section(s, i, Keyword::VertexAnimation)
}

/// A whole document: header, `nodes`, `skeleton`, `triangles`, and an
/// optional `vertexanimation` section whose absence is no error. Gives where
/// the document ends and its triangles.
#[verifier::opaque]
pub open spec fn blocks_end(s: Seq<u8>) -> Result<(int, Seq<Triangle>), SmdError> {
    match scan_end(s, 0, header_tokens()) {
        Err(e) => Err(e),
        Ok(a) => match scan_end(s, a, section_tokens(Keyword::Nodes)) {
            Err(e) => Err(e),
            Ok(b) => match scan_end(s, b, section_tokens(Keyword::Skeleton)) {
                Err(e) => Err(e),
                Ok(c) => match triangles_end(s, c) {
                    Err(e) => Err(e),
                    Ok((d, ts)) => Ok(
                        (
                            match scan_end(s, d, section_tokens(Keyword::VertexAnimation)) {
                                Ok(x) => x,
                                Err(_) => d,
                            },
                            ts,
                        ),
                    ),
                },
            },
        },
    }
}

/// The sections of a document. Only the triangles are kept.
pub struct Blocks {
    pub header: (),
    pub nodes: (),
    pub skeleton: (),
    pub triangles: Vec<Triangle>,
    pub vertexanimation: (),
}

pub proof fn lemma_blocks_end(s: Seq<u8>)
    requires
        s.len() <= usize::MAX,
    ensures
        blocks_end(s) matches Ok((j, ts)) ==> step_ok(s, 0, j)
            && forall|k: int| 0 <= k < ts.len() ==> triangle_spans_ok(s, #[trigger] ts[k]),
        blocks_end(s) matches Err(e) ==> error_ok(s, 0, e),
{
    reveal(blocks_end);
    lemma_scan_end(s, 0, header_tokens());
    if let Ok(a) = scan_end(s, 0, header_tokens()) {
        lemma_scan_end(s, a, section_tokens(Keyword::Nodes));
        if let Ok(b) = scan_end(s, a, section_tokens(Keyword::Nodes)) {
            lemma_scan_end(s, b, section_tokens(Keyword::Skeleton));
            if let Ok(c) = scan_end(s, b, section_tokens(Keyword::Skeleton)) {
                lemma_scan(s, c, seq![Token::Word(Keyword::Triangles), Token::LineEnding]);
                if let Ok(ends) = scan(s, c, seq![Token::Word(Keyword::Triangles), Token::LineEnding]) {
                    lemma_triangle_list_end(s, ends[1] as int);
                    if let Ok((d, ts)) = triangles_end(s, c) {
                        lemma_scan_end(s, d, section_tokens(Keyword::VertexAnimation));
                    }
                }
            }
        }
    }
}

/// Reads a whole document from its first byte.
pub fn parse_blocks(s: &[u8]) -> (r: Result<(usize, Blocks), SmdError>)
    ensures
        match r {
            Ok((j, b)) => blocks_end(s@) == Ok::<(int, Seq<Triangle>), SmdError>((j as int, b.triangles@)),
            Err(e) => blocks_end(s@) == Err::<(int, Seq<Triangle>), SmdError>(e),
        },
{
    let n = s.len();
    proof {
        reveal(blocks_end);
        lemma_blocks_end(s@);
        lemma_scan_end(s@, 0, header_tokens());
    }
    let a = match parse_header(s, 0) {
        Ok(a) => a,
        Err(e) => return Err(e),
    };
    proof {
        lemma_scan_end(s@, a as int, section_tokens(Keyword::Nodes));
    }
    let b = match parse_nodes(s, a) {
        Ok(b) => b,
        Err(e) => return Err(e),
    };
    proof {
        lemma_scan_end(s@, b as int, section_tokens(Keyword::Skeleton));
    }
    let c = match parse_skeleton(s, b) {
        Ok(c) => c,
        Err(e) => return Err(e),
    };
    let (d, triangles) = match parse_triangles(s, c) {
        Ok(r) => r,
        Err(e) => return Err(e),
    };
    proof {
        lemma_scan(s@, c as int, seq![Token::Word(Keyword::Triangles), Token::LineEnding]);
        let ends = scan(s@, c as int, seq![Token::Word(Keyword::Triangles), Token::LineEnding])->Ok_0;
        lemma_triangle_list_end(s@, ends[1] as int);
    }
    let end = match parse_vertexanimation(s, d) {
        Ok(x) => x,
        Err(_) => d,
    };
    Ok((end, Blocks { header: (), nodes: (), skeleton: (), triangles, vertexanimation: () }))
}

} // verus!
