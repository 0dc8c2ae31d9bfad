//! Gathering the triangles of an SMD document into one mesh per texture.

use vstd::prelude::*;
use vstd::string::*;
use vstd::utf8::*;
use crate::ascii::{ascii_chars, lemma_char_start_boundary, span_string};
use crate::error::{nom_error_message, nom_error_text, SmdError};
use crate::smd::{
    ascii_span, blocks_end, lemma_blocks_end, parse_blocks, span_text, triangle_spans_ok, Span,
    Triangle, Vertex,
};

verus! {

/// The vertex data of the triangles drawn with one texture, as the texts of
/// their numbers: three coordinates per vertex for positions and normals,
/// two for texture coordinates, vertex after vertex in file order.
#[derive(Clone, Debug)]
pub struct Mesh {
    pub positions: Vec<String>,
    pub uv: Vec<String>,
    pub normals: Vec<String>,
}

/// The three kinds of vertex data of a mesh.
#[derive(Clone, Copy, Debug, PartialEq, Eq, Structural)]
pub enum Attribute {
    Positions,
    Normals,
    Uv,
}

pub open spec fn vertex_attribute(v: Vertex, a: Attribute) -> Seq<Span> {
    match a {
        Attribute::Positions => seq![v.pos_x, v.pos_y, v.pos_z],
        Attribute::Normals => seq![v.norm_x, v.norm_y, v.norm_z],
        Attribute::Uv => seq![v.u, v.v],
    }
}

/// The spans of attribute `a` of a triangle, vertex after vertex.
pub open spec fn triangle_attribute(t: Triangle, a: Attribute) -> Seq<Span> {
    vertex_attribute(t.v1, a) + vertex_attribute(t.v2, a) + vertex_attribute(t.v3, a)
}

/// The texts of a list of spans.
pub open spec fn span_texts(s: Seq<u8>, sps: Seq<Span>) -> Seq<Seq<u8>> {
    sps.map_values(|sp: Span| span_text(s, sp))
}

/// The texture names of `ts`, each once, in the order of first appearance.
pub open spec fn texture_names(s: Seq<u8>, ts: Seq<Triangle>) -> Seq<Seq<u8>>
    decreases ts.len(),
{
    if ts.len() == 0 {
        seq![]
    } else {
        let names = texture_names(s, ts.drop_last());
        let name = span_text(s, ts.last().texture);
        if names.contains(name) {
            names
        } else {
            names.push(name)
        }
    }
}

/// The texts of attribute `a` of the triangles of `ts` drawn with texture
/// `name`, in file order.
pub open spec fn texture_attribute(s: Seq<u8>, ts: Seq<Triangle>, name: Seq<u8>, a: Attribute) -> Seq<Seq<u8>>
    decreases ts.len(),
{
    if ts.len() == 0 {
        seq![]
    } else {
        texture_attribute(s, ts.drop_last(), name, a) + if span_text(s, ts.last().texture) == name {
            span_texts(s, triangle_attribute(ts.last(), a))
        } else {
            Seq::<Seq<u8>>::empty()
        }
    }
}

/// The characters of each of a list of ASCII texts.
pub open spec fn texts_chars(ts: Seq<Seq<u8>>) -> Seq<Seq<char>> {
    ts.map_values(|t: Seq<u8>| ascii_chars(t))
}

/// The characters of each of a list of strings.
pub open spec fn strings_chars(v: Seq<String>) -> Seq<Seq<char>> {
    v.map_values(|x: String| x@)
}

/// `m` holds exactly the vertex data of the triangles of `ts` drawn with
/// texture `name`.
pub open spec fn mesh_of(s: Seq<u8>, ts: Seq<Triangle>, name: Seq<u8>, m: Mesh) -> bool {
    &&& strings_chars(m.positions@) == texts_chars(texture_attribute(s, ts, name, Attribute::Positions))
    &&& strings_chars(m.normals@) == texts_chars(texture_attribute(s, ts, name, Attribute::Normals))
    &&& strings_chars(m.uv@) == texts_chars(texture_attribute(s, ts, name, Attribute::Uv))
}

/// One mesh per texture name of `ts`, in the order of first appearance.
pub open spec fn meshes_of(s: Seq<u8>, ts: Seq<Triangle>, r: Seq<(String, Mesh)>) -> bool {
    let names = texture_names(s, ts);
    &&& r.len() == names.len()
    &&& forall|k: int| 0 <= k < r.len() ==> {
        &&& (#[trigger] r[k]).0@ == ascii_chars(names[k])
        &&& mesh_of(s, ts, names[k], r[k].1)
    }
}

/// The message for a failed parse: `Parsing error: `, then nom's text for
/// the error at its offset.
pub open spec fn parse_error_message(s: Seq<u8>, e: SmdError) -> Seq<char> {
    "Parsing error: "@ + nom_error_text(decode_utf8(s.subrange(e.offset as int, s.len() as int)), e.kind, e.severity)
}

/// Whether two spans hold the same text.
pub fn same_text(s: &[u8], a: Span, b: Span) -> (r: bool)
    requires
        a.start <= a.end <= s@.len(),
        b.start <= b.end <= s@.len(),
    ensures
        r == (span_text(s@, a) == span_text(s@, b)),
{
    if a.end - a.start != b.end - b.start {
        proof {
            assert(span_text(s@, a).len() != span_text(s@, b).len());
        }
        return false;
    }
    let len = a.end - a.start;
    let mut k: usize = 0;
    while k < len
        invariant
            a.start <= a.end <= s@.len(),
            b.start <= b.end <= s@.len(),
            len == a.end - a.start,
            len == b.end - b.start,
            k <= len,
            forall|m: int| 0 <= m < k ==> #[trigger] s@[a.start + m] == s@[b.start + m],
        decreases len - k,
    {
        if s[a.start + k] != s[b.start + k] {
            proof {
                assert(span_text(s@, a)[k as int] == s@[a.start + k]);
                assert(span_text(s@, b)[k as int] == s@[b.start + k]);
                assert(span_text(s@, a)[k as int] != span_text(s@, b)[k as int]);
            }
            return false;
        }
        k = k + 1;
    }
    proof {
        assert forall|m: int| 0 <= m < len implies span_text(s@, a)[m] == span_text(s@, b)[m] by {
            assert(s@[a.start + m] == s@[b.start + m]);
        }
        assert(span_text(s@, a) =~= span_text(s@, b));
    }
    true
}

pub proof fn lemma_attribute_spans(s: Seq<u8>, t: Triangle, a: Attribute)
    requires
        triangle_spans_ok(s, t),
    ensures
        forall|k: int| 0 <= k < triangle_attribute(t, a).len() ==> ascii_span(s, #[trigger] triangle_attribute(t, a)[k]),
{
    let sp = triangle_attribute(t, a);
    let n = vertex_attribute(t.v1, a).len();
    assert forall|k: int| 0 <= k < sp.len() implies ascii_span(s, #[trigger] sp[k]) by {
        if k < n {
            assert(sp[k] == vertex_attribute(t.v1, a)[k]);
        } else if k < 2 * n {
            assert(sp[k] == vertex_attribute(t.v2, a)[k - n]);
        } else {
            assert(sp[k] == vertex_attribute(t.v3, a)[k - 2 * n]);
        }
    }
}

fn attribute_spans(t: &Triangle, a: Attribute) -> (r: Vec<Span>)
    ensures
        r@ == triangle_attribute(*t, a),
{
    let r = match a {
        Attribute::Positions => vec![
            t.v1.pos_x, t.v1.pos_y, t.v1.pos_z, t.v2.pos_x, t.v2.pos_y, t.v2.pos_z,
            t.v3.pos_x, t.v3.pos_y, t.v3.pos_z,
        ],
        Attribute::Normals => vec![
            t.v1.norm_x, t.v1.norm_y, t.v1.norm_z, t.v2.norm_x, t.v2.norm_y, t.v2.norm_z,
            t.v3.norm_x, t.v3.norm_y, t.v3.norm_z,
        ],
        Attribute::Uv => vec![t.v1.u, t.v1.v, t.v2.u, t.v2.v, t.v3.u, t.v3.v],
    };
    assert(r@ =~= triangle_attribute(*t, a));
    r
}

/// Appends the texts of attribute `a` of triangle `t` to `out`.
fn push_attribute(file: &str, t: &Triangle, a: Attribute, out: &mut Vec<String>)
    requires
        triangle_spans_ok(file.spec_bytes(), *t),
    ensures
        strings_chars(final(out)@) == strings_chars(old(out)@) + texts_chars(
            span_texts(file.spec_bytes(), triangle_attribute(*t, a)),
        ),
{
    let ghost s = file.spec_bytes();
    let spans = attribute_spans(t, a);
    proof {
        lemma_attribute_spans(s, *t, a);
    }
    let ghost start = strings_chars(out@);
    let mut k: usize = 0;
    proof {
        assert(start + texts_chars(span_texts(s, spans@.take(0))) =~= start);
    }
    while k < spans.len()
        invariant
            s == file.spec_bytes(),
            spans@ == triangle_attribute(*t, a),
            forall|m: int| 0 <= m < spans@.len() ==> ascii_span(s, #[trigger] spans@[m]),
            k <= spans@.len(),
            start == strings_chars(old(out)@),
            strings_chars(out@) == start + texts_chars(span_texts(s, spans@.take(k as int))),
        decreases spans@.len() - k,
    {
        let text = span_string(file, spans[k]);
        let ghost before = out@;
        out.push(text);
        proof {
            assert(strings_chars(out@) =~= strings_chars(before).push(text@));
            assert(texts_chars(span_texts(s, spans@.take(k + 1))) =~= texts_chars(span_texts(s, spans@.take(k as int))).push(
                ascii_chars(span_text(s, spans@[k as int])),
            ));
        }
        k = k + 1;
    }
    proof {
        assert(spans@.take(k as int) =~= spans@);
    }
}

/// The first spans of the texture names of `ts`, one per name, in the order
/// of first appearance.
fn collect_names(s: &[u8], ts: &Vec<Triangle>) -> (r: Vec<Span>)
    requires
        forall|k: int| 0 <= k < ts@.len() ==> triangle_spans_ok(s@, #[trigger] ts@[k]),
    ensures
        span_texts(s@, r@) == texture_names(s@, ts@),
        forall|k: int| 0 <= k < r@.len() ==> ascii_span(s@, #[trigger] r@[k]),
{
    let mut names: Vec<Span> = Vec::new();
    let mut j: usize = 0;
    proof {
        assert(ts@.take(0) =~= Seq::<Triangle>::empty());
        assert(span_texts(s@, names@) =~= Seq::<Seq<u8>>::empty());
    }
    while j < ts.len()
        invariant
            j <= ts@.len(),
            forall|k: int| 0 <= k < ts@.len() ==> triangle_spans_ok(s@, #[trigger] ts@[k]),
            span_texts(s@, names@) == texture_names(s@, ts@.take(j as int)),
            forall|k: int| 0 <= k < names@.len() ==> ascii_span(s@, #[trigger] names@[k]),
        decreases ts@.len() - j,
    {
        let t = ts[j];
        proof {
            assert(triangle_spans_ok(s@, ts@[j as int]));
            assert(ts@.take(j + 1).drop_last() =~= ts@.take(j as int));
            assert(ts@.take(j + 1).last() == t);
        }
        let ghost name = span_text(s@, t.texture);
        let mut found = false;
        let mut k: usize = 0;
        while k < names.len()
            invariant
                k <= names@.len(),
                t.texture.start <= t.texture.end <= s@.len(),
                forall|m: int| 0 <= m < names@.len() ==> ascii_span(s@, #[trigger] names@[m]),
                found == exists|m: int| 0 <= m < k && span_text(s@, #[trigger] names@[m]) == name,
                name == span_text(s@, t.texture),
            decreases names@.len() - k,
        {
            if same_text(s, names[k], t.texture) {
                found = true;
            }
            k = k + 1;
        }
        proof {
            let texts = span_texts(s@, names@);
            if found {
                let m = choose|m: int| 0 <= m < names@.len() && span_text(s@, #[trigger] names@[m]) == name;
                assert(texts[m] == name);
                assert(texts.contains(name));
            } else {
                assert(!texts.contains(name)) by {
                    if texts.contains(name) {
                        let m = choose|m: int| 0 <= m < texts.len() && texts[m] == name;
                        assert(span_text(s@, names@[m]) == name);
                    }
                }
            }
        }
        if !found {
            let ghost before = names@;
            names.push(t.texture);
            proof {
                assert(span_texts(s@, names@) =~= span_texts(s@, before).push(name));
            }
        }
        j = j + 1;
    }
    proof {
        assert(ts@.take(j as int) =~= ts@);
    }
    names
}

/// The texts of attribute `a` of the triangles drawn with the texture named
/// by `name`.
fn collect_attribute(file: &str, s: &[u8], ts: &Vec<Triangle>, name: Span, a: Attribute) -> (r: Vec<String>)
    requires
        s@ == file.spec_bytes(),
        name.start <= name.end <= s@.len(),
        forall|k: int| 0 <= k < ts@.len() ==> triangle_spans_ok(s@, #[trigger] ts@[k]),
    ensures
        strings_chars(r@) == texts_chars(texture_attribute(s@, ts@, span_text(s@, name), a)),
{
    let mut out: Vec<String> = Vec::new();
    let mut j: usize = 0;
    proof {
        assert(ts@.take(0) =~= Seq::<Triangle>::empty());
        assert(strings_chars(out@) =~= texts_chars(Seq::<Seq<u8>>::empty()));
    }
    while j < ts.len()
        invariant
            s@ == file.spec_bytes(),
            name.start <= name.end <= s@.len(),
            j <= ts@.len(),
            forall|k: int| 0 <= k < ts@.len() ==> triangle_spans_ok(s@, #[trigger] ts@[k]),
            strings_chars(out@) == texts_chars(texture_attribute(s@, ts@.take(j as int), span_text(s@, name), a)),
        decreases ts@.len() - j,
    {
        let t = ts[j];
        proof {
            assert(triangle_spans_ok(s@, ts@[j as int]));
            assert(ts@.take(j + 1).drop_last() =~= ts@.take(j as int));
            assert(ts@.take(j + 1).last() == t);
        }
        let ghost before = texture_attribute(s@, ts@.take(j as int), span_text(s@, name), a);
        if same_text(s, t.texture, name) {
            push_attribute(file, &t, a, &mut out);
            proof {
                assert(texts_chars(before + span_texts(s@, triangle_attribute(t, a))) =~= texts_chars(before)
                    + texts_chars(span_texts(s@, triangle_attribute(t, a))));
            }
        } else {
            proof {
                assert(before + Seq::<Seq<u8>>::empty() =~= before);
            }
        }
        j = j + 1;
    }
    proof {
        assert(ts@.take(j as int) =~= ts@);
    }
    out
}

/// One mesh per texture of `ts`, in the order of first appearance.
fn group_meshes(file: &str, s: &[u8], ts: &Vec<Triangle>) -> (r: Vec<(String, Mesh)>)
    requires
        s@ == file.spec_bytes(),
        forall|k: int| 0 <= k < ts@.len() ==> triangle_spans_ok(s@, #[trigger] ts@[k]),
    ensures
        meshes_of(s@, ts@, r@),
{
    let names = collect_names(s, ts);
    let ghost texts = texture_names(s@, ts@);
    let mut out: Vec<(String, Mesh)> = Vec::new();
    let mut k: usize = 0;
    while k < names.len()
        invariant
            s@ == file.spec_bytes(),
            forall|m: int| 0 <= m < ts@.len() ==> triangle_spans_ok(s@, #[trigger] ts@[m]),
            span_texts(s@, names@) == texts,
            texts == texture_names(s@, ts@),
            forall|m: int| 0 <= m < names@.len() ==> ascii_span(s@, #[trigger] names@[m]),
            k <= names@.len(),
            out@.len() == k,
            forall|m: int| 0 <= m < k ==> {
                &&& (#[trigger] out@[m]).0@ == ascii_chars(texts[m])
                &&& mesh_of(s@, ts@, texts[m], out@[m].1)
            },
        decreases names@.len() - k,
    {
        let name = names[k];
        proof {
            assert(texts[k as int] == span_text(s@, name));
        }
        let label = span_string(file, name);
        let positions = collect_attribute(file, s, ts, name, Attribute::Positions);
        let normals = collect_attribute(file, s, ts, name, Attribute::Normals);
        let uv = collect_attribute(file, s, ts, name, Attribute::Uv);
        out.push((label, Mesh { positions, uv, normals }));
        k = k + 1;
    }
    out
}

/// The text of the error of a failed parse.
fn error_message(file: &str, e: SmdError) -> (r: String)
    requires
        e.offset <= file.spec_bytes().len(),
        crate::text::on_char_start(file.spec_bytes(), e.offset as int),
    ensures
        r@ == parse_error_message(file.spec_bytes(), e),
{
    proof {
        encode_utf8_valid_utf8(file@);
        lemma_char_start_boundary(file.spec_bytes(), e.offset as int);
    }
    let (_, rest) = file.split_at(e.offset);
    proof {
        encode_utf8_decode_utf8(rest@);
    }
    let detail = nom_error_message(rest, e.kind, e.severity);
    let mut msg = String::from_str("Parsing error: ");
    msg.append(detail.as_str());
    msg
}

/// Reads an SMD document and gathers its triangles into one mesh per
/// texture name, in the order in which the names first appear. A document
/// that does not follow the grammar gives `Parsing error: ` and nom's
/// description of where and why it stopped.
pub fn parse_smd(file: &str) -> (r: Result<Vec<(String, Mesh)>, String>)
    ensures
        match blocks_end(file.spec_bytes()) {
            Ok((_, ts)) => r matches Ok(meshes) && meshes_of(file.spec_bytes(), ts, meshes@),
            Err(e) => r matches Err(msg) && msg@ == parse_error_message(file.spec_bytes(), e),
        },
{
    let s = file.as_bytes();
    let n = s.len();
    proof {
        lemma_blocks_end(s@);
        assert(crate::text::on_char_start(s@, 0));
    }
    match parse_blocks(s) {
        Err(e) => Err(error_message(file, e)),
        Ok((_, blocks)) => {
            proof {
                let ts = blocks_end(s@)->Ok_0.1;
                assert(ts == blocks.triangles@);
                assert forall|k: int| 0 <= k < blocks.triangles@.len() implies triangle_spans_ok(
                    s@,
                    #[trigger] blocks.triangles@[k],
                ) by {
                    assert(triangle_spans_ok(s@, ts[k]));
                }
            }
            Ok(group_meshes(file, s, &blocks.triangles))
        },
    }
}

} // verus!
