//! What holds of the meshes of every document: each texture has one mesh,
//! each triangle lands in the mesh of its texture, and the meshes together
//! hold the data of every triangle once.

use vstd::prelude::*;
use crate::ascii::ascii_chars;
use crate::mesh::{
    meshes_of, mesh_of, span_texts, strings_chars, texts_chars, texture_attribute, texture_names,
    triangle_attribute, vertex_attribute, Attribute, Mesh,
};
use crate::smd::{span_text, Triangle, Vertex};

verus! {

/// How many triangles of `ts` are drawn with texture `name`.
pub open spec fn triangle_count(s: Seq<u8>, ts: Seq<Triangle>, name: Seq<u8>) -> nat
    decreases ts.len(),
{
    if ts.len() == 0 {
        0
    } else {
        triangle_count(s, ts.drop_last(), name) + if span_text(s, ts.last().texture) == name {
            1nat
        } else {
            0nat
        }
    }
}

/// How many number texts of attribute `a` a triangle has.
pub open spec fn attribute_width(a: Attribute) -> nat {
    match a {
        Attribute::Positions => 9,
        Attribute::Normals => 9,
        Attribute::Uv => 6,
    }
}

/// Numbers of triangles per texture, added up over a list of textures.
pub open spec fn count_sum(s: Seq<u8>, ts: Seq<Triangle>, names: Seq<Seq<u8>>) -> nat
    decreases names.len(),
{
    if names.len() == 0 {
        0
    } else {
        count_sum(s, ts, names.drop_last()) + triangle_count(s, ts, names.last())
    }
}

/// Position texts of a list of meshes, added up.
pub open spec fn positions_total(r: Seq<(String, Mesh)>) -> nat
    decreases r.len(),
{
    if r.len() == 0 {
        0
    } else {
        positions_total(r.drop_last()) + r.last().1.positions@.len()
    }
}

proof fn lemma_names_distinct(s: Seq<u8>, ts: Seq<Triangle>)
    ensures
        forall|i: int, j: int|
            0 <= i < j < texture_names(s, ts).len() ==> texture_names(s, ts)[i] != texture_names(s, ts)[j],
    decreases ts.len(),
{
    if ts.len() > 0 {
        let prev = ts.drop_last();
        lemma_names_distinct(s, prev);
        let old_names = texture_names(s, prev);
        let n = span_text(s, ts.last().texture);
        if !old_names.contains(n) {
            let names = old_names.push(n);
            assert forall|i: int, j: int| 0 <= i < j < names.len() implies names[i] != names[j] by {
                if j == names.len() - 1 {
                    assert(names[i] == old_names[i]);
                    if names[i] == n {
                        assert(old_names.contains(n));
                    }
                } else {
                    assert(names[i] == old_names[i] && names[j] == old_names[j]);
                }
            }
        }
    }
}

proof fn lemma_names_cover(s: Seq<u8>, ts: Seq<Triangle>)
    ensures
        forall|j: int| 0 <= j < ts.len() ==> texture_names(s, ts).contains(span_text(s, #[trigger] ts[j].texture)),
        forall|k: int| 0 <= k < texture_names(s, ts).len() ==> triangle_count(s, ts, #[trigger] texture_names(s, ts)[k]) > 0,
    decreases ts.len(),
{
    if ts.len() > 0 {
        let prev = ts.drop_last();
        lemma_names_cover(s, prev);
        let names = texture_names(s, ts);
        let old_names = texture_names(s, prev);
        assert forall|j: int| 0 <= j < ts.len() implies names.contains(span_text(s, #[trigger] ts[j].texture)) by {
            if j < ts.len() - 1 {
                assert(ts[j] == prev[j]);
                let n = span_text(s, ts[j].texture);
                assert(old_names.contains(n));
                let m = choose|m: int| 0 <= m < old_names.len() && old_names[m] == n;
                assert(names[m] == n);
            } else {
                let n = span_text(s, ts.last().texture);
                if !old_names.contains(n) {
                    assert(names[names.len() - 1] == n);
                }
            }
        }
        assert forall|k: int| 0 <= k < names.len() implies triangle_count(s, ts, #[trigger] names[k]) > 0 by {
            if k < old_names.len() {
                assert(names[k] == old_names[k]);
                assert(triangle_count(s, prev, old_names[k]) > 0);
            }
        }
    }
}

proof fn lemma_attribute_len(s: Seq<u8>, ts: Seq<Triangle>, name: Seq<u8>, a: Attribute)
    ensures
        texture_attribute(s, ts, name, a).len() == attribute_width(a) * triangle_count(s, ts, name),
    decreases ts.len(),
{
    if ts.len() > 0 {
        lemma_attribute_len(s, ts.drop_last(), name, a);
        let t = ts.last();
        assert(triangle_attribute(t, a).len() == attribute_width(a)) by {
            assert(vertex_attribute(t.v1, a).len() * 3 == attribute_width(a));
        }
        assert(span_texts(s, triangle_attribute(t, a)).len() == attribute_width(a));
        let c = triangle_count(s, ts.drop_last(), name);
        if span_text(s, t.texture) == name {
            assert(attribute_width(a) * (c + 1) == attribute_width(a) * c + attribute_width(a)) by (nonlinear_arith);
        }
    }
}

proof fn lemma_count_single(s: Seq<u8>, names: Seq<Seq<u8>>, t: Triangle, prev: Seq<Triangle>)
    requires
        forall|i: int, j: int| 0 <= i < j < names.len() ==> names[i] != names[j],
    ensures
        count_sum(s, prev.push(t), names) == count_sum(s, prev, names) + if names.contains(span_text(s, t.texture)) {
            1nat
        } else {
            0nat
        },
    decreases names.len(),
{
    let ts = prev.push(t);
    assert(ts.drop_last() =~= prev);
    if names.len() > 0 {
        let init = names.drop_last();
        lemma_count_single(s, init, t, prev);
        let n = span_text(s, t.texture);
        if init.contains(n) {
            let m = choose|m: int| 0 <= m < init.len() && init[m] == n;
            assert(names[m] == n);
            assert(names.last() != n);
            assert(names.contains(n));
        } else if names.last() == n {
            assert(names.contains(n));
        } else {
            assert(!names.contains(n)) by {
                if names.contains(n) {
                    let m = choose|m: int| 0 <= m < names.len() && names[m] == n;
                    if m < init.len() {
                        assert(init[m] == n);
                    }
                }
            }
        }
    }
}

proof fn lemma_count_sum(s: Seq<u8>, ts: Seq<Triangle>, names: Seq<Seq<u8>>)
    requires
        forall|i: int, j: int| 0 <= i < j < names.len() ==> names[i] != names[j],
        forall|j: int| 0 <= j < ts.len() ==> names.contains(span_text(s, #[trigger] ts[j].texture)),
    ensures
        count_sum(s, ts, names) == ts.len(),
    decreases ts.len(),
{
    if ts.len() == 0 {
        lemma_count_sum_empty(s, ts, names);
    } else {
        let prev = ts.drop_last();
        assert forall|j: int| 0 <= j < prev.len() implies names.contains(span_text(s, #[trigger] prev[j].texture)) by {
            assert(prev[j] == ts[j]);
        }
        lemma_count_sum(s, prev, names);
        assert(prev.push(ts.last()) =~= ts);
        lemma_count_single(s, names, ts.last(), prev);
        assert(names.contains(span_text(s, ts[ts.len() - 1].texture)));
    }
}

proof fn lemma_count_sum_empty(s: Seq<u8>, ts: Seq<Triangle>, names: Seq<Seq<u8>>)
    requires
        ts.len() == 0,
    ensures
        count_sum(s, ts, names) == 0,
    decreases names.len(),
{
    if names.len() > 0 {
        lemma_count_sum_empty(s, ts, names.drop_last());
    }
}

proof fn lemma_positions_total(s: Seq<u8>, ts: Seq<Triangle>, names: Seq<Seq<u8>>, r: Seq<(String, Mesh)>)
    requires
        r.len() == names.len(),
        forall|k: int| 0 <= k < r.len() ==> mesh_of(s, ts, names[k], #[trigger] r[k].1),
    ensures
        positions_total(r) == 9 * count_sum(s, ts, names),
    decreases r.len(),
{
    if r.len() > 0 {
        let n = r.len() - 1;
        lemma_positions_total(s, ts, names.drop_last(), r.drop_last());
        assert(mesh_of(s, ts, names[n], r[n].1));
        lemma_attribute_len(s, ts, names.last(), Attribute::Positions);
        assert(strings_chars(r.last().1.positions@).len() == r.last().1.positions@.len());
    }
}

/// No two meshes of a document have the same texture name.
pub proof fn law_mesh_names_distinct(s: Seq<u8>, ts: Seq<Triangle>, r: Seq<(String, Mesh)>)
    requires
        meshes_of(s, ts, r),
    ensures
        forall|i: int, j: int| 0 <= i < j < r.len() ==> r[i].0@ != r[j].0@,
{
    lemma_names_distinct(s, ts);
    let names = texture_names(s, ts);
    assert forall|i: int, j: int| 0 <= i < j < r.len() implies r[i].0@ != r[j].0@ by {
        assert(r[i].0@ == ascii_chars(names[i]));
        assert(r[j].0@ == ascii_chars(names[j]));
        if ascii_chars(names[i]) == ascii_chars(names[j]) {
            assert(names[i] =~= names[j]) by {
                assert forall|m: int| 0 <= m < names[i].len() implies names[i][m] == names[j][m] by {
                    assert(ascii_chars(names[i])[m] == ascii_chars(names[j])[m]);
                }
            }
        }
    }
}

/// Every triangle of a document is drawn by the mesh of its texture, and
/// every mesh draws at least one triangle.
pub proof fn law_every_triangle_has_its_mesh(s: Seq<u8>, ts: Seq<Triangle>, r: Seq<(String, Mesh)>)
    requires
        meshes_of(s, ts, r),
    ensures
        forall|j: int| 0 <= j < ts.len() ==> exists|k: int|
            0 <= k < r.len() && (#[trigger] r[k]).0@ == ascii_chars(span_text(s, (#[trigger] ts[j]).texture)),
        forall|k: int| 0 <= k < r.len() ==> triangle_count(s, ts, texture_names(s, ts)[k]) > 0,
{
    lemma_names_cover(s, ts);
    let names = texture_names(s, ts);
    assert forall|j: int| 0 <= j < ts.len() implies exists|k: int|
        0 <= k < r.len() && (#[trigger] r[k]).0@ == ascii_chars(span_text(s, (#[trigger] ts[j]).texture)) by {
        let n = span_text(s, ts[j].texture);
        assert(names.contains(n));
        let k = choose|k: int| 0 <= k < names.len() && names[k] == n;
        assert(r[k].0@ == ascii_chars(names[k]));
    }
    assert forall|k: int| 0 <= k < r.len() implies triangle_count(s, ts, texture_names(s, ts)[k]) > 0 by {
        assert(triangle_count(s, ts, names[k]) > 0);
    }
}

/// A mesh holds nine position texts, nine normal texts and six texture
/// coordinate texts for each triangle drawn with its texture.
pub proof fn law_mesh_sizes(s: Seq<u8>, ts: Seq<Triangle>, r: Seq<(String, Mesh)>, k: int)
    requires
        meshes_of(s, ts, r),
        0 <= k < r.len(),
    ensures
        ({
            let c = triangle_count(s, ts, texture_names(s, ts)[k]);
            &&& r[k].1.positions@.len() == 9 * c
            &&& r[k].1.normals@.len() == 9 * c
            &&& r[k].1.uv@.len() == 6 * c
        }),
{
    let name = texture_names(s, ts)[k];
    assert(mesh_of(s, ts, name, r[k].1));
    lemma_attribute_len(s, ts, name, Attribute::Positions);
    lemma_attribute_len(s, ts, name, Attribute::Normals);
    lemma_attribute_len(s, ts, name, Attribute::Uv);
    assert(strings_chars(r[k].1.positions@).len() == r[k].1.positions@.len());
    assert(strings_chars(r[k].1.normals@).len() == r[k].1.normals@.len());
    assert(strings_chars(r[k].1.uv@).len() == r[k].1.uv@.len());
}

/// Together the meshes hold the positions of every triangle exactly once:
/// nine position texts per triangle of the document.
pub proof fn law_positions_total(s: Seq<u8>, ts: Seq<Triangle>, r: Seq<(String, Mesh)>)
    requires
        meshes_of(s, ts, r),
    ensures
        positions_total(r) == 9 * ts.len(),
{
    let names = texture_names(s, ts);
    lemma_names_distinct(s, ts);
    lemma_names_cover(s, ts);
    assert forall|k: int| 0 <= k < r.len() implies mesh_of(s, ts, names[k], #[trigger] r[k].1) by {}
    lemma_positions_total(s, ts, names, r);
    lemma_count_sum(s, ts, names);
}

/// The triangles of `ts` drawn with texture `name`, in file order.
pub open spec fn triangles_of(s: Seq<u8>, ts: Seq<Triangle>, name: Seq<u8>) -> Seq<Triangle>
    decreases ts.len(),
{
    if ts.len() == 0 {
        seq![]
    } else {
        triangles_of(s, ts.drop_last(), name) + if span_text(s, ts.last().texture) == name {
            seq![ts.last()]
        } else {
            Seq::<Triangle>::empty()
        }
    }
}

/// Vertex `m` of a triangle: its first (0), second (1) or third (2) vertex
/// line.
pub open spec fn corner(t: Triangle, m: int) -> Vertex {
    if m == 0 {
        t.v1
    } else if m == 1 {
        t.v2
    } else {
        t.v3
    }
}

/// Element `j` of the texts of attribute `a` of the `k`-th triangle of the
/// texture comes from that triangle.
proof fn lemma_attribute_at(s: Seq<u8>, ts: Seq<Triangle>, name: Seq<u8>, a: Attribute, k: int, j: int)
    requires
        0 <= k < triangles_of(s, ts, name).len(),
        0 <= j < attribute_width(a),
    ensures
        texture_attribute(s, ts, name, a).len() == attribute_width(a) * triangles_of(s, ts, name).len(),
        texture_attribute(s, ts, name, a)[attribute_width(a) * k + j]
            == span_text(s, triangle_attribute(triangles_of(s, ts, name)[k], a)[j]),
    decreases ts.len(),
{
    let prev = ts.drop_last();
    let t = ts.last();
    let tt = triangles_of(s, prev, name);
    let w = attribute_width(a);
    lemma_attribute_count(s, prev, name, a);
    assert(triangle_attribute(t, a).len() == w) by {
        assert(vertex_attribute(t.v1, a).len() * 3 == w);
    }
    if span_text(s, t.texture) == name {
        assert(w * (tt.len() + 1) == w * tt.len() + w) by (nonlinear_arith);
        if k < tt.len() {
            lemma_attribute_at(s, prev, name, a, k, j);
            assert(w * k + j < w * tt.len()) by (nonlinear_arith)
                requires k < tt.len(), 0 <= j < w;
            assert(triangles_of(s, ts, name)[k] == tt[k]);
        } else {
            assert(triangles_of(s, ts, name)[k] == t);
            assert(w * k + j - w * tt.len() == j) by (nonlinear_arith)
                requires k == tt.len();
        }
    } else {
        assert(triangles_of(s, ts, name) =~= tt);
        lemma_attribute_at(s, prev, name, a, k, j);
        assert(texture_attribute(s, ts, name, a) =~= texture_attribute(s, prev, name, a));
    }
}

proof fn lemma_attribute_count(s: Seq<u8>, ts: Seq<Triangle>, name: Seq<u8>, a: Attribute)
    ensures
        texture_attribute(s, ts, name, a).len() == attribute_width(a) * triangles_of(s, ts, name).len(),
    decreases ts.len(),
{
    if ts.len() > 0 {
        let t = ts.last();
        let w = attribute_width(a);
        let c = triangles_of(s, ts.drop_last(), name).len();
        lemma_attribute_count(s, ts.drop_last(), name, a);
        assert(triangle_attribute(t, a).len() == w) by {
            assert(vertex_attribute(t.v1, a).len() * 3 == w);
        }
        if span_text(s, t.texture) == name {
            assert(w * (c + 1) == w * c + w) by (nonlinear_arith);
        }
    }
}

/// A mesh follows the triangles of its texture in file order, one triangle
/// after another, with the same triangle at the same place in its positions,
/// normals and texture coordinates: for vertex line `m` of the `k`-th
/// triangle of the texture, positions `9k+3m..9k+3m+3` are the texts of its
/// x, y and z, normals `9k+3m..9k+3m+3` those of its normal's x, y and z,
/// and texture coordinates `6k+2m` and `6k+2m+1` those of its u and v.
pub proof fn law_mesh_follows_triangles(s: Seq<u8>, ts: Seq<Triangle>, r: Seq<(String, Mesh)>, n: int, k: int, m: int)
    requires
        meshes_of(s, ts, r),
        0 <= n < r.len(),
        0 <= k < triangles_of(s, ts, texture_names(s, ts)[n]).len(),
        0 <= m < 3,
    ensures
        ({
            let tt = triangles_of(s, ts, texture_names(s, ts)[n]);
            let v = corner(tt[k], m);
            let mesh = r[n].1;
            &&& r[n].0@ == ascii_chars(span_text(s, tt[k].texture))
            &&& mesh.positions@.len() == 9 * tt.len()
            &&& mesh.normals@.len() == 9 * tt.len()
            &&& mesh.uv@.len() == 6 * tt.len()
            &&& mesh.positions@[9 * k + 3 * m]@ == ascii_chars(span_text(s, v.pos_x))
            &&& mesh.positions@[9 * k + 3 * m + 1]@ == ascii_chars(span_text(s, v.pos_y))
            &&& mesh.positions@[9 * k + 3 * m + 2]@ == ascii_chars(span_text(s, v.pos_z))
            &&& mesh.normals@[9 * k + 3 * m]@ == ascii_chars(span_text(s, v.norm_x))
            &&& mesh.normals@[9 * k + 3 * m + 1]@ == ascii_chars(span_text(s, v.norm_y))
            &&& mesh.normals@[9 * k + 3 * m + 2]@ == ascii_chars(span_text(s, v.norm_z))
            &&& mesh.uv@[6 * k + 2 * m]@ == ascii_chars(span_text(s, v.u))
            &&& mesh.uv@[6 * k + 2 * m + 1]@ == ascii_chars(span_text(s, v.v))
        }),
{
    let name = texture_names(s, ts)[n];
    let tt = triangles_of(s, ts, name);
    let t = tt[k];
    let mesh = r[n].1;
    assert(mesh_of(s, ts, name, mesh));
    lemma_triangles_of_name(s, ts, name, k);
    let pa = Attribute::Positions;
    let na = Attribute::Normals;
    let ua = Attribute::Uv;
    lemma_attribute_at(s, ts, name, pa, k, 3 * m);
    lemma_attribute_at(s, ts, name, pa, k, 3 * m + 1);
    lemma_attribute_at(s, ts, name, pa, k, 3 * m + 2);
    lemma_attribute_at(s, ts, name, na, k, 3 * m);
    lemma_attribute_at(s, ts, name, na, k, 3 * m + 1);
    lemma_attribute_at(s, ts, name, na, k, 3 * m + 2);
    lemma_attribute_at(s, ts, name, ua, k, 2 * m);
    lemma_attribute_at(s, ts, name, ua, k, 2 * m + 1);
    let tp = triangle_attribute(t, pa);
    let tn = triangle_attribute(t, na);
    let tu = triangle_attribute(t, ua);
    let v = corner(t, m);
    assert(tp[3 * m] == v.pos_x && tp[3 * m + 1] == v.pos_y && tp[3 * m + 2] == v.pos_z);
    assert(tn[3 * m] == v.norm_x && tn[3 * m + 1] == v.norm_y && tn[3 * m + 2] == v.norm_z);
    assert(tu[2 * m] == v.u && tu[2 * m + 1] == v.v);
    let pt = texture_attribute(s, ts, name, pa);
    let nt = texture_attribute(s, ts, name, na);
    let ut = texture_attribute(s, ts, name, ua);
    assert(strings_chars(mesh.positions@) == texts_chars(pt));
    assert(strings_chars(mesh.normals@) == texts_chars(nt));
    assert(strings_chars(mesh.uv@) == texts_chars(ut));
    assert(strings_chars(mesh.positions@).len() == mesh.positions@.len());
    assert(strings_chars(mesh.normals@).len() == mesh.normals@.len());
    assert(strings_chars(mesh.uv@).len() == mesh.uv@.len());
    assert(9 * k + 3 * m + 2 < 9 * tt.len());
    assert(6 * k + 2 * m + 1 < 6 * tt.len());
    assert(strings_chars(mesh.positions@)[9 * k + 3 * m] == mesh.positions@[9 * k + 3 * m]@);
    assert(strings_chars(mesh.positions@)[9 * k + 3 * m + 1] == mesh.positions@[9 * k + 3 * m + 1]@);
    assert(strings_chars(mesh.positions@)[9 * k + 3 * m + 2] == mesh.positions@[9 * k + 3 * m + 2]@);
    assert(strings_chars(mesh.normals@)[9 * k + 3 * m] == mesh.normals@[9 * k + 3 * m]@);
    assert(strings_chars(mesh.normals@)[9 * k + 3 * m + 1] == mesh.normals@[9 * k + 3 * m + 1]@);
    assert(strings_chars(mesh.normals@)[9 * k + 3 * m + 2] == mesh.normals@[9 * k + 3 * m + 2]@);
    assert(strings_chars(mesh.uv@)[6 * k + 2 * m] == mesh.uv@[6 * k + 2 * m]@);
    assert(strings_chars(mesh.uv@)[6 * k + 2 * m + 1] == mesh.uv@[6 * k + 2 * m + 1]@);
}

/// Every triangle of the texture `name` has that name.
proof fn lemma_triangles_of_name(s: Seq<u8>, ts: Seq<Triangle>, name: Seq<u8>, k: int)
    requires
        0 <= k < triangles_of(s, ts, name).len(),
    ensures
        span_text(s, triangles_of(s, ts, name)[k].texture) == name,
    decreases ts.len(),
{
    let prev = ts.drop_last();
    let tt = triangles_of(s, prev, name);
    if k < tt.len() {
        lemma_triangles_of_name(s, prev, name, k);
        assert(triangles_of(s, ts, name)[k] == tt[k]);
    }
}

} // verus!
