//! Where the viewer finds the images that go with a model, and which
//! skybox image goes on which face of the cube map.

use vstd::prelude::*;
use vstd::string::*;
use crate::mesh::Mesh;

verus! {

/// The image file of the texture called `name`:
/// `./assets/images/<name>.png`.
pub open spec fn texture_path(name: Seq<char>) -> Seq<char> {
    "./assets/images/"@ + name + ".png"@
}

/// The image files of the textures of `meshes`, in the same order.
pub fn texture_paths(meshes: &Vec<(String, Mesh)>) -> (r: Vec<String>)
    ensures
        r@.len() == meshes@.len(),
        forall|k: int| 0 <= k < r@.len() ==> (#[trigger] r@[k])@ == texture_path(meshes@[k].0@),
{
    let mut r: Vec<String> = Vec::new();
    let mut k: usize = 0;
    while k < meshes.len()
        invariant
            k <= meshes@.len(),
            r@.len() == k,
            forall|m: int| 0 <= m < k ==> (#[trigger] r@[m])@ == texture_path(meshes@[m].0@),
        decreases meshes@.len() - k,
    {
        let mut path = String::from_str("./assets/images/");
        path.append(meshes[k].0.as_str());
        path.append(".png");
        r.push(path);
        k = k + 1;
    }
    r
}

/// The image path of a texture keeps the whole name, whatever its length,
/// between the folder `./assets/images/` and the extension `.png`: cutting
/// off the folder and the extension gives the name back.
pub proof fn law_texture_path_keeps_name(name: Seq<char>)
    ensures
        texture_path(name).len() == name.len() + 20,
        texture_path(name).subrange(0, 16) == "./assets/images/"@,
        texture_path(name).subrange(16, 16 + name.len() as int) == name,
        texture_path(name).subrange(16 + name.len() as int, 20 + name.len() as int) == ".png"@,
{
    reveal_strlit("./assets/images/");
    reveal_strlit(".png");
    let p = texture_path(name);
    assert(p.subrange(0, 16) =~= "./assets/images/"@);
    assert(p.subrange(16, 16 + name.len() as int) =~= name);
    assert(p.subrange(16 + name.len() as int, 20 + name.len() as int) =~= ".png"@);
}

/// Different textures have different image files.
pub proof fn law_texture_paths_distinct(a: Seq<char>, b: Seq<char>)
    ensures
        a != b ==> texture_path(a) != texture_path(b),
{
    law_texture_path_keeps_name(a);
    law_texture_path_keeps_name(b);
    if texture_path(a) == texture_path(b) {
        assert(a.len() == b.len());
        assert(a =~= b);
    }
}

/// A face of a cube map.
#[derive(Clone, Copy, Debug, PartialEq, Eq, Structural)]
pub enum CubeFace {
    PositiveX,
    NegativeX,
    PositiveY,
    NegativeY,
    PositiveZ,
    NegativeZ,
}

/// Which of the six skybox images (up, right, left, front, down, back)
/// goes on each face of the cube map.
pub open spec fn skybox_image(face: CubeFace) -> nat {
    match face {
        CubeFace::PositiveZ => 0,
        CubeFace::NegativeZ => 4,
        CubeFace::PositiveX => 3,
        CubeFace::NegativeX => 5,
        CubeFace::PositiveY => 1,
        CubeFace::NegativeY => 2,
    }
}

/// The index, among the six skybox images, of the image for `face`.
pub fn skybox_image_index(face: CubeFace) -> (r: usize)
    ensures
        r == skybox_image(face),
        r < 6,
{
    match face {
        CubeFace::PositiveZ => 0,
        CubeFace::NegativeZ => 4,
        CubeFace::PositiveX => 3,
        CubeFace::NegativeX => 5,
        CubeFace::PositiveY => 1,
        CubeFace::NegativeY => 2,
    }
}

/// The faces take the six images one each.
pub proof fn skybox_images_distinct(a: CubeFace, b: CubeFace)
    ensures
        a != b ==> skybox_image(a) != skybox_image(b),
        skybox_image(a) < 6,
{
}

/// The number of vertices a mesh draws: three coordinates per vertex, as a
/// WebGL count.
pub fn vertex_count(positions_len: usize) -> (r: i32)
    ensures
        r == (positions_len / 3) as i32,
{
    (positions_len / 3) as i32
}

} // verus!
