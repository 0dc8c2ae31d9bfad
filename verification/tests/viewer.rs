use smd_viewer::assets::{skybox_image_index, texture_paths, vertex_count, CubeFace};
use smd_viewer::controls::{camera_steps, step_of_key, Step};
use smd_viewer::mesh::parse_smd;

#[test]
fn texture_paths_name_the_png_of_each_texture() {
    let doc = "version 1\nnodes\nend\nskeleton\nend\ntriangles\nwood\n0 0 0 0 0 0 1 0 0 1 0 1\n0 0 0 0 0 0 1 0 0 1 0 1\n0 0 0 0 0 0 1 0 0 1 0 1\nend\n";
    let meshes = parse_smd(doc).unwrap();
    assert_eq!(texture_paths(&meshes), vec!["./assets/images/wood.png".to_string()]);
}

#[test]
fn skybox_faces_take_their_images() {
    assert_eq!(skybox_image_index(CubeFace::PositiveZ), 0);
    assert_eq!(skybox_image_index(CubeFace::NegativeZ), 4);
    assert_eq!(skybox_image_index(CubeFace::PositiveX), 3);
    assert_eq!(skybox_image_index(CubeFace::NegativeX), 5);
    assert_eq!(skybox_image_index(CubeFace::PositiveY), 1);
    assert_eq!(skybox_image_index(CubeFace::NegativeY), 2);
}

#[test]
fn vertex_count_is_a_third_of_the_coordinates() {
    assert_eq!(vertex_count(27), 9);
    assert_eq!(vertex_count(0), 0);
    assert_eq!(vertex_count(28), 9);
}

#[test]
fn held_keys_give_steps_in_order() {
    let keys: Vec<String> = ["w", "x", "a", "shift", "s", "d"].iter().map(|k| k.to_string()).collect();
    assert_eq!(camera_steps(&keys), vec![Step::Forward, Step::Left, Step::Backward, Step::Right]);
}

#[test]
fn keys_are_case_sensitive() {
    assert_eq!(step_of_key("W"), None);
    assert_eq!(step_of_key("w"), Some(Step::Forward));
    assert_eq!(step_of_key(""), None);
}
