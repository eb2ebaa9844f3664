use pocket_renderer::buffer::{Color, Image};
use pocket_renderer::model::{Model, parse_face_string};
use pocket_renderer::SCALE;

fn white_texture() -> Image {
    Image::new(2, 2, Color { r: 255, g: 255, b: 255 })
}

#[test]
fn parse_face_string_returns_correct_vector() {
    let str = "1/2/3";
    let expected = vec![0u32, 1, 2];
    let actual = parse_face_string(str);
    assert!(actual == Some(expected));
}

#[test]
fn parse_face_string_rejects_empty_and_zero_segments() {
    assert!(parse_face_string("1//3") == None);
    assert!(parse_face_string("0/1/2") == None);
    assert!(parse_face_string("1/a/2") == None);
    assert!(parse_face_string("") == None);
}

#[test]
fn loading_a_small_mesh() {
    let src = "v 1 2 3\nv -0.5 0.25 0\nv 0 0 1\nvt 0.5 0.5\nvn 0 0 1\nf 1/1/1 2/1/1 3/1/1\n";
    let model = Model::new(src, white_texture()).unwrap();
    assert_eq!(model.verts_len(), 3);
    assert_eq!(model.faces_len(), 1);
    assert!(model.verts[0] == pocket_renderer::geometry::Vertex3 { x: SCALE, y: 2 * SCALE, z: 3 * SCALE });
    assert!(model.verts[1] == pocket_renderer::geometry::Vertex3 { x: -SCALE / 2, y: SCALE / 4, z: 0 });
    assert_eq!(model.faces[0].get_vertex(0), 0);
    assert_eq!(model.faces[0].get_vertex(1), 1);
    assert_eq!(model.faces[0].get_vertex(2), 2);
    assert_eq!(model.faces[0].get_texture(0), 0);
    assert_eq!(model.faces[0].get_normal(0), 0);
    assert!(model.textures[0] == pocket_renderer::geometry::Vertex3 { x: SCALE / 2, y: SCALE / 2, z: 0 });
}

#[test]
fn comments_blank_lines_and_unknown_records_are_ignored() {
    let src = "# a comment\n\ng group\nv 0 0 0\nv 1 0 0\nv 0 1 0\n";
    let model = Model::new(src, white_texture()).unwrap();
    assert_eq!(model.verts_len(), 3);
    assert_eq!(model.faces_len(), 0);
}

#[test]
fn carriage_returns_are_tolerated() {
    let src = "v 1 0 0\r\nv 0 1 0\r\n";
    let model = Model::new(src, white_texture()).unwrap();
    assert_eq!(model.verts_len(), 2);
}

#[test]
fn malformed_vertex_records_fail_the_load() {
    assert!(Model::new("v 1 2\n", white_texture()).is_err());
    assert!(Model::new("v a b c\n", white_texture()).is_err());
    assert!(Model::new("v 1 2 3e5\n", white_texture()).is_err());
    assert!(Model::new("v 99999 0 0\n", white_texture()).is_err());
}

#[test]
fn texture_coordinates_outside_unit_range_fail_the_load() {
    assert!(Model::new("vt 2.0 0.5\n", white_texture()).is_err());
    assert!(Model::new("vt -0.1 0.5\n", white_texture()).is_err());
}

#[test]
fn face_index_out_of_range_fails_the_load() {
    let src = "v 0 0 0\nv 1 0 0\nvt 0 0\nvn 0 0 1\nf 1/1/1 2/1/1 3/1/1\n";
    assert!(Model::new(src, white_texture()).is_err());
}

#[test]
fn fractional_coordinates_truncate_toward_zero() {
    let src = "v 0.25 -0.25 0.000015259\n";
    let model = Model::new(src, white_texture()).unwrap();
    let v = model.verts[0];
    assert_eq!(v.x, SCALE / 4);
    assert_eq!(v.y, -(SCALE / 4));
    // 0.000015259 * 65536 rounds down to 1
    assert_eq!(v.z, 1);
}

#[test]
fn texture_sampling_is_nearest_neighbor_with_clamping() {
    let mut img = Image::new(2, 1, Color { r: 0, g: 0, b: 0 });
    img.set(1, 0, Color { r: 9, g: 9, b: 9 });
    let model = Model::new("", img).unwrap();
    let left = model.uv(pocket_renderer::geometry::Vertex3 { x: 0, y: 0, z: 0 });
    let right = model.uv(pocket_renderer::geometry::Vertex3 { x: SCALE - 1, y: 0, z: 0 });
    let past = model.uv(pocket_renderer::geometry::Vertex3 { x: 2 * SCALE, y: 0, z: 0 });
    assert!(left == Color { r: 0, g: 0, b: 0 });
    assert!(right == Color { r: 9, g: 9, b: 9 });
    assert!(past == Color { r: 9, g: 9, b: 9 });
}

#[test]
fn the_texture_is_flipped_vertically_at_load() {
    let mut img = Image::new(1, 2, Color { r: 0, g: 0, b: 0 });
    img.set(0, 0, Color { r: 1, g: 1, b: 1 });
    img.set(0, 1, Color { r: 2, g: 2, b: 2 });
    let model = Model::new("", img).unwrap();
    assert!(model.texture_image.get(0, 0) == Color { r: 2, g: 2, b: 2 });
    assert!(model.texture_image.get(0, 1) == Color { r: 1, g: 1, b: 1 });
}

#[test]
fn image_flipv_reverses_rows() {
    let mut img = Image::new(1, 3, Color { r: 0, g: 0, b: 0 });
    img.set(0, 0, Color { r: 10, g: 0, b: 0 });
    img.set(0, 2, Color { r: 30, g: 0, b: 0 });
    let f = img.flipv();
    assert!(f.get(0, 0) == Color { r: 30, g: 0, b: 0 });
    assert!(f.get(0, 1) == Color { r: 0, g: 0, b: 0 });
    assert!(f.get(0, 2) == Color { r: 10, g: 0, b: 0 });
}
