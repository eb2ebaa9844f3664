use pocket_renderer::buffer::{Color, DepthBuffer, Image};
use pocket_renderer::geometry::{Matrix4, Vertex3};
use pocket_renderer::model::Model;
use pocket_renderer::renderer::{lookat, projection, triangle, viewport, GouradShader, Shader};
use pocket_renderer::SCALE;

/// A model whose single face samples a solid texture at full intensity.
fn flat_model(color: Color) -> Model {
    Model::new("v 0 0 0\nvt 0 0\nvn 0 0 1\n", Image::new(1, 1, color)).unwrap()
}

fn flat_face() -> pocket_renderer::model::Face {
    pocket_renderer::model::Face {
        vertexes: [0, 0, 0],
        textures: [0, 0, 0],
        normals: [0, 0, 0],
    }
}

fn head_on_light() -> Vertex3<i64> {
    Vertex3 { x: 0, y: 0, z: SCALE }
}

#[test]
fn rasterizer_covers_exactly_the_triangle() {
    let model = flat_model(Color { r: 255, g: 255, b: 255 });
    let face = flat_face();
    let shader = GouradShader::new(&model, &face, head_on_light());
    let mut image = Image::new(12, 12, Color { r: 0, g: 0, b: 0 });
    let mut zbuffer = DepthBuffer::new(12, 12);
    let verts = [
        Vertex3 { x: 0i64, y: 0i64, z: 100i64 },
        Vertex3 { x: 10, y: 0, z: 100 },
        Vertex3 { x: 0, y: 10, z: 100 },
    ];
    triangle(&verts, &shader, &mut zbuffer, &mut image);
    for x in 0..12i64 {
        for y in 0..12i64 {
            let covered = x + y <= 10 && x <= 10 && y <= 10;
            let pixel = image.get(x as usize, y as usize);
            if covered {
                assert!(pixel.r > 0, "pixel ({}, {}) not drawn", x, y);
            } else {
                assert!(pixel == Color { r: 0, g: 0, b: 0 }, "pixel ({}, {}) drawn", x, y);
            }
        }
    }
}

#[test]
fn depth_test_keeps_the_nearer_triangle_in_either_order() {
    let red_model = flat_model(Color { r: 255, g: 0, b: 0 });
    let blue_model = flat_model(Color { r: 0, g: 0, b: 255 });
    let face = flat_face();
    let far = [
        Vertex3 { x: 0i64, y: 0i64, z: 100i64 },
        Vertex3 { x: 8, y: 0, z: 100 },
        Vertex3 { x: 0, y: 8, z: 100 },
    ];
    let near = [
        Vertex3 { x: 0i64, y: 0i64, z: 200i64 },
        Vertex3 { x: 8, y: 0, z: 200 },
        Vertex3 { x: 0, y: 8, z: 200 },
    ];
    for order in 0..2 {
        let red = GouradShader::new(&red_model, &face, head_on_light());
        let blue = GouradShader::new(&blue_model, &face, head_on_light());
        let mut image = Image::new(10, 10, Color { r: 0, g: 0, b: 0 });
        let mut zbuffer = DepthBuffer::new(10, 10);
        if order == 0 {
            triangle(&far, &red, &mut zbuffer, &mut image);
            triangle(&near, &blue, &mut zbuffer, &mut image);
        } else {
            triangle(&near, &blue, &mut zbuffer, &mut image);
            triangle(&far, &red, &mut zbuffer, &mut image);
        }
        // the overlap always shows the nearer, blue triangle
        let p1 = image.get(1, 1);
        let p2 = image.get(3, 3);
        assert!(p1.b > 0 && p1.r == 0);
        assert!(p2.b > 0 && p2.r == 0);
    }
}

#[test]
fn degenerate_triangles_are_skipped_entirely() {
    let model = flat_model(Color { r: 255, g: 255, b: 255 });
    let face = flat_face();
    let shader = GouradShader::new(&model, &face, head_on_light());
    let mut image = Image::new(8, 8, Color { r: 0, g: 0, b: 0 });
    let mut zbuffer = DepthBuffer::new(8, 8);
    let verts = [
        Vertex3 { x: 0i64, y: 0i64, z: 100i64 },
        Vertex3 { x: 3, y: 3, z: 100 },
        Vertex3 { x: 6, y: 6, z: 100 },
    ];
    triangle(&verts, &shader, &mut zbuffer, &mut image);
    for x in 0..8 {
        for y in 0..8 {
            assert!(image.get(x, y) == Color { r: 0, g: 0, b: 0 });
        }
    }
}

#[test]
fn fragment_scales_the_texel_by_the_interpolated_intensity() {
    let model = flat_model(Color { r: 200, g: 100, b: 50 });
    let face = flat_face();
    let shader = GouradShader::new(&model, &face, head_on_light());
    let mut pixel = Color { r: 7, g: 7, b: 7 };
    let keep = shader.fragment(Vertex3 { x: SCALE, y: 0, z: 0 }, &mut pixel);
    assert!(keep);
    assert!(pixel == Color { r: 200, g: 100, b: 50 });
}

#[test]
fn fragment_at_half_intensity_halves_the_texel() {
    // light at 60 degrees: intensity 0.5
    let model = Model::new(
        "v 0 0 0\nvt 0 0\nvn 0 0 1\n",
        Image::new(1, 1, Color { r: 200, g: 100, b: 50 }),
    )
    .unwrap();
    let face = flat_face();
    let shader = GouradShader::new(&model, &face, Vertex3 { x: 0, y: 0, z: SCALE / 2 });
    let mut pixel = Color { r: 0, g: 0, b: 0 };
    shader.fragment(Vertex3 { x: SCALE, y: 0, z: 0 }, &mut pixel);
    assert!(pixel == Color { r: 100, g: 50, b: 25 });
}

#[test]
fn viewport_matrix_entries() {
    let m = viewport(0, 0, 16, 16, 255);
    assert_eq!(m.get(0, 0), 16 * (SCALE / 2));
    assert_eq!(m.get(1, 1), 16 * (SCALE / 2));
    assert_eq!(m.get(2, 2), 255 * (SCALE / 2));
    assert_eq!(m.get(0, 3), 16 * (SCALE / 2));
    assert_eq!(m.get(1, 3), 16 * (SCALE / 2));
    assert_eq!(m.get(2, 3), 255 * (SCALE / 2));
    assert_eq!(m.get(3, 3), SCALE);
    assert_eq!(m.get(0, 1), 0);
}

#[test]
fn projection_matrix_encodes_the_camera_distance() {
    let eye = Vertex3 { x: 0, y: 0, z: 3 * SCALE };
    let center = Vertex3 { x: 0, y: 0, z: 0 };
    let m = projection(eye, center);
    // -1 / 3 in fixed point, truncated
    assert_eq!(m.get(3, 2), -21845);
    assert_eq!(m.get(0, 0), SCALE);
    assert_eq!(m.get(3, 3), SCALE);
}

#[test]
fn lookat_with_an_offset_center_projects_it_onto_the_basis() {
    // camera at (1,0,1) looking at (0,0,1): view direction along -x,
    // so the right vector points down -z and picks up the center's z
    let eye = Vertex3 { x: SCALE, y: 0, z: SCALE };
    let center = Vertex3 { x: 0, y: 0, z: SCALE };
    let up = Vertex3 { x: 0, y: SCALE, z: 0 };
    let m = lookat(eye, center, up);
    let expected = Matrix4 {
        m: [
            [0, 0, -SCALE, SCALE],
            [0, SCALE, 0, 0],
            [SCALE, 0, 0, 0],
            [0, 0, 0, SCALE],
        ],
    };
    assert!(m == expected);
}

#[test]
fn viewport_translations_honor_the_box_position() {
    let m = viewport(2, 3, 10, 16, 255);
    assert_eq!(m.get(0, 0), 8 * SCALE);
    assert_eq!(m.get(1, 1), 5 * SCALE);
    assert_eq!(m.get(0, 3), 10 * SCALE);
    assert_eq!(m.get(1, 3), 8 * SCALE);
}

#[test]
fn viewport_maps_clip_corners_onto_the_screen_box() {
    let vp = viewport(2, 3, 16, 16, 255);
    let low = (vp * Vertex3::init(-SCALE, -SCALE, -SCALE).to_matrix()).to_vector();
    assert!(low == Vertex3::init(2 * SCALE, 3 * SCALE, 0));
    let high = (vp * Vertex3::init(SCALE, SCALE, SCALE).to_matrix()).to_vector();
    assert!(high == Vertex3::init(18 * SCALE, 19 * SCALE, 255 * SCALE));
}

#[test]
fn overbright_intensity_is_kept_and_clamped_only_at_the_color_write() {
    // a light of magnitude two: captured intensity 2.0, not clamped to 1
    let model = Model::new(
        "v 0 0 0\nvt 0 0\nvn 0 0 1\n",
        Image::new(1, 1, Color { r: 200, g: 100, b: 50 }),
    )
    .unwrap();
    let face = flat_face();
    let shader = GouradShader::new(&model, &face, Vertex3 { x: 0, y: 0, z: 2 * SCALE });
    assert_eq!(shader.varying_intensity.x, 2 * SCALE);
    let mut pixel = Color { r: 0, g: 0, b: 0 };
    shader.fragment(Vertex3 { x: SCALE, y: 0, z: 0 }, &mut pixel);
    assert!(pixel == Color { r: 255, g: 200, b: 100 });
}

#[test]
fn lookat_down_the_z_axis_is_the_identity() {
    let eye = Vertex3 { x: 0, y: 0, z: SCALE };
    let center = Vertex3 { x: 0, y: 0, z: 0 };
    let up = Vertex3 { x: 0, y: SCALE, z: 0 };
    let m = lookat(eye, center, up);
    assert!(m == Matrix4::identity());
}

#[test]
fn depth_buffer_clear_resets_every_depth() {
    let mut z = DepthBuffer::new(4, 4);
    z.set(2, 2, 1234);
    assert_eq!(z.get(2, 2), 1234);
    z.clear();
    assert_eq!(z.get(2, 2), i64::MIN);
    assert_eq!(z.get(0, 0), i64::MIN);
}
