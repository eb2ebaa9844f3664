use pocket_renderer::geometry::{Matrix4, Scalar, Vertex2, Vertex3};
use pocket_renderer::SCALE;

#[test]
fn cross_product_of_two_3d_vectors() {
    let a = Vertex3::<i64> { x: 3, y: 1, z: 0 };
    let b = Vertex3::<i64> { x: 1, y: 3, z: 1 };
    let actual = Vertex3::cross(a, b);
    let expected = Vertex3::<i64> { x: 1, y: -3, z: 8 };
    assert!(actual == expected);
}

#[test]
fn adding_two_2d_vectors() {
    let a = Vertex2::<i64> { x: 1, y: 1 };
    let b = Vertex2::<i64> { x: 1, y: 1 };
    let actual = a + b;
    let expected = Vertex2::<i64> { x: 2, y: 2 };
    assert!(actual == expected);
}

#[test]
fn multiplying_2d_vector_by_float() {
    let a = Vertex2::<i64> { x: 10, y: 10 };
    let b = Scalar { value: SCALE / 2 };
    let actual = b * a;
    let expected = Vertex2::<i64> { x: 5, y: 5 };
    assert!(actual == expected);
}

#[test]
fn subtracting_two_2d_vectors() {
    let a = Vertex2::<i64> { x: 3, y: 3 };
    let b = Vertex2::<i64> { x: 1, y: 1 };
    let actual = a - b;
    let expected = Vertex2::<i64> { x: 2, y: 2 };
    assert!(actual == expected);
}

#[test]
fn matrix_equal() {
    let a = Matrix4 {
        m: [
            [SCALE, 0, 0, 0],
            [0, SCALE, 0, 0],
            [0, 0, SCALE, 0],
            [0, 0, 0, SCALE],
        ],
    };
    let b = Matrix4 {
        m: [
            [SCALE, 0, 0, 0],
            [0, SCALE, 0, 0],
            [0, 0, SCALE, 0],
            [0, 0, 0, SCALE],
        ],
    };
    assert!(a == b);
}

#[test]
fn matrix_identity() {
    let actual = Matrix4::identity();
    let expected = Matrix4 {
        m: [
            [SCALE, 0, 0, 0],
            [0, SCALE, 0, 0],
            [0, 0, SCALE, 0],
            [0, 0, 0, SCALE],
        ],
    };
    assert!(actual == expected);
}

#[test]
fn matrix_multiplication() {
    let a = Matrix4 {
        m: [
            [2 * SCALE, 1 * SCALE, 0, 0],
            [2 * SCALE, 2 * SCALE, 0, 0],
            [0, 0, 0, 0],
            [0, 0, 0, 0],
        ],
    };
    let b = Matrix4 {
        m: [
            [2 * SCALE, 0, 0, 0],
            [3 * SCALE, 0, 0, 0],
            [0, 0, 0, 0],
            [0, 0, 0, 0],
        ],
    };
    let actual = a * b;
    let expected = Matrix4 {
        m: [
            [7 * SCALE, 0, 0, 0],
            [10 * SCALE, 0, 0, 0],
            [0, 0, 0, 0],
            [0, 0, 0, 0],
        ],
    };
    assert!(actual == expected);
}

#[test]
fn identity_is_a_unit_of_matrix_multiplication() {
    let m = Matrix4 {
        m: [
            [3 * SCALE, -SCALE, 7, 0],
            [0, SCALE / 4, 9, -5 * SCALE],
            [1, 2, 3, 4],
            [0, 0, 0, SCALE],
        ],
    };
    assert!(Matrix4::identity() * m == m);
    assert!(m * Matrix4::identity() == m);
}

#[test]
fn vector_component_access_by_ordinal() {
    let v3 = Vertex3::<i64> { x: 4, y: 5, z: 6 };
    assert_eq!(v3.at(0), Some(&4));
    assert_eq!(v3.at(1), Some(&5));
    assert_eq!(v3.at(2), Some(&6));
    assert_eq!(v3.at(3), None);
    let v2 = Vertex2::<i64>::new(7, 8);
    assert_eq!(v2.at(0), Some(&7));
    assert_eq!(v2.at(1), Some(&8));
    assert_eq!(v2.at(-1), None);
}

#[test]
fn dot_products_are_symmetric() {
    let a = Vertex3::<i64> { x: 2, y: -3, z: 5 };
    let b = Vertex3::<i64> { x: 7, y: 11, z: -1 };
    assert_eq!(a * b, b * a);
    assert_eq!(a * b, 2 * 7 - 3 * 11 - 5);
}

#[test]
fn norm_of_a_pythagorean_vector() {
    let v = Vertex3::<i64> { x: 3, y: 4, z: 0 };
    assert_eq!(v.norm(), 5);
}

#[test]
fn normalize_yields_a_unit_axis() {
    let v = Vertex3::<i64> { x: 0, y: 0, z: 7 };
    let n = v.normalize();
    assert!(n == Vertex3::<i64> { x: 0, y: 0, z: SCALE });
}

#[test]
fn barycentric_weights_of_an_interior_point() {
    let v0 = Vertex3::<i64> { x: 0, y: 0, z: 0 };
    let v1 = Vertex3::<i64> { x: 10, y: 0, z: 0 };
    let v2 = Vertex3::<i64> { x: 0, y: 10, z: 0 };
    let p = Vertex3::<i64> { x: 2, y: 3, z: 0 };
    let w = Vertex3::barycentric(v0, v1, v2, p);
    assert!(w == Vertex3::<i64> { x: 32768, y: 13107, z: 19660 });
    let w2 = Vertex2::barycentric(
        Vertex2 { x: 0i64, y: 0i64 },
        Vertex2 { x: 10, y: 0 },
        Vertex2 { x: 0, y: 10 },
        Vertex2 { x: 2, y: 3 },
    );
    assert!(w2 == w);
}

#[test]
fn barycentric_of_a_degenerate_triangle_is_the_sentinel() {
    let v0 = Vertex3::<i64> { x: 0, y: 0, z: 0 };
    let v1 = Vertex3::<i64> { x: 5, y: 5, z: 0 };
    let v2 = Vertex3::<i64> { x: 10, y: 10, z: 0 };
    let p = Vertex3::<i64> { x: 1, y: 2, z: 0 };
    let w = Vertex3::barycentric(v0, v1, v2, p);
    assert!(w == Vertex3::<i64> { x: -SCALE, y: SCALE, z: SCALE });
}

#[test]
fn homogeneous_round_trip_through_a_matrix() {
    let v = Vertex3::init(SCALE, 2 * SCALE, 3 * SCALE);
    let m = v.to_matrix();
    assert_eq!(m.get(0, 0), SCALE);
    assert_eq!(m.get(3, 0), SCALE);
    let back = m.to_vector();
    assert!(back == v);
}

#[test]
fn to_screen_maps_clip_space_to_pixels() {
    let v = Vertex3::init(0, 0, 42);
    let s = v.to_screen(100, 100);
    assert_eq!(s.x, 50 * SCALE + SCALE / 2);
    assert_eq!(s.y, 50 * SCALE + SCALE / 2);
    assert_eq!(s.z, 42);
}

#[test]
fn matrix_get_set_round_trip() {
    let mut m = Matrix4::new();
    m.set(2, 3, 77);
    assert_eq!(m.get(2, 3), 77);
    assert_eq!(m.get(3, 2), 0);
}
