use pocket_renderer::geometry::Vertex2;

#[test]
fn line_is_symmetric_in_its_endpoints() {
    let forward = pocket_renderer::line::line(13, 20, 80, 40);
    let backward = pocket_renderer::line::line(80, 40, 13, 20);
    assert!(forward == backward);
    assert_eq!(forward.len(), 68);
}

#[test]
fn steep_line_is_symmetric_too() {
    let forward = pocket_renderer::line::line(5, -3, 9, 60);
    let backward = pocket_renderer::line::line(9, 60, 5, -3);
    assert!(forward == backward);
    assert_eq!(forward.len(), 64);
}

#[test]
fn zero_length_line_covers_its_single_point() {
    let pixels = pocket_renderer::line::line(5, 5, 5, 5);
    assert_eq!(pixels.len(), 1);
    assert!(pixels[0] == Vertex2 { x: 5i64, y: 5i64 });
}

#[test]
fn shallow_line_pixels_step_once() {
    let pixels = pocket_renderer::line::line(0, 0, 3, 1);
    let expected = vec![
        Vertex2 { x: 0i64, y: 0i64 },
        Vertex2 { x: 1, y: 0 },
        Vertex2 { x: 2, y: 1 },
        Vertex2 { x: 3, y: 1 },
    ];
    assert!(pixels == expected);
}

#[test]
fn vertical_line_covers_every_row() {
    let pixels = pocket_renderer::line::line(2, 0, 2, 4);
    assert_eq!(pixels.len(), 5);
    for (i, p) in pixels.iter().enumerate() {
        assert!(*p == Vertex2 { x: 2i64, y: i as i64 });
    }
}
