use rasterizer::fx::Fx;
use rasterizer::render::{
    basis, clear_buffer, fragment_worker, merge_results, new_buffer, rasterize, rasterize_conc,
    ColorFragmentShader, Fragment, IdentityVertexShader, PixelBuffer, PixelPos, Vertex,
};
use rasterizer::vector::{Vec2, Vec3};

fn fx(num: i64, den: i64) -> Fx {
    Fx::from_ratio(num, den)
}

fn rgb(r: Fx, g: Fx, b: Fx) -> Vec3 {
    Vec3(r, g, b)
}

fn vertex(x: Fx, y: Fx, z: Fx, color: Vec3) -> Vertex {
    Vertex(Vec3(x, y, z), color)
}

fn red() -> Vec3 {
    rgb(fx(1, 1), fx(0, 1), fx(0, 1))
}

fn blue() -> Vec3 {
    rgb(fx(0, 1), fx(0, 1), fx(1, 1))
}

fn empty_buffer(n: usize) -> Vec<Option<PixelBuffer>> {
    vec![None; n]
}

#[test]
fn fresh_and_cleared_buffers_are_empty() {
    let mut buffer = new_buffer(10, 10);
    assert_eq!(buffer.len(), 100);
    assert!(buffer.iter().all(|e| e.is_none()));
    let (v0, v1, v2) = lower_left_triangle(fx(0, 1), red());
    rasterize(&IdentityVertexShader, &ColorFragmentShader, &v0, &v1, &v2, &mut buffer, 10, 10);
    assert!(buffer.iter().any(|e| e.is_some()));
    clear_buffer(&mut buffer);
    assert_eq!(buffer.len(), 100);
    assert!(buffer.iter().all(|e| e.is_none()));
}

/// The lower-left triangle of scenario 1, in normalized device coordinates.
fn lower_left_triangle(depth: Fx, color: Vec3) -> (Vertex, Vertex, Vertex) {
    (
        vertex(fx(-1, 2), fx(-1, 2), depth, color),
        vertex(fx(1, 2), fx(-1, 2), depth, color),
        vertex(fx(-1, 2), fx(1, 2), depth, color),
    )
}

#[test]
fn single_red_triangle_covers_lower_left_half() {
    let (v0, v1, v2) = lower_left_triangle(fx(0, 1), red());
    let mut buffer = empty_buffer(100);
    rasterize(
        &IdentityVertexShader,
        &ColorFragmentShader,
        &v0,
        &v1,
        &v2,
        &mut buffer,
        10,
        10,
    );
    for y in 0..10usize {
        for x in 0..10usize {
            let expected_covered = (3..=7).contains(&x) && (3..=7).contains(&y) && x + y <= 10;
            let entry = &buffer[y * 10 + x];
            assert_eq!(entry.is_some(), expected_covered, "pixel ({x}, {y})");
            if let Some(pb) = entry {
                assert_eq!(pb.color, red(), "pixel ({x}, {y})");
                assert_eq!(pb.depth, fx(0, 1), "pixel ({x}, {y})");
            }
        }
    }
    assert_eq!(buffer.iter().filter(|e| e.is_some()).count(), 15);
}

#[test]
fn nearer_triangle_wins_depth_test_in_either_draw_order() {
    let (far0, far1, far2) = lower_left_triangle(fx(0, 1), red());
    let (near0, near1, near2) = lower_left_triangle(fx(1, 1), blue());

    let mut far_first = empty_buffer(100);
    rasterize(&IdentityVertexShader, &ColorFragmentShader, &far0, &far1, &far2, &mut far_first, 10, 10);
    rasterize(&IdentityVertexShader, &ColorFragmentShader, &near0, &near1, &near2, &mut far_first, 10, 10);

    let mut near_first = empty_buffer(100);
    rasterize(&IdentityVertexShader, &ColorFragmentShader, &near0, &near1, &near2, &mut near_first, 10, 10);
    rasterize(&IdentityVertexShader, &ColorFragmentShader, &far0, &far1, &far2, &mut near_first, 10, 10);

    assert_eq!(far_first, near_first);
    let mut overlapped = 0;
    for entry in &far_first {
        if let Some(pb) = entry {
            assert_eq!(pb.color, blue());
            assert_eq!(pb.depth, fx(1, 1));
            overlapped += 1;
        }
    }
    assert_eq!(overlapped, 15);
}

#[test]
fn drawing_twice_equals_drawing_once() {
    let (v0, v1, v2) = lower_left_triangle(fx(1, 4), red());
    let mut once = empty_buffer(100);
    rasterize(&IdentityVertexShader, &ColorFragmentShader, &v0, &v1, &v2, &mut once, 10, 10);
    let mut twice = once.clone();
    rasterize(&IdentityVertexShader, &ColorFragmentShader, &v0, &v1, &v2, &mut twice, 10, 10);
    assert_eq!(once, twice);
}

#[test]
fn parallel_path_matches_sequential_for_every_worker_count() {
    let (v0, v1, v2) = lower_left_triangle(fx(0, 1), red());
    let mut sequential = empty_buffer(100);
    rasterize(&IdentityVertexShader, &ColorFragmentShader, &v0, &v1, &v2, &mut sequential, 10, 10);
    for thr in [1usize, 2, 3, 7, 10, 33, 99, 100] {
        let mut parallel = empty_buffer(100);
        rasterize_conc(
            &IdentityVertexShader,
            &ColorFragmentShader,
            &v0,
            &v1,
            &v2,
            &mut parallel,
            10,
            10,
            thr,
        );
        assert_eq!(sequential, parallel, "worker count {thr}");
    }
}

#[test]
fn merging_worker_results_in_any_order_gives_the_same_buffer() {
    let (v0, v1, v2) = lower_left_triangle(fx(1, 2), red());
    let f0 = Fragment(v0.0, v0.1);
    let f1 = Fragment(v1.0, v1.1);
    let f2 = Fragment(v2.0, v2.1);
    let first_half = fragment_worker(&ColorFragmentShader, &f0, &f1, &f2, 10, 10, 0, 50);
    let second_half = fragment_worker(&ColorFragmentShader, &f0, &f1, &f2, 10, 10, 50, 100);
    assert!(!first_half.is_empty() && !second_half.is_empty());

    let mut in_order = empty_buffer(100);
    merge_results(&mut in_order, &first_half);
    merge_results(&mut in_order, &second_half);

    let mut reversed = empty_buffer(100);
    merge_results(&mut reversed, &second_half);
    merge_results(&mut reversed, &first_half);

    assert_eq!(in_order, reversed);
}

#[test]
fn degenerate_triangle_draws_nothing() {
    let color = red();
    let v0 = vertex(fx(-1, 2), fx(-1, 2), fx(0, 1), color);
    let v1 = vertex(fx(0, 1), fx(0, 1), fx(0, 1), color);
    let v2 = vertex(fx(1, 2), fx(1, 2), fx(0, 1), color);
    let mut buffer = empty_buffer(64);
    rasterize(&IdentityVertexShader, &ColorFragmentShader, &v0, &v1, &v2, &mut buffer, 8, 8);
    assert!(buffer.iter().all(|e| e.is_none()));
}

#[test]
fn basis_is_exact_at_the_triangle_corners() {
    // On a 2x2 grid the pixel centres are exactly the NDC points (-1, -1),
    // (0, -1), (-1, 0) and (0, 0).
    let p0 = Vec2(fx(-1, 1), fx(-1, 1));
    let p1 = Vec2(fx(0, 1), fx(-1, 1));
    let p2 = Vec2(fx(-1, 1), fx(0, 1));

    let at_p0 = basis(&p0, &p1, &p2, &PixelPos { x: 0, y: 0, width: 2, height: 2 }).unwrap();
    assert_eq!(at_p0.a_num, 0);
    assert_eq!(at_p0.b_num, 0);

    let at_p1 = basis(&p0, &p1, &p2, &PixelPos { x: 1, y: 0, width: 2, height: 2 }).unwrap();
    assert_eq!(at_p1.a_num, at_p1.den);
    assert_eq!(at_p1.b_num, 0);

    let at_p2 = basis(&p0, &p1, &p2, &PixelPos { x: 0, y: 1, width: 2, height: 2 }).unwrap();
    assert_eq!(at_p2.a_num, 0);
    assert_eq!(at_p2.b_num, at_p2.den);
}

#[test]
fn interpolation_returns_corner_values_at_corner_pixels() {
    // The three corners sit exactly on pixel centres of a 2x2 grid, each
    // with its own depth and color; the stored entries reproduce them.
    let v0 = vertex(fx(-1, 1), fx(-1, 1), fx(1, 4), rgb(fx(1, 1), fx(0, 1), fx(0, 1)));
    let v1 = vertex(fx(0, 1), fx(-1, 1), fx(1, 2), rgb(fx(0, 1), fx(1, 1), fx(0, 1)));
    let v2 = vertex(fx(-1, 1), fx(0, 1), fx(3, 4), rgb(fx(0, 1), fx(0, 1), fx(1, 1)));
    let mut buffer = empty_buffer(4);
    rasterize(&IdentityVertexShader, &ColorFragmentShader, &v0, &v1, &v2, &mut buffer, 2, 2);
    let at = |x: usize, y: usize| buffer[y * 2 + x].as_ref().unwrap();
    assert_eq!(at(0, 0).depth, fx(1, 4));
    assert_eq!(at(0, 0).color, rgb(fx(1, 1), fx(0, 1), fx(0, 1)));
    assert_eq!(at(1, 0).depth, fx(1, 2));
    assert_eq!(at(1, 0).color, rgb(fx(0, 1), fx(1, 1), fx(0, 1)));
    assert_eq!(at(0, 1).depth, fx(3, 4));
    assert_eq!(at(0, 1).color, rgb(fx(0, 1), fx(0, 1), fx(1, 1)));
}

#[test]
fn coverage_declines_outside_the_convex_hull() {
    let p0 = Vec2(fx(-1, 2), fx(-1, 2));
    let p1 = Vec2(fx(1, 2), fx(-1, 2));
    let p2 = Vec2(fx(-1, 2), fx(1, 2));
    // Pixel (9, 9) of a 10x10 grid has NDC (0.8, 0.8), far outside the hull:
    // the barycentric solve declines it.
    let far = PixelPos { x: 9, y: 9, width: 10, height: 10 };
    assert!(basis(&p0, &p1, &p2, &far).is_none());
    // Pixel (5, 5) has NDC (0, 0), inside the hull (on the diagonal edge).
    let inside_pt = PixelPos { x: 5, y: 5, width: 10, height: 10 };
    assert!(basis(&p0, &p1, &p2, &inside_pt).is_some());
}
