use fractal_anim::curve::{generate_curve, CurveError, CurvePoint, MAX_ORDER};

fn points(order: u32) -> Vec<CurvePoint> {
    generate_curve(order).expect("valid order")
}

#[test]
fn base_order_is_the_four_corner_table() {
    let pts = points(1);
    let expected = [(0, 0), (0, 1), (1, 1), (1, 0)];
    assert_eq!(pts.len(), 4);
    for (p, &(x, y)) in pts.iter().zip(expected.iter()) {
        assert_eq!((p.x, p.y), (x, y));
    }
}

#[test]
fn order_two_sequence_is_exact() {
    let pts = points(2);
    let expected = [
        (0, 0),
        (1, 0),
        (1, 1),
        (0, 1),
        (0, 2),
        (0, 3),
        (1, 3),
        (1, 2),
        (2, 2),
        (2, 3),
        (3, 3),
        (3, 2),
        (3, 1),
        (2, 1),
        (2, 0),
        (3, 0),
    ];
    assert_eq!(pts.len(), 16);
    for (p, &(x, y)) in pts.iter().zip(expected.iter()) {
        assert_eq!((p.x, p.y), (x, y));
    }
}

#[test]
fn length_is_four_to_the_order() {
    for order in 1..=5u32 {
        let pts = points(order);
        assert_eq!(pts.len(), 4usize.pow(order));
    }
}

#[test]
fn order_four_has_256_points() {
    assert_eq!(points(4).len(), 256);
}

#[test]
fn consecutive_points_are_one_grid_step_apart() {
    for order in 1..=4u32 {
        let pts = points(order);
        for w in pts.windows(2) {
            let dx = (w[0].x as i64 - w[1].x as i64).abs();
            let dy = (w[0].y as i64 - w[1].y as i64).abs();
            assert_eq!(dx + dy, 1, "order {order}: not a unit step");
        }
    }
}

#[test]
fn curve_runs_corner_to_corner() {
    for order in 1..=4u32 {
        let pts = points(order);
        let side = 2u32.pow(order);
        let first = pts.first().unwrap();
        let last = pts.last().unwrap();
        assert_eq!((first.x, first.y), (0, 0));
        assert_eq!((last.x, last.y), (side - 1, 0));
    }
}

#[test]
fn every_cell_visited_exactly_once() {
    let order = 3u32;
    let side = 2usize.pow(order);
    let pts = points(order);
    let mut seen = vec![false; side * side];
    for p in &pts {
        let cell = p.y as usize * side + p.x as usize;
        assert!(!seen[cell], "cell visited twice");
        seen[cell] = true;
    }
    assert!(seen.iter().all(|&v| v));
}

#[test]
fn order_zero_is_rejected() {
    assert_eq!(generate_curve(0), Err(CurveError::DegenerateOrder));
}

#[test]
fn oversized_order_is_rejected() {
    assert_eq!(generate_curve(MAX_ORDER + 1), Err(CurveError::OrderTooLarge));
}
