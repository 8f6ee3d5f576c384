use graph_buddy::Point;

#[test]
fn transform_point() {
    let inputs = vec![
        Point { x: 1, y: 10 },
        Point { x: 5, y: 20 },
        Point { x: 17, y: 23 },
    ];

    let height = 100;
    let expected = vec![
        Point { x: 1, y: 90 },
        Point { x: 5, y: 80 },
        Point { x: 17, y: 77 },
    ];

    for (idx, &input) in inputs.iter().enumerate() {
        assert_eq!(input.transform(height), expected[idx]);
    }
}

#[test]
fn get_scaled_point() {
    let point = Point { x: 10, y: 20 };
    let mut expected = vec![
        Point { x: 8, y: 18 },
        Point { x: 9, y: 18 },
        Point { x: 10, y: 18 },
        Point { x: 11, y: 18 },
        Point { x: 12, y: 18 },
        Point { x: 8, y: 19 },
        Point { x: 9, y: 19 },
        Point { x: 10, y: 19 },
        Point { x: 11, y: 19 },
        Point { x: 12, y: 19 },
        Point { x: 8, y: 20 },
        Point { x: 9, y: 20 },
        Point { x: 10, y: 20 },
        Point { x: 11, y: 20 },
        Point { x: 12, y: 20 },
        Point { x: 8, y: 21 },
        Point { x: 9, y: 21 },
        Point { x: 10, y: 21 },
        Point { x: 11, y: 21 },
        Point { x: 12, y: 21 },
        Point { x: 8, y: 22 },
        Point { x: 9, y: 22 },
        Point { x: 10, y: 22 },
        Point { x: 11, y: 22 },
        Point { x: 12, y: 22 },
    ];
    let mut actual = point.scaled(2);
    expected.sort();
    actual.sort();

    assert_eq!(actual, expected);
}

#[test]
fn transform_twice_is_identity() {
    let p = Point { x: 1, y: 10 };
    let t = p.transform(100);
    assert_eq!(t, Point { x: 1, y: 90 });
    assert_eq!(t.transform(100), p);
}

#[test]
fn scaled_radius_zero_is_the_point_itself() {
    let p = Point { x: -3, y: 7 };
    assert_eq!(p.scaled(0), vec![p]);
}

#[test]
fn scaled_points_are_distinct_within_range_and_symmetric() {
    let p = Point { x: 10, y: 20 };
    let pts = p.scaled(2);
    assert_eq!(pts.len(), 25);
    let mut dedup = pts.clone();
    dedup.sort();
    dedup.dedup();
    assert_eq!(dedup.len(), 25);
    for q in &pts {
        assert!((q.x - p.x).abs() <= 2);
        assert!((q.y - p.y).abs() <= 2);
        let reflected = Point { x: 2 * p.x - q.x, y: 2 * p.y - q.y };
        assert!(pts.contains(&reflected));
    }
}
