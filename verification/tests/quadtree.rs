use quadtree_simple::{Point, Qrect, Quadtree};

fn payloads(points: &[Point<i32>]) -> Vec<i32> {
    points.iter().map(|p| p.data).collect()
}

fn triples(points: &[Point<i32>]) -> Vec<(i32, i32, i32)> {
    points.iter().map(|p| (p.x, p.y, p.data)).collect()
}

fn sorted(mut v: Vec<(i32, i32, i32)>) -> Vec<(i32, i32, i32)> {
    v.sort();
    v
}

fn square_tree(capacity: usize) -> Quadtree<i32> {
    Quadtree::new(Qrect::new(50, 50, 50, 50), capacity)
}

#[test]
fn it_works() {
    let size = 50;
    let mut qt = Quadtree::new(Qrect::new(size, size, size as u32, size as u32), 4);
    qt.insert(&Point::new(25, 25, 0));
}

#[test]
fn insert_at_known_points() {
    let size = 50;
    let mut qt = Quadtree::new(Qrect::new(size, size, size as u32, size as u32), 4);
    qt.insert(&Point::new(25, 25, 0));
    qt.insert(&Point::new(25, 25, 1));
    qt.insert(&Point::new(25, 25, 2));
    qt.insert(&Point::new(25, 25, 3));
    // check
    let found = qt.query_rect(&Qrect::range(25, 25, 1));
    assert_eq!(found.len(), 4);
    // check locations
    assert_eq!(found[0].data, 0);
    assert_eq!(found[1].data, 1);
    assert_eq!(found[2].data, 2);
    assert_eq!(found[3].data, 3);
}

#[test]
fn four_points_at_one_place_do_not_split_the_root() {
    let mut qt = square_tree(4);
    for i in 0..4 {
        assert!(qt.insert(&Point::new(25, 25, i)));
    }
    let found = qt.query_rect(&Qrect::range(25, 25, 1));
    assert_eq!(triples(&found), vec![(25, 25, 0), (25, 25, 1), (25, 25, 2), (25, 25, 3)]);
    assert_eq!(qt.get_rects(), vec![Qrect::new(50, 50, 50, 50)]);
}

#[test]
fn a_fifth_point_splits_the_root_once() {
    let mut qt = square_tree(4);
    for i in 0..5 {
        assert!(qt.insert(&Point::new(25, 25, i)));
    }
    let all = qt.collect();
    assert_eq!(all.len(), 5);
    assert_eq!(payloads(&all), vec![0, 1, 2, 3, 4]);
    assert_eq!(
        qt.get_rects(),
        vec![
            Qrect::new(50, 50, 50, 50),
            Qrect::new(25, 25, 25, 25),
            Qrect::new(75, 25, 25, 25),
            Qrect::new(25, 75, 25, 25),
            Qrect::new(75, 75, 25, 25),
        ]
    );
}

#[test]
fn insert_accepts_exactly_the_points_of_the_boundary() {
    let mut qt: Quadtree<i32> = Quadtree::new(Qrect::new(10, 20, 3, 4), 2);
    let mut accepted = 0;
    for x in 5..=15 {
        for y in 14..=26 {
            let inside = (7..=13).contains(&x) && (16..=24).contains(&y);
            assert_eq!(qt.insert(&Point::new(x, y, 0)), inside);
            if inside {
                accepted += 1;
            }
        }
    }
    assert_eq!(accepted, 7 * 9);
    assert_eq!(qt.collect().len(), accepted);
}

#[test]
fn insert_accepts_the_four_corners() {
    let mut qt = square_tree(1);
    assert!(qt.insert(&Point::new(0, 0, 0)));
    assert!(qt.insert(&Point::new(100, 0, 1)));
    assert!(qt.insert(&Point::new(0, 100, 2)));
    assert!(qt.insert(&Point::new(100, 100, 3)));
    assert!(!qt.insert(&Point::new(101, 100, 4)));
    assert!(!qt.insert(&Point::new(100, 101, 5)));
    assert!(!qt.insert(&Point::new(-1, 0, 6)));
    assert!(!qt.insert(&Point::new(0, -1, 7)));
    assert_eq!(payloads(&qt.collect()), vec![0, 1, 2, 3]);
}

#[test]
fn a_rejected_point_changes_nothing() {
    let mut qt = square_tree(1);
    assert!(qt.insert(&Point::new(10, 10, 0)));
    let rects = qt.get_rects();
    assert!(!qt.insert(&Point::new(200, 10, 1)));
    assert!(!qt.insert(&Point::new(200, 10, 2)));
    assert_eq!(qt.get_rects(), rects);
    assert_eq!(payloads(&qt.collect()), vec![0]);
}

#[test]
fn the_same_place_can_be_filled_again_and_again() {
    let mut qt = square_tree(4);
    for i in 0..200 {
        assert!(qt.insert(&Point::new(25, 25, i)));
    }
    let all = qt.collect();
    assert_eq!(payloads(&all), (0..200).collect::<Vec<i32>>());
    assert_eq!(qt.query_rect(&Qrect::range(25, 25, 0)).len(), 200);
    assert_eq!(qt.get_rects().len(), 1 + 4 * 49);
}

#[test]
fn capacity_points_keep_the_root_whole() {
    for capacity in 1..=6usize {
        let mut qt = square_tree(capacity);
        for i in 0..capacity {
            assert!(qt.insert(&Point::new(10 * i as i32, 90, i as i32)));
        }
        assert_eq!(qt.get_rects().len(), 1);
        assert!(qt.insert(&Point::new(60, 60, -1)));
        assert_eq!(qt.get_rects().len(), 5);
        assert_eq!(qt.collect().len(), capacity + 1);
    }
}

#[test]
fn collect_returns_every_accepted_point() {
    let mut qt = square_tree(3);
    let mut offered = Vec::new();
    let mut state: u64 = 7;
    for i in 0..500 {
        state = state.wrapping_mul(6364136223846793005).wrapping_add(1442695040888963407);
        let x = ((state >> 33) % 131) as i32 - 15;
        state = state.wrapping_mul(6364136223846793005).wrapping_add(1442695040888963407);
        let y = ((state >> 33) % 127) as i32 - 13;
        let inside = (0..=100).contains(&x) && (0..=100).contains(&y);
        assert_eq!(qt.insert(&Point::new(x, y, i)), inside);
        if inside {
            offered.push((x, y, i));
        }
    }
    assert!(offered.len() > 100);
    let all = qt.collect();
    assert_eq!(all.len(), offered.len());
    assert_eq!(sorted(triples(&all)), sorted(offered));
    assert!(qt.get_rects().len() > 5);
}

#[test]
fn a_query_for_the_whole_boundary_is_collect() {
    let mut qt = square_tree(2);
    for i in 0..60 {
        qt.insert(&Point::new((i * 13) % 101, (i * 29) % 101, i));
    }
    let all = triples(&qt.collect());
    assert_eq!(all.len(), 60);
    assert_eq!(triples(&qt.query_rect(&Qrect::new(50, 50, 50, 50))), all);
    assert_eq!(triples(&qt.query_rect(&Qrect::new(40, 60, 500, 500))), all);
    assert_eq!(triples(&qt.query_rect(&Qrect::corners((0, 0), (100, 100)))), all);
}

#[test]
fn a_query_beside_the_boundary_is_empty() {
    let mut qt = square_tree(2);
    for i in 0..60 {
        qt.insert(&Point::new((i * 13) % 101, (i * 29) % 101, i));
    }
    assert!(qt.query_rect(&Qrect::new(200, 50, 50, 50)).is_empty());
    assert!(qt.query_rect(&Qrect::new(50, -60, 50, 9)).is_empty());
    assert!(qt.query_rect(&Qrect::new(-10, -10, 9, 9)).is_empty());
    assert!(qt.query_circle(300, 300, 100).is_empty());
}

#[test]
fn query_rect_returns_what_lies_in_the_range() {
    let mut qt = square_tree(2);
    let mut offered = Vec::new();
    for i in 0..80 {
        let (x, y) = ((i * 17) % 101, (i * 43) % 101);
        assert!(qt.insert(&Point::new(x, y, i)));
        offered.push((x, y, i));
    }
    let range = Qrect::new(30, 40, 20, 15);
    let expected: Vec<(i32, i32, i32)> = offered
        .iter()
        .copied()
        .filter(|&(x, y, _)| (10..=50).contains(&x) && (25..=55).contains(&y))
        .collect();
    assert!(!expected.is_empty());
    assert_eq!(sorted(triples(&qt.query_rect(&range))), sorted(expected));
}

#[test]
fn query_rect_includes_the_edges_of_the_range() {
    let mut qt = square_tree(1);
    qt.insert(&Point::new(10, 10, 0));
    qt.insert(&Point::new(20, 10, 1));
    qt.insert(&Point::new(10, 20, 2));
    qt.insert(&Point::new(21, 10, 3));
    qt.insert(&Point::new(10, 21, 4));
    let found = qt.query_rect(&Qrect::corners((10, 10), (20, 20)));
    assert_eq!(sorted(triples(&found)), vec![(10, 10, 0), (10, 20, 2), (20, 10, 1)]);
}

#[test]
fn results_come_root_first_then_quadrant_by_quadrant() {
    let mut qt = square_tree(1);
    assert!(qt.insert(&Point::new(50, 50, 0)));
    assert!(qt.insert(&Point::new(90, 90, 1)));
    assert!(qt.insert(&Point::new(10, 90, 2)));
    assert!(qt.insert(&Point::new(90, 10, 3)));
    assert!(qt.insert(&Point::new(10, 10, 4)));
    assert_eq!(payloads(&qt.collect()), vec![0, 4, 3, 2, 1]);
    assert_eq!(payloads(&qt.query_rect(&Qrect::new(50, 50, 45, 45))), vec![0, 4, 3, 2, 1]);
    assert_eq!(payloads(&qt.query_rect(&Qrect::new(50, 10, 45, 5))), vec![4, 3]);
    assert_eq!(qt.get_rects().len(), 5);
}

#[test]
fn a_point_on_the_centre_lines_goes_to_the_first_quadrant_that_holds_it() {
    let mut qt = square_tree(1);
    assert!(qt.insert(&Point::new(1, 1, 0)));
    assert!(qt.insert(&Point::new(50, 50, 1)));
    assert!(qt.insert(&Point::new(60, 50, 2)));
    assert!(qt.insert(&Point::new(50, 60, 3)));
    assert!(qt.insert(&Point::new(60, 60, 4)));
    // (50, 50) lies in all four quadrants and lands in the top left one, which
    // then is full: (60, 50) goes top right, (50, 60) bottom left.
    assert_eq!(payloads(&qt.collect()), vec![0, 1, 2, 3, 4]);
    assert_eq!(payloads(&qt.query_rect(&Qrect::new(25, 25, 25, 25))), vec![0, 1]);
    assert_eq!(qt.get_rects().len(), 5);
}

#[test]
fn deeper_levels_come_in_the_same_order() {
    let mut qt = square_tree(1);
    assert!(qt.insert(&Point::new(99, 99, 0)));
    assert!(qt.insert(&Point::new(10, 10, 1)));
    assert!(qt.insert(&Point::new(40, 40, 2)));
    assert!(qt.insert(&Point::new(40, 10, 3)));
    assert!(qt.insert(&Point::new(80, 80, 4)));
    // root: 0; top left child: 1, its children: top right 3, bottom right 2;
    // bottom right child of the root: 4.
    assert_eq!(payloads(&qt.collect()), vec![0, 1, 3, 2, 4]);
    assert_eq!(
        qt.get_rects(),
        vec![
            Qrect::new(50, 50, 50, 50),
            Qrect::new(25, 25, 25, 25),
            Qrect::new(13, 13, 13, 13),
            Qrect::new(37, 13, 13, 13),
            Qrect::new(13, 37, 13, 13),
            Qrect::new(37, 37, 13, 13),
            Qrect::new(75, 25, 25, 25),
            Qrect::new(25, 75, 25, 25),
            Qrect::new(75, 75, 25, 25),
        ]
    );
}

#[test]
fn odd_boundaries_lose_no_point() {
    let mut qt: Quadtree<i32> = Quadtree::new(Qrect::new(0, 0, 25, 7), 1);
    let mut n = 0;
    for x in -25..=25 {
        for y in -7..=7 {
            assert!(qt.insert(&Point::new(x, y, n)));
            n += 1;
        }
    }
    assert_eq!(qt.collect().len(), 51 * 15);
    assert_eq!(qt.query_rect(&Qrect::new(25, 7, 0, 0)).len(), 1);
    assert_eq!(qt.query_rect(&Qrect::new(-25, -7, 0, 0)).len(), 1);
}

#[test]
fn query_circle_leaves_out_the_rim() {
    let mut qt: Quadtree<i32> = Quadtree::new(Qrect::new(0, 0, 20, 20), 2);
    assert!(qt.insert(&Point::new(3, 4, 0)));
    assert!(qt.insert(&Point::new(5, 0, 1)));
    assert!(qt.insert(&Point::new(0, -5, 2)));
    assert!(qt.insert(&Point::new(4, 3, 3)));
    assert!(qt.insert(&Point::new(3, 3, 4)));
    assert!(qt.insert(&Point::new(4, 0, 5)));
    assert!(qt.insert(&Point::new(0, 0, 6)));
    assert!(qt.insert(&Point::new(-4, -2, 7)));
    assert!(qt.insert(&Point::new(5, 5, 8)));
    let found = qt.query_circle(0, 0, 5);
    assert_eq!(sorted(triples(&found)), vec![(-4, -2, 7), (0, 0, 6), (3, 3, 4), (4, 0, 5)]);
    let wider = qt.query_circle(0, 0, 6);
    assert_eq!(wider.len(), 8);
}

#[test]
fn query_circle_of_radius_zero_or_one() {
    let mut qt = square_tree(4);
    assert!(qt.insert(&Point::new(25, 25, 0)));
    assert!(qt.insert(&Point::new(26, 25, 1)));
    assert!(qt.query_circle(25, 25, 0).is_empty());
    assert_eq!(payloads(&qt.query_circle(25, 25, 1)), vec![0]);
    assert_eq!(payloads(&qt.query_circle(25, 25, 2)), vec![0, 1]);
}

#[test]
fn query_circle_keeps_the_order_of_query_rect() {
    let mut qt = square_tree(1);
    assert!(qt.insert(&Point::new(50, 50, 0)));
    assert!(qt.insert(&Point::new(90, 90, 1)));
    assert!(qt.insert(&Point::new(10, 90, 2)));
    assert!(qt.insert(&Point::new(90, 10, 3)));
    assert!(qt.insert(&Point::new(10, 10, 4)));
    assert_eq!(payloads(&qt.query_circle(50, 50, 60)), vec![0, 4, 3, 2, 1]);
    assert_eq!(payloads(&qt.query_circle(50, 50, 57)), vec![0, 4, 3, 2, 1]);
    assert_eq!(payloads(&qt.query_circle(50, 50, 56)), vec![0]);
    assert_eq!(payloads(&qt.query_circle(10, 50, 41)), vec![0, 4, 2]);
}

#[test]
fn query_circle_with_the_largest_radius() {
    let mut qt: Quadtree<i32> = Quadtree::new(Qrect::new(0, 0, 1000, 1000), 2);
    assert!(qt.insert(&Point::new(-1000, 1000, 0)));
    assert!(qt.insert(&Point::new(1000, -1000, 1)));
    assert_eq!(qt.query_circle(i32::MIN, i32::MAX, u32::MAX).len(), 2);
    assert_eq!(qt.query_circle(i32::MAX, i32::MAX, 1).len(), 0);
}

#[test]
fn results_are_copies() {
    let mut qt: Quadtree<String> = Quadtree::new(Qrect::new(0, 0, 10, 10), 1);
    let source = Point::new(1, 2, String::from("first"));
    assert!(qt.insert(&source));
    assert!(qt.insert(&Point::new(-3, -4, String::from("second"))));
    let mut found = qt.query_rect(&Qrect::new(0, 0, 10, 10));
    assert_eq!(found.len(), 2);
    found[0].data.push_str(" changed");
    found[0].x = 9;
    let again = qt.collect();
    assert_eq!((again[0].x, again[0].y, again[0].data.as_str()), (1, 2, "first"));
    assert_eq!((again[1].x, again[1].y, again[1].data.as_str()), (-3, -4, "second"));
    assert_eq!(source.data, "first");
}

#[test]
fn empty_makes_the_tree_new_again() {
    let mut qt = square_tree(2);
    for i in 0..40 {
        assert!(qt.insert(&Point::new((i * 7) % 101, (i * 11) % 101, i)));
    }
    assert!(qt.get_rects().len() > 1);
    qt.empty();
    assert!(qt.collect().is_empty());
    assert!(qt.query_circle(50, 50, 500).is_empty());
    assert_eq!(qt.get_rects(), vec![Qrect::new(50, 50, 50, 50)]);
    assert!(qt.insert(&Point::new(1, 1, 7)));
    assert!(qt.insert(&Point::new(2, 2, 8)));
    assert_eq!(qt.get_rects().len(), 1);
    assert!(qt.insert(&Point::new(3, 3, 9)));
    assert_eq!(qt.get_rects().len(), 5);
    assert_eq!(payloads(&qt.collect()), vec![7, 8, 9]);
    assert!(!qt.insert(&Point::new(101, 3, 10)));
}

#[test]
fn a_new_tree_is_empty() {
    let qt: Quadtree<bool> = Quadtree::new(Qrect::screen_size(50, 50), 4);
    assert!(qt.collect().is_empty());
    assert!(qt.query_rect(&Qrect::range(25, 25, 100)).is_empty());
    assert_eq!(qt.get_rects(), vec![Qrect::new(25, 25, 25, 25)]);
}

#[test]
fn a_tree_over_a_single_position() {
    let mut qt: Quadtree<i32> = Quadtree::new(Qrect::new(5, 5, 0, 0), 1);
    for i in 0..10 {
        assert!(qt.insert(&Point::new(5, 5, i)));
    }
    assert!(!qt.insert(&Point::new(5, 6, 10)));
    assert_eq!(payloads(&qt.collect()), (0..10).collect::<Vec<i32>>());
    assert_eq!(qt.get_rects().len(), 1 + 4 * 9);
}

#[test]
fn a_tree_over_the_whole_grid() {
    let boundary = Qrect::new(-1, -1, 1 << 31, 1 << 31);
    let mut qt: Quadtree<i32> = Quadtree::new(boundary, 1);
    assert!(qt.insert(&Point::new(i32::MIN, i32::MIN, 0)));
    assert!(qt.insert(&Point::new(i32::MAX, i32::MAX, 1)));
    assert!(qt.insert(&Point::new(i32::MIN, i32::MAX, 2)));
    assert!(qt.insert(&Point::new(i32::MAX, i32::MIN, 3)));
    assert!(qt.insert(&Point::new(0, 0, 4)));
    assert_eq!(qt.collect().len(), 5);
    assert_eq!(payloads(&qt.query_rect(&Qrect::new(i32::MAX, i32::MAX, 0, 0))), vec![1]);
}

#[test]
fn a_clone_is_a_tree_of_its_own() {
    let mut qt = square_tree(2);
    for i in 0..30 {
        assert!(qt.insert(&Point::new((i * 19) % 101, (i * 23) % 101, i)));
    }
    let mut copy = qt.clone();
    assert_eq!(triples(&copy.collect()), triples(&qt.collect()));
    assert_eq!(copy.get_rects(), qt.get_rects());
    assert!(copy.insert(&Point::new(1, 1, 99)));
    assert_eq!(copy.collect().len(), 31);
    assert_eq!(qt.collect().len(), 30);
    qt.empty();
    assert_eq!(copy.collect().len(), 31);
    assert!(!copy.insert(&Point::new(-1, 1, 100)));
}
