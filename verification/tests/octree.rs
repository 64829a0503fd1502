use rust_bvh::{
    Bounded2D, BoundingBox, Bounds, DrawStep, OctreeNode, Pos2, Range, Triangle,
    MAX_ITEMS_PER_NODE,
};

fn quad_rect(x0: i64, x1: i64, y0: i64, y1: i64) -> Bounds {
    Bounds { x: Range { min: x0, max: x1 }, y: Range { min: y0, max: y1 } }
}

fn point_like(x: i64, y: i64) -> Triangle<Pos2> {
    Triangle::new(Pos2 { x, y }, Pos2 { x, y }, Pos2 { x, y })
}

fn corners(t: &Triangle<Pos2>) -> [(i64, i64); 3] {
    [(t.v1.x, t.v1.y), (t.v2.x, t.v2.y), (t.v3.x, t.v3.y)]
}

/// Points on a line, all different.
fn quad_row(n: usize) -> Vec<Pos2> {
    (0..n).map(|i| Pos2 { x: i as i64, y: 2 * i as i64 }).collect()
}

fn quad_scatter(n: usize, seed: u64) -> Vec<Pos2> {
    let mut state = seed;
    let mut next = move || {
        state = state.wrapping_mul(6364136223846793005).wrapping_add(1442695040888963407);
        ((state >> 33) % 2001) as i64 - 1000
    };
    (0..n).map(|_| Pos2 { x: next(), y: next() }).collect()
}

fn quad_collect<T: Bounded2D + Clone>(node: &OctreeNode<T>, out: &mut Vec<T>) {
    out.extend(node.items.iter().cloned());
    if let Some(quads) = &node.children {
        quad_collect(&quads.top_left, out);
        quad_collect(&quads.bottom_left, out);
        quad_collect(&quads.top_right, out);
        quad_collect(&quads.bottom_right, out);
    }
}

fn quad_check_nodes(node: &OctreeNode<Pos2>, threshold: usize) -> usize {
    let mut all = Vec::new();
    quad_collect(node, &mut all);
    assert_eq!(node.bounds, BoundingBox::from_items(&all));
    assert_eq!(node.bounding_box_recursive(), node.bounds);
    match &node.children {
        None => {
            let point = match node.bounds {
                BoundingBox::Empty => true,
                BoundingBox::Valid(b) => b.x.size() == 0 && b.y.size() == 0,
            };
            assert!(node.items.len() <= threshold || point);
            0
        }
        Some(quads) => {
            assert!(all.len() > threshold);
            let rect = match node.bounds {
                BoundingBox::Valid(rect) => rect,
                BoundingBox::Empty => panic!("a divided node has bounds"),
            };
            let (mx, my) = (rect.x.twice_midpoint(), rect.y.twice_midpoint());
            for p in &node.items {
                let (x, y) = (2 * p.x as i128, 2 * p.y as i128);
                assert!(!(x < mx || x >= mx) || !(y < my || y >= my));
            }
            let mut below = Vec::new();
            quad_collect(&quads.top_left, &mut below);
            assert!(below.iter().all(|p| 2 * (p.x as i128) < mx && 2 * (p.y as i128) < my));
            below.clear();
            quad_collect(&quads.bottom_left, &mut below);
            assert!(below.iter().all(|p| 2 * (p.x as i128) < mx && 2 * (p.y as i128) >= my));
            below.clear();
            quad_collect(&quads.top_right, &mut below);
            assert!(below.iter().all(|p| 2 * (p.x as i128) >= mx && 2 * (p.y as i128) < my));
            below.clear();
            quad_collect(&quads.bottom_right, &mut below);
            assert!(below.iter().all(|p| 2 * (p.x as i128) >= mx && 2 * (p.y as i128) >= my));
            1 + [&quads.top_left, &quads.bottom_left, &quads.top_right, &quads.bottom_right]
                .iter()
                .map(|q| quad_check_nodes(q, threshold))
                .max()
                .unwrap()
        }
    }
}

#[test]
fn quad_threshold_is_thirty_two() {
    assert_eq!(MAX_ITEMS_PER_NODE, 32);
}

#[test]
fn quad_of_nothing_is_a_leaf_without_bounds() {
    let root = OctreeNode::new(Vec::<Pos2>::new());
    assert_eq!(root.bounds, BoundingBox::Empty);
    assert!(root.items.is_empty());
    assert!(root.children.is_none());
    assert_eq!(root.bounding_box_recursive(), BoundingBox::Empty);
}

#[test]
fn quad_of_thirty_two_items_is_a_leaf() {
    let items = quad_row(32);
    let root = OctreeNode::new(items.clone());
    assert!(root.children.is_none());
    assert_eq!(root.items, items);
    assert_eq!(root.bounds, BoundingBox::Valid(quad_rect(0, 31, 0, 62)));
}

#[test]
fn quad_of_thirty_three_items_is_divided() {
    let items = quad_row(33);
    let root = OctreeNode::new(items.clone());
    let quads = root.children.as_ref().expect("33 items are divided");
    assert_eq!(root.bounds, BoundingBox::Valid(quad_rect(0, 32, 0, 64)));
    // the midpoint is (16, 32): points 0..16 lie top left, points 16..33 bottom right
    assert!(root.items.is_empty());
    assert_eq!(quads.top_left.items, items[..16].to_vec());
    assert_eq!(quads.bottom_right.items, items[16..].to_vec());
    assert!(quads.bottom_left.items.is_empty());
    assert!(quads.top_right.items.is_empty());
    assert!(quads.top_left.children.is_none());
    assert!(quads.bottom_right.children.is_none());
    assert_eq!(quads.bottom_left.bounds, BoundingBox::Empty);
    assert_eq!(quads.top_left.bounds, BoundingBox::Valid(quad_rect(0, 15, 0, 30)));
    assert_eq!(quads.bottom_right.bounds, BoundingBox::Valid(quad_rect(16, 32, 32, 64)));
}

#[test]
fn quad_end_to_end_corners_and_cluster() {
    let mut items = vec![point_like(0, 0), point_like(10, 0), point_like(0, 10), point_like(10, 10)];
    for i in 0..29 {
        let d = 1 + (i % 3) as i64;
        items.push(Triangle::new(
            Pos2 { x: 5 - d, y: 5 - d },
            Pos2 { x: 5 + d, y: 5 - d },
            Pos2 { x: 5, y: 5 + d },
        ));
    }
    assert_eq!(items.len(), 33);
    let root = OctreeNode::new(items);
    assert_eq!(root.bounds, BoundingBox::Valid(quad_rect(0, 10, 0, 10)));
    let quads = root.children.as_ref().expect("the root is divided");
    assert_eq!(root.items.len(), 29);
    for t in &root.items {
        let b = t.bounds();
        assert!(b.x.min < 5 && 5 <= b.x.max && b.y.min < 5 && 5 <= b.y.max);
    }
    assert_eq!(quads.top_left.items.len(), 1);
    assert_eq!(corners(&quads.top_left.items[0]), [(0, 0); 3]);
    assert_eq!(quads.top_right.items.len(), 1);
    assert_eq!(corners(&quads.top_right.items[0]), [(10, 0); 3]);
    assert_eq!(quads.bottom_left.items.len(), 1);
    assert_eq!(corners(&quads.bottom_left.items[0]), [(0, 10); 3]);
    assert_eq!(quads.bottom_right.items.len(), 1);
    assert_eq!(corners(&quads.bottom_right.items[0]), [(10, 10); 3]);
    for q in [&quads.top_left, &quads.top_right, &quads.bottom_left, &quads.bottom_right] {
        assert!(q.children.is_none());
    }
}

#[test]
fn quad_crossing_item_stays_wherever_it_stands() {
    let crossing = Triangle::new(Pos2 { x: 4, y: 0 }, Pos2 { x: 5, y: 0 }, Pos2 { x: 5, y: 1 });
    for at in [0usize, 1, 2, 3, 4] {
        let mut items = vec![point_like(0, 0), point_like(10, 0), point_like(0, 10), point_like(10, 10)];
        items.insert(at, Triangle::new(crossing.v1, crossing.v2, crossing.v3));
        let root = OctreeNode::with_threshold(items, 4);
        let quads = root.children.as_ref().expect("five items are divided");
        assert_eq!(root.items.len(), 1);
        assert_eq!(corners(&root.items[0]), corners(&crossing));
        assert_eq!(quads.top_left.items.len(), 1);
        assert_eq!(quads.top_right.items.len(), 1);
        assert_eq!(quads.bottom_left.items.len(), 1);
        assert_eq!(quads.bottom_right.items.len(), 1);
    }
}

#[test]
fn quad_item_on_the_midpoint_goes_to_the_greater_side() {
    let items = vec![Pos2 { x: 0, y: 0 }, Pos2 { x: 10, y: 10 }, Pos2 { x: 5, y: 5 }, Pos2 { x: 5, y: 4 }, Pos2 { x: 4, y: 5 }];
    let root = OctreeNode::with_threshold(items, 2);
    let quads = root.children.as_ref().unwrap();
    assert!(root.items.is_empty());
    assert_eq!(quads.top_left.items, vec![Pos2 { x: 0, y: 0 }]);
    assert_eq!(quads.bottom_left.items, vec![Pos2 { x: 4, y: 5 }]);
    assert_eq!(quads.top_right.items, vec![Pos2 { x: 5, y: 4 }]);
    assert_eq!(quads.bottom_right.items, vec![Pos2 { x: 10, y: 10 }, Pos2 { x: 5, y: 5 }]);
}

#[test]
fn quad_midpoint_between_grid_lines_parts_neighbours() {
    let items = vec![(0i64, 0i64), (1, 1), (0, 1), (1, 0)];
    let root = OctreeNode::with_threshold(items, 1);
    let quads = root.children.as_ref().unwrap();
    assert!(root.items.is_empty());
    assert_eq!(quads.top_left.items, vec![(0, 0)]);
    assert_eq!(quads.bottom_left.items, vec![(0, 1)]);
    assert_eq!(quads.top_right.items, vec![(1, 0)]);
    assert_eq!(quads.bottom_right.items, vec![(1, 1)]);
}

#[test]
fn quad_of_many_equal_points_is_a_leaf() {
    let items = vec![Pos2 { x: 3, y: 3 }; 100];
    let root = OctreeNode::new(items.clone());
    assert!(root.children.is_none());
    assert_eq!(root.items, items);
    assert_eq!(root.bounds, BoundingBox::Valid(quad_rect(3, 3, 3, 3)));
}

#[test]
fn quad_of_equal_points_and_one_other_ends() {
    let mut items = vec![Pos2 { x: 0, y: 0 }; 40];
    items.push(Pos2 { x: 10, y: 10 });
    let root = OctreeNode::new(items);
    let quads = root.children.as_ref().unwrap();
    assert_eq!(quads.top_left.items.len(), 40);
    assert!(quads.top_left.children.is_none());
    assert_eq!(quads.bottom_right.items, vec![Pos2 { x: 10, y: 10 }]);
}

#[test]
fn quad_of_collinear_points_is_divided_along_the_line() {
    let items: Vec<Pos2> = (0..40).map(|i| Pos2 { x: i, y: 7 }).collect();
    let root = OctreeNode::new(items.clone());
    let quads = root.children.as_ref().unwrap();
    // all second coordinates are at the midpoint 7: bottom; the first are parted at 19.5
    assert_eq!(quads.bottom_left.items, items[..20].to_vec());
    assert_eq!(quads.bottom_right.items, items[20..].to_vec());
    assert!(quads.top_left.items.is_empty() && quads.top_right.items.is_empty());
    assert_eq!(quad_check_nodes(&root, 32), 1);
}

#[test]
fn quad_holds_each_item_once() {
    for (n, threshold) in [(0usize, 32usize), (1, 32), (33, 32), (500, 32), (500, 3), (200, 0)] {
        let items = quad_scatter(n, 7 + n as u64);
        let root = OctreeNode::with_threshold(items.clone(), threshold);
        let mut found = Vec::new();
        quad_collect(&root, &mut found);
        let key = |p: &Pos2| (p.x, p.y);
        let mut expected = items.clone();
        expected.sort_by_key(key);
        found.sort_by_key(key);
        assert_eq!(found, expected);
        let height = quad_check_nodes(&root, threshold);
        assert!(height <= n);
    }
}

#[test]
fn quad_bounds_are_the_bounds_of_all_items() {
    let items = quad_scatter(300, 99);
    let direct = BoundingBox::from_items(&items);
    let mut reversed = items.clone();
    reversed.reverse();
    assert_eq!(BoundingBox::from_items(&reversed), direct);
    let root = OctreeNode::new(items);
    assert_eq!(root.bounds, direct);
    assert_eq!(root.bounding_box_recursive(), direct);
}

#[test]
fn quad_recursive_bounds_are_the_same_at_each_call() {
    let root = OctreeNode::new(quad_scatter(120, 5));
    let first = root.bounding_box_recursive();
    let second = root.bounding_box_recursive();
    assert_eq!(first, second);
    assert!(matches!(first, BoundingBox::Valid(_)));
}

#[test]
fn quad_is_drawn_node_first_then_quadrants_in_order() {
    let items = vec![
        Triangle::new(Pos2 { x: 0, y: 0 }, Pos2 { x: 10, y: 0 }, Pos2 { x: 0, y: 10 }),
        point_like(10, 10),
        point_like(1, 1),
        point_like(9, 1),
        point_like(1, 9),
    ];
    let root = OctreeNode::with_threshold(items, 2);
    let steps = root.draw_recursive(0);
    let told: Vec<String> = steps
        .iter()
        .map(|s| match s {
            DrawStep::Outline { bounds, depth } => format!(
                "box {} {} {} {} at {}",
                bounds.x.min, bounds.x.max, bounds.y.min, bounds.y.max, depth
            ),
            DrawStep::Item { item, depth } => format!("item {} {} at {}", item.v1.x, item.v1.y, depth),
            DrawStep::SplitLine { .. } => panic!("a quad tree has no split lines"),
        })
        .collect();
    assert_eq!(
        told,
        vec![
            "box 0 10 0 10 at 0",
            "item 0 0 at 0",
            "box 1 1 1 1 at 1",
            "item 1 1 at 1",
            "box 1 1 9 9 at 1",
            "item 1 9 at 1",
            "box 9 9 1 1 at 1",
            "item 9 1 at 1",
            "box 10 10 10 10 at 1",
            "item 10 10 at 1",
        ]
    );
    let deeper = root.draw_recursive(3);
    assert!(matches!(deeper[0], DrawStep::Outline { depth: 3, .. }));
    assert!(matches!(deeper[2], DrawStep::Outline { depth: 4, .. }));
}
