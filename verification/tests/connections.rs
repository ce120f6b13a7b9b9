use sm_logic::connection::order::compare_two_vec_pairs;
use sm_logic::connection::{ConnDim, ConnFilter, ConnJoint, ConnMap, ConnStraight, Connection};
use sm_logic::util::{Bounds, Point};
use std::cmp::Ordering;

fn p(x: i32, y: i32, z: i32) -> Point {
    Point::new(x, y, z)
}

fn b(x: u32, y: u32, z: u32) -> Bounds {
    Bounds::new(x, y, z)
}

#[test]
fn straight_truncates_to_the_smaller_box() {
    let pairs = ConnStraight::new().connect(b(5, 1, 1), b(3, 1, 1));
    assert_eq!(
        pairs,
        vec![(p(0, 0, 0), p(0, 0, 0)), (p(1, 0, 0), p(1, 0, 0)), (p(2, 0, 0), p(2, 0, 0))]
    );
}

#[test]
fn straight_walks_x_slowest_and_z_fastest() {
    let pairs = ConnStraight::new().connect(b(2, 2, 2), b(2, 3, 4));
    let starts: Vec<Point> = pairs.iter().map(|pair| pair.0).collect();
    assert_eq!(
        starts,
        vec![
            p(0, 0, 0),
            p(0, 0, 1),
            p(0, 1, 0),
            p(0, 1, 1),
            p(1, 0, 0),
            p(1, 0, 1),
            p(1, 1, 0),
            p(1, 1, 1)
        ]
    );
    assert!(pairs.iter().all(|pair| pair.0 == pair.1));
}

#[test]
fn straight_between_empty_boxes_is_empty() {
    assert_eq!(ConnStraight::new().connect(b(0, 5, 5), b(3, 3, 3)), vec![]);
}

#[test]
fn dim_broadcasts_along_the_adapted_axis() {
    let pairs = ConnDim::new((true, false, false)).connect(b(1, 1, 1), b(4, 1, 1));
    assert_eq!(
        pairs,
        vec![
            (p(0, 0, 0), p(0, 0, 0)),
            (p(0, 0, 0), p(1, 0, 0)),
            (p(0, 0, 0), p(2, 0, 0)),
            (p(0, 0, 0), p(3, 0, 0))
        ]
    );
}

#[test]
fn dim_keeps_the_other_axes_even_outside_the_end_box() {
    // The strategy proposes; whoever applies it checks the bounds.
    let pairs = ConnDim::new((false, true, false)).connect(b(2, 1, 1), b(1, 2, 1));
    assert_eq!(
        pairs,
        vec![
            (p(0, 0, 0), p(0, 0, 0)),
            (p(0, 0, 0), p(0, 1, 0)),
            (p(1, 0, 0), p(1, 0, 0)),
            (p(1, 0, 0), p(1, 1, 0))
        ]
    );
}

#[test]
fn map_drops_points_without_image() {
    let shift = ConnMap::new(|point: Point, _start: Bounds, end: Bounds| {
        if point.x + 1 < end.x as i32 {
            Some(Point::new(point.x + 1, point.y, point.z))
        } else {
            None
        }
    });
    let pairs = shift.connect(b(3, 1, 1), b(3, 1, 1));
    assert_eq!(pairs, vec![(p(0, 0, 0), p(1, 0, 0)), (p(1, 0, 0), p(2, 0, 0))]);
}

#[test]
fn filter_keeps_what_the_function_accepts() {
    let even = ConnFilter::new(ConnStraight::new(), |start: &Point, _end: &Point| start.x % 2 == 0);
    let pairs = even.connect(b(4, 1, 1), b(4, 1, 1));
    assert_eq!(pairs, vec![(p(0, 0, 0), p(0, 0, 0)), (p(2, 0, 0), p(2, 0, 0))]);
}

#[test]
fn chain_threads_pairs_through_its_steps() {
    let double = ConnMap::new(|point: Point, _s: Bounds, _e: Bounds| {
        Some(Point::new(point.x * 2, point.y, point.z))
    });
    let chain = ConnStraight::new().chain(None, double);
    let pairs = chain.connect(b(3, 1, 1), b(4, 1, 1));
    // 2 -> 4 falls outside the end box and is dropped.
    assert_eq!(pairs, vec![(p(0, 0, 0), p(0, 0, 0)), (p(1, 0, 0), p(2, 0, 0))]);
}

#[test]
fn chain_uses_the_declared_bounds_in_between() {
    let up = ConnMap::new(|point: Point, _s: Bounds, _e: Bounds| {
        Some(Point::new(point.x + 5, point.y, point.z))
    });
    let down = ConnMap::new(|point: Point, _s: Bounds, _e: Bounds| {
        Some(Point::new(point.x - 5, point.y, point.z))
    });
    // Without room in between, nothing gets through the first step.
    let narrow = ConnJoint::new(ConnMap::new(|point: Point, _s: Bounds, _e: Bounds| {
        Some(Point::new(point.x + 5, point.y, point.z))
    }))
    .chain(
        None,
        ConnMap::new(|point: Point, _s: Bounds, _e: Bounds| {
            Some(Point::new(point.x - 5, point.y, point.z))
        }),
    );
    assert_eq!(narrow.connect(b(2, 1, 1), b(2, 1, 1)), vec![]);

    let wide = ConnJoint::new(up).chain(Some(b(10, 1, 1)), down);
    // The second step walks the points of the box in between: 5 and 6 are
    // the only ones that the first step reached.
    assert_eq!(
        wide.connect(b(2, 1, 1), b(2, 1, 1)),
        vec![(p(0, 0, 0), p(0, 0, 0)), (p(1, 0, 0), p(1, 0, 0))]
    );
}

#[test]
fn chain_sorts_and_removes_repeated_pairs() {
    let fan = ConnDim::new((true, false, false));
    let gather = ConnMap::new(|point: Point, _s: Bounds, _e: Bounds| {
        Some(Point::new(0, point.y, point.z))
    });
    let chain = fan.chain(Some(b(3, 1, 1)), gather);
    let pairs = chain.connect(b(2, 1, 1), b(1, 1, 1));
    assert_eq!(pairs, vec![(p(0, 0, 0), p(0, 0, 0)), (p(1, 0, 0), p(0, 0, 0))]);
}

#[test]
fn chain_of_a_chain_adds_a_step() {
    let chain = ConnStraight::new().chain(None, ConnStraight::new()).chain(None, ConnStraight::new());
    match chain {
        Connection::Joint(joint) => assert_eq!(joint.connections.len(), 3),
        _ => panic!("a chain was expected"),
    }
}

#[test]
fn pairs_are_ordered_by_start_and_then_by_end() {
    let a = (p(0, 0, 0), p(5, 5, 5));
    let c = (p(0, 0, 1), p(0, 0, 0));
    let d = (p(0, 0, 1), p(0, 1, 0));
    assert_eq!(compare_two_vec_pairs(&a, &c), Ordering::Less);
    assert_eq!(compare_two_vec_pairs(&c, &a), Ordering::Greater);
    assert_eq!(compare_two_vec_pairs(&c, &d), Ordering::Less);
    assert_eq!(compare_two_vec_pairs(&d, &d), Ordering::Equal);
    assert_eq!(compare_two_vec_pairs(&(p(-1, 9, 9), p(0, 0, 0)), &a), Ordering::Less);
}

#[test]
fn chain_pairs_come_in_rising_order() {
    // Every point of the start is sent to every point of a row of three,
    // and every point of that row to every point of the end.
    let fan = ConnDim::new((true, false, false));
    let chain = fan.chain(Some(b(3, 1, 1)), ConnDim::new((true, false, false)));
    let pairs = chain.connect(b(2, 1, 1), b(2, 1, 1));
    assert_eq!(
        pairs,
        vec![
            (p(0, 0, 0), p(0, 0, 0)),
            (p(0, 0, 0), p(1, 0, 0)),
            (p(1, 0, 0), p(0, 0, 0)),
            (p(1, 0, 0), p(1, 0, 0)),
        ]
    );
    for i in 1..pairs.len() {
        assert!(compare_two_vec_pairs(&pairs[i - 1], &pairs[i]) == std::cmp::Ordering::Less);
    }
}
