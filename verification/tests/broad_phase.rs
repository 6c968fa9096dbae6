use engine::math::fixed_point::FixedPoint;
use engine::math::vec2::Vec2;
use engine::physics::broad_phase::{SpatialHash, SweepAndPrune};
use engine::physics::collision::AABB;

fn fx(n: i32) -> FixedPoint {
    FixedPoint::from_int(n)
}

fn boxed(x0: i32, y0: i32, x1: i32, y1: i32) -> AABB {
    AABB::new(Vec2::new(fx(x0), fx(y0)), Vec2::new(fx(x1), fx(y1)))
}

#[test]
fn shapes_in_far_apart_cells_make_no_pair() {
    let mut grid = SpatialHash::new(fx(10));
    grid.insert(1, &boxed(0, 0, 1, 1));
    grid.insert(2, &boxed(1000, 1000, 1001, 1001));
    assert!(grid.get_pairs().is_empty());
}

#[test]
fn shapes_in_the_same_cell_make_exactly_one_pair() {
    let mut grid = SpatialHash::new(fx(10));
    grid.insert(1, &boxed(0, 0, 1, 1));
    grid.insert(2, &boxed(2, 2, 3, 3));
    assert_eq!(grid.get_pairs(), vec![(1, 2)]);
}

#[test]
fn a_pair_that_shares_several_cells_is_listed_once() {
    let mut grid = SpatialHash::new(fx(10));
    grid.insert(7, &boxed(0, 0, 25, 25));
    grid.insert(3, &boxed(5, 5, 35, 15));
    assert_eq!(grid.get_pairs(), vec![(3, 7)]);
}

#[test]
fn pairs_come_sorted_with_the_smaller_id_first() {
    let mut grid = SpatialHash::new(fx(10));
    grid.insert(9, &boxed(0, 0, 1, 1));
    grid.insert(4, &boxed(1, 1, 2, 2));
    grid.insert(6, &boxed(2, 2, 3, 3));
    grid.insert(1, &boxed(100, 100, 101, 101));
    grid.insert(0, &boxed(105, 105, 106, 106));
    assert_eq!(grid.get_pairs(), vec![(0, 1), (4, 6), (4, 9), (6, 9)]);
}

#[test]
fn an_id_inserted_twice_pairs_with_itself() {
    let mut grid = SpatialHash::new(fx(10));
    grid.insert(5, &boxed(0, 0, 1, 1));
    grid.insert(5, &boxed(2, 2, 3, 3));
    assert_eq!(grid.get_pairs(), vec![(5, 5)]);
}

#[test]
fn cells_are_found_by_rounding_down() {
    let mut grid = SpatialHash::new(fx(10));
    grid.insert(1, &boxed(-1, -1, -1, -1));
    grid.insert(2, &boxed(0, 0, 0, 0));
    assert!(grid.get_pairs().is_empty());
    grid.insert(3, &boxed(-10, -10, -9, -9));
    assert_eq!(grid.get_pairs(), vec![(1, 3)]);
    // 9.99.. and 10 lie in different cells
    grid.clear();
    grid.insert(1, &AABB::new(
        Vec2::new(FixedPoint::from_raw(10 * 65536 - 1), fx(0)),
        Vec2::new(FixedPoint::from_raw(10 * 65536 - 1), fx(0)),
    ));
    grid.insert(2, &boxed(10, 0, 10, 0));
    assert!(grid.get_pairs().is_empty());
}

#[test]
fn query_lists_each_id_once_in_ascending_order() {
    let mut grid = SpatialHash::new(fx(10));
    grid.insert(8, &boxed(0, 0, 25, 5));
    grid.insert(2, &boxed(12, 0, 13, 1));
    grid.insert(5, &boxed(50, 50, 51, 51));
    assert_eq!(grid.query(&boxed(0, 0, 29, 9)), vec![2, 8]);
    assert_eq!(grid.query(&boxed(20, 0, 21, 1)), vec![8]);
    assert_eq!(grid.query(&boxed(45, 45, 55, 55)), vec![5]);
    assert!(grid.query(&boxed(200, 200, 201, 201)).is_empty());
    // a box whose corners are the wrong way round covers no cell
    assert!(grid.query(&boxed(29, 9, 0, 0)).is_empty());
}

#[test]
fn clear_empties_every_cell() {
    let mut grid = SpatialHash::new(fx(10));
    grid.insert(1, &boxed(0, 0, 1, 1));
    grid.insert(2, &boxed(0, 0, 1, 1));
    grid.clear();
    assert!(grid.get_pairs().is_empty());
    assert!(grid.query(&boxed(0, 0, 1, 1)).is_empty());
    grid.insert(3, &boxed(0, 0, 1, 1));
    assert_eq!(grid.query(&boxed(0, 0, 1, 1)), vec![3]);
}

#[test]
fn a_cell_size_that_is_not_positive_becomes_the_smallest() {
    let mut grid = SpatialHash::new(fx(0));
    let point = AABB::new(
        Vec2::new(FixedPoint::from_raw(3), FixedPoint::from_raw(3)),
        Vec2::new(FixedPoint::from_raw(3), FixedPoint::from_raw(3)),
    );
    let next = AABB::new(
        Vec2::new(FixedPoint::from_raw(4), FixedPoint::from_raw(3)),
        Vec2::new(FixedPoint::from_raw(4), FixedPoint::from_raw(3)),
    );
    grid.insert(1, &point);
    grid.insert(2, &next);
    assert!(grid.get_pairs().is_empty());
    grid.insert(3, &point);
    assert_eq!(grid.get_pairs(), vec![(1, 3)]);
    let mut negative = SpatialHash::new(fx(-5));
    negative.insert(1, &point);
    negative.insert(2, &point);
    assert_eq!(negative.get_pairs(), vec![(1, 2)]);
}

#[test]
fn sweep_reports_intervals_that_overlap_on_x() {
    let mut sweep = SweepAndPrune::new();
    sweep.update(&[(0, boxed(0, 0, 10, 1)), (1, boxed(5, 50, 15, 51)), (2, boxed(20, 0, 30, 1))]);
    assert_eq!(sweep.get_pairs(), vec![(0, 1)]);
}

#[test]
fn sweep_reports_in_the_order_of_the_lower_ends() {
    let mut sweep = SweepAndPrune::new();
    sweep.update(&[
        (3, boxed(4, 0, 30, 1)),
        (1, boxed(0, 0, 10, 1)),
        (2, boxed(5, 0, 6, 1)),
        (0, boxed(8, 0, 40, 1)),
    ]);
    assert_eq!(sweep.get_pairs(), vec![(1, 3), (1, 2), (2, 3), (0, 1), (0, 3)]);
}

#[test]
fn sweep_of_touching_intervals_depends_on_their_order() {
    // the upper end of the first box is met before the lower end of the second
    let mut sweep = SweepAndPrune::new();
    sweep.update(&[(0, boxed(0, 0, 10, 1)), (1, boxed(10, 0, 20, 1))]);
    assert!(sweep.get_pairs().is_empty());
    sweep.update(&[(1, boxed(10, 0, 20, 1)), (0, boxed(0, 0, 10, 1))]);
    assert_eq!(sweep.get_pairs(), vec![(0, 1)]);
}

#[test]
fn sweep_update_replaces_the_endpoints() {
    let mut sweep = SweepAndPrune::default();
    assert!(sweep.get_pairs().is_empty());
    sweep.update(&[(0, boxed(0, 0, 10, 1)), (1, boxed(5, 0, 15, 1))]);
    assert_eq!(sweep.get_pairs().len(), 1);
    sweep.update(&[(0, boxed(0, 0, 10, 1))]);
    assert!(sweep.get_pairs().is_empty());
    sweep.update(&[]);
    assert!(sweep.get_pairs().is_empty());
}

#[test]
fn both_broad_phases_find_every_overlapping_pair() {
    let boxes = [
        (0usize, boxed(0, 0, 12, 12)),
        (1, boxed(10, 10, 20, 20)),
        (2, boxed(18, 0, 25, 11)),
        (3, boxed(100, 100, 110, 110)),
        (4, boxed(-5, -5, 1, 1)),
    ];
    let mut grid = SpatialHash::new(fx(16));
    for (id, aabb) in boxes.iter() {
        grid.insert(*id, aabb);
    }
    let mut sweep = SweepAndPrune::new();
    sweep.update(&boxes);
    let from_grid = grid.get_pairs();
    let from_sweep = sweep.get_pairs();
    for (i, a) in boxes.iter() {
        for (j, b) in boxes.iter() {
            if i < j && a.intersects(b) {
                assert!(from_grid.contains(&(*i, *j)));
                assert!(from_sweep.contains(&(*i, *j)));
            }
        }
    }
}

#[test]
fn sweep_reports_each_pair_once_with_the_smaller_id_first() {
    let mut sweep = SweepAndPrune::new();
    let boxes: Vec<(usize, AABB)> =
        (0..12).map(|i| (11 - i, boxed((i as i32) * 3, 0, (i as i32) * 3 + 10, 1))).collect();
    sweep.update(&boxes);
    let pairs = sweep.get_pairs();
    assert_eq!(pairs.len(), 11 + 10 + 9);
    for (k, pair) in pairs.iter().enumerate() {
        assert!(pair.0 < pair.1);
        assert!(!pairs[..k].contains(pair));
    }
}
