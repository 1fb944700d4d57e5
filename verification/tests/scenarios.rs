use battle_space::{BattleSpace, QueryError, Vec2};

/// Grid units in one unit of length.
const UNITS: f64 = 1000.0;

fn to_grid(length: f64) -> i32 {
    (length * UNITS).round() as i32
}

fn to_length_squared(distance: i128) -> f64 {
    distance as f64 / (UNITS * UNITS)
}

fn at(x: f64, y: f64) -> Vec2 {
    Vec2::new(to_grid(x), to_grid(y))
}

fn four_points() -> BattleSpace {
    BattleSpace::new(vec![at(0.0, 0.0), at(1.0, 2.0), at(5.0, 5.0), at(0.5, 0.5)])
}

#[test]
fn nearest_of_the_first_point_is_the_fourth() {
    let mut space = four_points();
    space.calculate_distance_matrix();
    let found = space.find_nearest_point(0);
    assert_eq!(found, Ok(Some((3, 500_000))));
    let (_, distance) = found.unwrap().unwrap();
    assert_eq!(to_length_squared(distance), 0.5);
    assert!((to_length_squared(distance).sqrt() - 0.7071).abs() < 0.0001);
}

#[test]
fn nearest_changes_after_a_move_and_recomputation() {
    let mut space = four_points();
    space.calculate_distance_matrix();
    assert_eq!(space.find_nearest_point(0), Ok(Some((3, 500_000))));

    space.move_point(to_grid(10.0), to_grid(10.0), 3);
    assert_eq!(space.find_nearest_point(0), Err(QueryError::MatrixNotComputed));

    space.calculate_distance_matrix();
    let found = space.find_nearest_point(0);
    assert_eq!(found, Ok(Some((1, 5_000_000))));
    let (_, distance) = found.unwrap().unwrap();
    assert_eq!(to_length_squared(distance), 5.0);
    assert!((to_length_squared(distance).sqrt() - 2.236).abs() < 0.001);
    assert_eq!(space.cached_distance(0, 3), Some(2 * 10_500 * 10_500));
}

#[test]
fn lower_index_wins_a_tie() {
    let mut space = BattleSpace::new(vec![at(0.0, 0.0), at(3.0, 0.0), at(0.0, 1.0), at(1.0, 0.0), at(-1.0, 0.0)]);
    space.calculate_distance_matrix();
    assert_eq!(space.find_nearest_point(0), Ok(Some((2, 1_000_000))));
}

#[test]
fn lower_index_wins_a_tie_behind_the_target() {
    let mut space = BattleSpace::new(vec![at(2.0, 0.0), at(0.0, 2.0), at(0.0, 0.0), at(-2.0, 0.0)]);
    space.calculate_distance_matrix();
    assert_eq!(space.find_nearest_point(2), Ok(Some((0, 4_000_000))));
    assert_eq!(space.find_nearest_point(0), Ok(Some((2, 4_000_000))));
}

#[test]
fn later_point_wins_only_where_it_is_closer() {
    let mut space = BattleSpace::new(vec![at(0.0, 0.0), at(0.0, 1.0), at(0.0, -0.999)]);
    space.calculate_distance_matrix();
    assert_eq!(space.find_nearest_point(0), Ok(Some((2, 998_001))));
}
