use battle_space::Vec2;

#[test]
fn new_keeps_the_coordinates() {
    let p = Vec2::new(3, -7);
    assert_eq!(p.x(), 3);
    assert_eq!(p.y(), -7);
}

#[test]
fn new_accepts_the_ends_of_the_range() {
    let p = Vec2::new(i32::MIN, i32::MAX);
    assert_eq!(p.x(), i32::MIN);
    assert_eq!(p.y(), i32::MAX);
}

#[test]
fn move_point_adds_the_deltas() {
    let mut p = Vec2::new(1, 2);
    p.move_point(10, -20);
    assert_eq!((p.x(), p.y()), (11, -18));
    p.move_point(0, 0);
    assert_eq!((p.x(), p.y()), (11, -18));
}

#[test]
fn move_point_stops_at_the_upper_end() {
    let mut p = Vec2::new(i32::MAX - 1, 5);
    p.move_point(2, 1);
    assert_eq!((p.x(), p.y()), (i32::MAX, 6));
    p.move_point(i32::MAX, i32::MAX);
    assert_eq!((p.x(), p.y()), (i32::MAX, i32::MAX));
}

#[test]
fn move_point_stops_at_the_lower_end() {
    let mut p = Vec2::new(i32::MIN + 3, -1);
    p.move_point(-4, i32::MIN);
    assert_eq!((p.x(), p.y()), (i32::MIN, i32::MIN));
}

#[test]
fn move_point_reaches_the_ends_exactly() {
    let mut p = Vec2::new(i32::MAX - 1, i32::MIN + 1);
    p.move_point(1, -1);
    assert_eq!((p.x(), p.y()), (i32::MAX, i32::MIN));
}

#[test]
fn distance_is_the_sum_of_the_squares() {
    let a = Vec2::new(0, 0);
    let b = Vec2::new(3, 4);
    assert_eq!(a.distance2powi(&b), 25);
    let c = Vec2::new(-2, 7);
    let d = Vec2::new(4, -1);
    assert_eq!(c.distance2powi(&d), 36 + 64);
}

#[test]
fn distance_of_coincident_points_is_zero() {
    let a = Vec2::new(17, -23);
    let b = Vec2::new(17, -23);
    assert_eq!(a.distance2powi(&b), 0);
    assert_eq!(a.distance2powi(&a), 0);
}

#[test]
fn distance_of_distinct_points_is_positive() {
    let a = Vec2::new(17, -23);
    assert!(a.distance2powi(&Vec2::new(18, -23)) > 0);
    assert!(a.distance2powi(&Vec2::new(17, -24)) > 0);
    assert_eq!(a.distance2powi(&Vec2::new(18, -23)), 1);
}

#[test]
fn distance_is_symmetric() {
    let a = Vec2::new(-5, 12);
    let b = Vec2::new(9, -3);
    assert_eq!(a.distance2powi(&b), b.distance2powi(&a));
    assert_eq!(a.distance2powi(&b), 196 + 225);
}

#[test]
fn distance_across_the_whole_range_is_exact() {
    let a = Vec2::new(i32::MIN, i32::MIN);
    let b = Vec2::new(i32::MAX, i32::MAX);
    let side: i128 = (1i128 << 32) - 1;
    assert_eq!(a.distance2powi(&b), 2 * side * side);
    assert_eq!(a.distance2powi(&b), 36_893_488_130_239_234_050);
}

#[test]
fn distance_is_unchanged_by_a_common_move() {
    let mut a = Vec2::new(-5, 12);
    let mut b = Vec2::new(9, -3);
    let before = a.distance2powi(&b);
    a.move_point(1000, -2000);
    b.move_point(1000, -2000);
    assert_eq!(a.distance2powi(&b), before);
    assert_eq!(before, 421);
}

#[test]
fn distance_changes_where_a_move_is_stopped() {
    let mut a = Vec2::new(i32::MAX, 0);
    let mut b = Vec2::new(0, 0);
    let before = a.distance2powi(&b);
    a.move_point(1, 0);
    b.move_point(1, 0);
    let side = i32::MAX as i128;
    assert_eq!(before, side * side);
    assert_eq!(a.distance2powi(&b), (side - 1) * (side - 1));
}

#[test]
fn copies_are_independent() {
    let a = Vec2::new(1, 1);
    let mut b = a;
    b.move_point(1, 1);
    assert_eq!((a.x(), a.y()), (1, 1));
    assert_eq!((b.x(), b.y()), (2, 2));
}
