use pandemic_sim::simulation::person::{advance, Person};
use pandemic_sim::simulation::space::{Axis, Space, Topology, Vec2};

fn torus() -> Space {
    Space { size_x: 10_000_000, size_y: 10_000_000, topology: Topology::Toroidal }
}

fn walls() -> Space {
    Space { size_x: 10_000_000, size_y: 10_000_000, topology: Topology::Bounded }
}

fn at(x: i64, y: i64) -> Vec2 {
    Vec2 { x, y }
}

#[test]
fn offset_takes_the_short_way_round_a_torus() {
    let space = torus();
    assert_eq!(space.axis_offset(9_900_000, 200_000, 10_000_000), 300_000);
    assert_eq!(space.axis_offset(200_000, 9_900_000, 10_000_000), -300_000);
    assert_eq!(space.axis_offset(1_000_000, 4_000_000, 10_000_000), 3_000_000);
    // at half the box both ways are equally long: the positive one is taken
    assert_eq!(space.axis_offset(0, 5_000_000, 10_000_000), 5_000_000);
    assert_eq!(space.axis_offset(5_000_000, 0, 10_000_000), 5_000_000);
}

#[test]
fn offset_is_the_plain_difference_between_walls() {
    let space = walls();
    assert_eq!(space.axis_offset(9_900_000, 200_000, 10_000_000), -9_700_000);
    assert_eq!(space.axis_offset(i64::MIN, i64::MAX, 10_000_000), u64::MAX as i128);
}

#[test]
fn overlap_is_strictly_below_one_diameter() {
    let space = walls();
    assert!(space.overlap(at(1_000_000, 1_000_000), at(1_999_999, 1_000_000)));
    assert!(!space.overlap(at(1_000_000, 1_000_000), at(2_000_000, 1_000_000)));
    // 0.6 and 0.8 apart: exactly one diameter
    assert!(!space.overlap(at(1_000_000, 1_000_000), at(1_600_000, 1_800_000)));
    assert!(space.overlap(at(1_000_000, 1_000_000), at(1_600_000, 1_799_999)));
    assert!(space.overlap(at(3_000_000, 3_000_000), at(3_000_000, 3_000_000)));
}

#[test]
fn overlap_reaches_across_the_edge_of_a_torus_only() {
    let a = at(200_000, 5_000_000);
    let b = at(9_900_000, 5_000_000);
    assert!(torus().overlap(a, b));
    assert!(torus().overlap(b, a));
    assert!(!walls().overlap(a, b));
}

#[test]
fn person_overlaps_agrees_with_space() {
    let a = Person::new(at(200_000, 9_800_000), at(0, 0));
    let b = Person::new(at(9_900_000, 100_000), at(0, 0));
    assert!(a.overlaps(&b, &torus()));
    assert!(!a.overlaps(&b, &walls()));
}

#[test]
fn coordinate_and_side_follow_the_axis() {
    let p = at(3, 4);
    assert_eq!(p.coordinate(Axis::X), 3);
    assert_eq!(p.coordinate(Axis::Y), 4);
    let space = Space { size_x: 7_000_000, size_y: 9_000_000, topology: Topology::Bounded };
    assert_eq!(space.side(Axis::X), 7_000_000);
    assert_eq!(space.side(Axis::Y), 9_000_000);
}

#[test]
fn advance_scales_the_velocity_by_the_time() {
    assert_eq!(advance(4_500_000, 1_000_000, 50_000), 4_550_000);
    assert_eq!(advance(4_500_000, -1_000_000, 50_000), 4_450_000);
    // a product below one millionth is dropped, whatever its sign
    assert_eq!(advance(10, 19, 50_000), 10);
    assert_eq!(advance(10, -19, 50_000), 10);
    assert_eq!(advance(10, 20, 50_000), 11);
    assert_eq!(advance(10, -20, 50_000), 9);
}

#[test]
fn shift_wraps_to_a_small_positive_coordinate() {
    let space = torus();
    let mut person = Person::new(at(10_000_000 - 10_000, 3_000_000), at(1_000_000, 0));
    person.shift(50_000, &space);
    assert_eq!(person.pos(), at(40_000, 3_000_000));
    assert_eq!(person.vel(), at(1_000_000, 0));
}

#[test]
fn shift_wraps_below_zero_to_the_far_side() {
    let space = torus();
    let mut person = Person::new(at(10_000, 20_000), at(-1_000_000, -2_000_000));
    person.shift(50_000, &space);
    assert_eq!(person.pos(), at(9_960_000, 9_920_000));
}

#[test]
fn shift_wraps_a_long_move_many_times() {
    let space = torus();
    let mut person = Person::new(at(9_990_000, 0), at(1_000_000_000, 0));
    // 1000 units per time for 12.3456 time units: 12345.6 units
    person.shift(12_345_600, &space);
    assert!(person.pos().x >= 0 && person.pos().x < 10_000_000);
    assert_eq!(person.pos().x, (9_990_000i64 + 12_345_600_000) % 10_000_000);
}

#[test]
fn shift_between_walls_does_not_wrap() {
    let space = walls();
    let mut person = Person::new(at(9_990_000, 10_000), at(1_000_000, -1_000_000));
    person.shift(50_000, &space);
    assert_eq!(person.pos(), at(10_040_000, -40_000));
}

#[test]
fn shift_between_walls_saturates() {
    let space = walls();
    let mut person = Person::new(at(i64::MAX - 5, i64::MIN + 5), at(i64::MAX, i64::MIN));
    person.shift(i64::MAX, &space);
    assert_eq!(person.pos(), at(i64::MAX, i64::MIN));
}

#[test]
fn shift_by_zero_time_keeps_the_place() {
    let mut person = Person::new(at(1_234_567, 7_654_321), at(5_000_000, 5_000_000));
    person.shift(0, &torus());
    assert_eq!(person.pos(), at(1_234_567, 7_654_321));
}

#[test]
fn settle_coordinate_wraps_or_saturates() {
    assert_eq!(torus().settle_coordinate(-1, 10_000_000), 9_999_999);
    assert_eq!(torus().settle_coordinate(10_000_000, 10_000_000), 0);
    assert_eq!(walls().settle_coordinate(-1, 10_000_000), -1);
    assert_eq!(walls().settle_coordinate(i128::MAX, 10_000_000), i64::MAX);
}
