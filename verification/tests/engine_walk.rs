use wilson::engine::show::ads_offset;
use wilson::engine::walk::turn_increment;

#[test]
fn turn_increment_picks_shortest_rotation() {
    assert_eq!(turn_increment(0, 0), 0);
    assert_eq!(turn_increment(1, 0), 1);
    assert_eq!(turn_increment(7, 0), -1);
    assert_eq!(turn_increment(4, 0), -1);
    assert_eq!(turn_increment(5, 0), -1);
    assert_eq!(turn_increment(3, 0), 1);
}

#[test]
fn turn_increment_wraps_around_the_compass() {
    assert_eq!(turn_increment(0, 7), 1);
    assert_eq!(turn_increment(7, 1), -1);
    assert_eq!(turn_increment(9, 1), 0);
    assert_eq!(turn_increment(-1, 2), -1);
}

#[test]
fn ads_offset_applies_left_island_shift() {
    assert_eq!(ads_offset((-100, -30), false), (-100, -30));
    assert_eq!(ads_offset((0, 0), false), (0, 0));
    assert_eq!(ads_offset((-272, 0), true), (0, 0));
    assert_eq!(ads_offset((-100, -30), true), (172, -30));
}
