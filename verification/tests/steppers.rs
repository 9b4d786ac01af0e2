use better_awake::steppers::{
    EDITOR_PRIORITY_STEP, LIST_PRIORITY_STEP, battery_ceiling_lowered, battery_floor_raised,
    percent_lowered, percent_raised, priority_lowered, priority_raised, throughput_lowered,
    throughput_raised, window_lengthened, window_shortened,
};

#[test]
fn a_priority_stops_at_its_bounds_rather_than_wrapping() {
    assert_eq!(priority_lowered(50, LIST_PRIORITY_STEP), 40);
    assert_eq!(priority_lowered(3, LIST_PRIORITY_STEP), 0);
    assert_eq!(priority_raised(250, LIST_PRIORITY_STEP), 255);
    assert_eq!(priority_raised(60, EDITOR_PRIORITY_STEP), 65);
}

#[test]
fn a_percentage_stays_between_zero_and_a_hundred() {
    assert_eq!(percent_raised(98), 100);
    assert_eq!(percent_raised(20), 25);
    assert_eq!(percent_lowered(3), 0);
    assert_eq!(percent_lowered(20), 15);
}

#[test]
fn a_battery_range_never_turns_inside_out() {
    assert_eq!(battery_floor_raised(20, 22), 22);
    assert_eq!(battery_floor_raised(20, 80), 25);
    assert_eq!(battery_ceiling_lowered(20, 22), 20);
    assert_eq!(battery_ceiling_lowered(20, 80), 75);
    assert_eq!(battery_ceiling_lowered(0, 3), 0);
}

#[test]
fn a_throughput_threshold_moves_by_fifty() {
    assert_eq!(throughput_lowered(30), 0);
    assert_eq!(throughput_lowered(200), 150);
    assert_eq!(throughput_raised(200), 250);
}

#[test]
fn a_watch_window_stays_between_one_second_and_the_longest_window() {
    assert_eq!(window_shortened(60), 1);
    assert_eq!(window_shortened(300), 240);
    assert_eq!(window_lengthened(3_590, 3_600), 3_600);
    assert_eq!(window_lengthened(300, 3_600), 360);
}
