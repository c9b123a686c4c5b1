use gravity_funnel::naming::spawned_body_name;
use std::collections::HashSet;

#[test]
fn names_are_r_and_the_count() {
    assert_eq!(spawned_body_name(0), "R0");
    assert_eq!(spawned_body_name(6), "R6");
    assert_eq!(spawned_body_name(10), "R10");
    assert_eq!(spawned_body_name(1234), "R1234");
    assert_eq!(spawned_body_name(usize::MAX), format!("R{}", usize::MAX));
}

#[test]
fn spawned_names_are_distinct() {
    let names: HashSet<String> = (0..2000usize).map(spawned_body_name).collect();
    assert_eq!(names.len(), 2000);
}
