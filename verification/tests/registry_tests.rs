use gravity_funnel::registry::OrbitRegistry;
use gravity_funnel::trail::TRAIL_LEN;

fn three_bodies() -> OrbitRegistry<&'static str, (i32, i32)> {
    OrbitRegistry::new(vec!["Sun", "Mercury", "Venus"])
}

#[test]
fn new_registry_gives_each_body_an_empty_trail() {
    let r = three_bodies();
    assert_eq!(r.len(), 3);
    assert_eq!(*r.body(0), "Sun");
    assert_eq!(*r.body(2), "Venus");
    for i in 0..3 {
        assert_eq!(r.trail(i).len(), 0);
    }
}

#[test]
fn record_touches_only_its_own_trail() {
    let mut r = three_bodies();
    r.record(1, (1, 2));
    r.record(1, (3, 4));
    assert_eq!(r.trail(0).len(), 0);
    assert_eq!(r.trail(1).len(), 2);
    assert_eq!(*r.trail(1).get(1), (3, 4));
    assert_eq!(r.trail(2).len(), 0);
    assert_eq!(*r.body(1), "Mercury");
}

#[test]
fn recorded_trails_stay_bounded() {
    let mut r = three_bodies();
    for k in 0..2000 {
        r.record(0, (k, -k));
    }
    assert_eq!(r.trail(0).len(), TRAIL_LEN);
    assert_eq!(*r.trail(0).get(0), (500, -500));
}

#[test]
fn added_body_gets_the_next_index_and_an_empty_trail() {
    let mut r = three_bodies();
    r.record(0, (0, 0));
    let idx = r.add_body("R3");
    assert_eq!(idx, 3);
    assert_eq!(r.len(), 4);
    assert_eq!(*r.body(3), "R3");
    assert_eq!(r.trail(3).len(), 0);
    assert_eq!(r.trail(0).len(), 1);
}

#[test]
fn set_body_keeps_the_trail() {
    let mut r = three_bodies();
    r.record(2, (5, 5));
    r.set_body(2, "Venus moved");
    assert_eq!(*r.body(2), "Venus moved");
    assert_eq!(r.trail(2).len(), 1);
    assert_eq!(r.len(), 3);
}
