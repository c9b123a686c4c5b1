use gravity_funnel::trail::{Trail, TRAIL_LEN};

#[test]
fn new_trail_is_empty() {
    let t: Trail<u32> = Trail::new();
    assert_eq!(t.len(), 0);
    assert!(t.segments().is_empty());
}

#[test]
fn trail_keeps_positions_in_order() {
    let mut t = Trail::new();
    for p in 0..10u32 {
        t.push(p);
    }
    assert_eq!(t.len(), 10);
    for i in 0..10usize {
        assert_eq!(*t.get(i), i as u32);
    }
}

#[test]
fn trail_keeps_the_last_trail_len_positions() {
    let mut t = Trail::new();
    for p in 0..1600u32 {
        t.push(p);
        assert!(t.len() <= TRAIL_LEN);
    }
    assert_eq!(TRAIL_LEN, 1500);
    assert_eq!(t.len(), 1500);
    assert_eq!(*t.get(0), 100);
    assert_eq!(*t.get(1499), 1599);
}

#[test]
fn trail_at_capacity_drops_exactly_one() {
    let mut t = Trail::new();
    for p in 0..1500u32 {
        t.push(p);
    }
    assert_eq!(t.len(), 1500);
    assert_eq!(*t.get(0), 0);
    t.push(1500);
    assert_eq!(t.len(), 1500);
    assert_eq!(*t.get(0), 1);
    assert_eq!(*t.get(1499), 1500);
}

#[test]
fn short_trail_has_no_segments() {
    let mut t = Trail::new();
    t.push(7u32);
    assert!(t.segments().is_empty());
}

#[test]
fn segments_join_consecutive_positions() {
    let mut t = Trail::new();
    for p in 0..5u32 {
        t.push(p);
    }
    assert_eq!(t.segments(), vec![(0, 1), (1, 2), (2, 3), (3, 4)]);
}

#[test]
fn segments_of_a_wrapped_trail_miss_at_most_the_split() {
    let mut t = Trail::new();
    for p in 0..4000u32 {
        t.push(p);
    }
    let segs = t.segments();
    assert!(segs.len() == 1499 || segs.len() == 1498);
    for (a, b) in segs.iter() {
        assert_eq!(*b, *a + 1);
        assert!(*a >= 2500);
    }
}
