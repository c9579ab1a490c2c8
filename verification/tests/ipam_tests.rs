use std::collections::HashSet;
use whalescale::ipam::{next_free_v4, BASE, LAST};

fn v4(a: u8, b: u8, c: u8, d: u8) -> u32 {
    u32::from_be_bytes([a, b, c, d])
}

#[test]
fn range_constants_map_to_cgnat() {
    assert_eq!(BASE, v4(100, 64, 0, 1));
    assert_eq!(LAST, v4(100, 127, 255, 254));
}

#[test]
fn first_allocation_is_base() {
    let used = HashSet::new();
    assert_eq!(next_free_v4(&used), Some(v4(100, 64, 0, 1)));
}

#[test]
fn fills_the_lowest_gap() {
    let used: HashSet<u32> = [v4(100, 64, 0, 1), v4(100, 64, 0, 3)].into_iter().collect();
    assert_eq!(next_free_v4(&used), Some(v4(100, 64, 0, 2)));
}

#[test]
fn skips_contiguous_run() {
    let used: HashSet<u32> = [v4(100, 64, 0, 1), v4(100, 64, 0, 2)].into_iter().collect();
    assert_eq!(next_free_v4(&used), Some(v4(100, 64, 0, 3)));
}

#[test]
fn addresses_outside_the_range_do_not_matter() {
    let used: HashSet<u32> = [v4(10, 0, 0, 1), v4(100, 64, 0, 0)].into_iter().collect();
    assert_eq!(next_free_v4(&used), Some(BASE));
}

#[test]
fn exhausted_pool_has_no_address() {
    let used: HashSet<u32> = (BASE..=LAST).collect();
    assert_eq!(next_free_v4(&used), None);
}
