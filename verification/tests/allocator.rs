use proxy::allocator::IdAllocator;
use proxy::error::ProxyError;

#[test]
fn ids_come_in_order_from_zero() {
    let mut ids = IdAllocator::new(4);
    assert_eq!(ids.limit(), 4);
    assert_eq!(ids.allocate(), Ok(0));
    assert_eq!(ids.allocate(), Ok(1));
    assert_eq!(ids.allocate(), Ok(2));
    assert!(ids.is_held(0));
    assert!(ids.is_held(2));
    assert!(!ids.is_held(3));
    assert!(!ids.is_held(4));
}

#[test]
fn exhaustion_after_limit_allocations() {
    let mut ids = IdAllocator::new(1000);
    for expected in 0..1000u64 {
        assert_eq!(ids.allocate(), Ok(expected));
    }
    assert_eq!(ids.allocate(), Err(ProxyError::IdSpaceExhausted));
    assert_eq!(ids.allocate(), Err(ProxyError::IdSpaceExhausted));
    for id in 0..1000u64 {
        assert!(ids.is_held(id));
    }
}

#[test]
fn cursor_wraps_to_zero_behind_the_last_id() {
    let mut ids = IdAllocator::new(3);
    assert_eq!(ids.allocate(), Ok(0));
    assert_eq!(ids.allocate(), Ok(1));
    assert_eq!(ids.allocate(), Ok(2));
    ids.release(0);
    ids.release(1);
    assert_eq!(ids.allocate(), Ok(0));
    assert_eq!(ids.allocate(), Ok(1));
    assert_eq!(ids.allocate(), Err(ProxyError::IdSpaceExhausted));
}

#[test]
fn a_held_id_is_stepped_over_at_the_wrap() {
    let mut ids = IdAllocator::new(3);
    assert_eq!(ids.allocate(), Ok(0));
    assert_eq!(ids.allocate(), Ok(1));
    assert_eq!(ids.allocate(), Ok(2));
    ids.release(1);
    assert_eq!(ids.allocate(), Ok(1));
    ids.release(2);
    ids.release(1);
    assert_eq!(ids.allocate(), Ok(2));
    assert_eq!(ids.allocate(), Ok(1));
    assert!(ids.is_held(0));
}

#[test]
fn a_released_id_is_not_handed_out_before_the_cursor_comes_round() {
    let mut ids = IdAllocator::new(5);
    assert_eq!(ids.allocate(), Ok(0));
    assert_eq!(ids.allocate(), Ok(1));
    ids.release(0);
    assert_eq!(ids.allocate(), Ok(2));
    assert_eq!(ids.allocate(), Ok(3));
    assert_eq!(ids.allocate(), Ok(4));
    assert_eq!(ids.allocate(), Ok(0));
    assert_eq!(ids.allocate(), Err(ProxyError::IdSpaceExhausted));
}

#[test]
fn never_hands_out_a_held_id() {
    let mut ids = IdAllocator::new(7);
    let mut held: Vec<u64> = Vec::new();
    let mut seed: u32 = 12345;
    for _ in 0..2000 {
        seed = seed.wrapping_mul(1103515245).wrapping_add(12345);
        if (seed >> 16) % 3 == 0 && !held.is_empty() {
            let at = ((seed >> 8) as usize) % held.len();
            let id = held.swap_remove(at);
            ids.release(id);
            assert!(!ids.is_held(id));
        } else {
            match ids.allocate() {
                Ok(id) => {
                    assert!(id < 7);
                    assert!(!held.contains(&id));
                    held.push(id);
                }
                Err(e) => {
                    assert_eq!(e, ProxyError::IdSpaceExhausted);
                    assert_eq!(held.len(), 7);
                }
            }
        }
    }
}

#[test]
fn releasing_a_free_or_unknown_id_changes_nothing() {
    let mut ids = IdAllocator::new(2);
    ids.release(0);
    ids.release(99);
    assert_eq!(ids.allocate(), Ok(0));
    ids.release(1);
    assert_eq!(ids.allocate(), Ok(1));
    assert_eq!(ids.allocate(), Err(ProxyError::IdSpaceExhausted));
}

#[test]
fn an_empty_range_has_no_id() {
    let mut ids = IdAllocator::new(0);
    assert_eq!(ids.limit(), 0);
    assert_eq!(ids.allocate(), Err(ProxyError::IdSpaceExhausted));
    ids.release(0);
    assert!(!ids.is_held(0));
}
