use httpkv::ring::Ring;

#[test]
fn test_new_ring_is_empty() {
    let mut ring = Ring::new(8);
    assert_eq!(ring.pop(), None);
}

#[test]
fn test_push_lands_only_below_watermark() {
    // the watermark starts at zero and is never raised, so every push is
    // refused and the ring stays empty
    let mut ring = Ring::new(8);
    ring.push(42);
    ring.push(7);
    assert_eq!(ring.pop(), None);
}

#[test]
fn test_zero_sized_ring() {
    let mut ring = Ring::new(0);
    ring.push(1);
    assert_eq!(ring.pop(), None);
}
