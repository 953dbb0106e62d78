use synth_tiles::buffer::RingBuffer;

#[test]
fn blocks_come_out_in_the_order_they_went_in() {
    let mut rb = RingBuffer::new(8);
    assert_eq!(rb.len(), 0);
    assert!(rb.push_block(&vec![1, 2, 3]));
    assert!(rb.push_block(&vec![4, 5]));
    assert_eq!(rb.len(), 5);
    let out = rb.pop_block(5);
    assert_eq!(out, vec![1, 2, 3, 4, 5]);
    assert_eq!(rb.len(), 0);
}

#[test]
fn a_block_that_does_not_fit_is_refused_whole() {
    let mut rb = RingBuffer::new(4);
    assert!(rb.push_block(&vec![7, 8, 9]));
    assert!(!rb.push_block(&vec![10, 11]));
    // the refused block left nothing behind
    assert_eq!(rb.pop_block(3), vec![7, 8, 9]);
}

#[test]
fn an_underrun_degrades_to_silence() {
    let mut rb = RingBuffer::new(8);
    assert!(rb.push_block(&vec![5, 6]));
    let out = rb.pop_block(6);
    assert_eq!(out, vec![5, 6, 0, 0, 0, 0]);
    assert_eq!(rb.len(), 0);
    assert_eq!(rb.pop_block(2), vec![0, 0]);
}

#[test]
fn the_ring_wraps_around_its_capacity() {
    let mut rb = RingBuffer::new(4);
    assert!(rb.push_block(&vec![1, 2, 3]));
    assert_eq!(rb.pop_block(2), vec![1, 2]);
    // three more samples now cross the physical end of the ring
    assert!(rb.push_block(&vec![4, 5, 6]));
    assert_eq!(rb.len(), 4);
    assert_eq!(rb.pop_block(4), vec![3, 4, 5, 6]);
}

#[test]
fn capacity_is_fixed_at_construction() {
    let mut rb = RingBuffer::new(3);
    assert_eq!(rb.capacity(), 3);
    assert!(rb.push_block(&vec![1, 2, 3]));
    assert!(!rb.push_block(&vec![4]));
    rb.pop_block(1);
    assert_eq!(rb.capacity(), 3);
    assert!(rb.push_block(&vec![4]));
}
