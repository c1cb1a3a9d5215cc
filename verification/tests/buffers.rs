use tttr_toolbox::circular_buffer::CircularBuffer;
use tttr_toolbox::colored_circular_buffer::CCircularBuffer;

#[test]
fn scalar_ring_below_capacity_yields_all_in_reverse_push_order() {
    let mut buf = CircularBuffer::new(4);
    buf.push(10);
    buf.push(20);
    assert_eq!(buf.len(), 2);
    assert_eq!(buf.iter(), vec![20, 10]);
}

#[test]
fn scalar_ring_wraps_and_keeps_the_last_capacity_values() {
    let mut buf = CircularBuffer::new(3);
    for v in 1..=5u64 {
        buf.push(v);
    }
    assert_eq!(buf.len(), 3);
    assert_eq!(buf.iter(), vec![5, 4, 3]);
}

#[test]
fn scalar_ring_exactly_at_capacity() {
    let mut buf = CircularBuffer::new(3);
    buf.push(7);
    buf.push(8);
    buf.push(9);
    assert_eq!(buf.iter(), vec![9, 8, 7]);
    buf.push(10);
    assert_eq!(buf.iter(), vec![10, 9, 8]);
}

#[test]
fn coloured_ring_pairs_time_with_channel() {
    let mut buf = CCircularBuffer::new(2);
    buf.push(100, 1);
    buf.push(200, 2);
    buf.push(300, 1);
    assert_eq!(buf.len(), 2);
    assert_eq!(buf.iter(), vec![(300, 1), (200, 2)]);
}

#[test]
fn empty_rings_yield_nothing() {
    let buf = CircularBuffer::new(5);
    assert_eq!(buf.len(), 0);
    assert_eq!(buf.iter(), Vec::<u64>::new());
    let cbuf = CCircularBuffer::new(5);
    assert_eq!(cbuf.len(), 0);
    assert_eq!(cbuf.iter(), Vec::<(u64, i32)>::new());
}
