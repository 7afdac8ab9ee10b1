use ring_buffer::RingBuffer;

fn drain(buf: &mut RingBuffer<i32>) -> Vec<i32> {
    let mut out = Vec::new();
    while let Some(val) = buf.remove() {
        out.push(val);
    }
    out
}

#[test]
fn fresh_buffer_is_empty() {
    let mut buf = RingBuffer::<i32>::new(3);
    assert_eq!(buf.size(), 0);
    assert!(buf.is_empty());
    assert_eq!(buf.peek(), None);
    assert_eq!(buf.remove(), None);
}

#[test]
fn removing_from_empty_stays_none() {
    let mut buf = RingBuffer::<u8>::new(2);
    for _ in 0..10 {
        assert_eq!(buf.remove(), None);
        assert_eq!(buf.size(), 0);
        assert!(buf.is_empty());
    }
    buf.add(5);
    assert_eq!(buf.remove(), Some(5));
    for _ in 0..10 {
        assert_eq!(buf.remove(), None);
        assert!(buf.is_empty());
    }
}

#[test]
fn size_counts_adds_up_to_capacity() {
    let mut buf = RingBuffer::<i32>::new(5);
    for i in 0..5 {
        buf.add(i * 10);
        assert_eq!(buf.size(), (i + 1) as usize);
        assert!(!buf.is_empty());
    }
}

#[test]
fn size_saturates_at_capacity() {
    let mut buf = RingBuffer::<i32>::new(3);
    for i in 0..20 {
        buf.add(i);
        assert!(buf.size() <= 3);
        assert_eq!(buf.size(), std::cmp::min(i as usize + 1, 3));
    }
    assert_eq!(drain(&mut buf), vec![17, 18, 19]);
}

#[test]
fn overwrite_drops_only_the_oldest() {
    let mut buf = RingBuffer::<i32>::new(4);
    for i in 1..=5 {
        buf.add(i);
        assert!(buf.size() <= 4);
    }
    assert_eq!(drain(&mut buf), vec![2, 3, 4, 5]);
    assert!(buf.is_empty());
}

#[test]
fn removes_follow_order_of_adds() {
    let items = [7, -3, 7, 0, 12, 5];
    let mut buf = RingBuffer::<i32>::new(6);
    for item in items.iter() {
        buf.add(*item);
    }
    for item in items.iter() {
        assert_eq!(buf.remove(), Some(*item));
    }
    assert_eq!(buf.remove(), None);
}

#[test]
fn peek_is_repeatable() {
    let mut buf = RingBuffer::<i32>::new(3);
    buf.add(11);
    buf.add(22);
    for _ in 0..5 {
        assert_eq!(buf.peek(), Some(11));
        assert_eq!(buf.size(), 2);
    }
    assert_eq!(buf.remove(), Some(11));
    for _ in 0..5 {
        assert_eq!(buf.peek(), Some(22));
        assert_eq!(buf.size(), 1);
    }
}

#[test]
fn from_slice_matches_new_then_adds() {
    let mut made = RingBuffer::<char>::new_from_slice(&['a', 'b', 'c']);
    let mut grown = RingBuffer::<char>::new(3);
    grown.add('a');
    grown.add('b');
    grown.add('c');
    assert_eq!(made.size(), 3);
    assert_eq!(grown.size(), 3);
    // One more add shows that both have exactly three places.
    made.add('d');
    grown.add('d');
    assert_eq!(made.size(), 3);
    assert_eq!(grown.size(), 3);
    for expected in ['b', 'c', 'd'] {
        assert_eq!(made.peek(), Some(expected));
        assert_eq!(made.remove(), Some(expected));
        assert_eq!(grown.remove(), Some(expected));
    }
    assert!(made.is_empty());
    assert!(grown.is_empty());
}

#[test]
fn add_from_slice_matches_single_adds() {
    let items = [1, 2, 3, 4, 5, 6, 7];
    let mut bulk = RingBuffer::<i32>::new(4);
    let mut single = RingBuffer::<i32>::new(4);
    bulk.add(100);
    single.add(100);
    bulk.add_from_slice(&items);
    for item in items.iter() {
        single.add(*item);
    }
    assert_eq!(bulk.size(), 4);
    assert_eq!(drain(&mut bulk), vec![4, 5, 6, 7]);
    assert_eq!(drain(&mut single), vec![4, 5, 6, 7]);
}

#[test]
fn add_from_slice_without_overwrite_appends() {
    let mut buf = RingBuffer::<i32>::new(5);
    buf.add(1);
    buf.add_from_slice(&[2, 3]);
    assert_eq!(buf.size(), 3);
    assert_eq!(drain(&mut buf), vec![1, 2, 3]);
}

#[test]
fn add_from_empty_slice_changes_nothing() {
    let mut buf = RingBuffer::<i32>::new(2);
    buf.add_from_slice(&[]);
    assert!(buf.is_empty());
    buf.add(8);
    buf.add_from_slice(&[]);
    assert_eq!(buf.size(), 1);
    assert_eq!(buf.peek(), Some(8));
}

#[test]
fn capacity_one_keeps_the_latest() {
    let mut buf = RingBuffer::<i32>::new(1);
    buf.add(1);
    assert_eq!(buf.size(), 1);
    assert_eq!(buf.peek(), Some(1));
    buf.add(2);
    assert_eq!(buf.size(), 1);
    assert_eq!(buf.peek(), Some(2));
    assert_eq!(buf.remove(), Some(2));
    assert!(buf.is_empty());
    assert_eq!(buf.remove(), None);
    let single = RingBuffer::<i32>::new_from_slice(&[42]);
    assert_eq!(single.size(), 1);
    assert_eq!(single.peek(), Some(42));
}

#[test]
fn refill_after_draining() {
    let mut buf = RingBuffer::<i32>::new(3);
    buf.add_from_slice(&[1, 2, 3]);
    assert_eq!(buf.remove(), Some(1));
    assert_eq!(buf.remove(), Some(2));
    buf.add(4);
    buf.add(5);
    assert_eq!(buf.size(), 3);
    assert_eq!(drain(&mut buf), vec![3, 4, 5]);
    buf.add(6);
    assert_eq!(buf.size(), 1);
    assert_eq!(buf.peek(), Some(6));
}

#[test]
fn wrapped_cursors_report_size() {
    let mut buf = RingBuffer::<i32>::new(4);
    buf.add_from_slice(&[1, 2, 3, 4]);
    assert_eq!(buf.remove(), Some(1));
    assert_eq!(buf.remove(), Some(2));
    assert_eq!(buf.remove(), Some(3));
    buf.add(5);
    buf.add(6);
    assert_eq!(buf.size(), 3);
    assert_eq!(buf.peek(), Some(4));
    assert_eq!(drain(&mut buf), vec![4, 5, 6]);
}

#[test]
fn nine_adds_into_seven_places() {
    let mut buf = RingBuffer::<i32>::new(7);
    for i in 1..=8 {
        buf.add(i);
    }
    assert_eq!(buf.peek(), Some(2));
    assert_eq!(buf.size(), 7);
    buf.add(9);
    assert_eq!(buf.peek(), Some(3));
    assert_eq!(buf.size(), 7);
    assert_eq!(drain(&mut buf), vec![3, 4, 5, 6, 7, 8, 9]);
    assert!(buf.is_empty());
}
