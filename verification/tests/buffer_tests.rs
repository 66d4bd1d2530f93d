use swarm::buffer::RingBuffer;

#[test]
fn drop_oldest() {
    const BUFFER_SIZE: usize = 5;
    let mut buffer: RingBuffer<Vec<u8>, BUFFER_SIZE> = RingBuffer::new();

    let mut count: u32 = 0;
    while count <= 5 {
        let paylod = count.to_be_bytes().to_vec();
        buffer.push(paylod).unwrap();
        count += 1;
    }

    let expected: u32 = 1;
    assert_eq!(buffer.pop().is_some_and(|x| x == expected.to_be_bytes().to_vec()), true);
}

#[test]
fn pop_on_empty_buffer_gives_none() {
    let mut buffer: RingBuffer<u32, 3> = RingBuffer::new();
    assert_eq!(buffer.pop(), None);
    buffer.push(7).unwrap();
    assert_eq!(buffer.pop(), Some(7));
    assert_eq!(buffer.pop(), None);
}

#[test]
fn items_come_out_in_push_order_within_capacity() {
    let mut buffer: RingBuffer<u32, 5> = RingBuffer::new();
    for v in 10..15u32 {
        assert_eq!(buffer.push(v), Ok(()));
    }
    for v in 10..15u32 {
        assert_eq!(buffer.pop(), Some(v));
    }
    assert_eq!(buffer.pop(), None);
}

#[test]
fn reads_all_buffer_items_sequentially() {
    let mut buffer: RingBuffer<Vec<u8>, 5> = RingBuffer::new();
    let mut count: u32 = 0;
    while count <= 5 {
        buffer.push(count.to_be_bytes().to_vec()).unwrap();
        count += 1;
    }
    let mut res = 0;
    while buffer.pop().is_some() {
        res += 1;
    }
    assert_eq!(res, 5);
}

#[test]
fn overflow_keeps_the_most_recent_items() {
    let mut buffer: RingBuffer<u32, 3> = RingBuffer::new();
    for v in 0..8u32 {
        buffer.push(v).unwrap();
    }
    assert_eq!(buffer.pop(), Some(5));
    assert_eq!(buffer.pop(), Some(6));
    assert_eq!(buffer.pop(), Some(7));
    assert_eq!(buffer.pop(), None);
}

#[test]
fn interleaved_pushes_and_pops_match_a_bounded_queue() {
    let mut buffer: RingBuffer<u32, 4> = RingBuffer::new();
    let mut model: std::collections::VecDeque<u32> = std::collections::VecDeque::new();
    for v in 0..50u32 {
        buffer.push(v).unwrap();
        if model.len() == 4 {
            model.pop_front();
        }
        model.push_back(v);
        if v % 3 == 2 {
            assert_eq!(buffer.pop(), model.pop_front());
        }
    }
    while let Some(expected) = model.pop_front() {
        assert_eq!(buffer.pop(), Some(expected));
    }
    assert_eq!(buffer.pop(), None);
}

#[test]
fn wrap_scenario_exact_values() {
    let mut buffer: RingBuffer<u32, 4> = RingBuffer::new();
    for v in 0..6u32 {
        buffer.push(v).unwrap();
    }
    assert_eq!(buffer.pop(), Some(2));
    buffer.push(6).unwrap();
    buffer.push(7).unwrap();
    assert_eq!(buffer.pop(), Some(4));
    assert_eq!(buffer.pop(), Some(5));
    assert_eq!(buffer.pop(), Some(6));
    assert_eq!(buffer.pop(), Some(7));
    assert_eq!(buffer.pop(), None);
}

#[test]
fn single_slot_buffer_keeps_the_last_push() {
    let mut buffer: RingBuffer<&str, 1> = RingBuffer::new();
    buffer.push("a").unwrap();
    buffer.push("b").unwrap();
    assert_eq!(buffer.pop(), Some("b"));
    assert_eq!(buffer.pop(), None);
}
