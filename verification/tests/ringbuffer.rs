use kmemcore::ringbuffer::RingBuffer;

#[test]
fn test_none_on_init() {
    let mut ringbuffer = RingBuffer::<u64, 512>::new(0);
    let expected_none = ringbuffer.read();

    assert_eq!(None, expected_none);
    assert_eq!(true, ringbuffer.is_empty());
    assert_eq!(0, ringbuffer.num_items());
}

#[test]
fn test_add_1_item_1() {
    let mut ringbuffer = RingBuffer::<u64, 512>::new(0);

    let expected_value: u64 = 5;
    ringbuffer.write(expected_value);
    assert_eq!(1, ringbuffer.num_items());
    assert_eq!(false, ringbuffer.is_empty());
    let read_value = ringbuffer.read();
    assert_eq!(true, ringbuffer.is_empty());
    assert_eq!(Some(expected_value), read_value);
    assert_eq!(0, ringbuffer.num_items());
}

#[test]
fn test_add_1_item_2() {
    let mut ringbuffer = RingBuffer::<u64, 512>::new(0);

    let expected_value: u64 = 7;
    ringbuffer.write(expected_value);
    assert_eq!(1, ringbuffer.num_items());
    assert_eq!(false, ringbuffer.is_empty());
    let read_value = ringbuffer.read();
    assert_eq!(true, ringbuffer.is_empty());
    assert_eq!(Some(expected_value), read_value);
    assert_eq!(0, ringbuffer.num_items());
}

#[test]
fn test_add_2_items_1() {
    let mut ringbuffer = RingBuffer::<u64, 512>::new(0);

    let expected_value1: u64 = 5;
    let expected_value2: u64 = 7;

    ringbuffer.write(expected_value1);
    ringbuffer.write(expected_value2);
    assert_eq!(2, ringbuffer.num_items());
    assert_eq!(false, ringbuffer.is_empty());
    let read_value1 = ringbuffer.read();
    assert_eq!(false, ringbuffer.is_empty());
    assert_eq!(Some(expected_value1), read_value1);
    assert_eq!(1, ringbuffer.num_items());
    let read_value2 = ringbuffer.read();
    assert_eq!(true, ringbuffer.is_empty());
    assert_eq!(Some(expected_value2), read_value2);
    assert_eq!(0, ringbuffer.num_items());
}

#[test]
fn test_add_2_items_2() {
    let mut ringbuffer = RingBuffer::<u64, 512>::new(0);

    let expected_value1: u64 = 89;
    let expected_value2: u64 = 21;

    ringbuffer.write(expected_value1);
    ringbuffer.write(expected_value2);
    assert_eq!(2, ringbuffer.num_items());
    assert_eq!(false, ringbuffer.is_empty());
    let read_value1 = ringbuffer.read();
    assert_eq!(false, ringbuffer.is_empty());
    assert_eq!(Some(expected_value1), read_value1);
    assert_eq!(1, ringbuffer.num_items());
    let read_value2 = ringbuffer.read();
    assert_eq!(true, ringbuffer.is_empty());
    assert_eq!(Some(expected_value2), read_value2);
    assert_eq!(0, ringbuffer.num_items());
}

#[test]
fn test_add_2_items_remove_add_item_1() {
    let mut ringbuffer = RingBuffer::<u64, 512>::new(0);

    let expected_value1: u64 = 5;
    let expected_value2: u64 = 7;
    let expected_value3: u64 = 39027;

    ringbuffer.write(expected_value1);
    ringbuffer.write(expected_value2);
    assert_eq!(false, ringbuffer.is_empty());
    let read_value1 = ringbuffer.read();
    assert_eq!(false, ringbuffer.is_empty());
    assert_eq!(Some(expected_value1), read_value1);
    let read_value2 = ringbuffer.read();
    assert_eq!(true, ringbuffer.is_empty());
    assert_eq!(Some(expected_value2), read_value2);

    ringbuffer.write(expected_value3);
    assert_eq!(false, ringbuffer.is_empty());
    let read_value3 = ringbuffer.read();
    assert_eq!(true, ringbuffer.is_empty());
    assert_eq!(Some(expected_value3), read_value3);
}

#[test]
fn test_max_capacity() {
    let mut ringbuffer = RingBuffer::<u64, 512>::new(0);

    for i in 0..511u64 {
        let response = ringbuffer.write(i);
        assert_eq!(true, response.is_some());
    }

    assert_eq!(true, ringbuffer.is_full());
    let response = ringbuffer.write(511);
    assert_eq!(None, response);
}

#[test]
fn test_max_capacity2() {
    let mut ringbuffer = RingBuffer::<u64, 1024>::new(0);

    for i in 0..1023u64 {
        let response = ringbuffer.write(i);
        assert_eq!(true, response.is_some());
    }

    assert_eq!(true, ringbuffer.is_full());
    let response = ringbuffer.write(1023);
    assert_eq!(None, response);
}

#[test]
fn test_full_then_empty_read_write() {
    let mut ringbuffer = RingBuffer::<u64, 4>::new(0);

    assert_eq!(true, ringbuffer.is_empty());
    assert_eq!(None, ringbuffer.read());

    assert!(ringbuffer.write(10).is_some());
    assert!(ringbuffer.write(20).is_some());
    assert!(ringbuffer.write(30).is_some());
    assert_eq!(true, ringbuffer.is_full());
    assert_eq!(None, ringbuffer.write(40));

    assert_eq!(Some(10), ringbuffer.read());
    assert_eq!(Some(20), ringbuffer.read());
    assert_eq!(Some(30), ringbuffer.read());
    assert_eq!(true, ringbuffer.is_empty());
    assert_eq!(None, ringbuffer.read());
}

#[test]
fn test_wrap_around_order_kept() {
    let mut ringbuffer = RingBuffer::<u64, 4>::new(0);

    assert!(ringbuffer.write(1).is_some());
    assert!(ringbuffer.write(2).is_some());
    assert_eq!(Some(1), ringbuffer.read());
    assert!(ringbuffer.write(3).is_some());
    assert!(ringbuffer.write(4).is_some());
    assert_eq!(3, ringbuffer.num_items());
    assert_eq!(0, ringbuffer.remaining_space());
    assert_eq!(Some(2), ringbuffer.read());
    assert_eq!(Some(3), ringbuffer.read());
    assert_eq!(Some(4), ringbuffer.read());
    assert_eq!(None, ringbuffer.read());
    assert_eq!(3, ringbuffer.max_items());
}
