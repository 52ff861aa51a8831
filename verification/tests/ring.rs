use voice_assistant::ring::AudioRingBuffer;

fn numbers(from: u32, count: u32) -> Vec<u32> {
    (from..from + count).collect()
}

/// How many samples fit into an empty queue.
fn room(ring: &mut AudioRingBuffer) -> usize {
    let much: Vec<u32> = vec![7; 100_000];
    ring.write(&much);
    let n: usize = ring.available();
    ring.clear();
    n
}

#[test]
fn small_queues_get_the_smallest_capacity() {
    assert_eq!(room(&mut AudioRingBuffer::new(0, 48000, 2)), 1024);
    assert_eq!(room(&mut AudioRingBuffer::new(10, 999, 2)), 1024);
    assert_eq!(room(&mut AudioRingBuffer::new(64, 16000, 1)), 1024);
}

#[test]
fn capacities_are_rounded_up_to_powers_of_two() {
    assert_eq!(room(&mut AudioRingBuffer::new(200, 48000, 2)), 32768);
    assert_eq!(room(&mut AudioRingBuffer::new(100, 16000, 1)), 2048);
    assert_eq!(room(&mut AudioRingBuffer::new(128, 16000, 1)), 2048);
    assert_eq!(room(&mut AudioRingBuffer::new(129, 16000, 1)), 4096);
}

#[test]
fn rates_count_in_whole_samples_per_millisecond() {
    assert_eq!(room(&mut AudioRingBuffer::new(47, 44100, 1)), 4096);
    assert_eq!(room(&mut AudioRingBuffer::new(46, 44999, 1)), 2048);
}

#[test]
fn a_new_queue_is_empty() {
    let mut ring = AudioRingBuffer::new(1, 1000, 1);
    let mut dst: Vec<u32> = vec![9; 4];
    assert_eq!(ring.available(), 0);
    assert_eq!(ring.read(&mut dst), 0);
    assert_eq!(dst, vec![9; 4]);
}

#[test]
fn what_is_written_is_read_back_in_order() {
    let mut ring = AudioRingBuffer::new(1, 1000, 1);
    ring.write(&numbers(0, 5));
    ring.write(&[]);
    ring.write(&numbers(5, 3));
    assert_eq!(ring.available(), 8);
    let mut dst: Vec<u32> = vec![99; 10];
    assert_eq!(ring.read(&mut dst), 8);
    assert_eq!(dst, vec![0, 1, 2, 3, 4, 5, 6, 7, 99, 99]);
    assert_eq!(ring.available(), 0);
}

#[test]
fn a_full_queue_keeps_what_it_has_and_drops_the_rest() {
    let mut ring = AudioRingBuffer::new(1, 1000, 1);
    ring.write(&numbers(0, 1000));
    ring.write(&numbers(1000, 1000));
    assert_eq!(ring.available(), 1024);
    ring.write(&[1]);
    let mut dst: Vec<u32> = vec![0; 2000];
    assert_eq!(ring.read(&mut dst), 1024);
    assert_eq!(dst[..1024].to_vec(), numbers(0, 1024));
}

#[test]
fn reads_in_parts_take_what_one_read_would() {
    let mut ring = AudioRingBuffer::new(1, 1000, 1);
    ring.write(&numbers(0, 10));
    let mut a: Vec<u32> = vec![0; 3];
    let mut b: Vec<u32> = vec![0; 20];
    assert_eq!(ring.read(&mut a), 3);
    assert_eq!(ring.read(&mut []), 0);
    assert_eq!(ring.read(&mut b), 7);
    assert_eq!(a, numbers(0, 3));
    assert_eq!(b[..7].to_vec(), numbers(3, 7));
}

#[test]
fn the_buffer_is_used_round_and_round() {
    let mut ring = AudioRingBuffer::new(1, 1000, 1);
    let mut dst: Vec<u32> = vec![0; 700];
    for round in 0..20u32 {
        ring.write(&numbers(round * 700, 700));
        assert_eq!(ring.read(&mut dst), 700);
        assert_eq!(dst, numbers(round * 700, 700));
    }
}

#[test]
fn clearing_drops_what_is_queued() {
    let mut ring = AudioRingBuffer::new(1, 1000, 1);
    ring.write(&numbers(0, 600));
    ring.clear();
    assert_eq!(ring.available(), 0);
    ring.write(&numbers(50, 1024));
    let mut dst: Vec<u32> = vec![0; 1024];
    assert_eq!(ring.read(&mut dst), 1024);
    assert_eq!(dst, numbers(50, 1024));
}
