use thoth::ring_buffer::{AudioRingBuffer, BUFFER_SIZE};

#[test]
fn test_new_buffer() {
    let buffer = AudioRingBuffer::new(0.0f32);
    assert_eq!(buffer.capacity(), BUFFER_SIZE);
    assert_eq!(buffer.available(), 0);
}

#[test]
fn test_write_read() {
    let mut buffer = AudioRingBuffer::new(0.0f32);
    let samples = [1.0, 2.0, 3.0, 4.0, 5.0];
    let written = buffer.write(&samples);
    assert_eq!(written, 5);
    assert_eq!(buffer.available(), 5);
    let mut output = [0.0; 5];
    let read = buffer.read(&mut output);
    assert_eq!(read, 5);
    assert_eq!(output, samples);
    assert_eq!(buffer.available(), 0);
}

#[test]
fn test_partial_read() {
    let mut buffer = AudioRingBuffer::new(0.0f32);
    let samples = [1.0, 2.0, 3.0, 4.0, 5.0];
    buffer.write(&samples);
    let mut output = [0.0; 3];
    let read = buffer.read(&mut output);
    assert_eq!(read, 3);
    assert_eq!(output, [1.0, 2.0, 3.0]);
    assert_eq!(buffer.available(), 2);
    let mut output2 = [0.0; 5];
    let read2 = buffer.read(&mut output2);
    assert_eq!(read2, 2);
    assert_eq!(output2[..2], [4.0, 5.0]);
}

#[test]
fn test_wraparound() {
    let mut buffer = AudioRingBuffer::new(0.0f32);
    let fill_size = BUFFER_SIZE - 100;
    let fill: Vec<f32> = (0..fill_size).map(|i| i as f32).collect();
    let written = buffer.write(&fill);
    assert_eq!(written, fill_size);
    let mut output = vec![0.0; fill_size - 50];
    buffer.read(&mut output);
    let more: Vec<f32> = (0..200).map(|i| (i + 1000) as f32).collect();
    let written2 = buffer.write(&more);
    assert_eq!(written2, 200);
    let all = buffer.read_all();
    assert!(all.len() > 0);
}

#[test]
fn test_overflow_handling() {
    let mut buffer = AudioRingBuffer::new(0.0f32);
    let huge: Vec<f32> = (0..BUFFER_SIZE + 100).map(|i| i as f32).collect();
    let written = buffer.write(&huge);
    assert!(written < BUFFER_SIZE);
}

#[test]
fn test_clear() {
    let mut buffer = AudioRingBuffer::new(0.0f32);
    let samples = [1.0, 2.0, 3.0];
    buffer.write(&samples);
    assert_eq!(buffer.available(), 3);
    buffer.clear();
    assert_eq!(buffer.available(), 0);
}

#[test]
fn what_is_read_back_is_what_was_written_in_order() {
    let mut buffer = AudioRingBuffer::new(0u32);
    let first: Vec<u32> = (0..40_000).collect();
    let second: Vec<u32> = (40_000..80_000).collect();
    assert_eq!(buffer.write(&first), 40_000);
    let mut head = vec![0u32; 30_000];
    assert_eq!(buffer.read(&mut head), 30_000);
    assert_eq!(head, (0..30_000).collect::<Vec<u32>>());
    assert_eq!(buffer.write(&second), 40_000);
    let rest = buffer.read_all();
    assert_eq!(rest, (30_000..80_000).collect::<Vec<u32>>());
}

#[test]
fn a_full_buffer_keeps_one_slot_free_and_drops_the_excess() {
    let mut buffer = AudioRingBuffer::new(0u8);
    let data = vec![7u8; BUFFER_SIZE];
    assert_eq!(buffer.write(&data), BUFFER_SIZE - 1);
    assert_eq!(buffer.write(&[1, 2, 3]), 0);
    assert_eq!(buffer.available(), BUFFER_SIZE - 1);
}
