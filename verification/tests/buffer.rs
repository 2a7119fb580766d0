use spectrum_cast::buffer::SampleBuffer;

#[test]
fn new_buffer_is_empty() {
    let buffer: SampleBuffer<f32> = SampleBuffer::new(4);
    assert_eq!(buffer.capacity(), 4);
    assert_eq!(buffer.len(), 0);
    assert!(!buffer.is_full());
}

#[test]
fn fill_appends_in_order() {
    let mut buffer: SampleBuffer<f32> = SampleBuffer::new(4);
    assert_eq!(buffer.fill(&[0.5, -0.5]), 2);
    assert_eq!(buffer.fill(&[0.25]), 1);
    assert_eq!(buffer.len(), 3);
    assert!(!buffer.is_full());
    assert_eq!(buffer.drain(), vec![0.5, -0.5, 0.25]);
}

#[test]
fn fill_drops_what_does_not_fit() {
    let mut buffer: SampleBuffer<i16> = SampleBuffer::new(3);
    assert_eq!(buffer.fill(&[1, 2]), 2);
    assert_eq!(buffer.fill(&[3, 4, 5]), 1);
    assert!(buffer.is_full());
    assert_eq!(buffer.fill(&[6, 7]), 0);
    assert_eq!(buffer.len(), 3);
    assert_eq!(buffer.drain(), vec![1, 2, 3]);
}

#[test]
fn drain_leaves_the_buffer_empty() {
    let mut buffer: SampleBuffer<i16> = SampleBuffer::new(2);
    buffer.fill(&[8, 9]);
    assert_eq!(buffer.drain(), vec![8, 9]);
    assert_eq!(buffer.len(), 0);
    assert_eq!(buffer.capacity(), 2);
    assert_eq!(buffer.drain(), Vec::<i16>::new());
    assert_eq!(buffer.fill(&[1, 2, 3]), 2);
    assert_eq!(buffer.drain(), vec![1, 2]);
}

#[test]
fn buffer_without_room_takes_nothing() {
    let mut buffer: SampleBuffer<u8> = SampleBuffer::new(0);
    assert!(buffer.is_full());
    assert_eq!(buffer.fill(&[1, 2, 3]), 0);
    assert_eq!(buffer.len(), 0);
}
