use std::mem::size_of;
use buffers::buffer::Buffer;
use buffers::buffer_mut::BufferMut;
use buffers::buffer_rw::BufferRW;
use buffers::{GenericBuffer, ReadableBuffer, WritableBuffer};

#[test]
fn test_buffer_mut() {
    let mut buffer = BufferMut::new();
    buffer.put_u8(2);
    buffer.put_u64_le(8);
    assert_eq!(buffer.capacity(), size_of::<usize>() * 3 - 1);
    assert_eq!(buffer.len(), 9);
    buffer.put_u64_le(7);
    buffer.put_u16_le(1);
    buffer.put_u64_le(45);
    assert_eq!(buffer.len(), 27);
    assert!(!buffer.is_inlined());
    let buffer_2 = buffer.clone();
    println!("capacity buf2: {}", buffer_2.capacity());
    assert!(!buffer_2.is_inlined());
    buffer.clear();
    assert_eq!(buffer.len(), 0);

    let converted = Buffer::from(buffer_2.clone());
    assert_eq!(converted.len(), buffer_2.len());
    assert!(converted.len() > 0);
    assert!(converted.capacity() > 0);
    let mut cloned = converted.clone();
    assert_eq!(cloned.len(), converted.len());
    assert_eq!(cloned.capacity(), converted.capacity());

    assert_eq!(cloned.get_u8(), 2);
    assert_eq!(cloned.get_u64_le(), 8);
    assert_eq!(cloned.get_u64_le(), 7);
    assert_eq!(cloned.get_u16_le(), 1);
    assert_eq!(cloned.get_u64_le(), 45);

    let mut buffer = BufferRW::from(cloned);
    assert_eq!(buffer.len(), 27);
    buffer.put_u64_le(5);
    assert_eq!(buffer.get_u64_le(), 5);
    let mut rw_buf: BufferRW = buffer.into();
    assert_eq!(rw_buf.len(), 35);
    rw_buf.put_u64_le(3);
    rw_buf.shrink();
    assert_eq!(rw_buf.get_u64_le(), 3);
}

const BUFFER: &[u8] = &[56, 2, 8, 46, 15, 9];

#[test]
fn test_static() {
    let mut buffer = Buffer::from_static(BUFFER);
    assert_eq!(buffer.len(), BUFFER.len());
    assert_eq!(buffer.get_u8(), BUFFER[0]);
    assert_eq!(buffer.get_u8(), BUFFER[1]);
    assert_eq!(buffer.get_u8(), BUFFER[2]);
    assert_eq!(buffer.get_u8(), BUFFER[3]);
    assert_eq!(buffer.get_u8(), BUFFER[4]);
    assert_eq!(buffer.get_u8(), BUFFER[5]);
    let mut buffer = BufferRW::from(buffer);
    buffer.put_u64_le(5);
    assert_eq!(buffer.get_u64_le(), 5);
}

#[test]
fn test_split() {
    let mut buffer = BufferMut::new();
    buffer.put_u64_le(3);
    buffer.put_u128_be(52);
    let original_len = buffer.len();
    let mut buffer = Buffer::from(buffer);
    let mut other = buffer.split_off(9);
    println!("other: len {} remaining {}", other.len(), other.remaining());
    println!("buffer: len {} remaining {}", buffer.len(), buffer.remaining());
    assert_eq!(other.remaining() + buffer.remaining(), original_len);
    other.unsplit(buffer);
    assert_eq!(other.remaining(), original_len);
}
