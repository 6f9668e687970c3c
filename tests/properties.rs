use buffers::buffer::Buffer;
use buffers::buffer_format::INLINE_SIZE;
use buffers::buffer_mut::BufferMut;
use buffers::buffer_rw::BufferRW;
use buffers::{GenericBuffer, ReadableBuffer, WritableBuffer, ADDITIONAL_BUFFER_CAP, INITIAL_CAP};

fn bytes(n: usize) -> Vec<u8> {
    (0..n).map(|i| (i * 7 + 3) as u8).collect()
}

#[test]
fn inline_writes_stay_inline() {
    let mut b = BufferMut::new();
    b.put_u8(2);
    b.put_u64_le(8);
    assert_eq!(b.len(), 9);
    assert_eq!(b.capacity(), INLINE_SIZE);
    assert!(b.is_inlined());
    assert_eq!(b.into_vec(), vec![2, 8, 0, 0, 0, 0, 0, 0, 0]);
}

#[test]
fn writes_past_inline_size_move_to_heap() {
    let mut b = BufferMut::new();
    b.put_u8(2);
    b.put_u64_le(8);
    b.put_u64_le(7);
    b.put_u16_le(1);
    b.put_u64_le(45);
    assert_eq!(b.len(), 27);
    assert!(!b.is_inlined());
    assert!(b.capacity() >= 27 + ADDITIONAL_BUFFER_CAP);
    assert_eq!(b.capacity(), INITIAL_CAP);
}

#[test]
fn frozen_clone_reads_back_and_shares() {
    let mut b = BufferMut::new();
    b.put_u8(2);
    b.put_u64_le(8);
    b.put_u64_le(7);
    b.put_u16_le(1);
    b.put_u64_le(45);
    let frozen = Buffer::from(b);
    let mut clone = frozen.clone();
    assert_eq!(clone.get_u8(), 2);
    assert_eq!(clone.get_u64_le(), 8);
    assert_eq!(clone.get_u64_le(), 7);
    assert_eq!(clone.get_u16_le(), 1);
    assert_eq!(clone.get_u64_le(), 45);
    assert_eq!(frozen.ref_count(), 2);
    assert_eq!(clone.ref_count(), 2);
    assert_eq!(frozen.remaining(), 27);
}

#[test]
fn static_bytes_are_read_in_place() {
    let mut b = Buffer::from_static(&[56, 2, 8, 46, 15, 9]);
    assert!(b.is_static());
    let mut seen = Vec::new();
    for _ in 0..6 {
        seen.push(b.get_u8());
        assert!(b.is_static());
    }
    assert_eq!(seen, vec![56, 2, 8, 46, 15, 9]);
    assert_eq!(b.ref_count(), 0);
    assert_eq!(b.remaining(), 0);
}

#[test]
fn static_buffer_moves_to_heap_on_write() {
    let mut b = Buffer::from_static(&[56, 2, 8, 46, 15, 9]);
    for _ in 0..6 {
        b.get_u8();
    }
    let mut rw = BufferRW::from(b);
    assert!(rw.is_static());
    rw.put_u64_le(5);
    assert!(!rw.is_static());
    assert!(!rw.is_inlined());
    assert_eq!(rw.get_u64_le(), 5);
}

#[test]
fn split_and_unsplit_restore_the_buffer() {
    let mut b = BufferMut::new();
    b.put_u64_le(3);
    b.put_u128_be(52);
    assert_eq!(b.len(), 24);
    let mut frozen = Buffer::from(b);
    let mut right = frozen.split_off(9);
    assert_eq!(frozen.len() + right.len(), 24);
    assert_eq!(frozen.remaining() + right.remaining(), 24);
    assert_eq!(right.ref_count(), 2);
    frozen.unsplit(right);
    assert_eq!(frozen.len(), 24);
    assert_eq!(frozen.get_u64_le(), 3);
    assert_eq!(frozen.get_u128_be(), 52);
}

#[test]
fn vector_round_trip_of_every_size_class() {
    for n in [0usize, 1, 22, 23, 24, 100, 5000] {
        let v = bytes(n);
        let mut b = Buffer::from_vec(v.clone());
        assert_eq!(b.len(), n);
        assert_eq!(b.get_slice(n), &v[..]);
        assert_eq!(b.remaining(), 0);
    }
}

#[test]
fn small_vectors_are_inlined() {
    let b = Buffer::from_vec(bytes(INLINE_SIZE));
    assert!(b.is_inlined());
    assert_eq!(b.ref_count(), 0);
    let b = Buffer::from_vec(bytes(INLINE_SIZE + 1));
    assert!(!b.is_inlined());
    assert_eq!(b.ref_count(), 1);
}

#[test]
fn clones_count_and_release_handles() {
    let b = Buffer::from_vec(bytes(100));
    let clones: Vec<Buffer> = (0..5).map(|_| b.clone()).collect();
    assert_eq!(b.ref_count(), 6);
    assert!(!b.is_only());
    drop(clones);
    assert_eq!(b.ref_count(), 1);
    assert!(b.is_only());
    assert_eq!(b.into_vec(), bytes(100));
}

#[test]
fn split_at_the_reader_hands_over_the_unread_bytes() {
    let v = bytes(40);
    let mut b = Buffer::from_vec(v.clone());
    b.advance(5);
    let r = b.split();
    assert_eq!(r.as_slice().to_vec(), v[5..].to_vec());
    assert_eq!(b.remaining(), 0);
    assert_eq!(b.len(), 5);
}

#[test]
fn unsplit_restores_the_contents_for_every_split_point() {
    let v = bytes(30);
    for k in 0..27 {
        let mut b = Buffer::from_vec(v.clone());
        b.advance(3);
        let r = b.split_off(k);
        b.unsplit(r);
        assert_eq!(b.len(), 30);
        assert_eq!(b.remaining(), 30);
        assert_eq!(b.get_slice(30), &v[..]);
    }
}

#[test]
fn unsplit_accepts_either_order() {
    let v = bytes(30);
    let mut b = Buffer::from_vec(v.clone());
    let mut right = b.split_off(10);
    right.unsplit(b);
    assert_eq!(right.as_slice().to_vec(), v);
}

#[test]
fn try_unsplit_refuses_buffers_that_do_not_meet() {
    let mut a = Buffer::from_vec(bytes(30));
    let other = Buffer::from_vec(bytes(40));
    let back = a.try_unsplit(other).unwrap_err();
    assert_eq!(back.as_slice().to_vec(), bytes(40));
    assert_eq!(a.as_slice().to_vec(), bytes(30));
}

#[test]
fn split_to_keeps_the_suffix() {
    let v = bytes(30);
    let mut b = Buffer::from_vec(v.clone());
    let front = b.split_to(12);
    assert_eq!(front.as_slice().to_vec(), v[..12].to_vec());
    assert_eq!(b.as_slice().to_vec(), v[12..].to_vec());
    let mut front = front;
    front.unsplit(b);
    assert_eq!(front.as_slice().to_vec(), v);
}

#[test]
fn inline_split_halves_join_again() {
    let v = bytes(20);
    let mut b = Buffer::from_vec(v.clone());
    let r = b.split_off(8);
    assert!(r.is_inlined());
    b.unsplit(r);
    assert_eq!(b.as_slice().to_vec(), v);
}

#[test]
fn crossing_inline_size_keeps_every_byte() {
    let mut b = BufferMut::new();
    b.put_slice(&bytes(20));
    assert!(b.is_inlined());
    b.put_slice(&[1, 2, 3, 4]);
    assert!(!b.is_inlined());
    let mut expected = bytes(20);
    expected.extend_from_slice(&[1, 2, 3, 4]);
    assert_eq!(b.into_vec(), expected);
}

#[test]
fn shrink_leaves_shared_allocations_alone() {
    let mut b = Buffer::from_vec(bytes(200));
    b.advance(150);
    let mut tail = b.split_off(10);
    let cap = tail.capacity();
    tail.shrink();
    assert_eq!(tail.capacity(), cap);
    assert_eq!(tail.as_slice().to_vec(), bytes(200)[160..].to_vec());
    assert_eq!(b.as_slice().to_vec(), bytes(200)[..160].to_vec());
}

#[test]
fn shrink_of_a_sole_heap_buffer_reduces_capacity() {
    let mut b = Buffer::from_vec(bytes(200));
    let front = b.split_to(190);
    drop(front);
    let before = b.capacity();
    b.shrink();
    assert!(b.capacity() < before);
    assert_eq!(b.capacity(), 10 + ADDITIONAL_BUFFER_CAP);
    assert_eq!(b.as_slice().to_vec(), bytes(200)[190..].to_vec());
}

#[test]
fn numbers_read_back_in_every_width_and_order() {
    let mut b = BufferRW::new();
    b.put_u16_le(0xBEEF);
    b.put_u16_be(0xBEEF);
    b.put_u16_ne(0xBEEF);
    b.put_u32_le(0xDEAD_BEEF);
    b.put_u32_be(0xDEAD_BEEF);
    b.put_u32_ne(0xDEAD_BEEF);
    b.put_u64_le(0x0123_4567_89AB_CDEF);
    b.put_u64_be(0x0123_4567_89AB_CDEF);
    b.put_u64_ne(0x0123_4567_89AB_CDEF);
    b.put_u128_le(u128::MAX - 5);
    b.put_u128_be(u128::MAX - 5);
    b.put_u128_ne(u128::MAX - 5);
    assert_eq!(b.get_u16_le(), 0xBEEF);
    assert_eq!(b.get_u16_be(), 0xBEEF);
    assert_eq!(b.get_u16_ne(), 0xBEEF);
    assert_eq!(b.get_u32_le(), 0xDEAD_BEEF);
    assert_eq!(b.get_u32_be(), 0xDEAD_BEEF);
    assert_eq!(b.get_u32_ne(), 0xDEAD_BEEF);
    assert_eq!(b.get_u64_le(), 0x0123_4567_89AB_CDEF);
    assert_eq!(b.get_u64_be(), 0x0123_4567_89AB_CDEF);
    assert_eq!(b.get_u64_ne(), 0x0123_4567_89AB_CDEF);
    assert_eq!(b.get_u128_le(), u128::MAX - 5);
    assert_eq!(b.get_u128_be(), u128::MAX - 5);
    assert_eq!(b.get_u128_ne(), u128::MAX - 5);
    assert_eq!(b.remaining(), 0);
}

#[test]
fn byte_orders_lay_out_bytes() {
    let mut b = BufferMut::new();
    b.put_u32_le(0x0102_0304);
    b.put_u32_be(0x0102_0304);
    b.put_u16_ne(0x0A0B);
    let mut expected = vec![4, 3, 2, 1, 1, 2, 3, 4];
    expected.extend_from_slice(&0x0A0Bu16.to_ne_bytes());
    assert_eq!(b.into_vec(), expected);
}

#[test]
fn freezing_and_thawing_keeps_bytes() {
    let mut m = BufferMut::new();
    m.put_slice(&bytes(100));
    let frozen = Buffer::from(m);
    let back = frozen.into_mut();
    assert_eq!(back.into_vec(), bytes(100));

    let mut small = BufferMut::new();
    small.put_slice(&[9, 8, 7]);
    let back = Buffer::from(small).into_mut();
    assert!(back.is_inlined());
    assert_eq!(back.into_vec(), vec![9, 8, 7]);
}

#[test]
fn thawing_a_shared_buffer_copies() {
    let frozen = Buffer::from_vec(bytes(64));
    let keep = frozen.clone();
    let mut m = frozen.into_mut();
    m.put_u8(1);
    assert_eq!(keep.as_slice().to_vec(), bytes(64));
    let mut expected = bytes(64);
    expected.push(1);
    assert_eq!(m.into_vec(), expected);
}

#[test]
fn static_buffer_thaws_onto_the_heap() {
    let b = Buffer::from_static(&[1, 2, 3, 4, 5]);
    let m = b.into_mut();
    assert!(!m.is_inlined());
    assert_eq!(m.into_vec(), vec![1, 2, 3, 4, 5]);
}

#[test]
fn truncate_clamps_the_reader() {
    let mut b = Buffer::from_vec(bytes(50));
    b.advance(40);
    b.truncate(30);
    assert_eq!(b.len(), 30);
    assert_eq!(b.remaining(), 0);
    b.truncate(100);
    assert_eq!(b.len(), 30);
    b.reset_reader_index();
    assert_eq!(b.remaining(), 30);
}

#[test]
fn clear_empties() {
    let mut b = Buffer::from_vec(bytes(50));
    b.clear();
    assert!(b.is_empty());
    let mut m = BufferMut::from_vec(bytes(50));
    m.clear();
    assert!(m.is_empty());
    m.put_u8(4);
    assert_eq!(m.into_vec(), vec![4]);
}

#[test]
fn put_bytes_repeats() {
    let mut b = BufferMut::new();
    b.put_bytes(7, 3);
    b.put_bytes(9, 30);
    let mut expected = vec![7; 3];
    expected.extend_from_slice(&[9; 30]);
    assert_eq!(b.into_vec(), expected);
}

#[test]
fn capacity_grows_geometrically() {
    let mut b = BufferMut::new();
    b.put_slice(&bytes(40));
    assert_eq!(b.capacity(), 64);
    b.put_slice(&bytes(20));
    assert_eq!(b.capacity(), 128);
    b.put_slice(&bytes(200));
    assert_eq!(b.capacity(), 512);
    assert_eq!(b.len(), 260);
}

#[test]
fn with_capacity_and_reserve_make_room() {
    let b = BufferMut::with_capacity(10);
    assert!(b.is_inlined());
    assert_eq!(b.len(), 0);
    let mut b = BufferMut::with_capacity(1000);
    assert!(!b.is_inlined());
    assert!(b.capacity() >= 1000 + ADDITIONAL_BUFFER_CAP);
    let cap = b.capacity();
    b.put_slice(&bytes(1000));
    assert_eq!(b.capacity(), cap);
    let mut r = BufferRW::new();
    r.reserve(100);
    assert!(!r.is_inlined());
    assert_eq!(r.len(), 0);
}

#[test]
fn zeroed_holds_zeros() {
    let z = BufferMut::zeroed(5);
    assert_eq!(z.into_vec(), vec![0; 5]);
    let z = BufferRW::zeroed(100);
    assert_eq!(z.into_vec(), vec![0; 100]);
}

#[test]
fn resize_grows_with_zeros_and_cuts() {
    let mut b = BufferRW::from_vec(vec![1, 2, 3]);
    b.resize(6);
    assert_eq!(b.clone().into_vec(), vec![1, 2, 3, 0, 0, 0]);
    b.advance(5);
    b.resize(2);
    assert_eq!(b.remaining(), 0);
    assert_eq!(b.into_vec(), vec![1, 2]);
}

#[test]
fn reset_writer_index_empties_but_keeps_storage() {
    let mut b = BufferRW::from_vec(bytes(100));
    let cap = b.capacity();
    b.reset_writer_index();
    assert_eq!(b.len(), 0);
    assert_eq!(b.capacity(), cap);
    b.put_u8(3);
    assert_eq!(b.get_u8(), 3);
}

#[test]
fn rw_split_and_join() {
    let v = bytes(40);
    let mut b = BufferRW::from_vec(v.clone());
    b.advance(4);
    let r = b.split_off(6);
    assert_eq!(b.remaining(), 6);
    assert_eq!(r.remaining(), 30);
    b.unsplit(r);
    assert_eq!(b.remaining(), 40);
    assert_eq!(b.into_vec(), v);
}

#[test]
fn rw_refuses_a_right_half_already_read() {
    let v = bytes(40);
    let mut b = BufferRW::from_vec(v.clone());
    let mut r = b.split_off(10);
    r.get_u8();
    let r = b.try_unsplit(r).unwrap_err();
    assert_eq!(r.remaining(), 29);
    assert_eq!(b.len(), 10);
}

#[test]
fn mut_split_to_and_join() {
    let v = bytes(50);
    let mut b = BufferMut::from_vec(v.clone());
    let mut front = b.split_to(20);
    assert_eq!(front.len(), 20);
    assert_eq!(b.len(), 30);
    front.unsplit(b);
    assert_eq!(front.into_vec(), v);
}

#[test]
fn into_vec_hands_over_or_copies() {
    let b = Buffer::from_vec(bytes(100));
    assert_eq!(b.into_vec(), bytes(100));
    let mut b = Buffer::from_vec(bytes(100));
    let front = b.split_to(10);
    assert_eq!(b.into_vec(), bytes(100)[10..].to_vec());
    assert_eq!(front.into_vec(), bytes(100)[..10].to_vec());
    let b = Buffer::from_static(&[5, 6]);
    assert_eq!(b.into_vec(), vec![5, 6]);
}

#[test]
fn kinds_follow_the_storage() {
    assert_eq!(BufferMut::new().is_inlined(), true);
    let b = Buffer::from_static(&[1]);
    assert!(b.is_static() && !b.is_inlined());
}

#[test]
fn defaults_are_empty() {
    assert!(Buffer::default().is_empty());
    assert!(BufferMut::default().is_inlined());
    assert_eq!(BufferRW::default().remaining(), 0);
}

#[test]
fn inline_bytes_move_to_the_front_before_growing() {
    let mut b = BufferMut::from_vec(bytes(20));
    let front = b.split_to(10);
    assert_eq!(front.len(), 10);
    b.put_slice(&[1, 2, 3, 4, 5, 6, 7, 8, 9, 10, 11, 12, 13]);
    assert!(b.is_inlined());
    assert_eq!(b.len(), 23);
    let mut expected = bytes(20)[10..].to_vec();
    expected.extend_from_slice(&[1, 2, 3, 4, 5, 6, 7, 8, 9, 10, 11, 12, 13]);
    assert_eq!(b.into_vec(), expected);
}

#[test]
fn clones_keep_length_capacity_and_bytes() {
    let mut m = BufferMut::new();
    m.put_slice(&bytes(27));
    let c = m.clone();
    assert_eq!(c.len(), m.len());
    assert_eq!(c.capacity(), m.capacity());
    assert_eq!(c.into_vec(), m.into_vec());
    let b = Buffer::from_vec(bytes(27));
    let mut c = b.clone();
    c.advance(27);
    assert_eq!(b.remaining(), 27);
    assert_eq!(c.capacity(), b.capacity());
}

#[test]
fn shrink_of_an_owned_heap_buffer_is_tight() {
    let mut m = BufferMut::with_capacity(1000);
    m.put_slice(&bytes(30));
    m.shrink();
    assert_eq!(m.capacity(), 30 + ADDITIONAL_BUFFER_CAP);
    assert_eq!(m.into_vec(), bytes(30));
    let mut r = BufferRW::from_vec(bytes(100));
    r.truncate(40);
    r.shrink();
    assert_eq!(r.capacity(), 40 + ADDITIONAL_BUFFER_CAP);
}

#[test]
fn resize_and_reset_keep_room() {
    let mut r = BufferRW::new();
    r.resize(100);
    assert!(r.capacity() >= 100);
    let cap = r.capacity();
    r.reset_writer_index();
    assert_eq!(r.capacity(), cap);
}
