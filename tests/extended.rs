use buffers::buffer::BufferGeneric;
use buffers::buffer_format::extended::FormatExtended;
use buffers::buffer_format::ReferenceBuffer;
use buffers::buffer_mut::BufferMutGeneric;
use buffers::buffer_rw::BufferRWGeneric;
use buffers::{GenericBuffer, ReadableBuffer, ReadonlyBuffer, WritableBuffer, ADDITIONAL_BUFFER_CAP};

type Wide = BufferGeneric<FormatExtended>;
type WideMut = BufferMutGeneric<FormatExtended>;
type WideRW = BufferRWGeneric<FormatExtended>;

fn pattern(n: usize) -> Vec<u8> {
    (0..n).map(|i| (i % 251) as u8).collect()
}

#[test]
fn extended_format_reads_and_writes() {
    let mut b = WideMut::new();
    b.put_u8(2);
    b.put_u64_le(8);
    assert!(b.is_inlined());
    b.put_u128_be(77);
    assert!(!b.is_inlined());
    let mut frozen = Wide::from(b);
    assert_eq!(frozen.get_u8(), 2);
    assert_eq!(frozen.get_u64_le(), 8);
    assert_eq!(frozen.get_u128_be(), 77);
}

#[test]
fn extended_capacity_is_rounded_to_its_mantissa() {
    let n = (1usize << 24) + 1;
    let b = WideMut::with_capacity(n);
    let cap = b.capacity();
    assert!(cap >= n + ADDITIONAL_BUFFER_CAP);
    assert_eq!(cap % 2, 0);
    assert!(cap <= n + ADDITIONAL_BUFFER_CAP + 1);
}

#[test]
fn extended_reader_index_past_the_low_bits() {
    let n = (1usize << 24) + 1000;
    let v = pattern(n);
    let mut b = Wide::from_vec(v.clone());
    let far = (1usize << 24) + 17;
    b.advance(far);
    assert_eq!(b.remaining(), n - far);
    assert_eq!(b.get_u8(), v[far]);
    let mut rw = WideRW::from(b);
    assert_eq!(rw.get_u8(), v[far + 1]);
    rw.put_u32_le(9);
    rw.advance(n - far - 2);
    assert_eq!(rw.get_u32_le(), 9);
}

#[test]
fn extended_split_and_unsplit() {
    let v = pattern(300);
    let mut b = Wide::from_vec(v.clone());
    let r = b.split_off(120);
    assert_eq!(r.as_slice(), &v[120..]);
    b.unsplit(r);
    assert_eq!(b.as_slice(), &v[..]);
}

#[test]
fn reference_words_keep_their_fields() {
    let mut r = ReferenceBuffer::new(0xab_cdef, 0x12_3456_789a, 0xff_ffff_ffff);
    assert_eq!(r.capacity_raw(), 0xab_cdef);
    assert_eq!(r.offset(), 0x12_3456_789a);
    assert_eq!(r.wrx(), 0xff_ffff_ffff);
    assert_eq!(r.rdx_lower(), 0);
    r.set_rdx_lower(0x12_3456);
    r.set_wrx(5);
    assert_eq!(r.rdx_lower(), 0x12_3456);
    assert_eq!(r.wrx(), 5);
    r.set_offset(7);
    r.set_capacity_raw(3);
    assert_eq!(r.offset(), 7);
    assert_eq!(r.capacity_raw(), 3);
    assert_eq!(r.rdx_lower(), 0x12_3456);
}

#[test]
fn slice_narrows_without_copying() {
    let v = pattern(100);
    let mut b = buffers::buffer::Buffer::from_vec(v.clone());
    b.advance(10);
    let s = b.slice(5, 25);
    assert_eq!(s.as_slice(), &v[15..35]);
    assert_eq!(b.ref_count(), 2);
    let small = buffers::buffer::Buffer::from_static(&[1, 2, 3, 4, 5]);
    let t = small.slice(1, 3);
    assert!(t.is_static());
    assert_eq!(t.as_slice(), &[2, 3]);
}

#[test]
fn fixed_size_reads() {
    let mut b = buffers::buffer::Buffer::from_static(&[9, 8, 7, 6, 5]);
    let head: [u8; 3] = b.get_slice_bound::<3>();
    assert_eq!(head, [9, 8, 7]);
    assert_eq!(b.remaining(), 2);
}
