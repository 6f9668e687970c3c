use vstd::prelude::*;

pub mod buffer_format;
pub mod buffer;
pub mod buffer_mut;
pub mod buffer_rw;
mod util;
mod shared;
mod owned;
pub mod endian;
pub mod laws;

use crate::buffer_format::{BufferKind, INLINE_SIZE};
use crate::endian::{be_bytes, be_value, decode_be, decode_le, encode_be, encode_le, le_bytes, le_value};
use crate::endian::{lemma_pow256_values, lemma_be_bytes_len, lemma_be_value_bound, lemma_le_bytes_len, lemma_le_value_bound};
use crate::shared::native_is_little;

verus! {

/// Size of the reference-count word that a heap capacity accounts for.
pub const METADATA_SIZE: usize = 8;

/// Slack that every heap capacity counts on top of the bytes it can hold: the
/// reference-count word and its alignment.
pub const ADDITIONAL_BUFFER_CAP: usize = METADATA_SIZE + 8 - 1;

/// Capacity of the first heap allocation after an inlined buffer outgrows itself: the
/// next power of two of twice `INLINE_SIZE`.
pub const INITIAL_CAP: usize = 64;

/// Base of the geometric growth of heap capacities.
pub const GROWTH_FACTOR: usize = 2;

/// Operations that every buffer offers.
///
/// Each buffer has contents (a byte sequence) and a position inside them: the reader
/// index of a readable buffer, the start of the contents for a write-only one. Splits
/// happen at that position plus an offset.
pub trait GenericBuffer: Sized {
    spec fn wf(&self) -> bool;

    spec fn contents(&self) -> Seq<u8>;

    /// The type-dependent index, counted from the start of the contents.
    spec fn pos(&self) -> nat;

    /// Where the bytes live.
    spec fn kind(&self) -> BufferKind;

    /// The capacity: `INLINE_SIZE` while inlined, else the size of the allocation
    /// (counting `ADDITIONAL_BUFFER_CAP`) or of the static bytes.
    spec fn cap(&self) -> nat;

    /// The capacity of a heap allocation that holds exactly the contents.
    spec fn tight_cap(&self) -> nat;

    /// No other buffer sees this buffer's storage.
    spec fn unshared(&self) -> bool;

    /// The longest contents that a buffer of this type adopts from a vector.
    spec fn max_len() -> nat;

    /// `self` ends exactly where `right` begins, so the two can be joined again.
    spec fn adjacent(&self, right: &Self) -> bool;

    proof fn lemma_wf(&self)
        requires
            self.wf(),
        ensures
            self.pos() <= self.contents().len() <= usize::MAX,
            self.contents().len() <= self.cap(),
    ;

    /// Creates a new empty buffer.
    fn new() -> (r: Self)
        ensures
            r.wf(),
            r.contents() == Seq::<u8>::empty(),
            r.pos() == 0,
            r.kind() == BufferKind::Inlined,
            r.cap() == INLINE_SIZE,
    ;

    /// Takes over the bytes of a vector; short contents are stored inline.
    fn from_vec(value: Vec<u8>) -> (r: Self)
        requires
            value@.len() <= Self::max_len(),
        ensures
            r.wf(),
            r.contents() == value@,
            r.pos() == 0,
            r.kind() == if value@.len() <= INLINE_SIZE { BufferKind::Inlined } else { BufferKind::Reference },
    ;

    /// The contents as a vector; a sole heap allocation is handed over without copying.
    fn into_vec(self) -> (r: Vec<u8>)
        requires
            self.wf(),
        ensures
            r@ == self.contents(),
    ;

    /// The contents as a slice.
    fn as_slice(&self) -> (r: &[u8])
        requires
            self.wf(),
        ensures
            r@ == self.contents(),
    ;

    fn is_empty(&self) -> (r: bool)
        requires
            self.wf(),
        ensures
            r == (self.contents().len() == 0),
    {
        self.len() == 0
    }

    fn len(&self) -> (r: usize)
        requires
            self.wf(),
        ensures
            r == self.contents().len(),
    ;

    fn clear(&mut self)
        requires
            old(self).wf(),
        ensures
            final(self).wf(),
            final(self).contents() == Seq::<u8>::empty(),
            final(self).pos() == 0,
    ;

    /// Moves a heap buffer whose allocation is larger than its contents need to a
    /// tight one. A buffer that shares its allocation keeps it; inlined and static
    /// buffers stay as they are.
    fn shrink(&mut self)
        requires
            old(self).wf(),
        ensures
            final(self).wf(),
            final(self).contents() == old(self).contents(),
            final(self).pos() == old(self).pos(),
            final(self).kind() == old(self).kind(),
            final(self).cap() <= old(self).cap(),
            final(self).cap() == old(self).cap() || final(self).cap() == old(self).tight_cap(),
            old(self).kind() != BufferKind::Reference ==> final(self).cap() == old(self).cap(),
            old(self).kind() == BufferKind::Reference && old(self).unshared() ==> final(self).cap() == if old(self).tight_cap() < old(self).cap() {
                old(self).tight_cap()
            } else {
                old(self).cap()
            },
    ;

    /// Cuts the contents down to `len` bytes, if they are longer; the position follows.
    fn truncate(&mut self, len: usize)
        requires
            old(self).wf(),
        ensures
            final(self).wf(),
            final(self).contents() == if len < old(self).contents().len() {
                old(self).contents().take(len as int)
            } else {
                old(self).contents()
            },
            final(self).pos() == if len < old(self).pos() { len as nat } else { old(self).pos() },
            final(self).kind() == old(self).kind(),
            final(self).cap() == old(self).cap(),
    ;

    /// Splits off everything past `offset` bytes from the position and returns it.
    fn split_off(&mut self, offset: usize) -> (r: Self)
        requires
            old(self).wf(),
            old(self).pos() + offset < old(self).contents().len(),
        ensures
            final(self).wf(),
            r.wf(),
            final(self).contents() == old(self).contents().take(old(self).pos() + offset),
            r.contents() == old(self).contents().skip(old(self).pos() + offset),
            final(self).pos() == old(self).pos(),
            r.pos() == 0,
            final(self).adjacent(&r),
            final(self).kind() == old(self).kind(),
            r.kind() == old(self).kind(),
            final(self).cap() == old(self).cap(),
            r.cap() == old(self).cap(),
    ;

    /// Splits off everything before `offset` bytes past the position and returns it.
    fn split_to(&mut self, offset: usize) -> (r: Self)
        requires
            old(self).wf(),
            old(self).pos() + offset <= old(self).contents().len(),
        ensures
            final(self).wf(),
            r.wf(),
            r.contents() == old(self).contents().take(old(self).pos() + offset),
            final(self).contents() == old(self).contents().skip(old(self).pos() + offset),
            r.pos() == old(self).pos(),
            final(self).pos() == 0,
            r.adjacent(&*final(self)),
            final(self).kind() == old(self).kind(),
            r.kind() == old(self).kind(),
            final(self).cap() == old(self).cap(),
            r.cap() == old(self).cap(),
    ;

    /// Splits at the position, leaving nothing past it in `self`.
    fn split(&mut self) -> (r: Self)
        requires
            old(self).wf(),
            old(self).pos() < old(self).contents().len(),
        ensures
            final(self).wf(),
            r.wf(),
            final(self).contents() == old(self).contents().take(old(self).pos() as int),
            r.contents() == old(self).contents().skip(old(self).pos() as int),
            final(self).pos() == old(self).pos(),
            r.pos() == 0,
            final(self).adjacent(&r),
            final(self).kind() == old(self).kind(),
            r.kind() == old(self).kind(),
            final(self).cap() == old(self).cap(),
            r.cap() == old(self).cap(),
    ;

    /// Joins `self` with a buffer that was split off from it; the position goes back to
    /// the start of the joined contents.
    fn unsplit(&mut self, other: Self)
        requires
            old(self).wf(),
            other.wf(),
            old(self).adjacent(&other) || other.adjacent(&*old(self)),
        ensures
            final(self).wf(),
            final(self).pos() == 0,
            old(self).adjacent(&other) ==> final(self).contents() == old(self).contents() + other.contents(),
            !old(self).adjacent(&other) ==> final(self).contents() == other.contents() + old(self).contents(),
    ;

    /// Joins as `unsplit` does, or hands `other` back unchanged where the two are not
    /// adjacent.
    fn try_unsplit(&mut self, other: Self) -> (r: Result<(), Self>)
        requires
            old(self).wf(),
            other.wf(),
        ensures
            final(self).wf(),
            r.is_ok() == (old(self).adjacent(&other) || other.adjacent(&*old(self))),
            r.is_ok() ==> final(self).pos() == 0,
            r.is_ok() && old(self).adjacent(&other) ==> final(self).contents() == old(self).contents() + other.contents(),
            r.is_ok() && !old(self).adjacent(&other) ==> final(self).contents() == other.contents() + old(self).contents(),
            r is Err ==> *final(self) == *old(self) && r->Err_0 == other,
    ;
}

/// Operations of buffers that are read through a reader index.
pub trait ReadableBuffer: GenericBuffer {
    /// The longest static slice that such a buffer can reference.
    spec fn max_static_len() -> nat;

    /// A buffer that reads `buf` in place, without copying it.
    fn from_static(buf: &'static [u8]) -> (r: Self)
        requires
            buf@.len() <= Self::max_static_len(),
        ensures
            r.wf(),
            r.contents() == buf@,
            r.pos() == 0,
            r.kind() == BufferKind::StaticReference,
    ;

    /// Moves the reader index back to the start of the contents.
    fn reset_reader_index(&mut self)
        requires
            old(self).wf(),
        ensures
            final(self).wf(),
            final(self).contents() == old(self).contents(),
            final(self).pos() == 0,
            final(self).kind() == old(self).kind(),
    ;

    /// Advances the reader index by `amount`.
    fn advance(&mut self, amount: usize)
        requires
            old(self).wf(),
            old(self).pos() + amount <= old(self).contents().len(),
        ensures
            final(self).wf(),
            final(self).contents() == old(self).contents(),
            final(self).pos() == old(self).pos() + amount,
            final(self).kind() == old(self).kind(),
    ;

    /// The number of bytes that are left to read.
    fn remaining(&self) -> (r: usize)
        requires
            self.wf(),
        ensures
            r == self.contents().len() - self.pos(),
    ;

    /// Reads the next `bytes` bytes.
    fn get_slice(&mut self, bytes: usize) -> (r: &[u8])
        requires
            old(self).wf(),
            old(self).pos() + bytes <= old(self).contents().len(),
        ensures
            final(self).wf(),
            final(self).contents() == old(self).contents(),
            final(self).pos() == old(self).pos() + bytes,
            final(self).kind() == old(self).kind(),
            r@ == old(self).contents().subrange(old(self).pos() as int, old(self).pos() + bytes),
    ;

    /// Reads the next `LEN` bytes into an array.
    fn get_slice_bound<const LEN: usize>(&mut self) -> (r: [u8; LEN])
        requires
            old(self).wf(),
            old(self).pos() + LEN <= old(self).contents().len(),
        ensures
            final(self).wf(),
            final(self).contents() == old(self).contents(),
            final(self).pos() == old(self).pos() + LEN,
            final(self).kind() == old(self).kind(),
            r@ == old(self).contents().subrange(old(self).pos() as int, old(self).pos() + LEN),
    {
        let src = self.get_slice(LEN);
        let mut ret = [0u8; LEN];
        let mut i: usize = 0;
        while i < LEN
            invariant
                ret@.len() == LEN,
                src@.len() == LEN,
                i <= LEN,
                forall|j: int| 0 <= j < i ==> ret@[j] == src@[j],
            decreases LEN - i,
        {
            ret[i] = src[i];
            i = i + 1;
        }
        assert(ret@ =~= src@);
        ret
    }

    /// Reads the next byte.
    fn get_u8(&mut self) -> (r: u8)
        requires
            old(self).wf(),
            old(self).pos() < old(self).contents().len(),
        ensures
            final(self).wf(),
            final(self).contents() == old(self).contents(),
            final(self).pos() == old(self).pos() + 1,
            final(self).kind() == old(self).kind(),
            r == old(self).contents()[old(self).pos() as int],
    ;

    fn get_u16_le(&mut self) -> (r: u16)
        requires
            old(self).wf(),
            old(self).pos() + 2 <= old(self).contents().len(),
        ensures
            final(self).wf(),
            final(self).contents() == old(self).contents(),
            final(self).pos() == old(self).pos() + 2,
            final(self).kind() == old(self).kind(),
            r == le_value(old(self).contents().subrange(old(self).pos() as int, old(self).pos() + 2 as int)),
    {
        let bytes = self.get_slice(2);
        proof { lemma_le_value_bound(bytes@); lemma_pow256_values(); }
        decode_le(bytes) as u16
    }

    fn get_u16_be(&mut self) -> (r: u16)
        requires
            old(self).wf(),
            old(self).pos() + 2 <= old(self).contents().len(),
        ensures
            final(self).wf(),
            final(self).contents() == old(self).contents(),
            final(self).pos() == old(self).pos() + 2,
            final(self).kind() == old(self).kind(),
            r == be_value(old(self).contents().subrange(old(self).pos() as int, old(self).pos() + 2 as int)),
    {
        let bytes = self.get_slice(2);
        proof { lemma_be_value_bound(bytes@); lemma_pow256_values(); }
        decode_be(bytes) as u16
    }

    /// Reads in the byte order of the host, which is little or big endian.
    fn get_u16_ne(&mut self) -> (r: u16)
        requires
            old(self).wf(),
            old(self).pos() + 2 <= old(self).contents().len(),
        ensures
            final(self).wf(),
            final(self).contents() == old(self).contents(),
            final(self).pos() == old(self).pos() + 2,
            final(self).kind() == old(self).kind(),
            r == le_value(old(self).contents().subrange(old(self).pos() as int, old(self).pos() + 2 as int))
                || r == be_value(old(self).contents().subrange(old(self).pos() as int, old(self).pos() + 2 as int)),
    {
        if native_is_little() {
            self.get_u16_le()
        } else {
            self.get_u16_be()
        }
    }

    fn get_u32_le(&mut self) -> (r: u32)
        requires
            old(self).wf(),
            old(self).pos() + 4 <= old(self).contents().len(),
        ensures
            final(self).wf(),
            final(self).contents() == old(self).contents(),
            final(self).pos() == old(self).pos() + 4,
            final(self).kind() == old(self).kind(),
            r == le_value(old(self).contents().subrange(old(self).pos() as int, old(self).pos() + 4 as int)),
    {
        let bytes = self.get_slice(4);
        proof { lemma_le_value_bound(bytes@); lemma_pow256_values(); }
        decode_le(bytes) as u32
    }

    fn get_u32_be(&mut self) -> (r: u32)
        requires
            old(self).wf(),
            old(self).pos() + 4 <= old(self).contents().len(),
        ensures
            final(self).wf(),
            final(self).contents() == old(self).contents(),
            final(self).pos() == old(self).pos() + 4,
            final(self).kind() == old(self).kind(),
            r == be_value(old(self).contents().subrange(old(self).pos() as int, old(self).pos() + 4 as int)),
    {
        let bytes = self.get_slice(4);
        proof { lemma_be_value_bound(bytes@); lemma_pow256_values(); }
        decode_be(bytes) as u32
    }

    /// Reads in the byte order of the host, which is little or big endian.
    fn get_u32_ne(&mut self) -> (r: u32)
        requires
            old(self).wf(),
            old(self).pos() + 4 <= old(self).contents().len(),
        ensures
            final(self).wf(),
            final(self).contents() == old(self).contents(),
            final(self).pos() == old(self).pos() + 4,
            final(self).kind() == old(self).kind(),
            r == le_value(old(self).contents().subrange(old(self).pos() as int, old(self).pos() + 4 as int))
                || r == be_value(old(self).contents().subrange(old(self).pos() as int, old(self).pos() + 4 as int)),
    {
        if native_is_little() {
            self.get_u32_le()
        } else {
            self.get_u32_be()
        }
    }

    fn get_u64_le(&mut self) -> (r: u64)
        requires
            old(self).wf(),
            old(self).pos() + 8 <= old(self).contents().len(),
        ensures
            final(self).wf(),
            final(self).contents() == old(self).contents(),
            final(self).pos() == old(self).pos() + 8,
            final(self).kind() == old(self).kind(),
            r == le_value(old(self).contents().subrange(old(self).pos() as int, old(self).pos() + 8 as int)),
    {
        let bytes = self.get_slice(8);
        proof { lemma_le_value_bound(bytes@); lemma_pow256_values(); }
        decode_le(bytes) as u64
    }

    fn get_u64_be(&mut self) -> (r: u64)
        requires
            old(self).wf(),
            old(self).pos() + 8 <= old(self).contents().len(),
        ensures
            final(self).wf(),
            final(self).contents() == old(self).contents(),
            final(self).pos() == old(self).pos() + 8,
            final(self).kind() == old(self).kind(),
            r == be_value(old(self).contents().subrange(old(self).pos() as int, old(self).pos() + 8 as int)),
    {
        let bytes = self.get_slice(8);
        proof { lemma_be_value_bound(bytes@); lemma_pow256_values(); }
        decode_be(bytes) as u64
    }

    /// Reads in the byte order of the host, which is little or big endian.
    fn get_u64_ne(&mut self) -> (r: u64)
        requires
            old(self).wf(),
            old(self).pos() + 8 <= old(self).contents().len(),
        ensures
            final(self).wf(),
            final(self).contents() == old(self).contents(),
            final(self).pos() == old(self).pos() + 8,
            final(self).kind() == old(self).kind(),
            r == le_value(old(self).contents().subrange(old(self).pos() as int, old(self).pos() + 8 as int))
                || r == be_value(old(self).contents().subrange(old(self).pos() as int, old(self).pos() + 8 as int)),
    {
        if native_is_little() {
            self.get_u64_le()
        } else {
            self.get_u64_be()
        }
    }

    fn get_u128_le(&mut self) -> (r: u128)
        requires
            old(self).wf(),
            old(self).pos() + 16 <= old(self).contents().len(),
        ensures
            final(self).wf(),
            final(self).contents() == old(self).contents(),
            final(self).pos() == old(self).pos() + 16,
            final(self).kind() == old(self).kind(),
            r == le_value(old(self).contents().subrange(old(self).pos() as int, old(self).pos() + 16 as int)),
    {
        let bytes = self.get_slice(16);
        proof { lemma_le_value_bound(bytes@); lemma_pow256_values(); }
        decode_le(bytes) as u128
    }

    fn get_u128_be(&mut self) -> (r: u128)
        requires
            old(self).wf(),
            old(self).pos() + 16 <= old(self).contents().len(),
        ensures
            final(self).wf(),
            final(self).contents() == old(self).contents(),
            final(self).pos() == old(self).pos() + 16,
            final(self).kind() == old(self).kind(),
            r == be_value(old(self).contents().subrange(old(self).pos() as int, old(self).pos() + 16 as int)),
    {
        let bytes = self.get_slice(16);
        proof { lemma_be_value_bound(bytes@); lemma_pow256_values(); }
        decode_be(bytes) as u128
    }

    /// Reads in the byte order of the host, which is little or big endian.
    fn get_u128_ne(&mut self) -> (r: u128)
        requires
            old(self).wf(),
            old(self).pos() + 16 <= old(self).contents().len(),
        ensures
            final(self).wf(),
            final(self).contents() == old(self).contents(),
            final(self).pos() == old(self).pos() + 16,
            final(self).kind() == old(self).kind(),
            r == le_value(old(self).contents().subrange(old(self).pos() as int, old(self).pos() + 16 as int))
                || r == be_value(old(self).contents().subrange(old(self).pos() as int, old(self).pos() + 16 as int)),
    {
        if native_is_little() {
            self.get_u128_le()
        } else {
            self.get_u128_be()
        }
    }
}

/// Buffers whose views can be narrowed without copying.
pub trait ReadonlyBuffer: ReadableBuffer {
    /// A view of the bytes from `start` to `end`, both counted from the reader index.
    fn slice(&self, start: usize, end: usize) -> (r: Self)
        requires
            self.wf(),
            start <= end,
            self.pos() + end <= self.contents().len(),
        ensures
            r.wf(),
            r.contents() == self.contents().subrange(self.pos() + start, self.pos() + end),
            r.pos() == 0,
            r.kind() == self.kind(),
    ;
}

/// Operations of buffers that are written at the end of their contents.
pub trait WritableBuffer: GenericBuffer {
    /// Whether `additional` more bytes still fit inside the value.
    spec fn fits_inline(&self, additional: nat) -> bool;

    /// How many bytes can be written before the storage has to grow.
    spec fn room(&self) -> nat;

    /// A buffer with room for at least `capacity` bytes.
    fn with_capacity(capacity: usize) -> (r: Self)
        requires
            capacity <= Self::max_len(),
        ensures
            r.wf(),
            r.contents() == Seq::<u8>::empty(),
            r.pos() == 0,
            r.room() >= capacity,
            r.kind() == if capacity <= INLINE_SIZE { BufferKind::Inlined } else { BufferKind::Reference },
    ;

    /// A buffer that holds `len` zero bytes.
    fn zeroed(len: usize) -> (r: Self)
        requires
            len <= Self::max_len(),
        ensures
            r.wf(),
            r.contents() == Seq::new(len as nat, |_i: int| 0u8),
            r.pos() == 0,
            r.kind() == if len <= INLINE_SIZE { BufferKind::Inlined } else { BufferKind::Reference },
    ;

    /// Moves the writer index (and with it the reader index) back to the start, keeping
    /// the storage.
    fn reset_writer_index(&mut self)
        requires
            old(self).wf(),
        ensures
            final(self).wf(),
            final(self).contents() == Seq::<u8>::empty(),
            final(self).pos() == 0,
            final(self).kind() == old(self).kind(),
            final(self).cap() == old(self).cap(),
    ;

    /// Makes room for `size` more bytes.
    fn reserve(&mut self, size: usize)
        requires
            old(self).wf(),
            old(self).contents().len() + size <= Self::max_len(),
        ensures
            final(self).wf(),
            final(self).contents() == old(self).contents(),
            final(self).pos() == old(self).pos(),
            final(self).room() >= size,
            final(self).kind() == if old(self).fits_inline(size as nat) { BufferKind::Inlined } else { BufferKind::Reference },
    ;

    /// Cuts the contents to `size` bytes, or extends them with zeros to `size` bytes.
    fn resize(&mut self, size: usize)
        requires
            old(self).wf(),
            size <= Self::max_len(),
        ensures
            final(self).wf(),
            final(self).contents() == if size <= old(self).contents().len() {
                old(self).contents().take(size as int)
            } else {
                old(self).contents() + Seq::new((size - old(self).contents().len()) as nat, |_i: int| 0u8)
            },
            final(self).pos() == if size < old(self).pos() { size as nat } else { old(self).pos() },
            final(self).cap() >= size,
    ;

    /// `INLINE_SIZE` while inlined; the size of the allocation on the heap.
    fn capacity(&self) -> (r: usize)
        requires
            self.wf(),
        ensures
            r == self.cap(),
            self.kind() == BufferKind::Inlined ==> r == INLINE_SIZE,
            self.kind() == BufferKind::Reference ==> r >= self.room() + self.contents().len() + ADDITIONAL_BUFFER_CAP,
    ;

    /// Appends `repeat` copies of `val`.
    fn put_bytes(&mut self, val: u8, repeat: usize)
        requires
            old(self).wf(),
            old(self).contents().len() + repeat <= Self::max_len(),
        ensures
            final(self).wf(),
            final(self).contents() == old(self).contents() + Seq::new(repeat as nat, |_i: int| val),
            final(self).pos() == old(self).pos(),
            final(self).kind() == if old(self).fits_inline(repeat as nat) { BufferKind::Inlined } else { BufferKind::Reference },
    ;

    /// Appends the bytes of `val`.
    fn put_slice(&mut self, val: &[u8])
        requires
            old(self).wf(),
            old(self).contents().len() + val@.len() <= Self::max_len(),
        ensures
            final(self).wf(),
            final(self).contents() == old(self).contents() + val@,
            final(self).pos() == old(self).pos(),
            final(self).kind() == if old(self).fits_inline(val@.len()) { BufferKind::Inlined } else { BufferKind::Reference },
    ;

    /// Appends one byte.
    fn put_u8(&mut self, val: u8)
        requires
            old(self).wf(),
            old(self).contents().len() + 1 <= Self::max_len(),
        ensures
            final(self).wf(),
            final(self).contents() == old(self).contents().push(val),
            final(self).pos() == old(self).pos(),
            final(self).kind() == if old(self).fits_inline(1) { BufferKind::Inlined } else { BufferKind::Reference },
    ;

    fn put_u16_le(&mut self, val: u16)
        requires
            old(self).wf(),
            old(self).contents().len() + 2 <= Self::max_len(),
        ensures
            final(self).wf(),
            final(self).contents() == old(self).contents() + le_bytes(val as nat, 2),
            final(self).pos() == old(self).pos(),
            final(self).kind() == if old(self).fits_inline(2) { BufferKind::Inlined } else { BufferKind::Reference },
    {
        let raw = encode_le(val as u128, 2);
        proof { lemma_le_bytes_len(val as nat, 2); }
        self.put_slice(raw.as_slice());
    }

    fn put_u16_be(&mut self, val: u16)
        requires
            old(self).wf(),
            old(self).contents().len() + 2 <= Self::max_len(),
        ensures
            final(self).wf(),
            final(self).contents() == old(self).contents() + be_bytes(val as nat, 2),
            final(self).pos() == old(self).pos(),
            final(self).kind() == if old(self).fits_inline(2) { BufferKind::Inlined } else { BufferKind::Reference },
    {
        let raw = encode_be(val as u128, 2);
        proof { lemma_be_bytes_len(val as nat, 2); }
        self.put_slice(raw.as_slice());
    }

    /// Writes in the byte order of the host, which is little or big endian.
    fn put_u16_ne(&mut self, val: u16)
        requires
            old(self).wf(),
            old(self).contents().len() + 2 <= Self::max_len(),
        ensures
            final(self).wf(),
            final(self).contents() == old(self).contents() + le_bytes(val as nat, 2)
                || final(self).contents() == old(self).contents() + be_bytes(val as nat, 2),
            final(self).pos() == old(self).pos(),
            final(self).kind() == if old(self).fits_inline(2) { BufferKind::Inlined } else { BufferKind::Reference },
    {
        if native_is_little() {
            self.put_u16_le(val)
        } else {
            self.put_u16_be(val)
        }
    }

    fn put_u32_le(&mut self, val: u32)
        requires
            old(self).wf(),
            old(self).contents().len() + 4 <= Self::max_len(),
        ensures
            final(self).wf(),
            final(self).contents() == old(self).contents() + le_bytes(val as nat, 4),
            final(self).pos() == old(self).pos(),
            final(self).kind() == if old(self).fits_inline(4) { BufferKind::Inlined } else { BufferKind::Reference },
    {
        let raw = encode_le(val as u128, 4);
        proof { lemma_le_bytes_len(val as nat, 4); }
        self.put_slice(raw.as_slice());
    }

    fn put_u32_be(&mut self, val: u32)
        requires
            old(self).wf(),
            old(self).contents().len() + 4 <= Self::max_len(),
        ensures
            final(self).wf(),
            final(self).contents() == old(self).contents() + be_bytes(val as nat, 4),
            final(self).pos() == old(self).pos(),
            final(self).kind() == if old(self).fits_inline(4) { BufferKind::Inlined } else { BufferKind::Reference },
    {
        let raw = encode_be(val as u128, 4);
        proof { lemma_be_bytes_len(val as nat, 4); }
        self.put_slice(raw.as_slice());
    }

    /// Writes in the byte order of the host, which is little or big endian.
    fn put_u32_ne(&mut self, val: u32)
        requires
            old(self).wf(),
            old(self).contents().len() + 4 <= Self::max_len(),
        ensures
            final(self).wf(),
            final(self).contents() == old(self).contents() + le_bytes(val as nat, 4)
                || final(self).contents() == old(self).contents() + be_bytes(val as nat, 4),
            final(self).pos() == old(self).pos(),
            final(self).kind() == if old(self).fits_inline(4) { BufferKind::Inlined } else { BufferKind::Reference },
    {
        if native_is_little() {
            self.put_u32_le(val)
        } else {
            self.put_u32_be(val)
        }
    }

    fn put_u64_le(&mut self, val: u64)
        requires
            old(self).wf(),
            old(self).contents().len() + 8 <= Self::max_len(),
        ensures
            final(self).wf(),
            final(self).contents() == old(self).contents() + le_bytes(val as nat, 8),
            final(self).pos() == old(self).pos(),
            final(self).kind() == if old(self).fits_inline(8) { BufferKind::Inlined } else { BufferKind::Reference },
    {
        let raw = encode_le(val as u128, 8);
        proof { lemma_le_bytes_len(val as nat, 8); }
        self.put_slice(raw.as_slice());
    }

    fn put_u64_be(&mut self, val: u64)
        requires
            old(self).wf(),
            old(self).contents().len() + 8 <= Self::max_len(),
        ensures
            final(self).wf(),
            final(self).contents() == old(self).contents() + be_bytes(val as nat, 8),
            final(self).pos() == old(self).pos(),
            final(self).kind() == if old(self).fits_inline(8) { BufferKind::Inlined } else { BufferKind::Reference },
    {
        let raw = encode_be(val as u128, 8);
        proof { lemma_be_bytes_len(val as nat, 8); }
        self.put_slice(raw.as_slice());
    }

    /// Writes in the byte order of the host, which is little or big endian.
    fn put_u64_ne(&mut self, val: u64)
        requires
            old(self).wf(),
            old(self).contents().len() + 8 <= Self::max_len(),
        ensures
            final(self).wf(),
            final(self).contents() == old(self).contents() + le_bytes(val as nat, 8)
                || final(self).contents() == old(self).contents() + be_bytes(val as nat, 8),
            final(self).pos() == old(self).pos(),
            final(self).kind() == if old(self).fits_inline(8) { BufferKind::Inlined } else { BufferKind::Reference },
    {
        if native_is_little() {
            self.put_u64_le(val)
        } else {
            self.put_u64_be(val)
        }
    }

    fn put_u128_le(&mut self, val: u128)
        requires
            old(self).wf(),
            old(self).contents().len() + 16 <= Self::max_len(),
        ensures
            final(self).wf(),
            final(self).contents() == old(self).contents() + le_bytes(val as nat, 16),
            final(self).pos() == old(self).pos(),
            final(self).kind() == if old(self).fits_inline(16) { BufferKind::Inlined } else { BufferKind::Reference },
    {
        let raw = encode_le(val as u128, 16);
        proof { lemma_le_bytes_len(val as nat, 16); }
        self.put_slice(raw.as_slice());
    }

    fn put_u128_be(&mut self, val: u128)
        requires
            old(self).wf(),
            old(self).contents().len() + 16 <= Self::max_len(),
        ensures
            final(self).wf(),
            final(self).contents() == old(self).contents() + be_bytes(val as nat, 16),
            final(self).pos() == old(self).pos(),
            final(self).kind() == if old(self).fits_inline(16) { BufferKind::Inlined } else { BufferKind::Reference },
    {
        let raw = encode_be(val as u128, 16);
        proof { lemma_be_bytes_len(val as nat, 16); }
        self.put_slice(raw.as_slice());
    }

    /// Writes in the byte order of the host, which is little or big endian.
    fn put_u128_ne(&mut self, val: u128)
        requires
            old(self).wf(),
            old(self).contents().len() + 16 <= Self::max_len(),
        ensures
            final(self).wf(),
            final(self).contents() == old(self).contents() + le_bytes(val as nat, 16)
                || final(self).contents() == old(self).contents() + be_bytes(val as nat, 16),
            final(self).pos() == old(self).pos(),
            final(self).kind() == if old(self).fits_inline(16) { BufferKind::Inlined } else { BufferKind::Reference },
    {
        if native_is_little() {
            self.put_u128_le(val)
        } else {
            self.put_u128_be(val)
        }
    }
}

/// Buffers that are read and written.
pub trait RWBuffer: ReadableBuffer + WritableBuffer {}


/// The bytes from the position on.
pub open spec fn unread<B: GenericBuffer>(b: &B) -> Seq<u8> {
    b.contents().skip(b.pos() as int)
}

} // verus!
