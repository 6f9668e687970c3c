use vstd::prelude::*;
use vstd::slice::slice_subrange;
use crate::buffer_format::{BufferFormat, BufferKind, Cursors, Flags, INLINE_SIZE};
use crate::buffer_format::half::FormatHalf;
use crate::buffer::BufferGeneric;
use crate::buffer_mut::BufferMutGeneric;
use crate::owned::{growth_cap, RawBuffer};
use crate::{GenericBuffer, ReadableBuffer, RWBuffer, WritableBuffer, ADDITIONAL_BUFFER_CAP, INITIAL_CAP};

verus! {

/// A growable buffer with a reader index and a writer index.
pub type BufferRW = BufferRWGeneric<FormatHalf>;

/// A buffer that is written at the end and read from its reader index, for when
/// appending and draining interleave. It owns its storage alone; clones copy.
pub struct BufferRWGeneric<L: BufferFormat> {
    pub(crate) raw: RawBuffer<L>,
}

impl<L: BufferFormat> BufferRWGeneric<L> {
    pub open(crate) spec fn wf_spec(&self) -> bool {
        self.raw.wf_spec()
    }

    pub open(crate) spec fn cursors(&self) -> Cursors {
        self.raw.cursors()
    }

    pub open(crate) spec fn region(&self) -> Seq<u8> {
        self.raw.region()
    }

    pub open(crate) spec fn raw_room(&self) -> nat {
        self.raw.room()
    }

    pub fn is_static(&self) -> (r: bool)
        requires
            self.wf(),
        ensures
            r == (self.kind() == BufferKind::StaticReference),
    {
        self.raw.format.flags().is_static_reference()
    }

    pub fn is_inlined(&self) -> (r: bool)
        requires
            self.wf(),
        ensures
            r == (self.kind() == BufferKind::Inlined),
    {
        self.raw.format.flags().is_inlined()
    }

    /// The reader index, counted from the start of the contents.
    fn get_rdx(&self) -> (r: usize)
        requires
            self.wf(),
        ensures
            r == self.pos(),
    {
        self.raw.format.rdx() - self.raw.format.offset()
    }

    /// Moves the reader index to `rdx`, counted from the start of the contents.
    fn set_rdx(&mut self, rdx: usize)
        requires
            old(self).wf(),
            rdx <= old(self).contents().len(),
        ensures
            final(self).wf(),
            final(self).contents() == old(self).contents(),
            final(self).pos() == rdx,
            final(self).kind() == old(self).kind(),
    {
        proof { self.raw.lemma_bounds(); }
        let offset = self.raw.format.offset();
        self.raw.format.set_rdx(offset + rdx);
    }

    /// Makes room for `additional` more bytes: an inlined buffer that would overflow,
    /// and a static one, move to the heap.
    fn ensure_large_enough(&mut self, additional: usize)
        requires
            old(self).wf(),
            old(self).contents().len() + additional <= Self::max_len(),
        ensures
            final(self).wf(),
            final(self).contents() == old(self).contents(),
            final(self).pos() == old(self).pos(),
            final(self).room() >= additional,
            final(self).kind() == if old(self).fits_inline(additional as nat) { BufferKind::Inlined } else { BufferKind::Reference },
            final(self).cap() == if old(self).kind() == BufferKind::Reference && additional <= old(self).room() {
                old(self).cap()
            } else if old(self).fits_inline(additional as nat) {
                INLINE_SIZE as nat
            } else {
                growth_cap::<L>(
                    if old(self).kind() == BufferKind::Reference { old(self).cap() } else { INITIAL_CAP as nat },
                    (old(self).contents().len() + additional + ADDITIONAL_BUFFER_CAP) as nat,
                )
            },
    {
        self.raw.ensure_large_enough(additional);
    }

    /// Takes over a shared buffer with its reader index; a heap allocation that other
    /// handles share is copied.
    pub fn from_buffer(value: BufferGeneric<L>) -> (r: Self)
        ensures
            value.wf() ==> r.wf(),
            r.contents() == value.contents(),
            r.pos() == value.pos(),
            r.kind() == value.kind(),
    {
        BufferRWGeneric { raw: value.into_raw() }
    }

    /// Takes over a write-only buffer; the reader index starts at the beginning.
    pub fn from_mut(value: BufferMutGeneric<L>) -> (r: Self)
        ensures
            value.wf() ==> r.wf(),
            r.contents() == value.contents(),
            value.wf() ==> r.pos() == 0,
            r.kind() == value.kind(),
    {
        BufferRWGeneric { raw: value.raw }
    }

    /// A write-only buffer with the same contents; static bytes are copied to the heap
    /// and the reader index is dropped.
    pub fn into_mut(self) -> (r: BufferMutGeneric<L>)
        requires
            self.wf(),
        ensures
            r.wf(),
            r.contents() == self.contents(),
            r.kind() == if self.kind() == BufferKind::Inlined { BufferKind::Inlined } else { BufferKind::Reference },
    {
        let mut raw = self.raw;
        raw.start_reader_at_front();
        BufferMutGeneric { raw }
    }
}

impl<L: BufferFormat> GenericBuffer for BufferRWGeneric<L> {
    open spec fn wf(&self) -> bool {
        self.wf_spec()
    }

    open spec fn contents(&self) -> Seq<u8> {
        self.region().subrange(self.cursors().offset as int, self.cursors().len as int)
    }

    open spec fn pos(&self) -> nat {
        (self.cursors().rdx - self.cursors().offset) as nat
    }

    open spec fn kind(&self) -> BufferKind {
        self.cursors().kind
    }

    open spec fn max_len() -> nat {
        (L::max_cap() - ADDITIONAL_BUFFER_CAP) as nat
    }

    open spec fn cap(&self) -> nat {
        self.cursors().cap
    }

    open spec fn tight_cap(&self) -> nat {
        L::fitted((self.contents().len() + ADDITIONAL_BUFFER_CAP) as nat)
    }

    /// The storage belongs to this buffer alone.
    open spec fn unshared(&self) -> bool {
        true
    }

    /// `self` ends where `right` starts, nothing of `right` has been read yet, and the
    /// two together still fit.
    open spec fn adjacent(&self, right: &Self) -> bool {
        &&& self.cursors().len == right.cursors().offset
        &&& right.cursors().rdx == right.cursors().offset
        &&& self.contents().len() + right.contents().len() <= Self::max_len()
    }

    proof fn lemma_wf(&self) {
        self.raw.lemma_bounds();
    }

    fn new() -> (r: Self) {
        BufferRWGeneric { raw: RawBuffer::new_empty() }
    }

    fn from_vec(value: Vec<u8>) -> (r: Self) {
        BufferRWGeneric { raw: RawBuffer::from_vec(value) }
    }

    fn into_vec(self) -> (r: Vec<u8>) {
        self.raw.into_vec()
    }

    fn as_slice(&self) -> (r: &[u8]) {
        proof { self.lemma_wf(); }
        let start = self.raw.format.offset();
        let end = self.raw.format.len();
        slice_subrange(self.raw.region_slice(), start, end)
    }

    fn len(&self) -> (r: usize) {
        self.raw.format.len() - self.raw.format.offset()
    }

    fn clear(&mut self) {
        self.raw.reset();
    }

    fn shrink(&mut self) {
        self.raw.shrink();
    }

    fn truncate(&mut self, len: usize) {
        self.raw.truncate(len);
    }

    fn split_off(&mut self, offset: usize) -> (r: Self) {
        proof { self.raw.lemma_bounds(); }
        let idx = self.raw.format.rdx() + offset;
        let raw = self.raw.split_off_at(idx);
        BufferRWGeneric { raw }
    }

    fn split_to(&mut self, offset: usize) -> (r: Self) {
        proof { self.raw.lemma_bounds(); }
        let idx = self.raw.format.rdx() + offset;
        let raw = self.raw.split_to_at(idx);
        BufferRWGeneric { raw }
    }

    fn split(&mut self) -> (r: Self) {
        self.split_off(0)
    }

    fn unsplit(&mut self, other: Self) {
        let r = self.try_unsplit(other);
        match r {
            Ok(()) => {},
            Err(_) => {},
        }
    }

    /// Joins by copying the right part's bytes after the left part's; a right part that
    /// has already been read from is refused.
    fn try_unsplit(&mut self, other: Self) -> (r: Result<(), Self>) {
        proof { self.raw.lemma_bounds(); other.raw.lemma_bounds(); L::lemma_limits(); }
        let own = self.raw.format.len() - self.raw.format.offset();
        let theirs = other.raw.format.len() - other.raw.format.offset();
        let fits = own <= L::max_capacity() - ADDITIONAL_BUFFER_CAP - theirs;
        if fits && self.raw.format.len() == other.raw.format.offset() && other.raw.format.rdx() == other.raw.format.offset() {
            self.raw.append(&other.raw);
            self.set_rdx(0);
            Ok(())
        } else if fits && other.raw.format.len() == self.raw.format.offset() && self.raw.format.rdx() == self.raw.format.offset() {
            let mut joined = other;
            joined.raw.append(&self.raw);
            joined.set_rdx(0);
            *self = joined;
            Ok(())
        } else {
            Err(other)
        }
    }
}

impl<L: BufferFormat> ReadableBuffer for BufferRWGeneric<L> {
    open spec fn max_static_len() -> nat {
        (L::max_cap() - ADDITIONAL_BUFFER_CAP) as nat
    }

    fn from_static(buf: &'static [u8]) -> (r: Self) {
        BufferRWGeneric { raw: RawBuffer::from_static(buf) }
    }

    fn reset_reader_index(&mut self) {
        self.set_rdx(0);
    }

    fn advance(&mut self, amount: usize) {
        proof { self.raw.lemma_bounds(); }
        let rdx = self.get_rdx();
        self.set_rdx(rdx + amount);
    }

    fn remaining(&self) -> (r: usize) {
        self.raw.format.len() - self.raw.format.rdx()
    }

    fn get_slice(&mut self, bytes: usize) -> (r: &[u8]) {
        proof { self.raw.lemma_bounds(); }
        let rdx = self.raw.format.rdx();
        self.raw.format.set_rdx(rdx + bytes);
        let region = self.raw.region_slice();
        assert(region@.subrange(rdx as int, rdx + bytes) =~= old(self).contents().subrange(old(self).pos() as int, old(self).pos() + bytes));
        slice_subrange(region, rdx, rdx + bytes)
    }

    fn get_u8(&mut self) -> (r: u8) {
        proof { self.raw.lemma_bounds(); }
        let rdx = self.raw.format.rdx();
        let b = self.raw.region_slice()[rdx];
        self.raw.format.set_rdx(rdx + 1);
        b
    }
}

impl<L: BufferFormat> WritableBuffer for BufferRWGeneric<L> {
    open spec fn fits_inline(&self, additional: nat) -> bool {
        self.kind() == BufferKind::Inlined && self.contents().len() + additional <= INLINE_SIZE
    }

    open spec fn room(&self) -> nat {
        self.raw_room()
    }

    fn with_capacity(capacity: usize) -> (r: Self) {
        BufferRWGeneric { raw: RawBuffer::with_room(capacity, 0) }
    }

    fn zeroed(len: usize) -> (r: Self) {
        BufferRWGeneric { raw: RawBuffer::with_room(len, len) }
    }

    fn reset_writer_index(&mut self) {
        self.raw.reset();
    }

    fn reserve(&mut self, size: usize) {
        self.ensure_large_enough(size);
    }

    fn resize(&mut self, size: usize) {
        self.raw.resize(size);
    }

    fn capacity(&self) -> (r: usize) {
        self.raw.capacity()
    }

    fn put_bytes(&mut self, val: u8, repeat: usize) {
        self.raw.put_bytes(val, repeat);
    }

    fn put_slice(&mut self, val: &[u8]) {
        self.raw.put_slice(val);
    }

    fn put_u8(&mut self, val: u8) {
        let one = [val];
        self.raw.put_slice(one.as_slice());
        assert(self.contents() =~= old(self).contents().push(val));
    }
}

impl<L: BufferFormat> RWBuffer for BufferRWGeneric<L> {}

impl<L: BufferFormat> From<BufferGeneric<L>> for BufferRWGeneric<L> {
    fn from(value: BufferGeneric<L>) -> Self {
        Self::from_buffer(value)
    }
}

impl<L: BufferFormat> vstd::std_specs::convert::FromSpecImpl<BufferGeneric<L>> for BufferRWGeneric<L> {
    open spec fn obeys_from_spec() -> bool {
        false
    }

    open spec fn from_spec(v: BufferGeneric<L>) -> Self {
        arbitrary()
    }
}

impl<L: BufferFormat> From<BufferMutGeneric<L>> for BufferRWGeneric<L> {
    fn from(value: BufferMutGeneric<L>) -> Self {
        Self::from_mut(value)
    }
}

impl<L: BufferFormat> vstd::std_specs::convert::FromSpecImpl<BufferMutGeneric<L>> for BufferRWGeneric<L> {
    open spec fn obeys_from_spec() -> bool {
        false
    }

    open spec fn from_spec(v: BufferMutGeneric<L>) -> Self {
        arbitrary()
    }
}

impl<L: BufferFormat> Default for BufferRWGeneric<L> {
    fn default() -> (r: Self)
        ensures
            r.wf(),
            r.contents() == Seq::<u8>::empty(),
            r.pos() == 0,
    {
        Self::new()
    }
}

/// A clone copies the bytes into storage of its own.
impl<L: BufferFormat> Clone for BufferRWGeneric<L> {
    fn clone(&self) -> (r: Self)
        ensures
            self.wf() ==> r.wf(),
            r.contents() == self.contents(),
            r.pos() == self.pos(),
            r.kind() == self.kind(),
            r.cap() == self.cap(),
    {
        BufferRWGeneric { raw: self.raw.duplicate() }
    }
}

} // verus!
