use vstd::prelude::*;
use vstd::slice::slice_subrange;
use crate::buffer_format::{BufferFormat, BufferKind, Cursors, Flags, INLINE_SIZE};
use crate::buffer_format::half::FormatHalf;
use crate::owned::{growth_cap, RawBuffer};
use crate::{GenericBuffer, WritableBuffer, ADDITIONAL_BUFFER_CAP, INITIAL_CAP};

verus! {

/// A growable, write-only byte buffer.
pub type BufferMut = BufferMutGeneric<FormatHalf>;

/// A growable byte sink that owns its storage alone: small contents stay inside the
/// value, larger ones move to a heap allocation that grows geometrically. Clones copy.
pub struct BufferMutGeneric<L: BufferFormat> {
    pub(crate) raw: RawBuffer<L>,
}

impl<L: BufferFormat> BufferMutGeneric<L> {
    pub open(crate) spec fn wf_spec(&self) -> bool {
        &&& self.raw.wf_spec()
        &&& self.raw.rpos() == 0
        &&& self.raw.kind() != BufferKind::StaticReference
    }

    pub open(crate) spec fn cursors(&self) -> Cursors {
        self.raw.cursors()
    }

    pub open(crate) spec fn region(&self) -> Seq<u8> {
        self.raw.region()
    }

    pub open(crate) spec fn raw_room(&self) -> nat {
        self.raw.room()
    }

    pub fn is_inlined(&self) -> (r: bool)
        requires
            self.wf(),
        ensures
            r == (self.kind() == BufferKind::Inlined),
    {
        self.raw.format.flags().is_inlined()
    }

    /// Makes room for `additional` more bytes; an inlined buffer that would overflow
    /// moves to the heap.
    fn ensure_large_enough(&mut self, additional: usize)
        requires
            old(self).wf(),
            old(self).contents().len() + additional <= Self::max_len(),
        ensures
            final(self).wf(),
            final(self).contents() == old(self).contents(),
            final(self).room() >= additional,
            final(self).kind() == if old(self).fits_inline(additional as nat) { BufferKind::Inlined } else { BufferKind::Reference },
            final(self).cap() == if old(self).kind() == BufferKind::Reference && additional <= old(self).room() {
                old(self).cap()
            } else if old(self).fits_inline(additional as nat) {
                INLINE_SIZE as nat
            } else {
                growth_cap::<L>(
                    if old(self).kind() == BufferKind::Reference { old(self).cap() } else { INITIAL_CAP as nat },
                    (old(self).contents().len() + additional + ADDITIONAL_BUFFER_CAP) as nat,
                )
            },
    {
        self.raw.ensure_large_enough(additional);
    }
}

impl<L: BufferFormat> GenericBuffer for BufferMutGeneric<L> {
    open spec fn wf(&self) -> bool {
        self.wf_spec()
    }

    open spec fn contents(&self) -> Seq<u8> {
        self.region().subrange(self.cursors().offset as int, self.cursors().len as int)
    }

    /// A write-only buffer splits relative to the start of its contents.
    open spec fn pos(&self) -> nat {
        0
    }

    open spec fn kind(&self) -> BufferKind {
        self.cursors().kind
    }

    open spec fn max_len() -> nat {
        (L::max_cap() - ADDITIONAL_BUFFER_CAP) as nat
    }

    open spec fn cap(&self) -> nat {
        self.cursors().cap
    }

    open spec fn tight_cap(&self) -> nat {
        L::fitted((self.contents().len() + ADDITIONAL_BUFFER_CAP) as nat)
    }

    /// The storage belongs to this buffer alone.
    open spec fn unshared(&self) -> bool {
        true
    }

    /// `self` ends where `right` starts and the two together still fit.
    open spec fn adjacent(&self, right: &Self) -> bool {
        &&& self.cursors().len == right.cursors().offset
        &&& self.contents().len() + right.contents().len() <= Self::max_len()
    }

    proof fn lemma_wf(&self) {
        self.raw.lemma_bounds();
    }

    fn new() -> (r: Self) {
        BufferMutGeneric { raw: RawBuffer::new_empty() }
    }

    fn from_vec(value: Vec<u8>) -> (r: Self) {
        BufferMutGeneric { raw: RawBuffer::from_vec(value) }
    }

    fn into_vec(self) -> (r: Vec<u8>) {
        self.raw.into_vec()
    }

    fn as_slice(&self) -> (r: &[u8]) {
        proof { self.lemma_wf(); }
        let start = self.raw.format.offset();
        let end = self.raw.format.len();
        slice_subrange(self.raw.region_slice(), start, end)
    }

    fn len(&self) -> (r: usize) {
        self.raw.format.len() - self.raw.format.offset()
    }

    fn clear(&mut self) {
        self.raw.reset();
    }

    fn shrink(&mut self) {
        self.raw.shrink();
    }

    fn truncate(&mut self, len: usize) {
        self.raw.truncate(len);
    }

    fn split_off(&mut self, offset: usize) -> (r: Self) {
        proof { self.raw.lemma_bounds(); }
        let idx = self.raw.format.offset() + offset;
        let raw = self.raw.split_off_at(idx);
        BufferMutGeneric { raw }
    }

    fn split_to(&mut self, offset: usize) -> (r: Self) {
        proof { self.raw.lemma_bounds(); }
        let idx = self.raw.format.offset() + offset;
        let raw = self.raw.split_to_at(idx);
        BufferMutGeneric { raw }
    }

    fn split(&mut self) -> (r: Self) {
        self.split_off(0)
    }

    fn unsplit(&mut self, other: Self) {
        let r = self.try_unsplit(other);
        match r {
            Ok(()) => {},
            Err(_) => {},
        }
    }

    /// Joins by copying the right part's bytes after the left part's.
    fn try_unsplit(&mut self, other: Self) -> (r: Result<(), Self>) {
        proof { self.raw.lemma_bounds(); other.raw.lemma_bounds(); L::lemma_limits(); }
        let own = self.raw.format.len() - self.raw.format.offset();
        let theirs = other.raw.format.len() - other.raw.format.offset();
        let fits = own <= L::max_capacity() - ADDITIONAL_BUFFER_CAP - theirs;
        if fits && self.raw.format.len() == other.raw.format.offset() {
            self.raw.append(&other.raw);
            Ok(())
        } else if fits && other.raw.format.len() == self.raw.format.offset() {
            let mut joined = other;
            joined.raw.append(&self.raw);
            *self = joined;
            Ok(())
        } else {
            Err(other)
        }
    }
}

impl<L: BufferFormat> WritableBuffer for BufferMutGeneric<L> {
    open spec fn fits_inline(&self, additional: nat) -> bool {
        self.kind() == BufferKind::Inlined && self.contents().len() + additional <= INLINE_SIZE
    }

    open spec fn room(&self) -> nat {
        self.raw_room()
    }

    fn with_capacity(capacity: usize) -> (r: Self) {
        BufferMutGeneric { raw: RawBuffer::with_room(capacity, 0) }
    }

    fn zeroed(len: usize) -> (r: Self) {
        BufferMutGeneric { raw: RawBuffer::with_room(len, len) }
    }

    fn reset_writer_index(&mut self) {
        self.raw.reset();
    }

    fn reserve(&mut self, size: usize) {
        self.ensure_large_enough(size);
    }

    fn resize(&mut self, size: usize) {
        self.raw.resize(size);
    }

    fn capacity(&self) -> (r: usize) {
        self.raw.capacity()
    }

    fn put_bytes(&mut self, val: u8, repeat: usize) {
        self.raw.put_bytes(val, repeat);
    }

    fn put_slice(&mut self, val: &[u8]) {
        self.raw.put_slice(val);
    }

    fn put_u8(&mut self, val: u8) {
        let one = [val];
        self.raw.put_slice(one.as_slice());
        assert(self.contents() =~= old(self).contents().push(val));
    }
}

impl<L: BufferFormat> Default for BufferMutGeneric<L> {
    fn default() -> (r: Self)
        ensures
            r.wf(),
            r.contents() == Seq::<u8>::empty(),
            r.pos() == 0,
    {
        Self::new()
    }
}

/// A clone copies the bytes into storage of its own.
impl<L: BufferFormat> Clone for BufferMutGeneric<L> {
    fn clone(&self) -> (r: Self)
        ensures
            self.wf() ==> r.wf(),
            r.contents() == self.contents(),
            r.pos() == self.pos(),
            r.kind() == self.kind(),
            r.cap() == self.cap(),
    {
        BufferMutGeneric { raw: self.raw.duplicate() }
    }
}

} // verus!
