use vstd::prelude::*;
use vstd::slice::{slice_subrange, slice_to_vec};
use std::sync::Arc;
use crate::buffer_format::{BufferFormat, BufferKind, BufferTy, Cursors, Flags, INLINE_SIZE};
use crate::buffer_format::half::FormatHalf;
use crate::shared::{arc_try_unwrap, arc_ptr_eq, arc_strong_count};
use crate::util::{copy_padded, inline_copy, min, same_bytes};
use crate::owned::{OwnedStorage, RawBuffer};
use crate::buffer_mut::BufferMutGeneric;
use crate::buffer_rw::BufferRWGeneric;
use crate::{GenericBuffer, ReadableBuffer, ReadonlyBuffer, ADDITIONAL_BUFFER_CAP};

verus! {

/// A read-only, cheaply cloneable view of bytes.
pub type Buffer = BufferGeneric<FormatHalf>;

/// Where the bytes of a shared buffer live.
pub(crate) enum Storage {
    Inlined([u8; INLINE_SIZE]),
    Static(&'static [u8]),
    /// A heap allocation that clones share; the handle count is its reference count.
    Heap(Arc<Vec<u8>>),
}

/// A read-only view of bytes that clones share.
///
/// Small contents stay inside the value, static bytes are referenced, and heap bytes
/// are shared between clones and halves of a split without copying.
pub struct BufferGeneric<L: BufferFormat> {
    pub(crate) format: L,
    pub(crate) storage: Storage,
}

impl<L: BufferFormat> BufferGeneric<L> {
    pub open(crate) spec fn cursors(&self) -> Cursors {
        self.format.cursors()
    }

    /// The bytes of the whole allocation (or inline array, or static slice).
    pub open(crate) spec fn region(&self) -> Seq<u8> {
        match self.storage {
            Storage::Inlined(a) => a@,
            Storage::Static(s) => s@,
            Storage::Heap(v) => v@,
        }
    }

    pub open(crate) spec fn storage_kind(&self) -> BufferKind {
        match self.storage {
            Storage::Inlined(_) => BufferKind::Inlined,
            Storage::Static(_) => BufferKind::StaticReference,
            Storage::Heap(_) => BufferKind::Reference,
        }
    }

    pub open(crate) spec fn wf_spec(&self) -> bool {
        let c = self.cursors();
        &&& self.format.inv()
        &&& c.kind == self.storage_kind()
        &&& c.offset <= c.rdx <= c.len
        &&& c.wrx == c.len
        &&& c.len <= self.region().len()
        &&& match self.storage {
            Storage::Inlined(_) => self.region().len() == INLINE_SIZE,
            Storage::Static(_) => L::cap_ok(c.cap) && self.region().len() <= c.cap
                && self.region().len() + ADDITIONAL_BUFFER_CAP <= L::max_cap(),
            Storage::Heap(_) => L::cap_ok(c.cap) && c.cap <= L::max_cap()
                && self.region().len() + ADDITIONAL_BUFFER_CAP == c.cap,
        }
    }

    proof fn lemma_bounds(&self)
        requires
            self.wf_spec(),
        ensures
            self.cursors().len <= L::max_index(),
            self.cursors().cap <= L::max_index(),
            self.cursors().kind == BufferKind::Inlined ==> self.cursors().cap == INLINE_SIZE,
            self.region().len() <= usize::MAX,
            self.cursors().len + ADDITIONAL_BUFFER_CAP <= L::max_cap(),
    {
        L::lemma_limits();
        self.format.lemma_wf();
    }

    /// A second handle on the same bytes, with the same cursors.
    fn share(&self) -> (r: Self)
        ensures
            self.format.inv() ==> r.format.inv(),
            r.cursors() == self.cursors(),
            r.region() == self.region(),
            r.storage_kind() == self.storage_kind(),
    {
        let storage = match &self.storage {
            Storage::Inlined(a) => Storage::Inlined(*a),
            Storage::Static(s) => Storage::Static(*s),
            Storage::Heap(v) => Storage::Heap(v.clone()),
        };
        BufferGeneric { format: self.format.duplicate(), storage }
    }

    /// The region as a slice.
    fn region_slice(&self) -> (r: &[u8])
        ensures
            r@ == self.region(),
    {
        match &self.storage {
            Storage::Inlined(a) => a.as_slice(),
            Storage::Static(s) => *s,
            Storage::Heap(v) => v.as_slice(),
        }
    }

    pub fn is_static(&self) -> (r: bool)
        requires
            self.wf_spec(),
        ensures
            r == (self.kind() == BufferKind::StaticReference),
    {
        self.format.flags().is_static_reference()
    }

    pub fn is_inlined(&self) -> (r: bool)
        requires
            self.wf_spec(),
        ensures
            r == (self.kind() == BufferKind::Inlined),
    {
        self.format.flags().is_inlined()
    }

    /// The capacity: `INLINE_SIZE` while inlined, else the size of the allocation
    /// (or of the static slice, rounded to what the format stores).
    pub fn capacity(&self) -> (r: usize)
        requires
            self.wf_spec(),
        ensures
            r == self.cursors().cap,
            self.kind() == BufferKind::Inlined ==> r == INLINE_SIZE,
            self.kind() == BufferKind::Reference ==> r >= self.contents().len() + ADDITIONAL_BUFFER_CAP,
    {
        proof { self.lemma_bounds(); }
        self.format.cap()
    }

    /// The number of handles on a heap allocation; zero for inlined and static buffers.
    pub fn ref_count(&self) -> (r: usize)
        ensures
            self.storage_kind() == BufferKind::Reference <==> r >= 1,
    {
        match &self.storage {
            Storage::Heap(v) => arc_strong_count(v),
            _ => 0,
        }
    }

    /// Whether this is the only handle on its heap allocation.
    pub fn is_only(&self) -> (r: bool)
        ensures
            r ==> self.storage_kind() == BufferKind::Reference,
    {
        match &self.storage {
            Storage::Heap(v) => arc_strong_count(v) == 1,
            _ => false,
        }
    }
}

impl<L: BufferFormat> GenericBuffer for BufferGeneric<L> {
    open spec fn wf(&self) -> bool {
        self.wf_spec()
    }

    open spec fn contents(&self) -> Seq<u8> {
        self.region().subrange(self.cursors().offset as int, self.cursors().len as int)
    }

    open spec fn pos(&self) -> nat {
        (self.cursors().rdx - self.cursors().offset) as nat
    }

    open spec fn kind(&self) -> BufferKind {
        self.cursors().kind
    }

    open spec fn max_len() -> nat {
        (L::max_cap() - ADDITIONAL_BUFFER_CAP) as nat
    }

    open spec fn cap(&self) -> nat {
        self.cursors().cap
    }

    open spec fn tight_cap(&self) -> nat {
        L::fitted((self.contents().len() + ADDITIONAL_BUFFER_CAP) as nat)
    }

    /// Other handles may share a heap allocation; nothing tells them apart here.
    open spec fn unshared(&self) -> bool {
        false
    }

    /// The same kind of storage, `self` ends where `right` starts, and the storage of
    /// `self` holds the bytes of `right` at their place (always so for the two halves
    /// of a split).
    open spec fn adjacent(&self, right: &Self) -> bool {
        &&& self.kind() == right.kind()
        &&& self.cursors().len == right.cursors().offset
        &&& right.cursors().len <= self.region().len()
        &&& self.region().subrange(right.cursors().offset as int, right.cursors().len as int) == right.contents()
    }

    proof fn lemma_wf(&self) {
        self.lemma_bounds();
    }

    fn new() -> (r: Self) {
        let r = BufferGeneric { format: L::new_inlined(0, 0, 0, 0), storage: Storage::Inlined([0u8; INLINE_SIZE]) };
        assert(r.contents() =~= Seq::<u8>::empty());
        r
    }

    /// Small contents are copied inline; larger ones keep the vector's allocation.
    fn from_vec(value: Vec<u8>) -> (r: Self) {
        proof { L::lemma_limits(); }
        let n = value.len();
        if n <= INLINE_SIZE {
            let a = inline_copy(value.as_slice(), 0, n);
            let r = BufferGeneric { format: L::new_inlined(n, n, 0, 0), storage: Storage::Inlined(a) };
            assert(r.contents() =~= value@);
            r
        } else {
            let cap = L::fit_cap(n + ADDITIONAL_BUFFER_CAP);
            let mut v = value;
            v.resize(cap - ADDITIONAL_BUFFER_CAP, 0);
            let r = BufferGeneric {
                format: L::new_reference(n, cap, n, 0, 0, BufferTy::new_reference()),
                storage: Storage::Heap(Arc::new(v)),
            };
            assert(r.contents() =~= value@);
            r
        }
    }

    fn into_vec(self) -> (r: Vec<u8>) {
        proof { self.lemma_bounds(); }
        let len = self.format.len();
        let offset = self.format.offset();
        match self.storage {
            Storage::Heap(arc) => {
                if offset == 0 {
                    match arc_try_unwrap(arc) {
                        Ok(vec) => {
                            let mut vec = vec;
                            vec.truncate(len);
                            vec
                        },
                        Err(arc) => slice_to_vec(slice_subrange(arc.as_slice(), offset, len)),
                    }
                } else {
                    slice_to_vec(slice_subrange(arc.as_slice(), offset, len))
                }
            },
            Storage::Inlined(a) => slice_to_vec(slice_subrange(a.as_slice(), offset, len)),
            Storage::Static(b) => slice_to_vec(slice_subrange(b, offset, len)),
        }
    }

    fn as_slice(&self) -> (r: &[u8]) {
        proof { self.lemma_wf(); }
        let start = self.format.offset();
        let end = self.format.len();
        slice_subrange(self.region_slice(), start, end)
    }

    fn len(&self) -> (r: usize) {
        self.format.len() - self.format.offset()
    }

    fn clear(&mut self) {
        *self = Self::new();
    }

    /// Shrinks only a heap buffer that has no other handle; a shared allocation stays
    /// as it is.
    fn shrink(&mut self) {
        proof { self.lemma_bounds(); L::lemma_limits(); }
        if self.is_inlined() || self.is_static() {
            return;
        }
        let len = self.format.len();
        let offset = self.format.offset();
        let rdx = self.format.rdx();
        let cap = self.format.cap();
        if len - offset > L::max_capacity() - ADDITIONAL_BUFFER_CAP {
            return;
        }
        let target = L::fit_cap(len - offset + ADDITIONAL_BUFFER_CAP);
        if target >= cap {
            return;
        }
        let ghost old_self = *self;
        let mut storage = Storage::Inlined([0u8; INLINE_SIZE]);
        std::mem::swap(&mut storage, &mut self.storage);
        match storage {
            Storage::Heap(arc) => {
                match arc_try_unwrap(arc) {
                    Ok(vec) => {
                        *self = Self::tight_copy(&vec, offset, len, rdx);
                        assert(self.contents() =~= old_self.contents());
                    },
                    Err(arc) => {
                        self.storage = Storage::Heap(arc);
                    },
                }
            },
            other => {
                self.storage = other;
            },
        }
    }

    fn truncate(&mut self, len: usize) {
        proof { self.lemma_bounds(); }
        let offset = self.format.offset();
        if len < self.format.len() - offset {
            let end = offset + len;
            self.format.set_len(end);
            self.format.set_wrx(end);
            let rdx = self.format.rdx();
            self.format.set_rdx(min(rdx, end));
            assert(self.contents() =~= old(self).contents().take(len as int));
        }
    }

    fn split_off(&mut self, offset: usize) -> (r: Self) {
        proof { self.lemma_bounds(); }
        let idx = self.format.rdx() + offset;
        let mut other = self.share();
        self.format.set_len(idx);
        self.format.set_wrx(idx);
        other.format.set_offset(idx);
        other.format.set_rdx(idx);
        assert(self.contents() =~= old(self).contents().take(old(self).pos() + offset));
        assert(other.contents() =~= old(self).contents().skip(old(self).pos() + offset));
        other
    }

    fn split_to(&mut self, offset: usize) -> (r: Self) {
        proof { self.lemma_bounds(); }
        let idx = self.format.rdx() + offset;
        let mut other = self.share();
        other.format.set_len(idx);
        other.format.set_wrx(idx);
        self.format.set_offset(idx);
        self.format.set_rdx(idx);
        assert(other.contents() =~= old(self).contents().take(old(self).pos() + offset));
        assert(self.contents() =~= old(self).contents().skip(old(self).pos() + offset));
        other
    }

    fn split(&mut self) -> (r: Self) {
        self.split_off(0)
    }

    fn unsplit(&mut self, other: Self) {
        let r = self.try_unsplit(other);
        match r {
            Ok(()) => {},
            Err(_) => {},
        }
    }

    fn try_unsplit(&mut self, other: Self) -> (r: Result<(), Self>) {
        proof { self.lemma_bounds(); other.lemma_bounds(); }
        if self.joins(&other) {
            let end = other.format.len();
            let start = self.format.offset();
            self.format.set_len(end);
            self.format.set_wrx(end);
            self.format.set_rdx(start);
            assert(self.contents() =~= old(self).contents() + other.contents());
            Ok(())
        } else if other.joins(self) {
            let end = self.format.len();
            let start = other.format.offset();
            let mut joined = other;
            joined.format.set_len(end);
            joined.format.set_wrx(end);
            joined.format.set_rdx(start);
            assert(joined.contents() =~= other.contents() + old(self).contents());
            *self = joined;
            Ok(())
        } else {
            Err(other)
        }
    }
}

impl<L: BufferFormat> BufferGeneric<L> {
    /// A heap buffer over a copy of `vec[offset..len)` in an allocation that fits it
    /// tightly, its reader `rdx - offset` bytes in.
    fn tight_copy(vec: &Vec<u8>, offset: usize, len: usize, rdx: usize) -> (r: Self)
        requires
            offset <= rdx <= len <= vec@.len(),
            len - offset + ADDITIONAL_BUFFER_CAP <= L::max_cap(),
        ensures
            r.wf(),
            r.contents() == vec@.subrange(offset as int, len as int),
            r.pos() == rdx - offset,
            r.kind() == BufferKind::Reference,
            r.cap() == L::fitted((len - offset + ADDITIONAL_BUFFER_CAP) as nat),
    {
        proof { L::lemma_limits(); }
        let n = len - offset;
        let cap = L::fit_cap(n + ADDITIONAL_BUFFER_CAP);
        let fresh = copy_padded(vec.as_slice(), offset, len, cap - ADDITIONAL_BUFFER_CAP);
        let r = BufferGeneric {
            format: L::new_reference(n, cap, n, rdx - offset, 0, BufferTy::new_reference()),
            storage: Storage::Heap(Arc::new(fresh)),
        };
        assert(r.contents() =~= vec@.subrange(offset as int, len as int));
        r
    }

    /// Decides `self.adjacent(right)`.
    fn joins(&self, right: &Self) -> (r: bool)
        requires
            self.wf(),
            right.wf(),
        ensures
            r == self.adjacent(right),
    {
        proof { self.lemma_bounds(); right.lemma_bounds(); }
        let a = self.format.flags();
        let b = right.format.flags();
        if a.is_inlined() != b.is_inlined() || a.is_static_reference() != b.is_static_reference() {
            return false;
        }
        let start = right.format.offset();
        let end = right.format.len();
        if self.format.len() != start {
            return false;
        }
        let region = self.region_slice();
        if end > region.len() {
            return false;
        }
        let same = match (&self.storage, &right.storage) {
            (Storage::Heap(x), Storage::Heap(y)) => arc_ptr_eq(x, y),
            _ => false,
        };
        same || same_bytes(region, right.region_slice(), start, end)
    }
}

impl<L: BufferFormat> ReadableBuffer for BufferGeneric<L> {
    open spec fn max_static_len() -> nat {
        (L::max_cap() - ADDITIONAL_BUFFER_CAP) as nat
    }

    fn from_static(buf: &'static [u8]) -> (r: Self) {
        proof { L::lemma_limits(); }
        let n = buf.len();
        let cap = L::fit_cap(n);
        let r = BufferGeneric {
            format: L::new_reference(n, cap, n, 0, 0, BufferTy::new_static_reference()),
            storage: Storage::Static(buf),
        };
        assert(r.contents() =~= buf@);
        r
    }

    fn reset_reader_index(&mut self) {
        proof { self.lemma_bounds(); }
        let offset = self.format.offset();
        self.format.set_rdx(offset);
    }

    fn advance(&mut self, amount: usize) {
        proof { self.lemma_bounds(); }
        let rdx = self.format.rdx();
        self.format.set_rdx(rdx + amount);
    }

    fn remaining(&self) -> (r: usize) {
        self.format.len() - self.format.rdx()
    }

    fn get_slice(&mut self, bytes: usize) -> (r: &[u8]) {
        proof { self.lemma_bounds(); }
        let rdx = self.format.rdx();
        self.format.set_rdx(rdx + bytes);
        let region = self.region_slice();
        assert(region@.subrange(rdx as int, rdx + bytes) =~= old(self).contents().subrange(old(self).pos() as int, old(self).pos() + bytes));
        slice_subrange(region, rdx, rdx + bytes)
    }

    fn get_u8(&mut self) -> (r: u8) {
        proof { self.lemma_bounds(); }
        let rdx = self.format.rdx();
        let b = self.region_slice()[rdx];
        self.format.set_rdx(rdx + 1);
        b
    }
}

impl<L: BufferFormat> ReadonlyBuffer for BufferGeneric<L> {
    /// The view shares the storage: a heap allocation gains a handle.
    fn slice(&self, start: usize, end: usize) -> (r: Self) {
        proof { self.lemma_bounds(); }
        let rdx = self.format.rdx();
        let mut r = self.share();
        r.format.set_len(rdx + end);
        r.format.set_wrx(rdx + end);
        r.format.set_offset(rdx + start);
        r.format.set_rdx(rdx + start);
        assert(r.contents() =~= self.contents().subrange(self.pos() + start, self.pos() + end));
        r
    }
}

impl<L: BufferFormat> BufferGeneric<L> {
    /// A shared buffer over the storage of a uniquely owned one, without copying bytes.
    pub(crate) fn from_raw(raw: RawBuffer<L>) -> (r: Self)
        ensures
            r.format == raw.format,
            r.cursors() == raw.cursors(),
            r.region() == raw.region(),
            r.storage_kind() == raw.storage_kind(),
    {
        let storage = match raw.storage {
            OwnedStorage::Inlined(a) => Storage::Inlined(a),
            OwnedStorage::Static(s) => Storage::Static(s),
            OwnedStorage::Heap(v) => Storage::Heap(Arc::new(v)),
        };
        BufferGeneric { format: raw.format, storage }
    }

    /// Uniquely owned storage with the same cursors: the allocation itself where this is
    /// its only handle, else a copy of it.
    pub(crate) fn into_raw(self) -> (r: RawBuffer<L>)
        ensures
            r.format == self.format,
            r.cursors() == self.cursors(),
            r.region() == self.region(),
            r.storage_kind() == self.storage_kind(),
    {
        let storage = match self.storage {
            Storage::Inlined(a) => OwnedStorage::Inlined(a),
            Storage::Static(s) => OwnedStorage::Static(s),
            Storage::Heap(arc) => match arc_try_unwrap(arc) {
                Ok(v) => OwnedStorage::Heap(v),
                Err(arc) => OwnedStorage::Heap(slice_to_vec(arc.as_slice())),
            },
        };
        RawBuffer { format: self.format, storage }
    }

    /// Freezes a write-only buffer; its inline bytes or heap allocation carry over
    /// without copying.
    pub fn from_mut(value: BufferMutGeneric<L>) -> (r: Self)
        ensures
            value.wf() ==> r.wf(),
            r.contents() == value.contents(),
            value.wf() ==> r.pos() == 0,
            r.kind() == value.kind(),
    {
        Self::from_raw(value.raw)
    }

    /// Shares a read-write buffer's bytes, keeping its reader index.
    pub fn from_rw(value: BufferRWGeneric<L>) -> (r: Self)
        ensures
            value.wf() ==> r.wf(),
            r.contents() == value.contents(),
            r.pos() == value.pos(),
            r.kind() == value.kind(),
    {
        Self::from_raw(value.raw)
    }

    /// A write-only buffer with the same contents. The allocation is reused where this
    /// is its only handle; static bytes are copied to the heap.
    pub fn into_mut(self) -> (r: BufferMutGeneric<L>)
        requires
            self.wf(),
        ensures
            r.wf(),
            r.contents() == self.contents(),
            r.kind() == if self.kind() == BufferKind::Inlined { BufferKind::Inlined } else { BufferKind::Reference },
    {
        let mut raw = self.into_raw();
        raw.start_reader_at_front();
        BufferMutGeneric { raw }
    }
}

impl<L: BufferFormat> From<BufferMutGeneric<L>> for BufferGeneric<L> {
    fn from(value: BufferMutGeneric<L>) -> Self {
        Self::from_mut(value)
    }
}

impl<L: BufferFormat> vstd::std_specs::convert::FromSpecImpl<BufferMutGeneric<L>> for BufferGeneric<L> {
    open spec fn obeys_from_spec() -> bool {
        false
    }

    open spec fn from_spec(v: BufferMutGeneric<L>) -> Self {
        arbitrary()
    }
}

impl<L: BufferFormat> From<BufferRWGeneric<L>> for BufferGeneric<L> {
    fn from(value: BufferRWGeneric<L>) -> Self {
        Self::from_rw(value)
    }
}

impl<L: BufferFormat> vstd::std_specs::convert::FromSpecImpl<BufferRWGeneric<L>> for BufferGeneric<L> {
    open spec fn obeys_from_spec() -> bool {
        false
    }

    open spec fn from_spec(v: BufferRWGeneric<L>) -> Self {
        arbitrary()
    }
}

impl<L: BufferFormat> Default for BufferGeneric<L> {
    fn default() -> (r: Self)
        ensures
            r.wf(),
            r.contents() == Seq::<u8>::empty(),
            r.pos() == 0,
    {
        Self::new()
    }
}

/// A clone shares the bytes: a heap allocation gains a handle, inline and static bytes
/// are copied with the value.
impl<L: BufferFormat> Clone for BufferGeneric<L> {
    fn clone(&self) -> (r: Self)
        ensures
            self.wf() ==> r.wf(),
            r.contents() == self.contents(),
            r.pos() == self.pos(),
            r.kind() == self.kind(),
            r.cap() == self.cap(),
    {
        self.share()
    }
}

} // verus!
