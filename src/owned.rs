use vstd::prelude::*;
use vstd::slice::{slice_subrange, slice_to_vec};
use crate::buffer_format::{BufferFormat, BufferKind, BufferTy, Cursors, Flags, INLINE_SIZE};
use crate::util::{copy_padded, fill_bytes, find_sufficient_cap, grown, inline_copy, min, write_bytes};
use crate::{ADDITIONAL_BUFFER_CAP, GROWTH_FACTOR, INITIAL_CAP};

verus! {

/// The capacity of a heap allocation that grows from `from` to hold `need` bytes: the
/// smallest `from * GROWTH_FACTOR^k` that suffices, bounded by the format and rounded
/// to what it stores.
pub(crate) open spec fn growth_cap<L: BufferFormat>(from: nat, need: nat) -> nat {
    let g = grown(from, need);
    L::fitted(if g < L::max_cap() { g } else { L::max_cap() })
}

/// Where the bytes of a uniquely owned buffer live.
pub(crate) enum OwnedStorage {
    Inlined([u8; INLINE_SIZE]),
    Static(&'static [u8]),
    /// A heap allocation that no other buffer sees; clones copy it.
    Heap(Vec<u8>),
}

/// The storage engine of the writable buffers: a format holding the cursors and storage
/// that this value alone owns.
pub(crate) struct RawBuffer<L: BufferFormat> {
    pub(crate) format: L,
    pub(crate) storage: OwnedStorage,
}

impl<L: BufferFormat> RawBuffer<L> {
    pub(crate) open spec fn cursors(&self) -> Cursors {
        self.format.cursors()
    }

    pub(crate) open spec fn region(&self) -> Seq<u8> {
        match self.storage {
            OwnedStorage::Inlined(a) => a@,
            OwnedStorage::Static(s) => s@,
            OwnedStorage::Heap(v) => v@,
        }
    }

    pub(crate) open spec fn storage_kind(&self) -> BufferKind {
        match self.storage {
            OwnedStorage::Inlined(_) => BufferKind::Inlined,
            OwnedStorage::Static(_) => BufferKind::StaticReference,
            OwnedStorage::Heap(_) => BufferKind::Reference,
        }
    }

    pub(crate) open spec fn kind(&self) -> BufferKind {
        self.cursors().kind
    }

    pub(crate) open spec fn wf_spec(&self) -> bool {
        let c = self.cursors();
        &&& self.format.inv()
        &&& c.kind == self.storage_kind()
        &&& c.offset <= c.rdx <= c.len
        &&& c.wrx == c.len
        &&& c.len <= self.region().len()
        &&& match self.storage {
            OwnedStorage::Inlined(_) => self.region().len() == INLINE_SIZE,
            OwnedStorage::Static(_) => L::cap_ok(c.cap) && self.region().len() <= c.cap
                && self.region().len() + ADDITIONAL_BUFFER_CAP <= L::max_cap(),
            OwnedStorage::Heap(_) => L::cap_ok(c.cap) && c.cap <= L::max_cap()
                && self.region().len() + ADDITIONAL_BUFFER_CAP == c.cap,
        }
    }

    pub(crate) open spec fn contents(&self) -> Seq<u8> {
        self.region().subrange(self.cursors().offset as int, self.cursors().len as int)
    }

    /// The reader index, counted from the start of the contents.
    pub(crate) open spec fn rpos(&self) -> nat {
        (self.cursors().rdx - self.cursors().offset) as nat
    }

    /// Whether `additional` more bytes still fit inside the value.
    pub(crate) open spec fn fits_inline(&self, additional: nat) -> bool {
        self.kind() == BufferKind::Inlined && self.contents().len() + additional <= INLINE_SIZE
    }

    /// How many bytes fit after the contents before the storage has to grow.
    pub(crate) open spec fn room(&self) -> nat {
        if self.kind() == BufferKind::StaticReference {
            0
        } else {
            (self.region().len() - self.cursors().len) as nat
        }
    }

    /// The largest contents that the engine grows to.
    pub(crate) open spec fn max_len() -> nat {
        (L::max_cap() - ADDITIONAL_BUFFER_CAP) as nat
    }

    pub(crate) proof fn lemma_bounds(&self)
        requires
            self.wf_spec(),
        ensures
            self.cursors().len <= L::max_index(),
            self.cursors().cap <= L::max_index(),
            self.kind() == BufferKind::Inlined ==> self.cursors().cap == INLINE_SIZE,
            self.region().len() <= usize::MAX,
            self.contents().len() <= usize::MAX,
            self.rpos() <= self.contents().len(),
            L::max_cap() <= L::max_index(),
            4096 <= L::max_cap() <= usize::MAX / 2,
            self.cursors().len <= Self::max_len(),
            self.contents().len() <= self.cursors().cap,
            self.kind() != BufferKind::StaticReference ==> self.room() + self.cursors().len <= self.cursors().cap,
    {
        L::lemma_limits();
        self.format.lemma_wf();
    }

    pub(crate) fn region_slice(&self) -> (r: &[u8])
        ensures
            r@ == self.region(),
    {
        match &self.storage {
            OwnedStorage::Inlined(a) => a.as_slice(),
            OwnedStorage::Static(s) => *s,
            OwnedStorage::Heap(v) => v.as_slice(),
        }
    }

    pub(crate) fn new_empty() -> (r: Self)
        ensures
            r.wf_spec(),
            r.contents() == Seq::<u8>::empty(),
            r.rpos() == 0,
            r.kind() == BufferKind::Inlined,
            r.cursors().cap == INLINE_SIZE,
    {
        let r = RawBuffer { format: L::new_inlined(0, 0, 0, 0), storage: OwnedStorage::Inlined([0u8; INLINE_SIZE]) };
        assert(r.contents() =~= Seq::<u8>::empty());
        r
    }

    /// Room for `len` bytes, of which the first `used` hold zeros.
    pub(crate) fn with_room(len: usize, used: usize) -> (r: Self)
        requires
            used <= len,
            len <= Self::max_len(),
        ensures
            r.wf_spec(),
            r.contents() == Seq::new(used as nat, |_i: int| 0u8),
            r.rpos() == 0,
            r.kind() == if len <= INLINE_SIZE { BufferKind::Inlined } else { BufferKind::Reference },
            r.cursors().len + (len - used) <= r.region().len(),
    {
        proof { L::lemma_limits(); }
        if len <= INLINE_SIZE {
            let r = RawBuffer { format: L::new_inlined(used, used, 0, 0), storage: OwnedStorage::Inlined([0u8; INLINE_SIZE]) };
            assert(r.contents() =~= Seq::new(used as nat, |_i: int| 0u8));
            r
        } else {
            let cap = L::fit_cap(len + ADDITIONAL_BUFFER_CAP);
            let empty: Vec<u8> = Vec::new();
            let v = copy_padded(empty.as_slice(), 0, 0, cap - ADDITIONAL_BUFFER_CAP);
            let r = RawBuffer {
                format: L::new_reference(used, cap, used, 0, 0, BufferTy::new_reference()),
                storage: OwnedStorage::Heap(v),
            };
            assert(r.contents() =~= Seq::new(used as nat, |_i: int| 0u8));
            r
        }
    }

    pub(crate) fn from_vec(value: Vec<u8>) -> (r: Self)
        requires
            value@.len() <= Self::max_len(),
        ensures
            r.wf_spec(),
            r.contents() == value@,
            r.rpos() == 0,
            r.kind() == if value@.len() <= INLINE_SIZE { BufferKind::Inlined } else { BufferKind::Reference },
    {
        proof { L::lemma_limits(); }
        let n = value.len();
        if n <= INLINE_SIZE {
            let mut a = [0u8; INLINE_SIZE];
            write_bytes(&mut a, 0, value.as_slice());
            let r = RawBuffer { format: L::new_inlined(n, n, 0, 0), storage: OwnedStorage::Inlined(a) };
            assert(r.contents() =~= value@);
            r
        } else {
            let cap = L::fit_cap(n + ADDITIONAL_BUFFER_CAP);
            let mut v = value;
            v.resize(cap - ADDITIONAL_BUFFER_CAP, 0);
            let r = RawBuffer {
                format: L::new_reference(n, cap, n, 0, 0, BufferTy::new_reference()),
                storage: OwnedStorage::Heap(v),
            };
            assert(r.contents() =~= value@);
            r
        }
    }

    pub(crate) fn from_static(buf: &'static [u8]) -> (r: Self)
        requires
            buf@.len() <= Self::max_len(),
        ensures
            r.wf_spec(),
            r.contents() == buf@,
            r.rpos() == 0,
            r.kind() == BufferKind::StaticReference,
    {
        proof { L::lemma_limits(); }
        let n = buf.len();
        let cap = L::fit_cap(n);
        let r = RawBuffer {
            format: L::new_reference(n, cap, n, 0, 0, BufferTy::new_static_reference()),
            storage: OwnedStorage::Static(buf),
        };
        assert(r.contents() =~= buf@);
        r
    }

    /// The contents as a vector; a heap allocation whose contents start at its first
    /// byte is handed over without copying.
    pub(crate) fn into_vec(self) -> (r: Vec<u8>)
        requires
            self.wf_spec(),
        ensures
            r@ == self.contents(),
    {
        proof { self.lemma_bounds(); }
        let len = self.format.len();
        let offset = self.format.offset();
        match self.storage {
            OwnedStorage::Heap(v) => {
                if offset == 0 {
                    let mut v = v;
                    v.truncate(len);
                    v
                } else {
                    slice_to_vec(slice_subrange(v.as_slice(), offset, len))
                }
            },
            OwnedStorage::Inlined(a) => slice_to_vec(slice_subrange(a.as_slice(), offset, len)),
            OwnedStorage::Static(b) => slice_to_vec(slice_subrange(b, offset, len)),
        }
    }

    /// A copy with storage of its own.
    pub(crate) fn duplicate(&self) -> (r: Self)
        ensures
            self.format.inv() ==> r.format.inv(),
            r.cursors() == self.cursors(),
            r.region() == self.region(),
            r.storage_kind() == self.storage_kind(),
    {
        let storage = match &self.storage {
            OwnedStorage::Inlined(a) => OwnedStorage::Inlined(*a),
            OwnedStorage::Static(s) => OwnedStorage::Static(*s),
            OwnedStorage::Heap(v) => OwnedStorage::Heap(slice_to_vec(v.as_slice())),
        };
        RawBuffer { format: self.format.duplicate(), storage }
    }

    /// `growth_cap(from, need)`.
    fn grown_cap(from: usize, need: usize) -> (r: usize)
        requires
            1 <= from,
            need <= L::max_cap(),
        ensures
            r == growth_cap::<L>(from as nat, need as nat),
            need <= r <= L::max_cap(),
            L::cap_ok(r as nat),
    {
        proof { L::lemma_limits(); }
        let c = find_sufficient_cap::<GROWTH_FACTOR>(from, need);
        let m = L::max_capacity();
        let c = if c < m { c } else { m };
        L::fit_cap(c)
    }

    /// Moves the contents to the start of a fresh heap allocation whose capacity is `cap`.
    fn relocate(&mut self, cap: usize)
        requires
            old(self).wf_spec(),
            L::cap_ok(cap as nat),
            cap <= L::max_cap(),
            old(self).contents().len() + ADDITIONAL_BUFFER_CAP <= cap,
        ensures
            final(self).wf_spec(),
            final(self).contents() == old(self).contents(),
            final(self).rpos() == old(self).rpos(),
            final(self).kind() == BufferKind::Reference,
            final(self).cursors().len == old(self).contents().len(),
            final(self).region().len() + ADDITIONAL_BUFFER_CAP == cap,
            final(self).cursors().cap == cap,
    {
        proof { self.lemma_bounds(); L::lemma_limits(); }
        let len = self.format.len();
        let offset = self.format.offset();
        let rdx = self.format.rdx();
        let n = len - offset;
        let fresh = copy_padded(self.region_slice(), offset, len, cap - ADDITIONAL_BUFFER_CAP);
        self.format = L::new_reference(n, cap, n, rdx - offset, 0, BufferTy::new_reference());
        self.storage = OwnedStorage::Heap(fresh);
        assert(self.contents() =~= old(self).contents());
    }

    /// Moves the contents of an inlined buffer to the start of its array.
    fn compact_inline(&mut self)
        requires
            old(self).wf_spec(),
            old(self).kind() == BufferKind::Inlined,
        ensures
            final(self).wf_spec(),
            final(self).contents() == old(self).contents(),
            final(self).rpos() == old(self).rpos(),
            final(self).kind() == BufferKind::Inlined,
            final(self).cursors().len == old(self).contents().len(),
            final(self).cursors().cap == INLINE_SIZE,
    {
        proof { self.lemma_bounds(); }
        let len = self.format.len();
        let offset = self.format.offset();
        let rdx = self.format.rdx();
        let a = inline_copy(self.region_slice(), offset, len);
        self.format = L::new_inlined(len - offset, len - offset, rdx - offset, 0);
        self.storage = OwnedStorage::Inlined(a);
        assert(self.contents() =~= old(self).contents());
    }

    /// Makes room for `additional` more bytes after the contents. An inlined buffer
    /// first moves its bytes to the front of the array; one that would still overflow,
    /// and a static one, move to the heap; a heap buffer grows geometrically.
    pub(crate) fn ensure_large_enough(&mut self, additional: usize)
        requires
            old(self).wf_spec(),
            old(self).contents().len() + additional <= Self::max_len(),
        ensures
            final(self).wf_spec(),
            final(self).contents() == old(self).contents(),
            final(self).rpos() == old(self).rpos(),
            final(self).cursors().len + additional <= final(self).region().len(),
            final(self).kind() == if old(self).fits_inline(additional as nat) {
                BufferKind::Inlined
            } else {
                BufferKind::Reference
            },
            final(self).cursors().cap == if old(self).kind() == BufferKind::Reference && additional <= old(self).room() {
                old(self).cursors().cap
            } else if old(self).fits_inline(additional as nat) {
                INLINE_SIZE as nat
            } else {
                growth_cap::<L>(
                    if old(self).kind() == BufferKind::Reference { old(self).cursors().cap } else { INITIAL_CAP as nat },
                    (old(self).contents().len() + additional + ADDITIONAL_BUFFER_CAP) as nat,
                )
            },
    {
        proof { self.lemma_bounds(); }
        let len = self.format.len();
        let offset = self.format.offset();
        let need = len - offset + additional + ADDITIONAL_BUFFER_CAP;
        let flags = self.format.flags();
        if flags.is_inlined() {
            if len + additional <= INLINE_SIZE {
                return;
            }
            if len - offset + additional <= INLINE_SIZE {
                self.compact_inline();
                return;
            }
            let cap = Self::grown_cap(INITIAL_CAP, need);
            self.relocate(cap);
        } else if flags.is_static_reference() {
            let cap = Self::grown_cap(INITIAL_CAP, need);
            self.relocate(cap);
        } else {
            let cap = self.format.cap();
            if additional + ADDITIONAL_BUFFER_CAP <= cap - len {
                return;
            }
            let cap = Self::grown_cap(cap, need);
            self.relocate(cap);
        }
    }

    /// Writes `src` into the region right after the contents.
    fn write_after(&mut self, src: &[u8])
        requires
            old(self).wf_spec(),
            old(self).kind() != BufferKind::StaticReference,
            old(self).cursors().len + src@.len() <= old(self).region().len(),
        ensures
            final(self).wf_spec(),
            final(self).contents() == old(self).contents() + src@,
            final(self).rpos() == old(self).rpos(),
            final(self).kind() == old(self).kind(),
    {
        proof { self.lemma_bounds(); }
        let len = self.format.len();
        let n = src.len();
        let mut storage = OwnedStorage::Inlined([0u8; INLINE_SIZE]);
        std::mem::swap(&mut storage, &mut self.storage);
        let storage = match storage {
            OwnedStorage::Inlined(a) => {
                let mut a = a;
                write_bytes(&mut a, len, src);
                OwnedStorage::Inlined(a)
            },
            OwnedStorage::Heap(v) => {
                let mut v = v;
                write_bytes(v.as_mut_slice(), len, src);
                OwnedStorage::Heap(v)
            },
            other => other,
        };
        self.storage = storage;
        self.format.set_len(len + n);
        self.format.set_wrx(len + n);
        assert(self.contents() =~= old(self).contents() + src@);
    }

    /// Writes `count` copies of `val` into the region right after the contents.
    fn fill_after(&mut self, val: u8, count: usize)
        requires
            old(self).wf_spec(),
            old(self).kind() != BufferKind::StaticReference,
            old(self).cursors().len + count <= old(self).region().len(),
        ensures
            final(self).wf_spec(),
            final(self).contents() == old(self).contents() + Seq::new(count as nat, |_i: int| val),
            final(self).rpos() == old(self).rpos(),
            final(self).kind() == old(self).kind(),
    {
        proof { self.lemma_bounds(); }
        let len = self.format.len();
        let mut storage = OwnedStorage::Inlined([0u8; INLINE_SIZE]);
        std::mem::swap(&mut storage, &mut self.storage);
        let storage = match storage {
            OwnedStorage::Inlined(a) => {
                let mut a = a;
                fill_bytes(&mut a, len, val, count);
                OwnedStorage::Inlined(a)
            },
            OwnedStorage::Heap(v) => {
                let mut v = v;
                fill_bytes(v.as_mut_slice(), len, val, count);
                OwnedStorage::Heap(v)
            },
            other => other,
        };
        self.storage = storage;
        self.format.set_len(len + count);
        self.format.set_wrx(len + count);
        assert(self.contents() =~= old(self).contents() + Seq::new(count as nat, |_i: int| val));
    }

    pub(crate) fn put_slice(&mut self, val: &[u8])
        requires
            old(self).wf_spec(),
            old(self).contents().len() + val@.len() <= Self::max_len(),
        ensures
            final(self).wf_spec(),
            final(self).contents() == old(self).contents() + val@,
            final(self).rpos() == old(self).rpos(),
            final(self).kind() == if old(self).fits_inline(val@.len()) { BufferKind::Inlined } else { BufferKind::Reference },
    {
        self.ensure_large_enough(val.len());
        self.write_after(val);
    }

    pub(crate) fn put_bytes(&mut self, val: u8, repeat: usize)
        requires
            old(self).wf_spec(),
            old(self).contents().len() + repeat <= Self::max_len(),
        ensures
            final(self).wf_spec(),
            final(self).contents() == old(self).contents() + Seq::new(repeat as nat, |_i: int| val),
            final(self).rpos() == old(self).rpos(),
            final(self).kind() == if old(self).fits_inline(repeat as nat) { BufferKind::Inlined } else { BufferKind::Reference },
    {
        self.ensure_large_enough(repeat);
        self.fill_after(val, repeat);
    }

    /// Forgets the contents and both indices; the storage stays.
    pub(crate) fn reset(&mut self)
        requires
            old(self).wf_spec(),
        ensures
            final(self).wf_spec(),
            final(self).contents() == Seq::<u8>::empty(),
            final(self).rpos() == 0,
            final(self).kind() == old(self).kind(),
            final(self).cursors().cap == old(self).cursors().cap,
    {
        proof { self.lemma_bounds(); }
        self.format.set_offset(0);
        self.format.set_rdx(0);
        self.format.set_len(0);
        self.format.set_wrx(0);
        assert(self.contents() =~= Seq::<u8>::empty());
    }

    pub(crate) fn truncate(&mut self, len: usize)
        requires
            old(self).wf_spec(),
        ensures
            final(self).wf_spec(),
            final(self).contents() == if len < old(self).contents().len() {
                old(self).contents().take(len as int)
            } else {
                old(self).contents()
            },
            final(self).rpos() == if len < old(self).rpos() { len as nat } else { old(self).rpos() },
            final(self).kind() == old(self).kind(),
            final(self).cursors().cap == old(self).cursors().cap,
    {
        proof { self.lemma_bounds(); }
        let offset = self.format.offset();
        if len < self.format.len() - offset {
            let end = offset + len;
            self.format.set_len(end);
            self.format.set_wrx(end);
            let rdx = self.format.rdx();
            self.format.set_rdx(min(rdx, end));
            assert(self.contents() =~= old(self).contents().take(len as int));
        }
    }

    /// Moves a heap buffer whose allocation is larger than it needs to a tight one.
    pub(crate) fn shrink(&mut self)
        requires
            old(self).wf_spec(),
        ensures
            final(self).wf_spec(),
            final(self).contents() == old(self).contents(),
            final(self).rpos() == old(self).rpos(),
            final(self).kind() == old(self).kind(),
            final(self).cursors().cap == if old(self).kind() == BufferKind::Reference
                && L::fitted((old(self).contents().len() + ADDITIONAL_BUFFER_CAP) as nat) < old(self).cursors().cap {
                L::fitted((old(self).contents().len() + ADDITIONAL_BUFFER_CAP) as nat)
            } else {
                old(self).cursors().cap
            },
    {
        proof { self.lemma_bounds(); }
        if !self.format.flags().is_reference() {
            return;
        }
        let n = self.format.len() - self.format.offset();
        let target = L::fit_cap(n + ADDITIONAL_BUFFER_CAP);
        if target < self.format.cap() {
            self.relocate(target);
        }
    }

    /// Keeps the bytes before `idx` and returns a copy that holds the bytes from `idx` on.
    pub(crate) fn split_off_at(&mut self, idx: usize) -> (r: Self)
        requires
            old(self).wf_spec(),
            old(self).cursors().rdx <= idx <= old(self).cursors().len,
        ensures
            final(self).wf_spec(),
            r.wf_spec(),
            final(self).contents() == old(self).contents().take(idx - old(self).cursors().offset),
            r.contents() == old(self).contents().skip(idx - old(self).cursors().offset),
            final(self).rpos() == old(self).rpos(),
            r.rpos() == 0,
            final(self).cursors().len == r.cursors().offset,
            final(self).kind() == old(self).kind(),
            r.kind() == old(self).kind(),
            final(self).cursors().cap == old(self).cursors().cap,
            r.cursors().cap == old(self).cursors().cap,
    {
        proof { self.lemma_bounds(); }
        let mut other = self.duplicate();
        self.format.set_len(idx);
        self.format.set_wrx(idx);
        other.format.set_offset(idx);
        other.format.set_rdx(idx);
        assert(self.contents() =~= old(self).contents().take(idx - old(self).cursors().offset));
        assert(other.contents() =~= old(self).contents().skip(idx - old(self).cursors().offset));
        other
    }

    /// Keeps the bytes from `idx` on and returns a copy that holds the bytes before it.
    pub(crate) fn split_to_at(&mut self, idx: usize) -> (r: Self)
        requires
            old(self).wf_spec(),
            old(self).cursors().rdx <= idx <= old(self).cursors().len,
        ensures
            final(self).wf_spec(),
            r.wf_spec(),
            r.contents() == old(self).contents().take(idx - old(self).cursors().offset),
            final(self).contents() == old(self).contents().skip(idx - old(self).cursors().offset),
            r.rpos() == old(self).rpos(),
            final(self).rpos() == 0,
            r.cursors().len == final(self).cursors().offset,
            final(self).kind() == old(self).kind(),
            r.kind() == old(self).kind(),
            final(self).cursors().cap == old(self).cursors().cap,
            r.cursors().cap == old(self).cursors().cap,
    {
        proof { self.lemma_bounds(); }
        let mut other = self.duplicate();
        other.format.set_len(idx);
        other.format.set_wrx(idx);
        self.format.set_offset(idx);
        self.format.set_rdx(idx);
        assert(other.contents() =~= old(self).contents().take(idx - old(self).cursors().offset));
        assert(self.contents() =~= old(self).contents().skip(idx - old(self).cursors().offset));
        other
    }

    /// Appends the contents of `other`.
    pub(crate) fn append(&mut self, other: &Self)
        requires
            old(self).wf_spec(),
            other.wf_spec(),
            old(self).contents().len() + other.contents().len() <= Self::max_len(),
        ensures
            final(self).wf_spec(),
            final(self).contents() == old(self).contents() + other.contents(),
            final(self).rpos() == old(self).rpos(),
            final(self).kind() != BufferKind::StaticReference,
    {
        proof { other.lemma_bounds(); }
        let start = other.format.offset();
        let end = other.format.len();
        let bytes = slice_subrange(other.region_slice(), start, end);
        self.put_slice(bytes);
    }
}

impl<L: BufferFormat> RawBuffer<L> {
    pub(crate) fn resize(&mut self, size: usize)
        requires
            old(self).wf_spec(),
            size <= Self::max_len(),
        ensures
            final(self).wf_spec(),
            final(self).contents() == if size <= old(self).contents().len() {
                old(self).contents().take(size as int)
            } else {
                old(self).contents() + Seq::new((size - old(self).contents().len()) as nat, |_i: int| 0u8)
            },
            final(self).rpos() == if size < old(self).rpos() { size as nat } else { old(self).rpos() },
            old(self).kind() != BufferKind::StaticReference ==> final(self).kind() != BufferKind::StaticReference,
            final(self).cursors().cap >= size,
    {
        proof { self.lemma_bounds(); }
        let n = self.format.len() - self.format.offset();
        if size <= n {
            self.truncate(size);
            assert(self.contents() =~= old(self).contents().take(size as int));
        } else {
            self.put_bytes(0, size - n);
        }
        proof { self.lemma_bounds(); }
    }

    /// Drops the reader index back to the start of the contents and moves static bytes
    /// to the heap, as a write-only buffer needs.
    pub(crate) fn start_reader_at_front(&mut self)
        requires
            old(self).wf_spec(),
        ensures
            final(self).wf_spec(),
            final(self).contents() == old(self).contents(),
            final(self).rpos() == 0,
            final(self).kind() == if old(self).kind() == BufferKind::Inlined { BufferKind::Inlined } else { BufferKind::Reference },
    {
        proof { self.lemma_bounds(); }
        let offset = self.format.offset();
        self.format.set_rdx(offset);
        if self.format.flags().is_static_reference() {
            self.ensure_large_enough(0);
        }
    }

    pub(crate) fn capacity(&self) -> (r: usize)
        requires
            self.wf_spec(),
        ensures
            r == self.cursors().cap,
            self.kind() == BufferKind::Inlined ==> r == INLINE_SIZE,
            self.kind() == BufferKind::Reference ==> r >= self.room() + self.contents().len() + ADDITIONAL_BUFFER_CAP,
    {
        proof { self.lemma_bounds(); }
        self.format.cap()
    }
}

} // verus!
