use vstd::prelude::*;
use crate::util::{field, get_field, set_field, with_field, lemma_with_field, lemma_masks, lemma_field_bound};

pub mod half;
pub mod extended;

verus! {

/// The largest number of payload bytes that a buffer value stores inside itself: three
/// machine words minus the byte that shares a word with the flag bits.
pub const INLINE_SIZE: usize = 23;

/// Bits of word 0 that hold each cursor of an inlined buffer (enough for `INLINE_SIZE`).
pub const INLINE_FIELD_BITS: u64 = 5;

/// Position of the two flag bits in word 0.
pub const FLAGS_SHIFT: u64 = 62;

/// Width of the flag field.
pub const FLAGS_BITS: u64 = 2;

/// Flag field value of an inlined buffer.
pub const INLINE_BUFFER_FLAG: u64 = 2;

/// Flag field value of a buffer that references static memory.
pub const STATIC_BUFFER_FLAG: u64 = 1;

/// Flag field value of a buffer that references a heap allocation.
pub const REFERENCE_BUFFER_FLAG: u64 = 0;

/// The four physical states collapse to three storage kinds.
#[derive(Clone, Copy, PartialEq, Eq, Structural, Debug)]
pub enum BufferKind {
    Inlined,
    StaticReference,
    Reference,
}

/// What the packed words of a format say: the cursors and the storage kind.
pub struct Cursors {
    pub len: nat,
    pub cap: nat,
    pub wrx: nat,
    pub rdx: nat,
    pub offset: nat,
    pub kind: BufferKind,
}

/// The kind that a flag field value stands for.
pub open spec fn kind_of_flag(v: u64) -> BufferKind {
    if v == INLINE_BUFFER_FLAG {
        BufferKind::Inlined
    } else if v == STATIC_BUFFER_FLAG {
        BufferKind::StaticReference
    } else {
        BufferKind::Reference
    }
}

/// A copyable discriminant of the three storage kinds.
pub trait Flags: Sized + Copy {
    spec fn kind(self) -> BufferKind;

    fn new_inlined() -> (r: Self)
        ensures
            r.kind() == BufferKind::Inlined,
    ;

    fn new_static_reference() -> (r: Self)
        ensures
            r.kind() == BufferKind::StaticReference,
    ;

    fn new_reference() -> (r: Self)
        ensures
            r.kind() == BufferKind::Reference,
    ;

    fn is_inlined(self) -> (r: bool)
        ensures
            r == (self.kind() == BufferKind::Inlined),
    ;

    fn is_static_reference(self) -> (r: bool)
        ensures
            r == (self.kind() == BufferKind::StaticReference),
    ;

    /// Whether the buffer is a non-static reference.
    fn is_reference(self) -> (r: bool)
        ensures
            r == (self.kind() == BufferKind::Reference),
    ;
}

/// The two flag bits as they stand in word 0, shifted down.
#[derive(Clone, Copy, PartialEq, Eq, Structural, Debug)]
pub struct BufferTy(pub u64);

impl Flags for BufferTy {
    open spec fn kind(self) -> BufferKind {
        kind_of_flag(self.0)
    }

    fn new_inlined() -> (r: Self) {
        BufferTy(INLINE_BUFFER_FLAG)
    }

    fn new_static_reference() -> (r: Self) {
        BufferTy(STATIC_BUFFER_FLAG)
    }

    fn new_reference() -> (r: Self) {
        BufferTy(REFERENCE_BUFFER_FLAG)
    }

    fn is_inlined(self) -> (r: bool) {
        self.0 == INLINE_BUFFER_FLAG
    }

    fn is_static_reference(self) -> (r: bool) {
        self.0 == STATIC_BUFFER_FLAG
    }

    fn is_reference(self) -> (r: bool) {
        self.0 != INLINE_BUFFER_FLAG && self.0 != STATIC_BUFFER_FLAG
    }
}

/// Whether cursors fit an inlined buffer.
pub open spec fn inline_fits(len: nat, wrx: nat, rdx: nat, offset: nat) -> bool {
    len <= INLINE_SIZE && wrx <= INLINE_SIZE && rdx <= INLINE_SIZE && offset <= INLINE_SIZE
}

/// A packing of the cursors and the storage kind into machine words.
///
/// Every getter returns what the matching setter stored; a setter leaves the other
/// cursors and the kind as they were. An inlined buffer always has capacity
/// `INLINE_SIZE`.
pub trait BufferFormat: Sized + Clone {
    /// The cursors and kind that the words hold.
    spec fn cursors(&self) -> Cursors;

    /// What every constructor and setter keeps of the words.
    spec fn inv(&self) -> bool;

    /// The largest value that len, wrx, rdx and offset may hold in a reference layout.
    spec fn max_index() -> nat;

    /// The largest capacity that a buffer of this format requests.
    spec fn max_cap() -> nat;

    /// Whether a capacity is stored without rounding.
    spec fn cap_ok(cap: nat) -> bool;

    /// The capacity that `fit_cap` makes of `cap`.
    spec fn fitted(cap: nat) -> nat;

    /// Limits every user of a format relies on.
    proof fn lemma_limits()
        ensures
            4096 <= Self::max_cap() <= usize::MAX / 2,
            Self::max_cap() <= Self::max_index() <= usize::MAX,
            forall|c: nat| Self::cap_ok(c) ==> c <= Self::max_index(),
    ;

    /// Fields that the packing guarantees.
    proof fn lemma_wf(&self)
        requires
            self.inv(),
        ensures
            self.cursors().kind == BufferKind::Inlined ==> self.cursors().cap == INLINE_SIZE,
            self.cursors().len <= usize::MAX,
            self.cursors().wrx <= usize::MAX,
            self.cursors().rdx <= usize::MAX,
            self.cursors().offset <= usize::MAX,
            self.cursors().cap <= usize::MAX,
    ;

    /// `max_cap` as a value.
    fn max_capacity() -> (r: usize)
        ensures
            r == Self::max_cap(),
    ;

    /// A capacity of at least `cap` that is stored without rounding.
    fn fit_cap(cap: usize) -> (r: usize)
        requires
            cap <= Self::max_cap(),
        ensures
            r == Self::fitted(cap as nat),
            cap <= r <= Self::max_cap(),
            Self::cap_ok(r as nat),
            cap <= TAIL_MASK ==> r == cap,
            r == cap || r < 2 * cap,
    ;

    fn new_reference(len: usize, cap: usize, wrx: usize, rdx: usize, offset: usize, flags: BufferTy) -> (r: Self)
        requires
            len <= Self::max_index(),
            wrx <= Self::max_index(),
            rdx <= Self::max_index(),
            offset <= Self::max_index(),
            Self::cap_ok(cap as nat),
            flags.kind() != BufferKind::Inlined,
        ensures
            r.inv(),
            r.cursors() == (Cursors { len: len as nat, cap: cap as nat, wrx: wrx as nat, rdx: rdx as nat, offset: offset as nat, kind: flags.kind() }),
    ;

    fn new_inlined(len: usize, wrx: usize, rdx: usize, offset: usize) -> (r: Self)
        requires
            inline_fits(len as nat, wrx as nat, rdx as nat, offset as nat),
        ensures
            r.inv(),
            r.cursors() == (Cursors { len: len as nat, cap: INLINE_SIZE as nat, wrx: wrx as nat, rdx: rdx as nat, offset: offset as nat, kind: BufferKind::Inlined }),
    ;

    /// A copy of the words.
    fn duplicate(&self) -> (r: Self)
        ensures
            self.inv() ==> r.inv(),
            r.cursors() == self.cursors(),
    ;

    fn flags(&self) -> (r: BufferTy)
        requires
            self.inv(),
        ensures
            r.kind() == self.cursors().kind,
    ;

    fn len(&self) -> (r: usize)
        requires
            self.inv(),
        ensures
            r == self.cursors().len,
    ;

    fn wrx(&self) -> (r: usize)
        requires
            self.inv(),
        ensures
            r == self.cursors().wrx,
    ;

    fn rdx(&self) -> (r: usize)
        requires
            self.inv(),
        ensures
            r == self.cursors().rdx,
    ;

    fn offset(&self) -> (r: usize)
        requires
            self.inv(),
        ensures
            r == self.cursors().offset,
    ;

    fn cap(&self) -> (r: usize)
        requires
            self.inv(),
        ensures
            r == self.cursors().cap,
    ;

    fn set_len(&mut self, len: usize)
        requires
            old(self).inv(),
            old(self).cursors().kind == BufferKind::Inlined ==> len <= INLINE_SIZE,
            len <= Self::max_index(),
        ensures
            final(self).inv(),
            final(self).cursors() == (Cursors { len: len as nat, ..old(self).cursors() }),
    ;

    fn set_wrx(&mut self, wrx: usize)
        requires
            old(self).inv(),
            old(self).cursors().kind == BufferKind::Inlined ==> wrx <= INLINE_SIZE,
            wrx <= Self::max_index(),
        ensures
            final(self).inv(),
            final(self).cursors() == (Cursors { wrx: wrx as nat, ..old(self).cursors() }),
    ;

    fn set_rdx(&mut self, rdx: usize)
        requires
            old(self).inv(),
            old(self).cursors().kind == BufferKind::Inlined ==> rdx <= INLINE_SIZE,
            rdx <= Self::max_index(),
        ensures
            final(self).inv(),
            final(self).cursors() == (Cursors { rdx: rdx as nat, ..old(self).cursors() }),
    ;

    fn set_offset(&mut self, offset: usize)
        requires
            old(self).inv(),
            old(self).cursors().kind == BufferKind::Inlined ==> offset <= INLINE_SIZE,
            offset <= Self::max_index(),
        ensures
            final(self).inv(),
            final(self).cursors() == (Cursors { offset: offset as nat, ..old(self).cursors() }),
    ;

    /// Only a reference layout stores its capacity.
    fn set_cap_reference(&mut self, cap: usize)
        requires
            old(self).inv(),
            old(self).cursors().kind != BufferKind::Inlined,
            Self::cap_ok(cap as nat),
        ensures
            final(self).inv(),
            final(self).cursors() == (Cursors { cap: cap as nat, ..old(self).cursors() }),
    ;
}

// Words 1 and 2 of a reference in the extended layout, on a 64-bit host:
//
// 2. word: wrx[40 bits], rdx_lower[24 bits]
// 3. word: offset[40 bits], capacity[24 bits]

/// Bits of the wide cursors (wrx, offset, and len in word 0).
pub const COMPRESSED_WORD_SIZE: u64 = 40;

/// Bits left above a wide cursor.
pub const TAIL_SPACE: u64 = 24;

/// Position of the bits above a wide cursor.
pub const TAIL_SHIFT: u64 = 40;

/// The largest value of a wide cursor.
pub const WORD_MASK: u64 = 0xff_ffff_ffff;

/// The largest value stored in the tail of a word.
pub const TAIL_MASK: u64 = 0xff_ffff;

/// The writer index with the low bits of the reader index, and the offset with the
/// capacity's mantissa.
#[derive(Clone)]
pub struct ReferenceBuffer {
    wrx: u64,
    offset: u64,
}

impl ReferenceBuffer {
    pub closed spec fn wrx_view(&self) -> nat {
        field(self.wrx, 0, COMPRESSED_WORD_SIZE) as nat
    }

    pub closed spec fn rdx_lower_view(&self) -> nat {
        field(self.wrx, TAIL_SHIFT, TAIL_SPACE) as nat
    }

    pub closed spec fn offset_view(&self) -> nat {
        field(self.offset, 0, COMPRESSED_WORD_SIZE) as nat
    }

    pub closed spec fn capacity_raw_view(&self) -> nat {
        field(self.offset, TAIL_SHIFT, TAIL_SPACE) as nat
    }

    pub proof fn lemma_bounds(&self)
        ensures
            self.wrx_view() <= WORD_MASK,
            self.offset_view() <= WORD_MASK,
            self.rdx_lower_view() <= TAIL_MASK,
            self.capacity_raw_view() <= TAIL_MASK,
    {
        lemma_masks();
        lemma_field_bound(self.wrx, 0, COMPRESSED_WORD_SIZE);
        lemma_field_bound(self.wrx, TAIL_SHIFT, TAIL_SPACE);
        lemma_field_bound(self.offset, 0, COMPRESSED_WORD_SIZE);
        lemma_field_bound(self.offset, TAIL_SHIFT, TAIL_SPACE);
    }

    /// Packs a capacity mantissa, an offset and a writer index; the reader bits are zero.
    pub fn new(cap: u64, offset: u64, wrx: u64) -> (r: Self)
        requires
            cap <= TAIL_MASK,
            offset <= WORD_MASK,
            wrx <= WORD_MASK,
        ensures
            r.capacity_raw_view() == cap,
            r.offset_view() == offset,
            r.wrx_view() == wrx,
            r.rdx_lower_view() == 0,
    {
        proof {
            lemma_masks();
            lemma_with_field(0, 0, COMPRESSED_WORD_SIZE, offset, TAIL_SHIFT, TAIL_SPACE);
            lemma_with_field(with_field(0, 0, COMPRESSED_WORD_SIZE, offset), TAIL_SHIFT, TAIL_SPACE, cap, 0, COMPRESSED_WORD_SIZE);
            lemma_with_field(0, 0, COMPRESSED_WORD_SIZE, wrx, TAIL_SHIFT, TAIL_SPACE);
            crate::util::lemma_zero_field(TAIL_SHIFT, TAIL_SPACE);
        }
        ReferenceBuffer {
            wrx: set_field(0, 0, COMPRESSED_WORD_SIZE, wrx),
            offset: set_field(set_field(0, 0, COMPRESSED_WORD_SIZE, offset), TAIL_SHIFT, TAIL_SPACE, cap),
        }
    }

    pub fn duplicate(&self) -> (r: Self)
        ensures
            r.wrx_view() == self.wrx_view(),
            r.rdx_lower_view() == self.rdx_lower_view(),
            r.offset_view() == self.offset_view(),
            r.capacity_raw_view() == self.capacity_raw_view(),
    {
        ReferenceBuffer { wrx: self.wrx, offset: self.offset }
    }

    pub fn capacity_raw(&self) -> (r: u64)
        ensures
            r == self.capacity_raw_view(),
    {
        proof { lemma_masks(); }
        get_field(self.offset, TAIL_SHIFT, TAIL_SPACE)
    }

    pub fn set_capacity_raw(&mut self, cap: u64)
        requires
            cap <= TAIL_MASK,
        ensures
            final(self).capacity_raw_view() == cap,
            final(self).offset_view() == old(self).offset_view(),
            final(self).wrx_view() == old(self).wrx_view(),
            final(self).rdx_lower_view() == old(self).rdx_lower_view(),
    {
        proof { lemma_masks(); lemma_with_field(self.offset, TAIL_SHIFT, TAIL_SPACE, cap, 0, COMPRESSED_WORD_SIZE); }
        self.offset = set_field(self.offset, TAIL_SHIFT, TAIL_SPACE, cap);
    }

    pub fn wrx(&self) -> (r: u64)
        ensures
            r == self.wrx_view(),
    {
        proof { lemma_masks(); }
        get_field(self.wrx, 0, COMPRESSED_WORD_SIZE)
    }

    pub fn set_wrx(&mut self, wrx: u64)
        requires
            wrx <= WORD_MASK,
        ensures
            final(self).wrx_view() == wrx,
            final(self).rdx_lower_view() == old(self).rdx_lower_view(),
            final(self).offset_view() == old(self).offset_view(),
            final(self).capacity_raw_view() == old(self).capacity_raw_view(),
    {
        proof { lemma_masks(); lemma_with_field(self.wrx, 0, COMPRESSED_WORD_SIZE, wrx, TAIL_SHIFT, TAIL_SPACE); }
        self.wrx = set_field(self.wrx, 0, COMPRESSED_WORD_SIZE, wrx);
    }

    pub fn rdx_lower(&self) -> (r: u64)
        ensures
            r == self.rdx_lower_view(),
    {
        proof { lemma_masks(); }
        get_field(self.wrx, TAIL_SHIFT, TAIL_SPACE)
    }

    pub fn set_rdx_lower(&mut self, rdx: u64)
        requires
            rdx <= TAIL_MASK,
        ensures
            final(self).rdx_lower_view() == rdx,
            final(self).wrx_view() == old(self).wrx_view(),
            final(self).offset_view() == old(self).offset_view(),
            final(self).capacity_raw_view() == old(self).capacity_raw_view(),
    {
        proof { lemma_masks(); lemma_with_field(self.wrx, TAIL_SHIFT, TAIL_SPACE, rdx, 0, COMPRESSED_WORD_SIZE); }
        self.wrx = set_field(self.wrx, TAIL_SHIFT, TAIL_SPACE, rdx);
    }

    pub fn offset(&self) -> (r: u64)
        ensures
            r == self.offset_view(),
    {
        proof { lemma_masks(); }
        get_field(self.offset, 0, COMPRESSED_WORD_SIZE)
    }

    pub fn set_offset(&mut self, offset: u64)
        requires
            offset <= WORD_MASK,
        ensures
            final(self).offset_view() == offset,
            final(self).capacity_raw_view() == old(self).capacity_raw_view(),
            final(self).wrx_view() == old(self).wrx_view(),
            final(self).rdx_lower_view() == old(self).rdx_lower_view(),
    {
        proof { lemma_masks(); lemma_with_field(self.offset, 0, COMPRESSED_WORD_SIZE, offset, TAIL_SHIFT, TAIL_SPACE); }
        self.offset = set_field(self.offset, 0, COMPRESSED_WORD_SIZE, offset);
    }
}

} // verus!
