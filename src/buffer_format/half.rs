use vstd::prelude::*;
use super::{BufferFormat, BufferKind, BufferTy, Cursors, Flags, kind_of_flag, INLINE_SIZE, INLINE_FIELD_BITS, FLAGS_SHIFT, FLAGS_BITS, INLINE_BUFFER_FLAG, STATIC_BUFFER_FLAG, REFERENCE_BUFFER_FLAG};
use crate::util::{field, get_field, set_field, with_field, lemma_with_field, lemma_masks};

verus! {

// Layout of the three words on a 64-bit host:
//
// 1. word: len[32 bits], unused[30 bits], flags[2 bits]
// 2. word: wrx[32 bits], rdx[32 bits]
// 3. word: offset[32 bits], capacity[32 bits]
//
// An inlined buffer keeps len, offset, wrx and rdx in five bits each at the bottom of
// word 0; words 1 and 2 are then unused.

const HALF_BITS: u64 = 32;
const HALF_SHIFT: u64 = 32;
pub(crate) const INLINE_OFFSET_SHIFT: u64 = 5;
pub(crate) const INLINE_WRX_SHIFT: u64 = 10;
pub(crate) const INLINE_RDX_SHIFT: u64 = 15;

/// Each of len, cap, wrx, rdx and offset takes half a word: fast to decode, with a
/// capacity of at most `u32::MAX` bytes.
#[derive(Clone)]
pub struct FormatHalf {
    len: u64,
    wrx: u64,
    offset: u64,
}

impl FormatHalf {
    spec fn flag_field(&self) -> u64 {
        field(self.len, FLAGS_SHIFT, FLAGS_BITS)
    }

    fn is_inlined_layout(&self) -> (r: bool)
        ensures
            r == (self.cursors().kind == BufferKind::Inlined),
    {
        get_field(self.len, FLAGS_SHIFT, FLAGS_BITS) == INLINE_BUFFER_FLAG
    }
}

impl BufferFormat for FormatHalf {
    closed spec fn cursors(&self) -> Cursors {
        let kind = kind_of_flag(self.flag_field());
        if kind == BufferKind::Inlined {
            Cursors {
                len: field(self.len, 0, INLINE_FIELD_BITS) as nat,
                cap: INLINE_SIZE as nat,
                wrx: field(self.len, INLINE_WRX_SHIFT, INLINE_FIELD_BITS) as nat,
                rdx: field(self.len, INLINE_RDX_SHIFT, INLINE_FIELD_BITS) as nat,
                offset: field(self.len, INLINE_OFFSET_SHIFT, INLINE_FIELD_BITS) as nat,
                kind,
            }
        } else {
            Cursors {
                len: field(self.len, 0, HALF_BITS) as nat,
                cap: field(self.offset, HALF_SHIFT, HALF_BITS) as nat,
                wrx: field(self.wrx, 0, HALF_BITS) as nat,
                rdx: field(self.wrx, HALF_SHIFT, HALF_BITS) as nat,
                offset: field(self.offset, 0, HALF_BITS) as nat,
                kind,
            }
        }
    }

    open spec fn inv(&self) -> bool {
        true
    }

    open spec fn max_index() -> nat {
        0xffff_ffff
    }

    open spec fn max_cap() -> nat {
        0x7fff_ffff
    }

    open spec fn cap_ok(cap: nat) -> bool {
        cap <= 0xffff_ffff
    }

    open spec fn fitted(cap: nat) -> nat {
        cap
    }

    proof fn lemma_limits() {
    }

    proof fn lemma_wf(&self) {
        lemma_masks();
        crate::util::lemma_field_bound(self.len, 0, INLINE_FIELD_BITS);
        crate::util::lemma_field_bound(self.len, INLINE_WRX_SHIFT, INLINE_FIELD_BITS);
        crate::util::lemma_field_bound(self.len, INLINE_RDX_SHIFT, INLINE_FIELD_BITS);
        crate::util::lemma_field_bound(self.len, INLINE_OFFSET_SHIFT, INLINE_FIELD_BITS);
        crate::util::lemma_field_bound(self.len, 0, HALF_BITS);
        crate::util::lemma_field_bound(self.offset, HALF_SHIFT, HALF_BITS);
        crate::util::lemma_field_bound(self.wrx, 0, HALF_BITS);
        crate::util::lemma_field_bound(self.wrx, HALF_SHIFT, HALF_BITS);
        crate::util::lemma_field_bound(self.offset, 0, HALF_BITS);
    }

    fn max_capacity() -> (r: usize) {
        0x7fff_ffff
    }

    fn fit_cap(cap: usize) -> (r: usize) {
        cap
    }

    fn new_reference(len: usize, cap: usize, wrx: usize, rdx: usize, offset: usize, flags: BufferTy) -> (r: Self) {
        let flag = if flags.is_static_reference() { STATIC_BUFFER_FLAG } else { REFERENCE_BUFFER_FLAG };
        proof { lemma_masks(); }
        let w0 = set_field(set_field(0, 0, HALF_BITS, len as u64), FLAGS_SHIFT, FLAGS_BITS, flag);
        let w1 = set_field(set_field(0, 0, HALF_BITS, wrx as u64), HALF_SHIFT, HALF_BITS, rdx as u64);
        let w2 = set_field(set_field(0, 0, HALF_BITS, offset as u64), HALF_SHIFT, HALF_BITS, cap as u64);
        proof {
            lemma_with_field(0, 0, HALF_BITS, len as u64, FLAGS_SHIFT, FLAGS_BITS);
            lemma_with_field(with_field(0, 0, HALF_BITS, len as u64), FLAGS_SHIFT, FLAGS_BITS, flag, 0, HALF_BITS);
            lemma_with_field(0, 0, HALF_BITS, wrx as u64, HALF_SHIFT, HALF_BITS);
            lemma_with_field(with_field(0, 0, HALF_BITS, wrx as u64), HALF_SHIFT, HALF_BITS, rdx as u64, 0, HALF_BITS);
            lemma_with_field(0, 0, HALF_BITS, offset as u64, HALF_SHIFT, HALF_BITS);
            lemma_with_field(with_field(0, 0, HALF_BITS, offset as u64), HALF_SHIFT, HALF_BITS, cap as u64, 0, HALF_BITS);
        }
        FormatHalf { len: w0, wrx: w1, offset: w2 }
    }

    fn new_inlined(len: usize, wrx: usize, rdx: usize, offset: usize) -> (r: Self) {
        proof { lemma_masks(); }
        let a = set_field(0, 0, INLINE_FIELD_BITS, len as u64);
        let b = set_field(a, INLINE_OFFSET_SHIFT, INLINE_FIELD_BITS, offset as u64);
        let c = set_field(b, INLINE_WRX_SHIFT, INLINE_FIELD_BITS, wrx as u64);
        let d = set_field(c, INLINE_RDX_SHIFT, INLINE_FIELD_BITS, rdx as u64);
        let w0 = set_field(d, FLAGS_SHIFT, FLAGS_BITS, INLINE_BUFFER_FLAG);
        proof {
            lemma_with_field(0, 0, INLINE_FIELD_BITS, len as u64, 0, INLINE_FIELD_BITS);
            lemma_with_field(a, INLINE_OFFSET_SHIFT, INLINE_FIELD_BITS, offset as u64, 0, INLINE_FIELD_BITS);
            lemma_with_field(b, INLINE_WRX_SHIFT, INLINE_FIELD_BITS, wrx as u64, 0, INLINE_FIELD_BITS);
            lemma_with_field(b, INLINE_WRX_SHIFT, INLINE_FIELD_BITS, wrx as u64, INLINE_OFFSET_SHIFT, INLINE_FIELD_BITS);
            lemma_with_field(c, INLINE_RDX_SHIFT, INLINE_FIELD_BITS, rdx as u64, 0, INLINE_FIELD_BITS);
            lemma_with_field(c, INLINE_RDX_SHIFT, INLINE_FIELD_BITS, rdx as u64, INLINE_OFFSET_SHIFT, INLINE_FIELD_BITS);
            lemma_with_field(c, INLINE_RDX_SHIFT, INLINE_FIELD_BITS, rdx as u64, INLINE_WRX_SHIFT, INLINE_FIELD_BITS);
            lemma_with_field(d, FLAGS_SHIFT, FLAGS_BITS, INLINE_BUFFER_FLAG, 0, INLINE_FIELD_BITS);
            lemma_with_field(d, FLAGS_SHIFT, FLAGS_BITS, INLINE_BUFFER_FLAG, INLINE_OFFSET_SHIFT, INLINE_FIELD_BITS);
            lemma_with_field(d, FLAGS_SHIFT, FLAGS_BITS, INLINE_BUFFER_FLAG, INLINE_WRX_SHIFT, INLINE_FIELD_BITS);
            lemma_with_field(d, FLAGS_SHIFT, FLAGS_BITS, INLINE_BUFFER_FLAG, INLINE_RDX_SHIFT, INLINE_FIELD_BITS);
        }
        FormatHalf { len: w0, wrx: 0, offset: 0 }
    }

    fn duplicate(&self) -> (r: Self) {
        FormatHalf { len: self.len, wrx: self.wrx, offset: self.offset }
    }

    fn flags(&self) -> (r: BufferTy) {
        proof { lemma_masks(); }
        BufferTy(get_field(self.len, FLAGS_SHIFT, FLAGS_BITS))
    }

    fn len(&self) -> (r: usize) {
        proof { self.lemma_wf(); lemma_masks(); }
        if self.is_inlined_layout() {
            get_field(self.len, 0, INLINE_FIELD_BITS) as usize
        } else {
            get_field(self.len, 0, HALF_BITS) as usize
        }
    }

    fn wrx(&self) -> (r: usize) {
        proof { self.lemma_wf(); lemma_masks(); }
        if self.is_inlined_layout() {
            get_field(self.len, INLINE_WRX_SHIFT, INLINE_FIELD_BITS) as usize
        } else {
            get_field(self.wrx, 0, HALF_BITS) as usize
        }
    }

    fn rdx(&self) -> (r: usize) {
        proof { self.lemma_wf(); lemma_masks(); }
        if self.is_inlined_layout() {
            get_field(self.len, INLINE_RDX_SHIFT, INLINE_FIELD_BITS) as usize
        } else {
            get_field(self.wrx, HALF_SHIFT, HALF_BITS) as usize
        }
    }

    fn offset(&self) -> (r: usize) {
        proof { self.lemma_wf(); lemma_masks(); }
        if self.is_inlined_layout() {
            get_field(self.len, INLINE_OFFSET_SHIFT, INLINE_FIELD_BITS) as usize
        } else {
            get_field(self.offset, 0, HALF_BITS) as usize
        }
    }

    fn cap(&self) -> (r: usize) {
        proof { self.lemma_wf(); lemma_masks(); }
        if self.is_inlined_layout() {
            INLINE_SIZE
        } else {
            get_field(self.offset, HALF_SHIFT, HALF_BITS) as usize
        }
    }

    fn set_len(&mut self, len: usize) {
        proof { lemma_masks(); }
        if self.is_inlined_layout() {
            let w = self.len;
            self.len = set_field(w, 0, INLINE_FIELD_BITS, len as u64);
            proof { lemma_inline_word(w, 0, len as u64); }
        } else {
            let w = self.len;
            self.len = set_field(w, 0, HALF_BITS, len as u64);
            proof { lemma_with_field(w, 0, HALF_BITS, len as u64, FLAGS_SHIFT, FLAGS_BITS); }
        }
    }

    fn set_wrx(&mut self, wrx: usize) {
        proof { lemma_masks(); }
        if self.is_inlined_layout() {
            let w = self.len;
            self.len = set_field(w, INLINE_WRX_SHIFT, INLINE_FIELD_BITS, wrx as u64);
            proof { lemma_inline_word(w, INLINE_WRX_SHIFT, wrx as u64); }
        } else {
            let w = self.wrx;
            self.wrx = set_field(w, 0, HALF_BITS, wrx as u64);
            proof { lemma_with_field(w, 0, HALF_BITS, wrx as u64, HALF_SHIFT, HALF_BITS); }
        }
    }

    fn set_rdx(&mut self, rdx: usize) {
        proof { lemma_masks(); }
        if self.is_inlined_layout() {
            let w = self.len;
            self.len = set_field(w, INLINE_RDX_SHIFT, INLINE_FIELD_BITS, rdx as u64);
            proof { lemma_inline_word(w, INLINE_RDX_SHIFT, rdx as u64); }
        } else {
            let w = self.wrx;
            self.wrx = set_field(w, HALF_SHIFT, HALF_BITS, rdx as u64);
            proof { lemma_with_field(w, HALF_SHIFT, HALF_BITS, rdx as u64, 0, HALF_BITS); }
        }
    }

    fn set_offset(&mut self, offset: usize) {
        proof { lemma_masks(); }
        if self.is_inlined_layout() {
            let w = self.len;
            self.len = set_field(w, INLINE_OFFSET_SHIFT, INLINE_FIELD_BITS, offset as u64);
            proof { lemma_inline_word(w, INLINE_OFFSET_SHIFT, offset as u64); }
        } else {
            let w = self.offset;
            self.offset = set_field(w, 0, HALF_BITS, offset as u64);
            proof { lemma_with_field(w, 0, HALF_BITS, offset as u64, HALF_SHIFT, HALF_BITS); }
        }
    }

    fn set_cap_reference(&mut self, cap: usize) {
        proof { lemma_masks(); }
        let w = self.offset;
        self.offset = set_field(w, HALF_SHIFT, HALF_BITS, cap as u64);
        proof { lemma_with_field(w, HALF_SHIFT, HALF_BITS, cap as u64, 0, HALF_BITS); }
    }
}

/// Rewriting one five-bit cursor of an inlined word keeps the other cursors and the flags.
pub(crate) proof fn lemma_inline_word(w: u64, shift: u64, v: u64)
    requires
        shift == 0 || shift == INLINE_OFFSET_SHIFT || shift == INLINE_WRX_SHIFT || shift == INLINE_RDX_SHIFT,
        v <= 31,
    ensures
        field(with_field(w, shift, INLINE_FIELD_BITS, v), shift, INLINE_FIELD_BITS) == v,
        field(with_field(w, shift, INLINE_FIELD_BITS, v), FLAGS_SHIFT, FLAGS_BITS) == field(w, FLAGS_SHIFT, FLAGS_BITS),
        shift != 0 ==> field(with_field(w, shift, INLINE_FIELD_BITS, v), 0, INLINE_FIELD_BITS) == field(w, 0, INLINE_FIELD_BITS),
        shift != INLINE_OFFSET_SHIFT ==> field(with_field(w, shift, INLINE_FIELD_BITS, v), INLINE_OFFSET_SHIFT, INLINE_FIELD_BITS) == field(w, INLINE_OFFSET_SHIFT, INLINE_FIELD_BITS),
        shift != INLINE_WRX_SHIFT ==> field(with_field(w, shift, INLINE_FIELD_BITS, v), INLINE_WRX_SHIFT, INLINE_FIELD_BITS) == field(w, INLINE_WRX_SHIFT, INLINE_FIELD_BITS),
        shift != INLINE_RDX_SHIFT ==> field(with_field(w, shift, INLINE_FIELD_BITS, v), INLINE_RDX_SHIFT, INLINE_FIELD_BITS) == field(w, INLINE_RDX_SHIFT, INLINE_FIELD_BITS),
{
    lemma_masks();
    lemma_with_field(w, shift, INLINE_FIELD_BITS, v, FLAGS_SHIFT, FLAGS_BITS);
    lemma_with_field(w, shift, INLINE_FIELD_BITS, v, 0, INLINE_FIELD_BITS);
    lemma_with_field(w, shift, INLINE_FIELD_BITS, v, INLINE_OFFSET_SHIFT, INLINE_FIELD_BITS);
    lemma_with_field(w, shift, INLINE_FIELD_BITS, v, INLINE_WRX_SHIFT, INLINE_FIELD_BITS);
    lemma_with_field(w, shift, INLINE_FIELD_BITS, v, INLINE_RDX_SHIFT, INLINE_FIELD_BITS);
}

} // verus!
