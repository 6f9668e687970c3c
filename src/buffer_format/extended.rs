use vstd::prelude::*;
use vstd::arithmetic::power2::{pow2, lemma_pow2_unfold, lemma_pow2_adds, lemma_pow2_pos, lemma_pow2_strictly_increases, lemma2_to64};
use vstd::arithmetic::div_mod::{lemma_mod_pos_bound, lemma_fundamental_div_mod, lemma_mod_mod, lemma_mod_multiples_basic, lemma_div_multiples_vanish};
use super::{BufferFormat, BufferKind, BufferTy, Cursors, Flags, ReferenceBuffer, kind_of_flag, INLINE_SIZE, INLINE_FIELD_BITS,
    FLAGS_SHIFT, FLAGS_BITS, INLINE_BUFFER_FLAG, STATIC_BUFFER_FLAG, REFERENCE_BUFFER_FLAG, COMPRESSED_WORD_SIZE, WORD_MASK, TAIL_MASK};
use super::half::{lemma_inline_word, INLINE_OFFSET_SHIFT, INLINE_WRX_SHIFT, INLINE_RDX_SHIFT};
use crate::util::{field, get_field, set_field, lemma_with_field, lemma_masks, lemma_zero_field, lemma_field_bound};

verus! {

// Layout of the three words on a 64-bit host:
//
// 1. word: len[40 bits], cap_offset[4 bits], rdx_upper[16 bits], unused[2 bits], flags[2 bits]
// 2. word: wrx[40 bits], rdx_lower[24 bits]
// 3. word: offset[40 bits], capacity[24 bits]
//
// The capacity is its 24-bit mantissa shifted left by cap_offset. An inlined buffer
// packs its cursors into word 0 as the half-word format does.

const CAP_OFFSET_SHIFT: u64 = 40;
const CAP_OFFSET_BITS: u64 = 4;
const RDX_UPPER_SHIFT: u64 = 44;
const RDX_UPPER_BITS: u64 = 16;

/// The weight of the upper part of the reader index.
const RDX_UPPER_UNIT: u64 = 0x100_0000;

/// Wider cursors than the half-word format and a capacity kept as a mantissa and a
/// power-of-two shift: slower to decode, but buffers of up to about 2^39 bytes.
#[derive(Clone)]
pub struct FormatExtended {
    len: u64,
    reference: ReferenceBuffer,
}

/// The largest capacity shift that keeps capacities addressable on this host.
pub open spec fn max_shift() -> nat {
    if usize::MAX == u64::MAX { 15 } else { 7 }
}

/// `c` rounded up to a multiple of `2^s` whose mantissa fits, trying larger shifts
/// from `s` on.
pub open spec fn fit_from(c: nat, s: nat) -> nat
    decreases 16 - s,
{
    let unit = pow2(s);
    let m = (c + unit - 1) / (unit as int);
    if s >= max_shift() || m <= TAIL_MASK {
        (m * unit) as nat
    } else {
        fit_from(c, s + 1)
    }
}

/// `cap` is the mantissa `m` shifted left by `s`.
pub open spec fn cap_parts(cap: nat, m: nat, s: nat) -> bool {
    m <= TAIL_MASK && s <= max_shift() && cap == m * pow2(s)
}

proof fn lemma_max_shift()
    ensures
        pow2(max_shift()) * TAIL_MASK <= usize::MAX / 2,
        pow2(max_shift()) * TAIL_MASK >= 4096,
        pow2(max_shift()) <= 0x8000,
{
    lemma2_to64();
}

/// A mantissa and shift that stay in bounds give a capacity no larger than the largest.
proof fn lemma_parts_bound(m: nat, s: nat)
    requires
        m <= TAIL_MASK,
        s <= max_shift(),
    ensures
        m * pow2(s) <= TAIL_MASK * pow2(max_shift()),
{
    if s < max_shift() {
        lemma_pow2_strictly_increases(s, max_shift());
    }
    assert(m * pow2(s) <= TAIL_MASK * pow2(max_shift())) by (nonlinear_arith)
        requires m <= TAIL_MASK, pow2(s) <= pow2(max_shift());
}

/// `2^s`.
fn unit_of(s: u64) -> (r: u64)
    requires
        s <= 15,
    ensures
        r == pow2(s as nat),
{
    let mut unit: u64 = 1;
    let mut i: u64 = 0;
    proof { lemma2_to64(); }
    while i < s
        invariant
            i <= s <= 15,
            unit == pow2(i as nat),
        decreases s - i,
    {
        proof {
            lemma_pow2_unfold((i + 1) as nat);
            lemma_pow2_strictly_increases(i as nat, 15);
            lemma2_to64();
        }
        unit = unit * 2;
        i = i + 1;
    }
    unit
}

impl FormatExtended {
    spec fn shift_field(&self) -> u64 {
        field(self.len, CAP_OFFSET_SHIFT, CAP_OFFSET_BITS)
    }

    fn is_inlined_layout(&self) -> (r: bool)
        ensures
            r == (self.cursors().kind == BufferKind::Inlined),
    {
        get_field(self.len, FLAGS_SHIFT, FLAGS_BITS) == INLINE_BUFFER_FLAG
    }

    /// The mantissa and the shift of a capacity that the format stores exactly; the
    /// shift is the smallest that works.
    fn split_cap(cap: usize) -> (r: (u64, u64))
        requires
            Self::cap_ok(cap as nat),
        ensures
            cap_parts(cap as nat, r.0 as nat, r.1 as nat),
    {
        let ghost (m0, s0) = choose|m: nat, s: nat| cap_parts(cap as nat, m, s);
        proof { lemma_max_shift(); lemma_parts_bound(m0, s0); lemma2_to64(); }
        let c = cap as u64;
        let mut s: u64 = 0;
        let mut unit: u64 = 1;
        while c / unit > TAIL_MASK
            invariant
                s <= s0 <= max_shift() <= 15,
                unit == pow2(s as nat),
                1 <= unit <= 0x8000,
                c == cap,
                cap_parts(cap as nat, m0, s0),
            decreases s0 - s,
        {
            proof {
                if s as nat == s0 {
                    lemma_pow2_pos(s0);
                    assert(cap as int == pow2(s0) as int * m0 as int) by (nonlinear_arith)
                        requires cap as int == m0 as int * pow2(s0) as int;
                    lemma_div_multiples_vanish(m0 as int, pow2(s0) as int);
                }
                assert(s < s0);
                lemma_pow2_unfold((s + 1) as nat);
                lemma_pow2_strictly_increases((s + 1) as nat, 16);
                lemma2_to64();
            }
            unit = unit * 2;
            s = s + 1;
        }
        proof {
            let a = pow2(s as nat) as int;
            let b = pow2((s0 - s) as nat) as int;
            lemma_pow2_pos(s as nat);
            lemma_pow2_pos(s0);
            lemma_pow2_adds(s as nat, (s0 - s) as nat);
            assert(s as nat + (s0 - s) as nat == s0);
            assert(a * b == pow2(s0) as int);
            lemma_pow2_pos((s0 - s) as nat);
            lemma_mod_multiples_basic(m0 as int, pow2(s0) as int);
            assert((cap as int) % (a * b) == 0);
            lemma_mod_mod(cap as int, a, b);
            assert((cap as int) % a == 0);
            lemma_fundamental_div_mod(cap as int, a);
            assert(cap as int == a * ((cap as int) / a));
            assert(((c / unit) as nat) * pow2(s as nat) == cap) by (nonlinear_arith)
                requires cap as int == a * ((cap as int) / a), a == unit, c == cap, unit > 0, a == pow2(s as nat);
        }
        (c / unit, s)
    }
}

impl BufferFormat for FormatExtended {
    closed spec fn cursors(&self) -> Cursors {
        let kind = kind_of_flag(field(self.len, FLAGS_SHIFT, FLAGS_BITS));
        if kind == BufferKind::Inlined {
            Cursors {
                len: field(self.len, 0, INLINE_FIELD_BITS) as nat,
                cap: INLINE_SIZE as nat,
                wrx: field(self.len, INLINE_WRX_SHIFT, INLINE_FIELD_BITS) as nat,
                rdx: field(self.len, INLINE_RDX_SHIFT, INLINE_FIELD_BITS) as nat,
                offset: field(self.len, INLINE_OFFSET_SHIFT, INLINE_FIELD_BITS) as nat,
                kind,
            }
        } else {
            Cursors {
                len: field(self.len, 0, COMPRESSED_WORD_SIZE) as nat,
                cap: self.reference.capacity_raw_view() * pow2(self.shift_field() as nat),
                wrx: self.reference.wrx_view(),
                rdx: (self.reference.rdx_lower_view() + field(self.len, RDX_UPPER_SHIFT, RDX_UPPER_BITS) as nat * RDX_UPPER_UNIT) as nat,
                offset: self.reference.offset_view(),
                kind,
            }
        }
    }

    closed spec fn inv(&self) -> bool {
        let c = self.cursors();
        c.kind != BufferKind::Inlined ==> {
            &&& c.len <= Self::max_index()
            &&& c.wrx <= Self::max_index()
            &&& c.rdx <= Self::max_index()
            &&& c.offset <= Self::max_index()
            &&& self.shift_field() <= max_shift()
        }
    }

    open spec fn max_index() -> nat {
        if usize::MAX == u64::MAX { WORD_MASK as nat } else { usize::MAX as nat }
    }

    open spec fn max_cap() -> nat {
        (TAIL_MASK * pow2(max_shift())) as nat
    }

    open spec fn cap_ok(cap: nat) -> bool {
        exists|m: nat, s: nat| cap_parts(cap, m, s)
    }

    open spec fn fitted(cap: nat) -> nat {
        fit_from(cap, 0)
    }

    proof fn lemma_limits() {
        lemma_max_shift();
        assert forall|c: nat| Self::cap_ok(c) implies c <= Self::max_index() by {
            let (m, s) = choose|m: nat, s: nat| cap_parts(c, m, s);
            lemma_parts_bound(m, s);
        }
    }

    proof fn lemma_wf(&self) {
        lemma_masks();
        lemma_max_shift();
        self.reference.lemma_bounds();
        lemma_field_bound(self.len, 0, INLINE_FIELD_BITS);
        lemma_field_bound(self.len, INLINE_WRX_SHIFT, INLINE_FIELD_BITS);
        lemma_field_bound(self.len, INLINE_RDX_SHIFT, INLINE_FIELD_BITS);
        lemma_field_bound(self.len, INLINE_OFFSET_SHIFT, INLINE_FIELD_BITS);
        if self.cursors().kind != BufferKind::Inlined {
            lemma_parts_bound(self.reference.capacity_raw_view(), self.shift_field() as nat);
        }
    }

    fn max_capacity() -> (r: usize) {
        proof { lemma2_to64(); }
        if usize::MAX == 0xffff_ffff {
            (TAIL_MASK * 0x80) as usize
        } else {
            (TAIL_MASK * 0x8000) as usize
        }
    }

    /// Rounds up to the nearest mantissa with the smallest shift that fits.
    fn fit_cap(cap: usize) -> (r: usize) {
        proof { lemma_max_shift(); lemma2_to64(); }
        let c = cap as u64;
        let top: u64 = if usize::MAX == 0xffff_ffff { 7 } else { 15 };
        let mut s: u64 = 0;
        let mut unit: u64 = 1;
        while (c + unit - 1) / unit > TAIL_MASK
            invariant
                s <= max_shift() <= 15,
                top == max_shift(),
                unit == pow2(s as nat),
                1 <= unit <= 0x8000,
                c == cap,
                cap <= TAIL_MASK * pow2(max_shift()),
                pow2(max_shift()) <= 0x8000,
                fit_from(cap as nat, s as nat) == fit_from(cap as nat, 0),
                s > 0 ==> unit <= c,
            decreases max_shift() - s,
        {
            if s == top {
                proof {
                    lemma_pow2_pos(s as nat);
                    assert((c + unit - 1) / (unit as int) <= TAIL_MASK) by (nonlinear_arith)
                        requires c <= TAIL_MASK * unit, unit >= 1;
                }
                assert(false);
            }
            proof {
                lemma_pow2_unfold((s + 1) as nat);
                lemma_pow2_strictly_increases((s + 1) as nat, 16);
                lemma2_to64();
                let x = (c + unit - 1) as int;
                let d = unit as int;
                lemma_fundamental_div_mod(x, d);
                lemma_mod_pos_bound(x, d);
                assert(d * (x / d) <= x);
                assert(x / d >= TAIL_MASK + 1);
                assert(d * (x / d) >= d * (TAIL_MASK + 1)) by (nonlinear_arith)
                    requires x / d >= TAIL_MASK + 1, d >= 1;
                assert(2 * unit <= c);
            }
            unit = unit * 2;
            s = s + 1;
        }
        let m = (c + unit - 1) / unit;
        proof {
            lemma_pow2_pos(s as nat);
            lemma_fundamental_div_mod((c + unit - 1) as int, unit as int);
            lemma_mod_pos_bound((c + unit - 1) as int, unit as int);
            let x = (c + unit - 1) as int;
            let d = unit as int;
            let q = x / d;
            let rem = x % d;
            assert(x == d * q + rem);
            assert(0 <= rem < d);
            assert(d * q >= c);
            assert(d * q < c + d);
            assert(m * unit == d * q) by (nonlinear_arith)
                requires m == q, d == unit;
            lemma_parts_bound(m as nat, s as nat);
            assert(cap_parts((m * unit) as nat, m as nat, s as nat));
            assert(fit_from(cap as nat, s as nat) == (m * unit) as nat);
            if cap <= TAIL_MASK {
                assert(fit_from(cap as nat, 0) == cap);
            }
        }
        (m * unit) as usize
    }

    fn new_reference(len: usize, cap: usize, wrx: usize, rdx: usize, offset: usize, flags: BufferTy) -> (r: Self) {
        let flag = if flags.is_static_reference() { STATIC_BUFFER_FLAG } else { REFERENCE_BUFFER_FLAG };
        proof {
            lemma_masks();
            lemma_with_field(0, FLAGS_SHIFT, FLAGS_BITS, flag, 0, COMPRESSED_WORD_SIZE);
            lemma_with_field(0, FLAGS_SHIFT, FLAGS_BITS, flag, CAP_OFFSET_SHIFT, CAP_OFFSET_BITS);
            lemma_with_field(0, FLAGS_SHIFT, FLAGS_BITS, flag, RDX_UPPER_SHIFT, RDX_UPPER_BITS);
            lemma_zero_field(0, COMPRESSED_WORD_SIZE);
            lemma_zero_field(CAP_OFFSET_SHIFT, CAP_OFFSET_BITS);
            lemma_zero_field(RDX_UPPER_SHIFT, RDX_UPPER_BITS);
            lemma2_to64();
        }
        let mut f = FormatExtended { len: set_field(0, FLAGS_SHIFT, FLAGS_BITS, flag), reference: ReferenceBuffer::new(0, 0, 0) };
        f.set_len(len);
        f.set_wrx(wrx);
        f.set_rdx(rdx);
        f.set_offset(offset);
        f.set_cap_reference(cap);
        f
    }

    fn new_inlined(len: usize, wrx: usize, rdx: usize, offset: usize) -> (r: Self) {
        proof {
            lemma_masks();
            lemma_with_field(0, FLAGS_SHIFT, FLAGS_BITS, INLINE_BUFFER_FLAG, 0, INLINE_FIELD_BITS);
            lemma_with_field(0, FLAGS_SHIFT, FLAGS_BITS, INLINE_BUFFER_FLAG, INLINE_OFFSET_SHIFT, INLINE_FIELD_BITS);
            lemma_with_field(0, FLAGS_SHIFT, FLAGS_BITS, INLINE_BUFFER_FLAG, INLINE_WRX_SHIFT, INLINE_FIELD_BITS);
            lemma_with_field(0, FLAGS_SHIFT, FLAGS_BITS, INLINE_BUFFER_FLAG, INLINE_RDX_SHIFT, INLINE_FIELD_BITS);
            lemma_zero_field(0, INLINE_FIELD_BITS);
            lemma_zero_field(INLINE_OFFSET_SHIFT, INLINE_FIELD_BITS);
            lemma_zero_field(INLINE_WRX_SHIFT, INLINE_FIELD_BITS);
            lemma_zero_field(INLINE_RDX_SHIFT, INLINE_FIELD_BITS);
        }
        let mut f = FormatExtended { len: set_field(0, FLAGS_SHIFT, FLAGS_BITS, INLINE_BUFFER_FLAG), reference: ReferenceBuffer::new(0, 0, 0) };
        f.set_len(len);
        f.set_wrx(wrx);
        f.set_rdx(rdx);
        f.set_offset(offset);
        f
    }

    fn duplicate(&self) -> (r: Self) {
        FormatExtended { len: self.len, reference: self.reference.duplicate() }
    }

    fn flags(&self) -> (r: BufferTy) {
        proof { lemma_masks(); }
        BufferTy(get_field(self.len, FLAGS_SHIFT, FLAGS_BITS))
    }

    fn len(&self) -> (r: usize) {
        proof { self.lemma_wf(); lemma_masks(); }
        if self.is_inlined_layout() {
            get_field(self.len, 0, INLINE_FIELD_BITS) as usize
        } else {
            get_field(self.len, 0, COMPRESSED_WORD_SIZE) as usize
        }
    }

    fn wrx(&self) -> (r: usize) {
        proof { self.lemma_wf(); lemma_masks(); }
        if self.is_inlined_layout() {
            get_field(self.len, INLINE_WRX_SHIFT, INLINE_FIELD_BITS) as usize
        } else {
            self.reference.wrx() as usize
        }
    }

    fn rdx(&self) -> (r: usize) {
        proof { self.lemma_wf(); lemma_masks(); }
        if self.is_inlined_layout() {
            get_field(self.len, INLINE_RDX_SHIFT, INLINE_FIELD_BITS) as usize
        } else {
            let upper = get_field(self.len, RDX_UPPER_SHIFT, RDX_UPPER_BITS);
            (self.reference.rdx_lower() + upper * RDX_UPPER_UNIT) as usize
        }
    }

    fn offset(&self) -> (r: usize) {
        proof { self.lemma_wf(); lemma_masks(); }
        if self.is_inlined_layout() {
            get_field(self.len, INLINE_OFFSET_SHIFT, INLINE_FIELD_BITS) as usize
        } else {
            self.reference.offset() as usize
        }
    }

    fn cap(&self) -> (r: usize) {
        proof { self.lemma_wf(); lemma_masks(); lemma_max_shift(); lemma2_to64(); }
        if self.is_inlined_layout() {
            INLINE_SIZE
        } else {
            let shift = get_field(self.len, CAP_OFFSET_SHIFT, CAP_OFFSET_BITS);
            let mantissa = self.reference.capacity_raw();
            proof { self.reference.lemma_bounds(); }
            proof { lemma_parts_bound(mantissa as nat, shift as nat); }
            (mantissa * unit_of(shift)) as usize
        }
    }

    fn set_len(&mut self, len: usize) {
        proof { lemma_masks(); }
        let w = self.len;
        if self.is_inlined_layout() {
            self.len = set_field(w, 0, INLINE_FIELD_BITS, len as u64);
            proof { lemma_inline_word(w, 0, len as u64); }
        } else {
            self.len = set_field(w, 0, COMPRESSED_WORD_SIZE, len as u64);
            proof {
                lemma_with_field(w, 0, COMPRESSED_WORD_SIZE, len as u64, FLAGS_SHIFT, FLAGS_BITS);
                lemma_with_field(w, 0, COMPRESSED_WORD_SIZE, len as u64, CAP_OFFSET_SHIFT, CAP_OFFSET_BITS);
                lemma_with_field(w, 0, COMPRESSED_WORD_SIZE, len as u64, RDX_UPPER_SHIFT, RDX_UPPER_BITS);
            }
        }
    }

    fn set_wrx(&mut self, wrx: usize) {
        proof { lemma_masks(); }
        if self.is_inlined_layout() {
            let w = self.len;
            self.len = set_field(w, INLINE_WRX_SHIFT, INLINE_FIELD_BITS, wrx as u64);
            proof { lemma_inline_word(w, INLINE_WRX_SHIFT, wrx as u64); }
        } else {
            self.reference.set_wrx(wrx as u64);
        }
    }

    fn set_rdx(&mut self, rdx: usize) {
        proof { lemma_masks(); }
        let w = self.len;
        if self.is_inlined_layout() {
            self.len = set_field(w, INLINE_RDX_SHIFT, INLINE_FIELD_BITS, rdx as u64);
            proof { lemma_inline_word(w, INLINE_RDX_SHIFT, rdx as u64); }
        } else {
            let lower = rdx as u64 % RDX_UPPER_UNIT;
            let upper = rdx as u64 / RDX_UPPER_UNIT;
            self.reference.set_rdx_lower(lower);
            self.len = set_field(w, RDX_UPPER_SHIFT, RDX_UPPER_BITS, upper);
            proof {
                lemma_with_field(w, RDX_UPPER_SHIFT, RDX_UPPER_BITS, upper, FLAGS_SHIFT, FLAGS_BITS);
                lemma_with_field(w, RDX_UPPER_SHIFT, RDX_UPPER_BITS, upper, CAP_OFFSET_SHIFT, CAP_OFFSET_BITS);
                lemma_with_field(w, RDX_UPPER_SHIFT, RDX_UPPER_BITS, upper, 0, COMPRESSED_WORD_SIZE);
            }
        }
    }

    fn set_offset(&mut self, offset: usize) {
        proof { lemma_masks(); }
        if self.is_inlined_layout() {
            let w = self.len;
            self.len = set_field(w, INLINE_OFFSET_SHIFT, INLINE_FIELD_BITS, offset as u64);
            proof { lemma_inline_word(w, INLINE_OFFSET_SHIFT, offset as u64); }
        } else {
            self.reference.set_offset(offset as u64);
        }
    }

    fn set_cap_reference(&mut self, cap: usize) {
        proof { lemma_masks(); lemma_max_shift(); }
        let (mantissa, shift) = Self::split_cap(cap);
        let w = self.len;
        self.reference.set_capacity_raw(mantissa);
        self.len = set_field(w, CAP_OFFSET_SHIFT, CAP_OFFSET_BITS, shift);
        proof {
            lemma_with_field(w, CAP_OFFSET_SHIFT, CAP_OFFSET_BITS, shift, FLAGS_SHIFT, FLAGS_BITS);
            lemma_with_field(w, CAP_OFFSET_SHIFT, CAP_OFFSET_BITS, shift, RDX_UPPER_SHIFT, RDX_UPPER_BITS);
            lemma_with_field(w, CAP_OFFSET_SHIFT, CAP_OFFSET_BITS, shift, 0, COMPRESSED_WORD_SIZE);
        }
    }
}

} // verus!
