use vstd::prelude::*;
use vstd::arithmetic::power::pow;
use crate::buffer_format::INLINE_SIZE;

verus! {

/// The smaller of two values.
pub fn min(left: usize, right: usize) -> (r: usize)
    ensures
        r == if left < right { left } else { right },
{
    if left < right {
        left
    } else {
        right
    }
}

/// The smallest `curr * 2^k` that is at least `req`.
pub open spec fn grown(curr: nat, req: nat) -> nat
    decreases if curr >= req { 0 } else { req - curr },
{
    if curr == 0 || curr >= req {
        curr
    } else {
        grown(curr * 2, req)
    }
}

/// The smallest value of the form `curr * GROWTH_FACTOR^k` that is at least `req`.
pub fn find_sufficient_cap<const GROWTH_FACTOR: usize>(curr: usize, req: usize) -> (r: usize)
    requires
        GROWTH_FACTOR >= 2,
        curr >= 1,
        req <= usize::MAX / GROWTH_FACTOR,
    ensures
        r >= req,
        exists|k: nat| r == curr * #[trigger] pow(GROWTH_FACTOR as int, k) && (k == 0 || curr * pow(GROWTH_FACTOR as int, (k - 1) as nat) < req),
        GROWTH_FACTOR == 2 ==> r == grown(curr as nat, req as nat),
{
    let mut cur: usize = curr;
    let ghost mut k: nat = 0;
    proof { vstd::arithmetic::power::lemma_pow0(GROWTH_FACTOR as int); }
    while cur < req
        invariant
            GROWTH_FACTOR >= 2,
            cur >= 1,
            req <= usize::MAX / GROWTH_FACTOR,
            cur == curr * pow(GROWTH_FACTOR as int, k),
            GROWTH_FACTOR == 2 ==> grown(cur as nat, req as nat) == grown(curr as nat, req as nat),
            k == 0 || curr * pow(GROWTH_FACTOR as int, (k - 1) as nat) < req,
        decreases usize::MAX - cur,
    {
        proof {
            vstd::arithmetic::power::lemma_pow_adds(GROWTH_FACTOR as int, k, 1);
            vstd::arithmetic::power::lemma_pow1(GROWTH_FACTOR as int);
            assert(cur * GROWTH_FACTOR <= usize::MAX) by (nonlinear_arith)
                requires cur < req, req <= usize::MAX / GROWTH_FACTOR, GROWTH_FACTOR >= 2;
            assert(curr * pow(GROWTH_FACTOR as int, k + 1) == cur * GROWTH_FACTOR) by (nonlinear_arith)
                requires cur == curr * pow(GROWTH_FACTOR as int, k), pow(GROWTH_FACTOR as int, k + 1) == pow(GROWTH_FACTOR as int, k) * GROWTH_FACTOR;
            assert(cur * GROWTH_FACTOR > cur) by (nonlinear_arith)
                requires cur >= 1, GROWTH_FACTOR >= 2;
        }
        cur = cur * GROWTH_FACTOR;
        proof { k = k + 1; }
    }
    cur
}

/// A word whose `width` lowest bits are set.
pub open spec fn low_mask(width: u64) -> u64 {
    ((1u64 << width) - 1) as u64
}

/// The `width` bits of `w` that start at bit `shift`.
pub open spec fn field(w: u64, shift: u64, width: u64) -> u64 {
    (w >> shift) & low_mask(width)
}

/// `w` with the `width` bits at `shift` replaced by `v`.
pub open spec fn with_field(w: u64, shift: u64, width: u64, v: u64) -> u64 {
    (w & !(low_mask(width) << shift)) | (v << shift)
}

/// Two bit ranges that do not overlap.
pub open spec fn disjoint(s1: u64, w1: u64, s2: u64, w2: u64) -> bool {
    s1 + w1 <= s2 || s2 + w2 <= s1
}

/// Writing a field and reading it back gives the value written; fields beside it keep
/// their bits.
pub proof fn lemma_with_field(w: u64, shift: u64, width: u64, v: u64, s2: u64, w2: u64)
    requires
        1 <= width < 64,
        shift + width <= 64,
        v <= low_mask(width),
        1 <= w2 < 64,
        s2 + w2 <= 64,
    ensures
        field(with_field(w, shift, width, v), shift, width) == v,
        disjoint(shift, width, s2, w2) ==> field(with_field(w, shift, width, v), s2, w2) == field(w, s2, w2),
{
    assert(((((w & !((((1u64 << width) - 1) as u64) << shift)) | (v << shift)) >> shift) & (((1u64 << width) - 1) as u64)) == v) by (bit_vector)
        requires
            1 <= width < 64,
            shift + width <= 64,
            v <= (((1u64 << width) - 1) as u64);
    assert((shift + width <= s2 || s2 + w2 <= shift) ==>
        ((((w & !((((1u64 << width) - 1) as u64) << shift)) | (v << shift)) >> s2) & (((1u64 << w2) - 1) as u64))
            == ((w >> s2) & (((1u64 << w2) - 1) as u64))) by (bit_vector)
        requires
            1 <= width < 64,
            shift + width <= 64,
            v <= (((1u64 << width) - 1) as u64),
            1 <= w2 < 64,
            s2 + w2 <= 64;
}

/// A field never exceeds its mask.
pub proof fn lemma_field_bound(w: u64, shift: u64, width: u64)
    requires
        1 <= width < 64,
    ensures
        field(w, shift, width) <= low_mask(width),
{
    assert(((w >> shift) & (((1u64 << width) - 1) as u64)) <= (((1u64 << width) - 1) as u64)) by (bit_vector)
        requires 1 <= width < 64;
}

/// A field written into the zero word.
pub proof fn lemma_zero_field(shift: u64, width: u64)
    requires
        1 <= width < 64,
        shift < 64,
    ensures
        field(0, shift, width) == 0,
{
    assert(((0u64 >> shift) & (((1u64 << width) - 1) as u64)) == 0) by (bit_vector);
}

/// The masks of the field widths that the formats use.
pub proof fn lemma_masks()
    ensures
        low_mask(2) == 3,
        low_mask(4) == 15,
        low_mask(5) == 31,
        low_mask(16) == 0xffff,
        low_mask(24) == 0xff_ffff,
        low_mask(32) == 0xffff_ffff,
        low_mask(40) == 0xff_ffff_ffff,
{
    assert(((1u64 << 2u64) - 1) as u64 == 3 && ((1u64 << 4u64) - 1) as u64 == 15 && ((1u64 << 5u64) - 1) as u64 == 31
        && ((1u64 << 16u64) - 1) as u64 == 0xffff && ((1u64 << 24u64) - 1) as u64 == 0xff_ffff
        && ((1u64 << 32u64) - 1) as u64 == 0xffff_ffff && ((1u64 << 40u64) - 1) as u64 == 0xff_ffff_ffff) by (bit_vector);
}

/// Builds `low_mask(ones_cnt) << offset`.
pub fn build_bit_mask(offset: u64, ones_cnt: u64) -> (r: u64)
    requires
        1 <= ones_cnt < 64,
        offset + ones_cnt <= 64,
    ensures
        r == low_mask(ones_cnt) << offset,
{
    assert(1u64 << ones_cnt >= 1) by (bit_vector) requires ones_cnt < 64;
    ((1u64 << ones_cnt) - 1) << offset
}

/// `w` with the `width` bits at `shift` replaced by `v`.
pub fn set_field(w: u64, shift: u64, width: u64, v: u64) -> (r: u64)
    requires
        1 <= width < 64,
        shift + width <= 64,
        v <= low_mask(width),
    ensures
        r == with_field(w, shift, width, v),
{
    let mask = build_bit_mask(shift, width);
    (w & !mask) | (v << shift)
}

/// Reads the `width` bits of `w` at `shift`.
pub fn get_field(w: u64, shift: u64, width: u64) -> (r: u64)
    requires
        1 <= width < 64,
        shift < 64,
    ensures
        r == field(w, shift, width),
        r <= low_mask(width),
{
    proof { lemma_field_bound(w, shift, width); }
    let mask = build_bit_mask(0, width);
    assert(mask == low_mask(width)) by (bit_vector) requires mask == low_mask(width) << 0u64;
    (w >> shift) & mask
}

/// The bytes `src[from..to)` at the start of an inline array.
pub fn inline_copy(src: &[u8], from: usize, to: usize) -> (r: [u8; INLINE_SIZE])
    requires
        from <= to <= src@.len(),
        to - from <= INLINE_SIZE,
    ensures
        r@.len() == INLINE_SIZE,
        r@.subrange(0, to - from) == src@.subrange(from as int, to as int),
{
    let mut a = [0u8; INLINE_SIZE];
    let mut i: usize = from;
    while i < to
        invariant
            from <= i <= to <= src@.len(),
            to - from <= INLINE_SIZE,
            a@.len() == INLINE_SIZE,
            forall|j: int| from <= j < i ==> a@[j - from] == src@[j],
        decreases to - i,
    {
        a[i - from] = src[i];
        i = i + 1;
    }
    assert(a@.subrange(0, to - from) =~= src@.subrange(from as int, to as int));
    a
}

/// The bytes `src[from..to)` followed by zeros up to `total` bytes.
pub fn copy_padded(src: &[u8], from: usize, to: usize, total: usize) -> (r: Vec<u8>)
    requires
        from <= to <= src@.len(),
        to - from <= total,
    ensures
        r@.len() == total,
        r@.subrange(0, to - from) == src@.subrange(from as int, to as int),
        forall|i: int| to - from <= i < total ==> r@[i] == 0,
{
    let mut v: Vec<u8> = Vec::with_capacity(total);
    let mut i: usize = from;
    while i < to
        invariant
            from <= i <= to <= src@.len(),
            v@ == src@.subrange(from as int, i as int),
        decreases to - i,
    {
        v.push(src[i]);
        i = i + 1;
        assert(v@ =~= src@.subrange(from as int, i as int));
    }
    let ghost copied = v@;
    while v.len() < total
        invariant
            from <= to <= src@.len(),
            to - from <= v@.len() <= total,
            v@.subrange(0, to - from) == src@.subrange(from as int, to as int),
            forall|i: int| to - from <= i < v@.len() ==> v@[i] == 0,
        decreases total - v@.len(),
    {
        let ghost before = v@;
        v.push(0);
        assert(v@.subrange(0, to - from) =~= before.subrange(0, to - from));
    }
    v
}

/// Whether `a[from..to)` and `b[from..to)` hold the same bytes.
pub fn same_bytes(a: &[u8], b: &[u8], from: usize, to: usize) -> (r: bool)
    requires
        from <= to,
        to <= a@.len(),
        to <= b@.len(),
    ensures
        r == (a@.subrange(from as int, to as int) == b@.subrange(from as int, to as int)),
{
    let mut i: usize = from;
    while i < to
        invariant
            from <= i <= to <= a@.len(),
            to <= b@.len(),
            a@.subrange(from as int, i as int) == b@.subrange(from as int, i as int),
        decreases to - i,
    {
        if a[i] != b[i] {
            assert(a@.subrange(from as int, to as int)[i - from] != b@.subrange(from as int, to as int)[i - from]);
            return false;
        }
        i = i + 1;
        assert(a@.subrange(from as int, i as int) =~= b@.subrange(from as int, i as int)) by {
            assert forall|j: int| 0 <= j < i - from implies a@.subrange(from as int, i as int)[j] == b@.subrange(from as int, i as int)[j] by {
                if j < i - 1 - from {
                    assert(a@.subrange(from as int, i - 1)[j] == b@.subrange(from as int, i - 1)[j]);
                }
            }
        }
    }
    true
}

/// Copies `src` into `dst` at `at`.
pub fn write_bytes(dst: &mut [u8], at: usize, src: &[u8])
    requires
        at + src@.len() <= old(dst)@.len(),
    ensures
        final(dst)@ == old(dst)@.subrange(0, at as int) + src@ + old(dst)@.subrange(at + src@.len(), old(dst)@.len() as int),
{
    let n = src.len();
    let total = dst.len();
    let mut i: usize = 0;
    while i < n
        invariant
            n == src@.len(),
            total == old(dst)@.len(),
            at + n <= old(dst)@.len(),
            dst@.len() == old(dst)@.len(),
            forall|j: int| 0 <= j < at ==> dst@[j] == old(dst)@[j],
            forall|j: int| at + n <= j < dst@.len() ==> dst@[j] == old(dst)@[j],
            forall|j: int| at <= j < at + i ==> dst@[j] == src@[j - at],
            i <= n,
        decreases n - i,
    {
        dst[at + i] = src[i];
        i = i + 1;
    }
    assert(dst@ =~= old(dst)@.subrange(0, at as int) + src@ + old(dst)@.subrange(at + src@.len(), old(dst)@.len() as int));
}

/// Writes `count` copies of `val` into `dst` at `at`.
pub fn fill_bytes(dst: &mut [u8], at: usize, val: u8, count: usize)
    requires
        at + count <= old(dst)@.len(),
    ensures
        final(dst)@ == old(dst)@.subrange(0, at as int) + Seq::new(count as nat, |_i: int| val)
            + old(dst)@.subrange(at + count, old(dst)@.len() as int),
{
    let total = dst.len();
    let mut i: usize = 0;
    while i < count
        invariant
            total == old(dst)@.len(),
            at + count <= old(dst)@.len(),
            dst@.len() == old(dst)@.len(),
            forall|j: int| 0 <= j < at ==> dst@[j] == old(dst)@[j],
            forall|j: int| at + count <= j < dst@.len() ==> dst@[j] == old(dst)@[j],
            forall|j: int| at <= j < at + i ==> dst@[j] == val,
            i <= count,
        decreases count - i,
    {
        dst[at + i] = val;
        i = i + 1;
    }
    assert(dst@ =~= old(dst)@.subrange(0, at as int) + Seq::new(count as nat, |_i: int| val)
        + old(dst)@.subrange(at + count, old(dst)@.len() as int));
}

} // verus!
