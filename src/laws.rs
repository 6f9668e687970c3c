use vstd::prelude::*;
use crate::buffer_format::{BufferFormat, BufferKind, INLINE_SIZE};
use crate::buffer::BufferGeneric;
use crate::buffer_mut::BufferMutGeneric;
use crate::endian::{be_bytes, be_value, le_bytes, le_value, lemma_be_round_trip, lemma_le_round_trip, pow256};
use crate::{GenericBuffer, ReadableBuffer, WritableBuffer};

verus! {

/// Reading as many bytes as a vector held from a buffer built from that vector gives
/// the vector's bytes back.
pub proof fn law_vec_round_trip<B: ReadableBuffer>(s: Seq<u8>, built: B, read: Seq<u8>)
    requires
        built.contents() == s,
        built.pos() == 0,
        read == built.contents().subrange(built.pos() as int, built.pos() + s.len() as int),
    ensures
        read == s,
{
    assert(read =~= s);
}

/// Splitting off at the reader index hands over exactly the unread bytes and leaves
/// nothing to read behind.
pub proof fn law_split_identity<B: GenericBuffer>(b: B, kept: B, split: B)
    requires
        b.wf(),
        b.pos() < b.contents().len(),
        kept.contents() == b.contents().take(b.pos() as int),
        split.contents() == b.contents().skip(b.pos() as int),
        kept.pos() == b.pos(),
        split.pos() == 0,
    ensures
        crate::unread(&split) == crate::unread(&b),
        kept.contents().len() - kept.pos() == 0,
{
    assert(split.contents().skip(0) =~= split.contents());
}

/// Splitting off `k` bytes past the reader index and joining the halves again restores
/// the contents; the joined reader starts at the front, so the reader view is the one
/// before the split when that reader stood at the front too.
pub proof fn law_unsplit_identity<B: GenericBuffer>(b: B, k: nat, kept: B, split: B, joined: B)
    requires
        b.wf(),
        b.pos() == 0,
        b.pos() + k < b.contents().len(),
        kept.contents() == b.contents().take(b.pos() + k as int),
        split.contents() == b.contents().skip(b.pos() + k as int),
        joined.contents() == kept.contents() + split.contents(),
        joined.pos() == 0,
    ensures
        joined.contents() == b.contents(),
        crate::unread(&joined) == crate::unread(&b),
{
    assert(joined.contents() =~= b.contents());
}

/// A write that carries a buffer past `INLINE_SIZE` bytes leaves it on the heap and
/// keeps every byte.
pub proof fn law_inline_boundary<L: BufferFormat>(b: BufferMutGeneric<L>, val: Seq<u8>, after: BufferMutGeneric<L>)
    requires
        b.wf(),
        b.contents().len() + val.len() > INLINE_SIZE,
        after.kind() == if b.fits_inline(val.len()) { BufferKind::Inlined } else { BufferKind::Reference },
        after.contents() == b.contents() + val,
    ensures
        after.kind() == BufferKind::Reference,
        after.contents().take(b.contents().len() as int) == b.contents(),
        after.contents().skip(b.contents().len() as int) == val,
{
    assert(after.contents().take(b.contents().len() as int) =~= b.contents());
    assert(after.contents().skip(b.contents().len() as int) =~= val);
}

/// Reads of a buffer over static bytes return those bytes and never move it off them.
pub proof fn law_static_reads<B: ReadableBuffer>(s: Seq<u8>, b: B, after: B, x: u8)
    requires
        b.contents() == s,
        b.kind() == BufferKind::StaticReference,
        b.pos() < s.len(),
        after.kind() == b.kind(),
        after.contents() == b.contents(),
        x == b.contents()[b.pos() as int],
    ensures
        x == s[b.pos() as int],
        after.kind() == BufferKind::StaticReference,
        after.contents() == s,
{
}

/// Decoding the little-endian bytes of a number of `n` bytes gives it back, wherever
/// they stand in the buffer.
pub proof fn law_le_round_trip(before: Seq<u8>, x: nat, n: nat)
    requires
        x < pow256(n),
    ensures
        le_value((before + le_bytes(x, n)).subrange(before.len() as int, before.len() + n as int)) == x,
{
    lemma_le_round_trip(x, n);
    assert((before + le_bytes(x, n)).subrange(before.len() as int, before.len() + n as int) =~= le_bytes(x, n));
}

/// Decoding the big-endian bytes of a number of `n` bytes gives it back, wherever they
/// stand in the buffer.
pub proof fn law_be_round_trip(before: Seq<u8>, x: nat, n: nat)
    requires
        x < pow256(n),
    ensures
        be_value((before + be_bytes(x, n)).subrange(before.len() as int, before.len() + n as int)) == x,
{
    lemma_be_round_trip(x, n);
    assert((before + be_bytes(x, n)).subrange(before.len() as int, before.len() + n as int) =~= be_bytes(x, n));
}

/// Freezing a write-only buffer and turning it back keeps its bytes.
pub proof fn law_conversion_keeps_bytes<L: BufferFormat>(
    m: BufferMutGeneric<L>,
    frozen: BufferGeneric<L>,
    back: BufferMutGeneric<L>,
)
    requires
        m.wf(),
        frozen.contents() == m.contents(),
        back.contents() == frozen.contents(),
    ensures
        back.contents() == m.contents(),
{
}

} // verus!
