//! Offsets into a chunk buffer, and how they resolve to positions.

use vstd::prelude::*;

verus! {

/// A byte position within one chunk's raw buffer.
pub type Offset = u32;

/// The reserved offset that stands for "no template". It is never read and
/// never used as a key.
pub const SENTINEL: Offset = 0;

/// Whether `offset` names a byte of a buffer that holds `len` bytes.
pub open spec fn in_buffer(offset: Offset, len: nat) -> bool {
    (offset as nat) < len
}

/// The offsets of `offsets` that call for a read: its distinct values, the
/// sentinel left out.
pub open spec fn candidates(offsets: Seq<Offset>) -> Set<Offset> {
    offsets.to_set().remove(SENTINEL)
}

/// One more offset of a list adds itself to the candidates, unless it is
/// the sentinel.
pub proof fn lemma_candidates_grow(offsets: Seq<Offset>, i: int)
    requires
        0 <= i < offsets.len(),
    ensures
        offsets[i] == SENTINEL ==> candidates(offsets.take(i + 1)) == candidates(offsets.take(i)),
        offsets[i] != SENTINEL ==> candidates(offsets.take(i + 1)) == candidates(
            offsets.take(i),
        ).insert(offsets[i]),
{
    assert(offsets.take(i + 1) =~= offsets.take(i).push(offsets[i]));
    offsets.take(i).lemma_push_to_set_commute(offsets[i]);
    if offsets[i] == SENTINEL {
        assert(candidates(offsets.take(i + 1)) =~= candidates(offsets.take(i)));
    } else {
        assert(candidates(offsets.take(i + 1)) =~= candidates(offsets.take(i)).insert(offsets[i]));
    }
}

/// An offset that does not resolve to a position inside the buffer.
#[derive(Clone, Copy, Debug, PartialEq, Eq)]
pub struct PositionError {
    /// The offset that was asked for.
    pub offset: Offset,
    /// The length of the buffer it was asked of.
    pub len: usize,
}

/// Resolves `offset` to a position in a buffer of `len` bytes.
///
/// The offset resolves exactly when it names a byte of the buffer; the
/// position is then the offset itself.
pub fn locate(len: usize, offset: Offset) -> (found: Result<usize, PositionError>)
    ensures
        match found {
            Ok(position) => in_buffer(offset, len as nat) && position == offset,
            Err(e) => !in_buffer(offset, len as nat) && e.offset == offset && e.len == len,
        },
{
    let position: usize = offset as usize;
    if position < len {
        Ok(position)
    } else {
        Err(PositionError { offset, len })
    }
}

} // verus!
