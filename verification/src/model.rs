//! What a population means, stated over maps and sequences.

use crate::error::PopulateError;
use crate::offset::{candidates, in_buffer, Offset, SENTINEL};
use vstd::prelude::*;

verus! {

/// `definition` is something `reader` may return for `offset` of `data`.
pub open spec fn decodes<'c, T, E, F: Fn(&'c [u8], usize) -> Result<T, E>>(
    reader: F,
    data: &'c [u8],
    offset: Offset,
    definition: T,
) -> bool {
    reader.ensures((data, offset as usize), Ok(definition))
}

/// `cause` is an error `reader` may return for `offset` of `data`.
pub open spec fn rejects<'c, T, E, F: Fn(&'c [u8], usize) -> Result<T, E>>(
    reader: F,
    data: &'c [u8],
    offset: Offset,
    cause: E,
) -> bool {
    reader.ensures((data, offset as usize), Err(cause))
}

/// `reader` may be called at every candidate of `offsets` that lies in
/// `data`.
pub open spec fn callable<'c, T, E, F: Fn(&'c [u8], usize) -> Result<T, E>>(
    reader: F,
    data: &'c [u8],
    offsets: Seq<Offset>,
) -> bool {
    forall|i: int|
        #![trigger offsets[i]]
        0 <= i < offsets.len() && offsets[i] != SENTINEL && in_buffer(offsets[i], data@.len())
            ==> reader.requires((data, offsets[i] as usize))
}

/// The entries once `definition` is cached under `offset`: it takes the
/// place of what was there. Under the sentinel nothing is cached.
pub open spec fn cached<T>(before: Map<Offset, T>, offset: Offset, definition: T) -> Map<
    Offset,
    T,
> {
    if offset == SENTINEL {
        before
    } else {
        before.insert(offset, definition)
    }
}

/// The entries after a read at `offset` came to `outcome`: a definition is
/// cached, a failure changes nothing.
pub open spec fn recorded<T, E>(before: Map<Offset, T>, offset: Offset, outcome: Result<T, E>) -> Map<
    Offset,
    T,
> {
    match outcome {
        Ok(definition) => cached(before, offset, definition),
        Err(_) => before,
    }
}

/// The entries after one read for each offset of `offsets`, cached in the
/// order of the list: `reads[i]` is what the read for `offsets[i]` decoded.
pub open spec fn replayed<T>(before: Map<Offset, T>, offsets: Seq<Offset>, reads: Seq<T>) -> Map<
    Offset,
    T,
>
    decreases offsets.len(),
{
    if offsets.len() == 0 {
        before
    } else {
        cached(
            replayed(before, offsets.drop_last(), reads.drop_last()),
            offsets.last(),
            reads[offsets.len() - 1],
        )
    }
}

/// `reads` holds, for each candidate at index `i` of `offsets`, a
/// definition that `reader` may decode at it, and every candidate lies in
/// the buffer.
pub open spec fn reads_of<'c, T, E, F: Fn(&'c [u8], usize) -> Result<T, E>>(
    reader: F,
    data: &'c [u8],
    offsets: Seq<Offset>,
    reads: Seq<T>,
) -> bool {
    &&& reads.len() == offsets.len()
    &&& forall|i: int|
        #![trigger offsets[i]]
        0 <= i < offsets.len() && offsets[i] != SENTINEL ==> in_buffer(offsets[i], data@.len())
            && decodes(reader, data, offsets[i], reads[i])
}

/// Reading `offset` of `data` cannot fail: it lies in the buffer and the
/// reader never rejects it.
pub open spec fn must_succeed<'c, T, E, F: Fn(&'c [u8], usize) -> Result<T, E>>(
    reader: F,
    data: &'c [u8],
    offset: Offset,
) -> bool {
    &&& in_buffer(offset, data@.len())
    &&& forall|cause: E| !rejects(reader, data, offset, cause)
}

/// Reading `offset` of `data` cannot succeed: it lies outside the buffer,
/// or the reader never decodes anything there.
pub open spec fn must_fail<'c, T, E, F: Fn(&'c [u8], usize) -> Result<T, E>>(
    reader: F,
    data: &'c [u8],
    offset: Offset,
) -> bool {
    ||| !in_buffer(offset, data@.len())
    ||| forall|definition: T| !decodes(reader, data, offset, definition)
}

/// `after` is `before` with every candidate of `seen` read from `data`:
/// each candidate lies in the buffer and holds a definition decoded at it,
/// and nothing else was added or changed.
pub open spec fn loaded<'c, T, E, F: Fn(&'c [u8], usize) -> Result<T, E>>(
    before: Map<Offset, T>,
    after: Map<Offset, T>,
    reader: F,
    data: &'c [u8],
    seen: Seq<Offset>,
) -> bool {
    &&& after.dom() =~= before.dom().union(candidates(seen))
    &&& forall|k: Offset| #[trigger]
        candidates(seen).contains(k) ==> in_buffer(k, data@.len()) && decodes(
            reader,
            data,
            k,
            after[k],
        )
    &&& forall|k: Offset|
        before.contains_key(k) && !candidates(seen).contains(k) ==> #[trigger] after[k]
            == before[k]
}

/// The population stopped with `error` at index `i` of `offsets`: the
/// offsets before it are loaded, and the one at `i` is a candidate that
/// lies outside the buffer or that the reader rejected.
pub open spec fn stopped<'c, T, E, F: Fn(&'c [u8], usize) -> Result<T, E>>(
    before: Map<Offset, T>,
    after: Map<Offset, T>,
    reader: F,
    data: &'c [u8],
    offsets: Seq<Offset>,
    i: int,
    error: PopulateError<E>,
) -> bool {
    &&& 0 <= i < offsets.len()
    &&& offsets[i] != SENTINEL
    &&& loaded(before, after, reader, data, offsets.take(i))
    &&& match error {
        PopulateError::Position(e) => {
            &&& e.offset == offsets[i]
            &&& e.len == data@.len()
            &&& !in_buffer(offsets[i], data@.len())
        },
        PopulateError::Decode { offset, cause } => {
            &&& offset == offsets[i]
            &&& in_buffer(offsets[i], data@.len())
            &&& rejects(reader, data, offsets[i], cause)
        },
    }
}

} // verus!
