//! What follows from the contracts: laws of populating a cache and then
//! asking it for its size and its entries.
//!
//! Each law speaks of `loaded(before, after, ..)`, which is what a
//! successful `populate` ensures of the cache before and after the call. A
//! cache fresh from `new` has the empty map for `before`.

use crate::model::{cached, decodes, loaded, must_fail, reads_of, replayed};
use crate::offset::{candidates, in_buffer, lemma_candidates_grow, Offset, SENTINEL};
use vstd::prelude::*;
use vstd::seq_lib::seq_to_set_is_finite;

verus! {

/// The candidates of a list are finitely many, and no more than the list is
/// long.
pub proof fn lemma_candidates_bounded(offsets: Seq<Offset>)
    ensures
        candidates(offsets).finite(),
        candidates(offsets).len() <= offsets.len(),
        !candidates(offsets).contains(SENTINEL),
{
    seq_to_set_is_finite(offsets);
    offsets.lemma_cardinality_of_set();
}

/// A list that holds nothing but the sentinel loads nothing: the cache is
/// as it was, and a fresh one stays empty.
pub proof fn law_sentinels_load_nothing<'c, T, E, F: Fn(&'c [u8], usize) -> Result<T, E>>(
    before: Map<Offset, T>,
    after: Map<Offset, T>,
    reader: F,
    data: &'c [u8],
    offsets: Seq<Offset>,
)
    requires
        forall|i: int| 0 <= i < offsets.len() ==> offsets[i] == SENTINEL,
        loaded(before, after, reader, data, offsets),
    ensures
        after == before,
        before == Map::<Offset, T>::empty() ==> after.len() == 0,
{
    assert(candidates(offsets) =~= Set::<Offset>::empty());
    assert(after =~= before);
}

/// Loading `n` distinct offsets, none of them the sentinel, into a fresh
/// cache leaves `n` entries, and each offset holds a definition decoded at
/// it.
pub proof fn law_distinct_offsets_all_cached<'c, T, E, F: Fn(&'c [u8], usize) -> Result<T, E>>(
    after: Map<Offset, T>,
    reader: F,
    data: &'c [u8],
    offsets: Seq<Offset>,
)
    requires
        offsets.no_duplicates(),
        !offsets.contains(SENTINEL),
        loaded(Map::<Offset, T>::empty(), after, reader, data, offsets),
    ensures
        after.dom().finite(),
        after.len() == offsets.len(),
        forall|i: int|
            0 <= i < offsets.len() ==> after.contains_key(#[trigger] offsets[i]) && decodes(
                reader,
                data,
                offsets[i],
                after[offsets[i]],
            ),
{
    lemma_candidates_bounded(offsets);
    offsets.unique_seq_to_set();
    assert(candidates(offsets) =~= offsets.to_set());
    assert(after.dom() =~= candidates(offsets));
    assert forall|i: int| 0 <= i < offsets.len() implies after.contains_key(
        #[trigger] offsets[i],
    ) && decodes(reader, data, offsets[i], after[offsets[i]]) by {
        assert(offsets.contains(offsets[i]));
        assert(candidates(offsets).contains(offsets[i]));
    }
}

/// A fresh cache loaded from a list holds as many entries as the list has
/// distinct values other than the sentinel, however often each occurs: no
/// more than the list is long, and no more after an offset is repeated or a
/// sentinel is added.
pub proof fn law_duplicates_do_not_count<'c, T, E, F: Fn(&'c [u8], usize) -> Result<T, E>>(
    once: Map<Offset, T>,
    again: Map<Offset, T>,
    reader: F,
    data: &'c [u8],
    offsets: Seq<Offset>,
    repeated: Offset,
)
    requires
        offsets.contains(repeated) || repeated == SENTINEL,
        loaded(Map::<Offset, T>::empty(), once, reader, data, offsets),
        loaded(Map::<Offset, T>::empty(), again, reader, data, offsets.push(repeated)),
    ensures
        once.dom().finite(),
        once.len() == candidates(offsets).len(),
        once.len() <= offsets.len(),
        again.dom() == once.dom(),
        again.len() == once.len(),
{
    lemma_candidates_bounded(offsets);
    offsets.lemma_push_to_set_commute(repeated);
    assert(candidates(offsets.push(repeated)) =~= candidates(offsets));
    assert(once.dom() =~= candidates(offsets));
    assert(again.dom() =~= candidates(offsets));
}

/// No population succeeds on a list with a candidate that lies outside the
/// buffer, or at which the reader decodes nothing.
pub proof fn law_bad_offset_fails<'c, T, E, F: Fn(&'c [u8], usize) -> Result<T, E>>(
    before: Map<Offset, T>,
    after: Map<Offset, T>,
    reader: F,
    data: &'c [u8],
    offsets: Seq<Offset>,
    i: int,
)
    requires
        0 <= i < offsets.len(),
        offsets[i] != SENTINEL,
        must_fail(reader, data, offsets[i]),
    ensures
        !loaded(before, after, reader, data, offsets),
{
    assert(offsets.contains(offsets[i]));
    assert(candidates(offsets).contains(offsets[i]));
}

/// A fresh cache loaded from a list holds nothing under the sentinel, nor
/// under an offset that the list does not name.
pub proof fn law_unlisted_offsets_miss<'c, T, E, F: Fn(&'c [u8], usize) -> Result<T, E>>(
    after: Map<Offset, T>,
    reader: F,
    data: &'c [u8],
    offsets: Seq<Offset>,
    offset: Offset,
)
    requires
        offset == SENTINEL || !offsets.contains(offset),
        loaded(Map::<Offset, T>::empty(), after, reader, data, offsets),
    ensures
        !after.contains_key(offset),
{
    assert(!candidates(offsets).contains(offset));
    assert(after.dom() =~= candidates(offsets));
}

/// Loading keeps a well-formed map well formed: from a map without the
/// sentinel comes a map without it, and every key of the result was a key
/// before or is a candidate that lies in the buffer.
pub proof fn law_keys_are_loaded_candidates<'c, T, E, F: Fn(&'c [u8], usize) -> Result<T, E>>(
    before: Map<Offset, T>,
    after: Map<Offset, T>,
    reader: F,
    data: &'c [u8],
    offsets: Seq<Offset>,
)
    requires
        !before.contains_key(SENTINEL),
        loaded(before, after, reader, data, offsets),
    ensures
        !after.contains_key(SENTINEL),
        forall|k: Offset| #[trigger]
            after.contains_key(k) ==> before.contains_key(k) || (offsets.contains(k) && in_buffer(
                k,
                data@.len(),
            ) && decodes(reader, data, k, after[k])),
{
    assert forall|k: Offset| #[trigger] after.contains_key(k) implies before.contains_key(k) || (
    offsets.contains(k) && in_buffer(k, data@.len()) && decodes(reader, data, k, after[k])) by {
        if !before.contains_key(k) {
            assert(candidates(offsets).contains(k));
        }
    }
}

/// Caching one read after another, in the order of the list, loads the
/// list: the outcome is what a successful population ensures.
pub proof fn law_replay_loads<'c, T, E, F: Fn(&'c [u8], usize) -> Result<T, E>>(
    before: Map<Offset, T>,
    reader: F,
    data: &'c [u8],
    offsets: Seq<Offset>,
    reads: Seq<T>,
)
    requires
        reads_of(reader, data, offsets, reads),
    ensures
        loaded(before, replayed(before, offsets, reads), reader, data, offsets),
    decreases offsets.len(),
{
    if offsets.len() == 0 {
        assert(candidates(offsets) =~= Set::<Offset>::empty());
    } else {
        let last = offsets.len() - 1;
        let earlier = offsets.drop_last();
        assert(offsets.take(last) =~= earlier);
        assert(offsets.take(last + 1) =~= offsets);
        assert forall|i: int| 0 <= i < earlier.len() && #[trigger] earlier[i]
            != SENTINEL implies in_buffer(earlier[i], data@.len()) && decodes(
            reader,
            data,
            earlier[i],
            reads.drop_last()[i],
        ) by {
            assert(offsets[i] == earlier[i]);
            assert(reads.drop_last()[i] == reads[i]);
        }
        law_replay_loads(before, reader, data, earlier, reads.drop_last());
        lemma_candidates_grow(offsets, last);
        if offsets[last] != SENTINEL {
            assert(decodes(reader, data, offsets[last], reads[last]));
        }
    }
}

/// Where an offset occurs more than once, the read of its last occurrence
/// is the one that stays.
pub proof fn law_later_read_replaces_earlier<T>(
    before: Map<Offset, T>,
    offsets: Seq<Offset>,
    reads: Seq<T>,
    i: int,
)
    requires
        reads.len() == offsets.len(),
        0 <= i < offsets.len(),
        offsets[i] != SENTINEL,
        forall|j: int| i < j < offsets.len() ==> offsets[j] != offsets[i],
    ensures
        replayed(before, offsets, reads).contains_key(offsets[i]),
        replayed(before, offsets, reads)[offsets[i]] == reads[i],
    decreases offsets.len(),
{
    if i < offsets.len() - 1 {
        law_later_read_replaces_earlier(before, offsets.drop_last(), reads.drop_last(), i);
    }
}

/// Every population is such a replay: whatever a successful population
/// leaves in the cache is what comes of caching one read per offset, in
/// the order of the list.
pub proof fn law_loaded_is_a_replay<'c, T, E, F: Fn(&'c [u8], usize) -> Result<T, E>>(
    before: Map<Offset, T>,
    after: Map<Offset, T>,
    reader: F,
    data: &'c [u8],
    offsets: Seq<Offset>,
) -> (reads: Seq<T>)
    requires
        loaded(before, after, reader, data, offsets),
    ensures
        reads_of(reader, data, offsets, reads),
        after == replayed(before, offsets, reads),
{
    let reads = Seq::new(offsets.len(), |i: int| after[offsets[i]]);
    assert forall|i: int| 0 <= i < offsets.len() && #[trigger] offsets[i]
        != SENTINEL implies in_buffer(offsets[i], data@.len()) && decodes(
        reader,
        data,
        offsets[i],
        reads[i],
    ) by {
        assert(candidates(offsets).contains(offsets[i]));
    }
    law_replay_loads(before, reader, data, offsets, reads);
    lemma_replay_keeps_final_values(before, after, offsets, reads);
    assert(after =~= replayed(before, offsets, reads));
    reads
}

/// A replay in which every read is the value that `after` holds under its
/// offset agrees with `after` on every candidate, and with `before`
/// elsewhere.
proof fn lemma_replay_keeps_final_values<T>(
    before: Map<Offset, T>,
    after: Map<Offset, T>,
    offsets: Seq<Offset>,
    reads: Seq<T>,
)
    requires
        reads.len() == offsets.len(),
        forall|i: int| 0 <= i < offsets.len() ==> #[trigger] reads[i] == after[offsets[i]],
    ensures
        forall|k: Offset| #[trigger]
            candidates(offsets).contains(k) ==> replayed(before, offsets, reads)[k] == after[k],
        forall|k: Offset|
            !candidates(offsets).contains(k) ==> #[trigger] replayed(before, offsets, reads)[k]
                == before[k],
    decreases offsets.len(),
{
    if offsets.len() == 0 {
        assert(candidates(offsets) =~= Set::<Offset>::empty());
    } else {
        let last = offsets.len() - 1;
        let earlier = offsets.drop_last();
        let partial = replayed(before, earlier, reads.drop_last());
        assert(offsets.take(last) =~= earlier);
        assert(offsets.take(last + 1) =~= offsets);
        assert forall|i: int| 0 <= i < earlier.len() implies #[trigger] reads.drop_last()[i]
            == after[earlier[i]] by {
            assert(reads.drop_last()[i] == reads[i]);
        }
        lemma_replay_keeps_final_values(before, after, earlier, reads.drop_last());
        lemma_candidates_grow(offsets, last);
        assert(replayed(before, offsets, reads) == cached(partial, offsets[last], reads[last]));
        assert(reads[last] == after[offsets[last]]);
        assert forall|k: Offset| #[trigger] candidates(offsets).contains(k) implies replayed(
            before,
            offsets,
            reads,
        )[k] == after[k] by {
            if k != offsets[last] {
                assert(candidates(earlier).contains(k));
            }
        }
        assert forall|k: Offset| !candidates(offsets).contains(k) implies #[trigger] replayed(
            before,
            offsets,
            reads,
        )[k] == before[k] by {
            assert(!candidates(earlier).contains(k));
            assert(partial[k] == before[k]);
        }
    }
}

} // verus!
