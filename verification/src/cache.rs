//! The cache itself: a map from offset to decoded definition.

use crate::error::PopulateError;
use crate::model::{callable, loaded, must_fail, must_succeed, recorded, stopped};
use crate::offset::{candidates, lemma_candidates_grow, locate, Offset, SENTINEL};
use std::collections::HashMap;
use vstd::prelude::*;

verus! {

/// The template definitions of one chunk, each under the offset it was
/// decoded at.
///
/// `T` is the decoded definition. The cache never looks inside it.
#[derive(Debug)]
pub struct TemplateCache<T> {
    entries: HashMap<Offset, T>,
}

impl<T> View for TemplateCache<T> {
    type V = Map<Offset, T>;

    closed spec fn view(&self) -> Map<Offset, T> {
        self.entries@
    }
}

impl<T> TemplateCache<T> {
    /// What holds of every cache: the sentinel is not among its keys.
    pub closed spec fn wf(&self) -> bool {
        !self.entries@.contains_key(SENTINEL)
    }

    /// A well-formed cache holds nothing under the sentinel, and holds
    /// finitely many definitions.
    pub proof fn law_sentinel_never_cached(self)
        requires
            self.wf(),
        ensures
            !self@.contains_key(SENTINEL),
            self@.dom().finite(),
    {
    }

    /// An empty cache.
    pub fn new() -> (cache: Self)
        ensures
            cache.wf(),
            cache@ == Map::<Offset, T>::empty(),
    {
        TemplateCache { entries: HashMap::new() }
    }

    /// Reads the definition at every candidate of `offsets` out of `data`
    /// and caches each under its offset.
    ///
    /// The offsets are taken in order. The sentinel is skipped without a
    /// read. Every other offset must lie inside `data`; `reader` is then
    /// called with `data` and the position, and what it decodes replaces
    /// whatever the cache held under that offset. The first offset that
    /// lies outside the buffer, or that the reader rejects, ends the
    /// population with that error; what was cached before it stays.
    pub fn populate<'c, E, F>(&mut self, data: &'c [u8], offsets: &[Offset], reader: F) -> (result:
        Result<(), PopulateError<E>>) where F: Fn(&'c [u8], usize) -> Result<T, E>
        requires
            old(self).wf(),
            callable(reader, data, offsets@),
        ensures
            final(self).wf(),
            match result {
                Ok(()) => loaded(old(self)@, final(self)@, reader, data, offsets@),
                Err(error) => exists|i: int|
                    stopped(old(self)@, final(self)@, reader, data, offsets@, i, error),
            },
            (forall|i: int| 0 <= i < offsets@.len() ==> offsets@[i] == SENTINEL) ==> result is Ok
                && final(self)@ == old(self)@,
            (forall|k: Offset| #[trigger]
                candidates(offsets@).contains(k) ==> must_succeed(reader, data, k))
                ==> result is Ok,
            (exists|k: Offset| #[trigger]
                candidates(offsets@).contains(k) && must_fail(reader, data, k)) ==> result is Err,
    {
        let mut i: usize = 0;
        assert(candidates(offsets@.take(0)) =~= Set::<Offset>::empty());
        while i < offsets.len()
            invariant
                i <= offsets.len(),
                self.wf(),
                loaded(old(self)@, self@, reader, data, offsets@.take(i as int)),
                callable(reader, data, offsets@),
            decreases offsets.len() - i,
        {
            let offset = offsets[i];
            proof {
                lemma_candidates_grow(offsets@, i as int);
            }
            if offset != SENTINEL {
                assert(candidates(offsets@).contains(offset)) by {
                    assert(offsets@.contains(offset));
                }
                let position = match locate(data.len(), offset) {
                    Ok(position) => position,
                    Err(e) => {
                        assert(stopped(
                            old(self)@,
                            self@,
                            reader,
                            data,
                            offsets@,
                            i as int,
                            PopulateError::<E>::Position(e),
                        ));
                        return Err(PopulateError::Position(e));
                    },
                };
                let outcome = reader(data, position);
                let ghost so_far = self@;
                if let Err(error) = self.record(offset, outcome) {
                    assert(stopped(old(self)@, so_far, reader, data, offsets@, i as int, error));
                    return Err(error);
                }
            }
            i += 1;
        }
        proof {
            assert(offsets@.take(i as int) =~= offsets@);
            if forall|j: int| 0 <= j < offsets@.len() ==> offsets@[j] == SENTINEL {
                assert(candidates(offsets@) =~= Set::<Offset>::empty());
                assert(self@ =~= old(self)@);
            }
        }
        Ok(())
    }

    /// A cache populated from `data` in one step: either every candidate of
    /// `offsets` was read and the cache holds exactly those, or the
    /// population failed and no cache comes out.
    pub fn build<'c, E, F>(data: &'c [u8], offsets: &[Offset], reader: F) -> (result: Result<
        Self,
        PopulateError<E>,
    >) where F: Fn(&'c [u8], usize) -> Result<T, E>
        requires
            callable(reader, data, offsets@),
        ensures
            match result {
                Ok(cache) => {
                    &&& cache.wf()
                    &&& cache@.dom() == candidates(offsets@)
                    &&& loaded(Map::<Offset, T>::empty(), cache@, reader, data, offsets@)
                },
                Err(error) => exists|i: int, partial: Map<Offset, T>|
                    stopped(Map::<Offset, T>::empty(), partial, reader, data, offsets@, i, error),
            },
            (forall|k: Offset| #[trigger]
                candidates(offsets@).contains(k) ==> must_succeed(reader, data, k))
                ==> result is Ok,
            (exists|k: Offset| #[trigger]
                candidates(offsets@).contains(k) && must_fail(reader, data, k)) ==> result is Err,
    {
        let mut cache = TemplateCache::new();
        match cache.populate(data, offsets, reader) {
            Ok(()) => Ok(cache),
            Err(error) => Err(error),
        }
    }

    /// Takes in what a read at `offset` came to.
    ///
    /// A decoded definition is cached under `offset`, in place of what was
    /// there; a failure is handed back as a decode error and leaves the
    /// cache as it was. Nothing is ever cached under the sentinel: with it
    /// the outcome is dropped.
    pub fn record<E>(&mut self, offset: Offset, outcome: Result<T, E>) -> (result: Result<
        (),
        PopulateError<E>,
    >)
        requires
            old(self).wf(),
        ensures
            final(self).wf(),
            final(self)@ == recorded(old(self)@, offset, outcome),
            result == (match outcome {
                Err(cause) if offset != SENTINEL => Err(PopulateError::Decode { offset, cause }),
                _ => Ok(()),
            }),
    {
        if offset == SENTINEL {
            return Ok(());
        }
        match outcome {
            Ok(definition) => {
                self.entries.insert(offset, definition);
                Ok(())
            },
            Err(cause) => Err(PopulateError::Decode { offset, cause }),
        }
    }

    /// The number of offsets that hold a definition.
    pub fn len(&self) -> (count: usize)
        ensures
            self@.dom().finite(),
            count == self@.len(),
    {
        self.entries.len()
    }

    /// The definition cached under `offset`, if there is one.
    pub fn get(&self, offset: Offset) -> (found: Option<&T>)
        requires
            self.wf(),
        ensures
            match found {
                Some(definition) => self@.contains_key(offset) && *definition == self@[offset],
                None => !self@.contains_key(offset),
            },
            offset == SENTINEL ==> found is None,
    {
        self.entries.get(&offset)
    }
}

} // verus!
