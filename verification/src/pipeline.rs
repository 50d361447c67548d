use vstd::prelude::*;
use crate::address::Address;
use crate::decode::{DecodeError, RawLogEntry};
use crate::event::{spec_decode_event, decode_event, PoolCreatedEvent};
use crate::metadata::{cache_after, resolved_of, MetadataFetch, TokenMetadata, TokenMetadataCache};
use crate::record::{record_view, PoolInfo};
use crate::schema::EventSchema;

verus! {

/// What one turn of the pipeline asks of its driver.
#[derive(Clone, Debug)]
pub enum PipelineStep {
    /// The next record needs this token's metadata; the driver fetches
    /// it and hands the outcome back through `supply_metadata`.
    NeedMetadata(Address),
    /// One finished record, to be passed downstream at once.
    Emit(PoolInfo),
    /// The entry at hand did not decode; it is skipped, the run goes
    /// on, and the reason is surfaced as a diagnostic.
    Skipped(DecodeError),
    /// Every entry is processed.
    Done,
}

/// A one-shot pass over an ordered batch of raw log entries: each is
/// decoded, both token addresses are resolved through the memoizing
/// cache, and the joined record is emitted, in source order. The
/// driver calls `step` until `Done`, answering each `NeedMetadata`
/// with `supply_metadata`.
pub struct EnrichmentPipeline {
    pub schema: EventSchema,
    pub logs: Vec<RawLogEntry>,
    pub pos: usize,
    pub pending: Option<PoolCreatedEvent>,
    pub cache: TokenMetadataCache,
}

impl EnrichmentPipeline {
    pub open spec fn wf(self) -> bool {
        &&& self.schema.wf()
        &&& self.cache.wf()
        &&& self.pos <= self.logs@.len()
    }

    /// Starts a run over the given entries with an empty cache.
    pub fn new(schema: EventSchema, logs: Vec<RawLogEntry>) -> (r: EnrichmentPipeline)
        requires
            schema.wf(),
        ensures
            r.wf(),
            r.schema == schema,
            r.logs == logs,
            r.pos == 0,
            r.pending is None,
            r.cache@ == Map::<Address, crate::metadata::MetaView>::empty(),
    {
        EnrichmentPipeline { schema, logs, pos: 0, pending: None, cache: TokenMetadataCache::new() }
    }

    /// Takes the run one turn further. A metadata request is made only
    /// for an address the cache does not hold yet, so each address is
    /// fetched at most once per run; a record is emitted only once both
    /// of its token addresses are resolved; a malformed entry is
    /// skipped with its reason and nothing is emitted for it.
    pub fn step(&mut self) -> (r: PipelineStep)
        requires
            old(self).wf(),
        ensures
            final(self).wf(),
            final(self).schema == old(self).schema,
            final(self).logs == old(self).logs,
            final(self).cache == old(self).cache,
            r matches PipelineStep::NeedMetadata(a) ==> !old(self).cache@.contains_key(a),
            match old(self).pending {
                Some(ev) => {
                    &&& final(self).pos == old(self).pos
                    &&& if !old(self).cache@.contains_key(ev.token0) {
                        &&& r == PipelineStep::NeedMetadata(ev.token0)
                        &&& final(self).pending == Some(ev)
                    } else if !old(self).cache@.contains_key(ev.token1) {
                        &&& r == PipelineStep::NeedMetadata(ev.token1)
                        &&& final(self).pending == Some(ev)
                    } else {
                        &&& r matches PipelineStep::Emit(p) && p@ == record_view(
                            ev,
                            old(self).cache@,
                        )
                        &&& final(self).pending is None
                    }
                },
                None => {
                    if old(self).pos < old(self).logs@.len() {
                        let dr = spec_decode_event(
                            old(self).schema,
                            old(self).logs@[old(self).pos as int],
                        );
                        &&& final(self).pos == old(self).pos + 1
                        &&& match dr {
                            Err(e) => r == PipelineStep::Skipped(e) && final(self).pending is None,
                            Ok(ev) => {
                                if !old(self).cache@.contains_key(ev.token0) {
                                    &&& r == PipelineStep::NeedMetadata(ev.token0)
                                    &&& final(self).pending == Some(ev)
                                } else if !old(self).cache@.contains_key(ev.token1) {
                                    &&& r == PipelineStep::NeedMetadata(ev.token1)
                                    &&& final(self).pending == Some(ev)
                                } else {
                                    &&& r matches PipelineStep::Emit(p) && p@ == record_view(
                                        ev,
                                        old(self).cache@,
                                    )
                                    &&& final(self).pending is None
                                }
                            },
                        }
                    } else {
                        &&& r == PipelineStep::Done
                        &&& *final(self) == *old(self)
                    }
                },
            },
    {
        match self.pending {
            Some(ev) => {
                if !self.cache.contains(ev.token0) {
                    return PipelineStep::NeedMetadata(ev.token0);
                }
                if !self.cache.contains(ev.token1) {
                    return PipelineStep::NeedMetadata(ev.token1);
                }
                let p = match PoolInfo::from_pool_created_event(ev, &self.cache) {
                    Some(p) => p,
                    None => unreached(),
                };
                self.pending = None;
                PipelineStep::Emit(p)
            },
            None => {
                if self.pos < self.logs.len() {
                    let dr = decode_event(&self.schema, &self.logs[self.pos]);
                    self.pos = self.pos + 1;
                    match dr {
                        Err(e) => PipelineStep::Skipped(e),
                        Ok(ev) => {
                            if !self.cache.contains(ev.token0) {
                                self.pending = Some(ev);
                                return PipelineStep::NeedMetadata(ev.token0);
                            }
                            if !self.cache.contains(ev.token1) {
                                self.pending = Some(ev);
                                return PipelineStep::NeedMetadata(ev.token1);
                            }
                            let p = match PoolInfo::from_pool_created_event(ev, &self.cache) {
                                Some(p) => p,
                                None => unreached(),
                            };
                            PipelineStep::Emit(p)
                        },
                    }
                } else {
                    PipelineStep::Done
                }
            },
        }
    }

    /// Answers a metadata request: resolves the address against the
    /// fetch outcome through the cache. A hit leaves the cache as it
    /// is and returns the cached value, so a request answered twice
    /// still resolves once.
    pub fn supply_metadata(&mut self, a: Address, fetch: MetadataFetch) -> (m: TokenMetadata)
        requires
            old(self).wf(),
        ensures
            final(self).wf(),
            final(self).schema == old(self).schema,
            final(self).logs == old(self).logs,
            final(self).pos == old(self).pos,
            final(self).pending == old(self).pending,
            final(self).cache@ == cache_after(old(self).cache@, a, fetch),
            m@ == resolved_of(old(self).cache@, a, fetch),
            final(self).cache@.contains_key(a),
    {
        self.cache.resolve(a, fetch)
    }

    /// How many entries are consumed so far, for progress reporting.
    pub fn processed(&self) -> (r: usize)
        ensures
            r == self.pos,
    {
        self.pos
    }

    /// How many entries the run was given.
    pub fn total(&self) -> (r: usize)
        ensures
            r == self.logs@.len(),
    {
        self.logs.len()
    }
}

} // verus!
