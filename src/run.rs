//! One polling run: each configured repository's fetch outcome is ingested
//! on its own, and the run's count of new downloads is kept.

use vstd::prelude::*;
use crate::fetch::FetchError;
use crate::sample::DailySample;
use crate::store::{CloneStore, StoreError, StoreView, clones_result, clones_state, saturated};

verus! {

/// Why one repository contributed nothing to a run.
#[derive(Clone, Debug)]
pub enum IngestError {
    Fetch(FetchError),
    Store(StoreError),
}

/// The store after one repository's fetch outcome is ingested: a failed
/// fetch leaves it as it was.
pub open spec fn fetched_state(v: StoreView, owner: Seq<char>, name: Seq<char>, fetched: Result<Seq<DailySample>, FetchError>) -> StoreView {
    match fetched {
        Ok(samples) => clones_state(v, owner, name, samples),
        Err(_) => v,
    }
}

/// What ingesting one repository's fetch outcome returns.
pub open spec fn fetched_result(v: StoreView, owner: Seq<char>, name: Seq<char>, fetched: Result<Seq<DailySample>, FetchError>) -> Result<u64, IngestError> {
    match fetched {
        Ok(samples) => match clones_result(v, owner, name, samples) {
            Ok(n) => Ok(n),
            Err(e) => Err(IngestError::Store(e)),
        },
        Err(e) => Err(IngestError::Fetch(e)),
    }
}

/// The run's count after one repository's outcome: a success adds its new
/// downloads (stopping at `u64::MAX`), a failure adds nothing.
pub open spec fn tally_after(total: u64, outcome: Result<u64, IngestError>) -> u64 {
    match outcome {
        Ok(n) => saturated((total + n) as nat),
        Err(_) => total,
    }
}

/// Adds one repository's outcome to the run's count of new downloads.
pub fn add_to_tally(total: u64, outcome: &Result<u64, IngestError>) -> (r: u64)
    ensures
        r == tally_after(total, *outcome),
{
    match outcome {
        Ok(n) => total.saturating_add(*n),
        Err(_) => total,
    }
}

impl CloneStore {
    /// Ingests the outcome of fetching one repository's report. A failed
    /// fetch is handed back and leaves the store as it was.
    pub fn ingest_fetched(&mut self, owner: &str, name: &str, fetched: Result<Vec<DailySample>, FetchError>) -> (r: Result<u64, IngestError>)
        requires
            old(self).wf(),
        ensures
            final(self).wf(),
            final(self)@ == fetched_state(old(self)@, owner@, name@, match fetched {
                Ok(v) => Ok(v@),
                Err(e) => Err(e),
            }),
            r == fetched_result(old(self)@, owner@, name@, match fetched {
                Ok(v) => Ok(v@),
                Err(e) => Err(e),
            }),
    {
        match fetched {
            Ok(samples) => match self.record_clones(owner, name, &samples) {
                Ok(n) => Ok(n),
                Err(e) => Err(IngestError::Store(e)),
            },
            Err(e) => Err(IngestError::Fetch(e)),
        }
    }
}

} // verus!
