//! One step of the scan: from what was read of an entry of the process
//! table to the table of aggregates.

use vstd::prelude::*;
use crate::aggregate::{record_outcome, Aggregator, Overflow, Totals};
use crate::identity::{application_key, resolve};
use crate::java::JavaStrategy;
use crate::procfs::resident_of;
use crate::sample::{sample_of, ProcessSample, RawProcess, RawView, SampleView};

verus! {

/// What counting a sample leads to: it is counted under its key, with its
/// resident memory.
pub open spec fn observe_outcome(
    totals: Totals,
    sample: SampleView,
    strategy: JavaStrategy,
) -> Result<Totals, Overflow> {
    record_outcome(totals, application_key(sample, strategy), sample.rss_kb)
}

/// What the readings of one entry lead to: where they give a sample, it is
/// counted; where they give none, the totals stay as they are.
pub open spec fn ingest_outcome(totals: Totals, raw: RawView, strategy: JavaStrategy) -> Result<
    Totals,
    Overflow,
> {
    match sample_of(raw) {
        Some(sample) => observe_outcome(totals, sample, strategy),
        None => Ok(totals),
    }
}

impl Aggregator {
    /// Counts `sample` under its key. Where a limit stands in the way the
    /// table stays as it is.
    pub fn observe(&mut self, sample: &ProcessSample, strategy: JavaStrategy) -> (done: Result<
        (),
        Overflow,
    >)
        requires
            old(self).wf(),
        ensures
            final(self).wf(),
            match done {
                Ok(()) => observe_outcome(old(self)@, sample@, strategy) == Ok::<Totals, Overflow>(
                    final(self)@,
                ),
                Err(limit) => observe_outcome(old(self)@, sample@, strategy) == Err::<
                    Totals,
                    Overflow,
                >(limit) && final(self)@ == old(self)@,
            },
    {
        let key = resolve(sample, strategy);
        self.record(key, sample.rss_kb())
    }

    /// Takes in what was read of one entry of the process table. An entry
    /// that is no process, that could not be read, that holds no memory or
    /// that has no name is passed over: the table stays as it is, and that
    /// is no failure.
    pub fn ingest(&mut self, raw: &RawProcess, strategy: JavaStrategy) -> (done: Result<
        (),
        Overflow,
    >)
        requires
            old(self).wf(),
        ensures
            final(self).wf(),
            match done {
                Ok(()) => ingest_outcome(old(self)@, raw@, strategy) == Ok::<Totals, Overflow>(
                    final(self)@,
                ),
                Err(limit) => ingest_outcome(old(self)@, raw@, strategy) == Err::<
                    Totals,
                    Overflow,
                >(limit) && final(self)@ == old(self)@,
            },
    {
        match ProcessSample::from_proc(raw) {
            Some(sample) => self.observe(&sample, strategy),
            None => Ok(()),
        }
    }
}

/// A process that holds no resident memory leaves the totals as they are:
/// it makes no aggregate and adds to none.
pub proof fn lemma_zero_memory_is_dropped(totals: Totals, raw: RawView, strategy: JavaStrategy)
    requires
        raw.status matches Some(lines) && resident_of(lines) == Some(0u64),
    ensures
        sample_of(raw) is None,
        ingest_outcome(totals, raw, strategy) == Ok::<Totals, Overflow>(totals),
{
}

/// A process whose memory cannot be read, because its status could not be
/// read or holds no number for it, leaves the totals as they are, and the
/// scan goes on.
pub proof fn lemma_unreadable_memory_is_skipped(
    totals: Totals,
    raw: RawView,
    strategy: JavaStrategy,
)
    requires
        match raw.status {
            Some(lines) => resident_of(lines) is None,
            None => true,
        },
    ensures
        sample_of(raw) is None,
        ingest_outcome(totals, raw, strategy) == Ok::<Totals, Overflow>(totals),
{
}

} // verus!
