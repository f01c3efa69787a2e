//! Aggregate per-species population samples and the logging registry.
use vstd::prelude::*;

verus! {

/// One drained population sample.
#[derive(Default, Clone)]
pub struct SolverStatisticSample<T> {
    pub name: String,
    pub value: T,
    pub iteration_count: u32,
}

/// The host-side logging registry: which species are sampled, under which
/// names, and the FIFO of samples not yet drained.
pub struct StatisticsGroup {
    /// Sampled species: name and species ID, in registration order.
    pub logging_stats: Vec<(String, u32)>,
    /// Samples pushed by the read-back path and drained by the observer.
    pub samples: Vec<SolverStatisticSample<i32>>,
}

impl StatisticsGroup {
    pub fn new() -> (g: StatisticsGroup)
        ensures
            g.logging_stats@.len() == 0,
            g.samples@.len() == 0,
    {
        StatisticsGroup { logging_stats: Vec::new(), samples: Vec::new() }
    }

    /// Register one species for sampling.
    pub fn register(&mut self, name: String, species: u32)
        ensures
            final(self).logging_stats@ == old(self).logging_stats@.push((name, species)),
            final(self).samples == old(self).samples,
    {
        self.logging_stats.push((name, species));
    }

    /// Queue one sample read back from the device.
    pub fn push_sample(&mut self, name: String, value: i32, iteration_count: u32)
        ensures
            final(self).samples@.len() == old(self).samples@.len() + 1,
            final(self).samples@.last().name == name,
            final(self).samples@.last().value == value,
            final(self).samples@.last().iteration_count == iteration_count,
            forall|i: int|
                0 <= i < old(self).samples@.len() ==> final(self).samples@[i] == old(
                    self,
                ).samples@[i],
            final(self).logging_stats == old(self).logging_stats,
    {
        self.samples.push(SolverStatisticSample { name, value, iteration_count });
    }

    /// Drain the oldest sample, if any.
    pub fn pop_sample(&mut self) -> (s: Option<SolverStatisticSample<i32>>)
        ensures
            old(self).samples@.len() == 0 ==> s is None && final(self).samples@ == old(
                self,
            ).samples@,
            old(self).samples@.len() > 0 ==> s is Some && final(self).samples@ == old(
                self,
            ).samples@.drop_first(),
            final(self).logging_stats == old(self).logging_stats,
    {
        if self.samples.len() == 0 {
            None
        } else {
            let s = self.samples.remove(0);
            proof {
                assert(old(self).samples@.remove(0) =~= old(self).samples@.drop_first());
            }
            Some(s)
        }
    }
}

} // verus!
