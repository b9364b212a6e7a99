//! The job manager: a FIFO queue of parameter sets and the collection
//! of their results.
//!
//! The engine itself is a single shared resource (see `engine`), so the
//! per-job command sequences are serialized by whoever drives the
//! engine; this module owns the ordering rule: results correspond
//! positionally to the enqueue order, however the work was scheduled.

use vstd::prelude::*;
use crate::engine::ScatterData;
use crate::parameters::SimulationParameters;
use crate::results::SimulationResult;

verus! {

/// What one full engine sequence produced for one job: the scattering
/// output and the engine's own rendered grid.
pub struct EngineOutput {
    pub scatter: ScatterData,
    pub image: ScatterData,
}

impl EngineOutput {
    pub open spec fn wf(&self) -> bool {
        &&& self.scatter.wf()
        &&& self.image.wf()
    }
}

/// An ordered queue of jobs awaiting execution.
pub struct SimulationManager {
    jobs: Vec<SimulationParameters>,
}

impl SimulationManager {
    /// The pending jobs, in enqueue order.
    pub closed spec fn queue(&self) -> Seq<SimulationParameters> {
        self.jobs@
    }

    /// An empty queue.
    pub fn new() -> (r: SimulationManager)
        ensures
            r.queue().len() == 0,
    {
        SimulationManager { jobs: Vec::new() }
    }

    /// Appends one job; the queue keeps the caller's enqueue order.
    pub fn enqueue(&mut self, params: SimulationParameters)
        ensures
            final(self).queue() == old(self).queue().push(params),
    {
        self.jobs.push(params);
    }

    /// Discards the pending queue without executing it.
    pub fn clear(&mut self)
        ensures
            final(self).queue().len() == 0,
    {
        self.jobs.clear();
    }

    /// Collects the results of the whole pending queue, which it takes
    /// ownership of: one `EngineOutput` per job, in queue order, handed
    /// in by whoever drove the engine's serialized command sequences.
    ///
    /// Returns exactly one result per queued job, positionally: the
    /// `i`-th result holds the `i`-th enqueued parameters and is formed
    /// from the `i`-th engine output. The queue is empty afterwards;
    /// enqueues during execution belong to a new queue.
    pub fn run_all(&mut self, outputs: Vec<EngineOutput>) -> (r: Vec<SimulationResult>)
        requires
            outputs@.len() == old(self).queue().len(),
            forall|i: int| 0 <= i < outputs@.len() ==> #[trigger] outputs@[i].wf(),
        ensures
            final(self).queue().len() == 0,
            r@.len() == old(self).queue().len(),
            forall|i: int|
                0 <= i < r@.len() ==> #[trigger] r@[i].is_result_of(
                    old(self).queue()[i],
                    outputs@[i].scatter,
                    outputs@[i].image,
                ),
            forall|i: int| 0 <= i < r@.len() ==> #[trigger] r@[i].params == old(self).queue()[i],
            forall|i: int| 0 <= i < r@.len() ==> #[trigger] r@[i].wf(),
    {
        let ghost jobs0 = self.jobs@;
        let ghost outs0 = outputs@;
        let n = self.jobs.len();
        let mut outs = outputs;
        let mut results: Vec<SimulationResult> = Vec::new();
        let mut i: usize = 0;
        while i < n
            invariant
                i <= n,
                n == jobs0.len(),
                self.jobs@ == jobs0,
                outs@ =~= outs0.skip(i as int),
                outs0.len() == n,
                forall|k: int| 0 <= k < n ==> #[trigger] outs0[k].wf(),
                results@.len() == i,
                forall|k: int|
                    0 <= k < i ==> #[trigger] results@[k].is_result_of(
                        jobs0[k],
                        outs0[k].scatter,
                        outs0[k].image,
                    ),
                forall|k: int| 0 <= k < i ==> #[trigger] results@[k].wf(),
            decreases n - i,
        {
            let out = outs.remove(0);
            proof {
                assert(out == outs0[i as int]);
                assert(outs0[i as int].wf());
                assert(outs@ =~= outs0.skip(i + 1));
            }
            let result = SimulationResult::from_scatter(out.scatter, &self.jobs[i], out.image);
            results.push(result);
            proof {
                assert(results@[i as int].params == jobs0[i as int]);
            }
            i = i + 1;
        }
        self.jobs = Vec::new();
        proof {
            assert forall|k: int| 0 <= k < results@.len() implies #[trigger] results@[k].params
                == jobs0[k] by {
                assert(results@[k].is_result_of(jobs0[k], outs0[k].scatter, outs0[k].image));
            }
        }
        results
    }
}

} // verus!
