//! Adaptive GPU scheduler state: availability, load, benchmarks and the
//! history of GPU-versus-CPU decisions per kind of operation.
use vstd::prelude::*;
use std::sync::Arc;
use crate::gpu_metrics::GpuMetrics;

verus! {

/// Kind of GPU operation.
#[derive(Debug, Clone, Copy, PartialEq, Eq, Hash)]
pub enum GpuOperation {
    ThumbnailGeneration,
    MipGeneration,
    ImageProcessing,
    ImageExport,
}

/// Number of decisions remembered per kind of operation.
pub open spec fn history_window() -> nat {
    100
}

/// History after recording `used_gpu`: appended, oldest dropped once more
/// than the window is held.
pub open spec fn history_after(h: Seq<bool>, used_gpu: bool) -> Seq<bool> {
    let pushed = h.push(used_gpu);
    if pushed.len() > history_window() {
        pushed.remove(0)
    } else {
        pushed
    }
}

/// Number of `true` entries of `h`.
pub open spec fn count_true(h: Seq<bool>) -> nat
    decreases h.len(),
{
    if h.len() == 0 {
        0
    } else {
        count_true(h.drop_last()) + if h.last() {
            1nat
        } else {
            0nat
        }
    }
}

/// Default CPU benchmark: 100 operations per second, in hundredths.
pub open spec fn default_cpu_benchmark() -> i32 {
    10000
}

/// Default GPU benchmark: 200 operations per second, in hundredths.
pub open spec fn default_gpu_benchmark() -> i32 {
    20000
}

/// Adaptive scheduler deciding between GPU and CPU execution.
#[derive(Debug)]
pub struct AdaptiveGpuScheduler {
    /// CPU benchmark, operations per second in hundredths.
    cpu_benchmark: i32,
    /// GPU benchmark, operations per second in hundredths.
    gpu_benchmark: i32,
    /// Current GPU load in thousandths (0 to 1000).
    current_load: i32,
    gpu_available: bool,
    gpu_metrics: Arc<GpuMetrics>,
    thumbnail_history: Vec<bool>,
    mip_history: Vec<bool>,
    processing_history: Vec<bool>,
    export_history: Vec<bool>,
}

impl AdaptiveGpuScheduler {
    pub closed spec fn spec_cpu_benchmark(&self) -> i32 {
        self.cpu_benchmark
    }

    pub closed spec fn spec_gpu_benchmark(&self) -> i32 {
        self.gpu_benchmark
    }

    pub closed spec fn spec_current_load(&self) -> i32 {
        self.current_load
    }

    pub closed spec fn spec_gpu_available(&self) -> bool {
        self.gpu_available
    }

    pub closed spec fn spec_metrics(&self) -> Arc<GpuMetrics> {
        self.gpu_metrics
    }

    /// Decisions remembered for `op`, oldest first.
    pub closed spec fn history(&self, op: GpuOperation) -> Seq<bool> {
        match op {
            GpuOperation::ThumbnailGeneration => self.thumbnail_history@,
            GpuOperation::MipGeneration => self.mip_history@,
            GpuOperation::ImageProcessing => self.processing_history@,
            GpuOperation::ImageExport => self.export_history@,
        }
    }

    /// Creates a scheduler with default benchmarks, no load, the GPU
    /// available and no decisions recorded.
    pub fn new(gpu_metrics: Arc<GpuMetrics>) -> (r: Self)
        ensures
            r.spec_cpu_benchmark() == default_cpu_benchmark(),
            r.spec_gpu_benchmark() == default_gpu_benchmark(),
            r.spec_current_load() == 0,
            r.spec_gpu_available(),
            r.spec_metrics() == gpu_metrics,
            forall|op: GpuOperation| #[trigger] r.history(op).len() == 0,
    {
        AdaptiveGpuScheduler {
            cpu_benchmark: 10000,
            gpu_benchmark: 20000,
            current_load: 0,
            gpu_available: true,
            gpu_metrics,
            thumbnail_history: Vec::new(),
            mip_history: Vec::new(),
            processing_history: Vec::new(),
            export_history: Vec::new(),
        }
    }

    pub fn cpu_benchmark(&self) -> (r: i32)
        ensures
            r == self.spec_cpu_benchmark(),
    {
        self.cpu_benchmark
    }

    pub fn gpu_benchmark(&self) -> (r: i32)
        ensures
            r == self.spec_gpu_benchmark(),
    {
        self.gpu_benchmark
    }

    pub fn current_load(&self) -> (r: i32)
        ensures
            r == self.spec_current_load(),
    {
        self.current_load
    }

    pub fn gpu_available(&self) -> (r: bool)
        ensures
            r == self.spec_gpu_available(),
    {
        self.gpu_available
    }

    pub fn gpu_metrics(&self) -> (r: &Arc<GpuMetrics>)
        ensures
            *r == self.spec_metrics(),
    {
        &self.gpu_metrics
    }

    /// Sets whether the GPU is available.
    pub fn set_gpu_available(&mut self, available: bool)
        ensures
            final(self).spec_gpu_available() == available,
            final(self).spec_cpu_benchmark() == old(self).spec_cpu_benchmark(),
            final(self).spec_gpu_benchmark() == old(self).spec_gpu_benchmark(),
            final(self).spec_current_load() == old(self).spec_current_load(),
            final(self).spec_metrics() == old(self).spec_metrics(),
            forall|op: GpuOperation| #[trigger] final(self).history(op) == old(self).history(op),
    {
        self.gpu_available = available;
    }

    /// Stores the GPU load, in thousandths (already clamped to 0..=1000).
    pub fn store_gpu_load(&mut self, load_milli: i32)
        ensures
            final(self).spec_current_load() == load_milli,
            final(self).spec_gpu_available() == old(self).spec_gpu_available(),
            final(self).spec_cpu_benchmark() == old(self).spec_cpu_benchmark(),
            final(self).spec_gpu_benchmark() == old(self).spec_gpu_benchmark(),
            final(self).spec_metrics() == old(self).spec_metrics(),
            forall|op: GpuOperation| #[trigger] final(self).history(op) == old(self).history(op),
    {
        self.current_load = load_milli;
    }

    /// Stores the CPU benchmark, in hundredths of operations per second.
    pub fn store_cpu_benchmark(&mut self, ops_centi: i32)
        ensures
            final(self).spec_cpu_benchmark() == ops_centi,
            final(self).spec_gpu_benchmark() == old(self).spec_gpu_benchmark(),
            final(self).spec_current_load() == old(self).spec_current_load(),
            final(self).spec_gpu_available() == old(self).spec_gpu_available(),
            final(self).spec_metrics() == old(self).spec_metrics(),
            forall|op: GpuOperation| #[trigger] final(self).history(op) == old(self).history(op),
    {
        self.cpu_benchmark = ops_centi;
    }

    /// Stores the GPU benchmark, in hundredths of operations per second.
    pub fn store_gpu_benchmark(&mut self, ops_centi: i32)
        ensures
            final(self).spec_gpu_benchmark() == ops_centi,
            final(self).spec_cpu_benchmark() == old(self).spec_cpu_benchmark(),
            final(self).spec_current_load() == old(self).spec_current_load(),
            final(self).spec_gpu_available() == old(self).spec_gpu_available(),
            final(self).spec_metrics() == old(self).spec_metrics(),
            forall|op: GpuOperation| #[trigger] final(self).history(op) == old(self).history(op),
    {
        self.gpu_benchmark = ops_centi;
    }

    /// The availability and load checks that precede any scoring: the GPU
    /// must be available, its load at most 90 %, and at most 70 % for an
    /// operation critical to the UI.
    pub fn load_admits(&self, is_ui_critical: bool) -> (r: bool)
        ensures
            r == (self.spec_gpu_available() && self.spec_current_load() <= 900 && !(is_ui_critical
                && self.spec_current_load() > 700)),
    {
        if !self.gpu_available {
            return false;
        }
        if self.current_load > 900 {
            return false;
        }
        if is_ui_critical && self.current_load > 700 {
            return false;
        }
        true
    }

    /// Records a decision for `op`; only the newest 100 are kept.
    pub fn record_decision(&mut self, op: GpuOperation, used_gpu: bool)
        ensures
            final(self).history(op) == history_after(old(self).history(op), used_gpu),
            forall|o: GpuOperation| o != op ==> #[trigger] final(self).history(o) == old(self).history(o),
            final(self).spec_cpu_benchmark() == old(self).spec_cpu_benchmark(),
            final(self).spec_gpu_benchmark() == old(self).spec_gpu_benchmark(),
            final(self).spec_current_load() == old(self).spec_current_load(),
            final(self).spec_gpu_available() == old(self).spec_gpu_available(),
            final(self).spec_metrics() == old(self).spec_metrics(),
            old(self).history(op).len() <= history_window() ==> final(self).history(op).len()
                <= history_window(),
    {
        match op {
            GpuOperation::ThumbnailGeneration => push_bounded(&mut self.thumbnail_history, used_gpu),
            GpuOperation::MipGeneration => push_bounded(&mut self.mip_history, used_gpu),
            GpuOperation::ImageProcessing => push_bounded(&mut self.processing_history, used_gpu),
            GpuOperation::ImageExport => push_bounded(&mut self.export_history, used_gpu),
        }
    }

    /// Decision statistics for `op`: (decisions that used the GPU, all
    /// decisions) over the remembered history, or `None` when no decision
    /// has been recorded since creation or the last reset.
    pub fn get_decision_stats(&self, op: GpuOperation) -> (r: Option<(usize, usize)>)
        ensures
            self.history(op).len() == 0 ==> r is None,
            self.history(op).len() > 0 ==> r == Some(
                (count_true(self.history(op)) as usize, self.history(op).len() as usize),
            ),
    {
        let h = match op {
            GpuOperation::ThumbnailGeneration => &self.thumbnail_history,
            GpuOperation::MipGeneration => &self.mip_history,
            GpuOperation::ImageProcessing => &self.processing_history,
            GpuOperation::ImageExport => &self.export_history,
        };
        if h.len() == 0 {
            return None;
        }
        let mut count: usize = 0;
        let mut i: usize = 0;
        while i < h.len()
            invariant
                i <= h@.len(),
                count == count_true(h@.subrange(0, i as int)),
                count <= i,
            decreases h.len() - i,
        {
            proof {
                assert(h@.subrange(0, i + 1).drop_last() =~= h@.subrange(0, i as int));
            }
            if h[i] {
                count = count + 1;
            }
            i = i + 1;
        }
        proof {
            assert(h@.subrange(0, h@.len() as int) =~= h@);
        }
        Some((count, h.len()))
    }

    /// Restores the default benchmarks and zero load and forgets every
    /// decision; GPU availability and the metrics are kept.
    pub fn reset(&mut self)
        ensures
            final(self).spec_cpu_benchmark() == default_cpu_benchmark(),
            final(self).spec_gpu_benchmark() == default_gpu_benchmark(),
            final(self).spec_current_load() == 0,
            final(self).spec_gpu_available() == old(self).spec_gpu_available(),
            final(self).spec_metrics() == old(self).spec_metrics(),
            forall|op: GpuOperation| #[trigger] final(self).history(op).len() == 0,
    {
        self.cpu_benchmark = 10000;
        self.gpu_benchmark = 20000;
        self.current_load = 0;
        self.thumbnail_history.clear();
        self.mip_history.clear();
        self.processing_history.clear();
        self.export_history.clear();
    }
}

/// Appends `b`, dropping the oldest entry once more than the window is held.
fn push_bounded(h: &mut Vec<bool>, b: bool)
    ensures
        final(h)@ == history_after(old(h)@, b),
{
    h.push(b);
    if h.len() > 100 {
        h.remove(0);
    }
}

/// The GPU share of a decision history never exceeds its length.
pub proof fn lemma_count_true_bounded(h: Seq<bool>)
    ensures
        count_true(h) <= h.len(),
    decreases h.len(),
{
    if h.len() > 0 {
        lemma_count_true_bounded(h.drop_last());
    }
}

} // verus!
