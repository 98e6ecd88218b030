use vstd::prelude::*;

verus! {

/// What one request attempt observed.
#[derive(Debug, Clone, PartialEq)]
pub struct RequestMetrics {
    pub host: String,
    /// Microseconds from the start of the connect to the end of the read.
    pub response_time: u64,
    pub success: bool,
    /// Seconds since the Unix epoch when the attempt finished.
    pub timestamp: u64,
}

/// The outcome of a run: every recorded attempt and the settings echoed.
#[derive(Debug, Clone, PartialEq)]
pub struct LoadTestReport {
    pub metrics: Vec<RequestMetrics>,
    pub duration: u64,
    pub rps: u32,
    pub load_test_type: String,
}

/// The attempts recorded by one worker, or by several once merged. Entries
/// are only ever appended.
pub struct MetricsStore {
    entries: Vec<RequestMetrics>,
}

impl MetricsStore {
    pub closed spec fn view(&self) -> Seq<RequestMetrics> {
        self.entries@
    }

    /// An empty store.
    pub fn new() -> (r: MetricsStore)
        ensures
            r.view() == Seq::<RequestMetrics>::empty(),
    {
        MetricsStore { entries: Vec::new() }
    }

    /// Appends one attempt.
    pub fn record(&mut self, entry: RequestMetrics)
        ensures
            final(self).view() == old(self).view().push(entry),
    {
        self.entries.push(entry);
    }

    /// Appends all of `other`'s attempts after this store's own, in their
    /// order: none is lost and none repeated.
    pub fn absorb(&mut self, other: MetricsStore)
        ensures
            final(self).view() == old(self).view() + other.view(),
    {
        let mut rest = other.entries;
        self.entries.append(&mut rest);
    }

    /// The number of recorded attempts.
    pub fn len(&self) -> (r: usize)
        ensures
            r == self.view().len(),
    {
        self.entries.len()
    }

    /// Hands out the recorded attempts, consuming the store.
    pub fn drain(self) -> (r: Vec<RequestMetrics>)
        ensures
            r@ == self.view(),
    {
        self.entries
    }
}

} // verus!
