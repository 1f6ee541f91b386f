//! Running statistics of a converter: byte and record counters, stage
//! timings, and buffer high-water marks. Counters only ever grow (they
//! saturate rather than wrap), so every reading is monotonic.
use vstd::prelude::*;

verus! {

/// Performance statistics for the converter. All counters are cumulative.
#[derive(Debug, Clone, Copy)]
pub struct Stats {
    pub bytes_in: u64,
    pub bytes_out: u64,
    pub chunks_in: u64,
    pub records_processed: u64,
    pub parse_time_ns: u64,
    pub transform_time_ns: u64,
    pub write_time_ns: u64,
    pub max_buffer_size: usize,
    pub current_partial_size: usize,
}

impl Stats {
    /// All cumulative counters of `post` are at least those of `pre`.
    /// This is the monotonicity every recording method preserves.
    pub open spec fn monotonic_from(pre: Stats, post: Stats) -> bool {
        &&& post.bytes_in >= pre.bytes_in
        &&& post.bytes_out >= pre.bytes_out
        &&& post.chunks_in >= pre.chunks_in
        &&& post.records_processed >= pre.records_processed
        &&& post.parse_time_ns >= pre.parse_time_ns
        &&& post.transform_time_ns >= pre.transform_time_ns
        &&& post.write_time_ns >= pre.write_time_ns
        &&& post.max_buffer_size >= pre.max_buffer_size
    }

    /// Monotonicity is transitive: growth over two steps is growth overall.
    pub proof fn lemma_monotonic_chain(a: Stats, b: Stats, c: Stats)
        requires
            Stats::monotonic_from(a, b),
            Stats::monotonic_from(b, c),
        ensures
            Stats::monotonic_from(a, c),
    {
    }

    pub fn new_default() -> (r: Stats)
        ensures
            r.bytes_in == 0 && r.bytes_out == 0 && r.chunks_in == 0 && r.records_processed == 0,
            r.parse_time_ns == 0 && r.transform_time_ns == 0 && r.write_time_ns == 0,
            r.max_buffer_size == 0 && r.current_partial_size == 0,
    {
        Stats {
            bytes_in: 0,
            bytes_out: 0,
            chunks_in: 0,
            records_processed: 0,
            parse_time_ns: 0,
            transform_time_ns: 0,
            write_time_ns: 0,
            max_buffer_size: 0,
            current_partial_size: 0,
        }
    }

    pub fn bytes_in(&self) -> (r: u64)
        ensures
            r == self.bytes_in,
    {
        self.bytes_in
    }

    pub fn bytes_out(&self) -> (r: u64)
        ensures
            r == self.bytes_out,
    {
        self.bytes_out
    }

    pub fn chunks_in(&self) -> (r: u64)
        ensures
            r == self.chunks_in,
    {
        self.chunks_in
    }

    pub fn records_processed(&self) -> (r: u64)
        ensures
            r == self.records_processed,
    {
        self.records_processed
    }

    pub fn parse_time_ns(&self) -> (r: u64)
        ensures
            r == self.parse_time_ns,
    {
        self.parse_time_ns
    }

    pub fn transform_time_ns(&self) -> (r: u64)
        ensures
            r == self.transform_time_ns,
    {
        self.transform_time_ns
    }

    pub fn write_time_ns(&self) -> (r: u64)
        ensures
            r == self.write_time_ns,
    {
        self.write_time_ns
    }

    pub fn max_buffer_size(&self) -> (r: usize)
        ensures
            r == self.max_buffer_size,
    {
        self.max_buffer_size
    }

    pub fn current_partial_size(&self) -> (r: usize)
        ensures
            r == self.current_partial_size,
    {
        self.current_partial_size
    }

    /// Count an input chunk: `bytes_in` grows by its size, `chunks_in` by one.
    pub fn record_chunk(&mut self, bytes: usize)
        ensures
            Stats::monotonic_from(*old(self), *final(self)),
            final(self).bytes_in == old(self).bytes_in as int + bytes as int
                || final(self).bytes_in == u64::MAX,
            final(self).chunks_in >= old(self).chunks_in,
            final(self).bytes_out == old(self).bytes_out,
            final(self).records_processed == old(self).records_processed,
            final(self).current_partial_size == old(self).current_partial_size,
            final(self).max_buffer_size == old(self).max_buffer_size,
    {
        self.bytes_in = self.bytes_in.saturating_add(bytes as u64);
        self.chunks_in = self.chunks_in.saturating_add(1);
    }

    /// Count produced output bytes.
    pub fn record_output(&mut self, bytes: usize)
        ensures
            Stats::monotonic_from(*old(self), *final(self)),
            final(self).bytes_out == old(self).bytes_out as int + bytes as int
                || final(self).bytes_out == u64::MAX,
            final(self).bytes_in == old(self).bytes_in,
            final(self).records_processed == old(self).records_processed,
    {
        self.bytes_out = self.bytes_out.saturating_add(bytes as u64);
    }

    /// Count records that moved through the pipeline.
    pub fn record_records(&mut self, count: usize)
        ensures
            Stats::monotonic_from(*old(self), *final(self)),
            final(self).records_processed == old(self).records_processed as int + count as int
                || final(self).records_processed == u64::MAX,
            final(self).bytes_in == old(self).bytes_in,
            final(self).bytes_out == old(self).bytes_out,
    {
        self.records_processed = self.records_processed.saturating_add(count as u64);
    }

    /// Add time spent parsing, in nanoseconds.
    pub fn record_parse_time(&mut self, nanos: u64)
        ensures
            Stats::monotonic_from(*old(self), *final(self)),
            final(self).records_processed == old(self).records_processed,
    {
        self.parse_time_ns = self.parse_time_ns.saturating_add(nanos);
    }

    /// Add time spent in the transform engine, in nanoseconds.
    pub fn record_transform_time(&mut self, nanos: u64)
        ensures
            Stats::monotonic_from(*old(self), *final(self)),
            final(self).records_processed == old(self).records_processed,
    {
        self.transform_time_ns = self.transform_time_ns.saturating_add(nanos);
    }

    /// Add time spent writing, in nanoseconds.
    pub fn record_write_time(&mut self, nanos: u64)
        ensures
            Stats::monotonic_from(*old(self), *final(self)),
            final(self).records_processed == old(self).records_processed,
    {
        self.write_time_ns = self.write_time_ns.saturating_add(nanos);
    }

    /// Record the current partial-buffer size and raise the high-water mark.
    pub fn update_buffer_size(&mut self, size: usize)
        ensures
            Stats::monotonic_from(*old(self), *final(self)),
            final(self).current_partial_size == size,
            final(self).max_buffer_size == if size > old(self).max_buffer_size {
                size as int
            } else {
                old(self).max_buffer_size as int
            },
            final(self).records_processed == old(self).records_processed,
    {
        self.current_partial_size = size;
        if size > self.max_buffer_size {
            self.max_buffer_size = size;
        }
    }
}

} // verus!
