//! Counters of latency and throughput: how many orders were answered and how
//! long they took, and how often the codec and the network were used.

use vstd::prelude::*;

verus! {

/// The smaller of two numbers.
pub open spec fn min_of(a: u64, b: u64) -> u64 {
    if a <= b {
        a
    } else {
        b
    }
}

/// The larger of two numbers.
pub open spec fn max_of(a: u64, b: u64) -> u64 {
    if a >= b {
        a
    } else {
        b
    }
}

/// A sum that wraps around at 64 bits.
pub open spec fn wrapped_sum(a: u64, b: u64) -> u64 {
    ((a + b) % 0x1_0000_0000_0000_0000) as u64
}

/// The latency counters of the order flow. The count and the total wrap
/// around; the smallest latency starts at the largest number and the
/// largest at zero, so that the first order sets both.
#[derive(Debug, Clone, Copy, PartialEq, Eq)]
pub struct LatencyCounters {
    pub orders_processed: u64,
    pub total_latency_micros: u64,
    pub min_latency_micros: u64,
    pub max_latency_micros: u64,
}

impl LatencyCounters {
    /// The counters after one more order that took `latency_micros`.
    pub open spec fn recorded(self, latency_micros: u64) -> LatencyCounters {
        LatencyCounters {
            orders_processed: wrapped_sum(self.orders_processed, 1),
            total_latency_micros: wrapped_sum(self.total_latency_micros, latency_micros),
            min_latency_micros: min_of(self.min_latency_micros, latency_micros),
            max_latency_micros: max_of(self.max_latency_micros, latency_micros),
        }
    }

    /// The counters after a sequence of orders, in the order given.
    pub open spec fn recorded_all(self, latencies: Seq<u64>) -> LatencyCounters
        decreases latencies.len(),
    {
        if latencies.len() == 0 {
            self
        } else {
            self.recorded_all(latencies.drop_last()).recorded(latencies.last())
        }
    }

    /// The counters before any order.
    pub open spec fn initial() -> LatencyCounters {
        LatencyCounters {
            orders_processed: 0,
            total_latency_micros: 0,
            min_latency_micros: u64::MAX,
            max_latency_micros: 0,
        }
    }

    /// Fresh counters.
    pub fn new() -> (counters: LatencyCounters)
        ensures
            counters == LatencyCounters::initial(),
    {
        LatencyCounters {
            orders_processed: 0,
            total_latency_micros: 0,
            min_latency_micros: u64::MAX,
            max_latency_micros: 0,
        }
    }

    /// Counts one order that took `latency_micros`. The smallest latency never
    /// grows and the largest never shrinks.
    pub fn record(&mut self, latency_micros: u64)
        ensures
            *final(self) == old(self).recorded(latency_micros),
            final(self).min_latency_micros <= old(self).min_latency_micros,
            final(self).max_latency_micros >= old(self).max_latency_micros,
    {
        self.orders_processed = self.orders_processed.wrapping_add(1);
        self.total_latency_micros = self.total_latency_micros.wrapping_add(latency_micros);
        if latency_micros < self.min_latency_micros {
            self.min_latency_micros = latency_micros;
        }
        if latency_micros > self.max_latency_micros {
            self.max_latency_micros = latency_micros;
        }
    }

    /// Sets the counters back to their start.
    pub fn reset(&mut self)
        ensures
            *final(self) == LatencyCounters::initial(),
    {
        self.orders_processed = 0;
        self.total_latency_micros = 0;
        self.min_latency_micros = u64::MAX;
        self.max_latency_micros = 0;
    }
}

/// Whatever orders are counted, and in whatever order, the smallest latency
/// only decreases and the largest only increases; and once an order is
/// counted, both lie at or beyond its latency.
pub proof fn lemma_extremes_are_monotone(start: LatencyCounters, latencies: Seq<u64>)
    ensures
        start.recorded_all(latencies).min_latency_micros <= start.min_latency_micros,
        start.recorded_all(latencies).max_latency_micros >= start.max_latency_micros,
        forall|i: int|
            0 <= i < latencies.len() ==> start.recorded_all(latencies).min_latency_micros
                <= #[trigger] latencies[i] <= start.recorded_all(latencies).max_latency_micros,
    decreases latencies.len(),
{
    if latencies.len() > 0 {
        let before = latencies.drop_last();
        lemma_extremes_are_monotone(start, before);
        assert forall|i: int| 0 <= i < latencies.len() implies start.recorded_all(
            latencies,
        ).min_latency_micros <= #[trigger] latencies[i] <= start.recorded_all(
            latencies,
        ).max_latency_micros by {
            if i < before.len() {
                assert(before[i] == latencies[i]);
            }
        }
    }
}

/// How often the codec encoded and decoded, and the nanoseconds it took in
/// all. Counts and totals wrap around.
#[derive(Debug, Clone, Copy, PartialEq, Eq)]
pub struct CodecMetrics {
    pub encode_count: u64,
    pub decode_count: u64,
    pub encode_nanos_total: u64,
    pub decode_nanos_total: u64,
}

impl CodecMetrics {
    /// Counters at zero.
    pub fn new() -> (metrics: CodecMetrics)
        ensures
            metrics == (CodecMetrics {
                encode_count: 0,
                decode_count: 0,
                encode_nanos_total: 0,
                decode_nanos_total: 0,
            }),
    {
        CodecMetrics { encode_count: 0, decode_count: 0, encode_nanos_total: 0, decode_nanos_total: 0 }
    }

    /// Counts one encoding that took `nanos`.
    pub fn record_encode(&mut self, nanos: u64)
        ensures
            *final(self) == (CodecMetrics {
                encode_count: wrapped_sum(old(self).encode_count, 1),
                encode_nanos_total: wrapped_sum(old(self).encode_nanos_total, nanos),
                ..*old(self)
            }),
    {
        self.encode_count = self.encode_count.wrapping_add(1);
        self.encode_nanos_total = self.encode_nanos_total.wrapping_add(nanos);
    }

    /// Counts one decoding that took `nanos`.
    pub fn record_decode(&mut self, nanos: u64)
        ensures
            *final(self) == (CodecMetrics {
                decode_count: wrapped_sum(old(self).decode_count, 1),
                decode_nanos_total: wrapped_sum(old(self).decode_nanos_total, nanos),
                ..*old(self)
            }),
    {
        self.decode_count = self.decode_count.wrapping_add(1);
        self.decode_nanos_total = self.decode_nanos_total.wrapping_add(nanos);
    }
}

/// How often the network was read and written, and the nanoseconds it took
/// in all. Counts and totals wrap around.
#[derive(Debug, Clone, Copy, PartialEq, Eq)]
pub struct NetworkMetrics {
    pub read_count: u64,
    pub write_count: u64,
    pub read_nanos_total: u64,
    pub write_nanos_total: u64,
}

impl NetworkMetrics {
    /// Counters at zero.
    pub fn new() -> (metrics: NetworkMetrics)
        ensures
            metrics == (NetworkMetrics {
                read_count: 0,
                write_count: 0,
                read_nanos_total: 0,
                write_nanos_total: 0,
            }),
    {
        NetworkMetrics { read_count: 0, write_count: 0, read_nanos_total: 0, write_nanos_total: 0 }
    }

    /// Counts one read that took `nanos`.
    pub fn record_read(&mut self, nanos: u64)
        ensures
            *final(self) == (NetworkMetrics {
                read_count: wrapped_sum(old(self).read_count, 1),
                read_nanos_total: wrapped_sum(old(self).read_nanos_total, nanos),
                ..*old(self)
            }),
    {
        self.read_count = self.read_count.wrapping_add(1);
        self.read_nanos_total = self.read_nanos_total.wrapping_add(nanos);
    }

    /// Counts one write that took `nanos`.
    pub fn record_write(&mut self, nanos: u64)
        ensures
            *final(self) == (NetworkMetrics {
                write_count: wrapped_sum(old(self).write_count, 1),
                write_nanos_total: wrapped_sum(old(self).write_nanos_total, nanos),
                ..*old(self)
            }),
    {
        self.write_count = self.write_count.wrapping_add(1);
        self.write_nanos_total = self.write_nanos_total.wrapping_add(nanos);
    }
}

} // verus!
