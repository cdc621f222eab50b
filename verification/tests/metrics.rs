use smt_core::metrics::{CodecMetrics, LatencyCounters, NetworkMetrics};

#[test]
fn fresh_counters_have_no_order() {
    let c = LatencyCounters::new();
    assert_eq!(
        c,
        LatencyCounters {
            orders_processed: 0,
            total_latency_micros: 0,
            min_latency_micros: u64::MAX,
            max_latency_micros: 0
        }
    );
}

#[test]
fn the_extremes_only_move_outwards() {
    let mut c = LatencyCounters::new();
    let mut last = c;
    for latency in [250u64, 90, 400, 90, 0, u64::MAX, 17] {
        c.record(latency);
        assert!(c.min_latency_micros <= last.min_latency_micros);
        assert!(c.max_latency_micros >= last.max_latency_micros);
        assert!(c.min_latency_micros <= latency && latency <= c.max_latency_micros);
        last = c;
    }
    assert_eq!(c.min_latency_micros, 0);
    assert_eq!(c.max_latency_micros, u64::MAX);
    assert_eq!(c.orders_processed, 7);
}

#[test]
fn counts_and_totals_add_up() {
    let mut c = LatencyCounters::new();
    c.record(250);
    c.record(90);
    c.record(400);
    assert_eq!(
        c,
        LatencyCounters {
            orders_processed: 3,
            total_latency_micros: 740,
            min_latency_micros: 90,
            max_latency_micros: 400
        }
    );
    c.reset();
    assert_eq!(c, LatencyCounters::new());
}

#[test]
fn counts_and_totals_wrap_around() {
    let mut c = LatencyCounters {
        orders_processed: u64::MAX,
        total_latency_micros: u64::MAX - 1,
        min_latency_micros: 5,
        max_latency_micros: 5,
    };
    c.record(3);
    assert_eq!(c.orders_processed, 0);
    assert_eq!(c.total_latency_micros, 1);
    assert_eq!(c.min_latency_micros, 3);
    assert_eq!(c.max_latency_micros, 5);
}

#[test]
fn codec_and_network_use_is_counted() {
    let mut codec = CodecMetrics::new();
    codec.record_encode(1500);
    codec.record_encode(500);
    codec.record_decode(700);
    assert_eq!(
        codec,
        CodecMetrics {
            encode_count: 2,
            decode_count: 1,
            encode_nanos_total: 2000,
            decode_nanos_total: 700
        }
    );
    let mut net = NetworkMetrics::new();
    net.record_read(10);
    net.record_write(20);
    net.record_write(u64::MAX);
    assert_eq!(
        net,
        NetworkMetrics {
            read_count: 1,
            write_count: 2,
            read_nanos_total: 10,
            write_nanos_total: 19
        }
    );
}
