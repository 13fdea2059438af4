use chum::stats::percent_cap_reached;
use chum::{CapAction, ChumError, DataCap, Operation, OutputFormat, StatsCollector, WorkerInfo};

fn write(id: u64, size: u64) -> WorkerInfo {
    WorkerInfo { id, op: Operation::Write, size, ttfb: 2, rtt: 10 }
}

fn read(id: u64, size: u64) -> WorkerInfo {
    WorkerInfo { id, op: Operation::Read, size, ttfb: 4, rtt: 8 }
}

#[test]
fn tick_and_run_buckets() {
    let mut c = StatsCollector::new();
    for _ in 0..5 {
        c.absorb(write(1, 4096));
    }
    let t = c.tick_total(Operation::Write);
    assert_eq!((t.objs, t.data, t.ttfb, t.rtt), (5, 5 * 4096, 10, 50));
    assert_eq!(c.total(Operation::Write).data, 5 * 4096);

    c.start_tick();
    assert_eq!(c.tick_total(Operation::Write).objs, 0);
    c.absorb(write(2, 100));
    assert_eq!(c.tick_total(Operation::Write).objs, 1);
    assert_eq!(c.total(Operation::Write).objs, 6);
    assert_eq!(c.total(Operation::Write).data, 5 * 4096 + 100);
    assert_eq!(c.written(), 5 * 4096 + 100);
}

#[test]
fn thread_buckets_in_encounter_order() {
    let mut c = StatsCollector::new();
    c.absorb(write(7, 1));
    c.absorb(read(3, 1));
    c.absorb(write(7, 1));
    c.absorb(write(3, 1));
    let ts = c.thread_totals();
    assert_eq!(ts.len(), 3);
    assert_eq!((ts[0].op, ts[0].id, ts[0].stat.objs), (Operation::Write, 7, 2));
    assert_eq!((ts[1].op, ts[1].id, ts[1].stat.objs), (Operation::Read, 3, 1));
    assert_eq!((ts[2].op, ts[2].id, ts[2].stat.objs), (Operation::Write, 3, 1));
}

#[test]
fn failures_count_as_errors() {
    let mut c = StatsCollector::new();
    c.record(Err(ChumError::new("boom")), 9);
    c.record(Ok(read(1, 10)), 9);
    assert_eq!(c.tick_total(Operation::Error).objs, 1);
    assert_eq!(c.tick_total(Operation::Error).data, 0);
    assert_eq!(c.written(), 0);
}

#[test]
fn verbose_report_empties_thread_buckets() {
    let mut c = StatsCollector::new();
    c.absorb(write(1, 2048));
    c.absorb(write(1, 2048));
    c.absorb(write(2, 1024));
    c.record(Err(ChumError::new("boom")), 5);
    let lines = c.human_report(true, 2);
    assert_eq!(
        lines,
        vec![
            "---",
            "Thread (write)",
            "\t0: 2 ops, 4096 bytes, 2 ms avg ttfb, 10 ms avg rtt",
            "\t1: 1 ops, 1024 bytes, 2 ms avg ttfb, 10 ms avg rtt",
            "Thread (error)",
            "\t0: 1 errors",
            "Tick (read) no activity this tick",
            "Tick (write)\t3 ops, 5120 bytes, 2 ms avg ttfb, 10 ms avg rtt",
            "Tick (error)\t1 errors",
            "Total (read) no activity this tick",
            "Total (write)\t1 ops/s, 2560 bytes/s, 2 ms avg ttfb, 10 ms avg rtt",
            "Total (error)\t1 errors",
        ]
    );
    assert!(c.thread_totals().is_empty());
    let plain = c.human_report(false, 0);
    assert_eq!(plain.len(), 7);
}

#[test]
fn tabular_line_has_twelve_fields() {
    let mut c = StatsCollector::new();
    assert_eq!(c.tabular_line(1600000000), "1600000000 0 0 0 0 0 0 0 0 0 0 0");
    c.absorb(read(1, 30));
    c.absorb(write(1, 70));
    c.record(Err(ChumError::new("boom")), 1);
    let line = c.tabular_line(42);
    assert_eq!(line, "42 1 1 30 70 4 2 8 10 1 30 70");
    assert_eq!(line.split(' ').count(), 12);
    c.start_tick();
    assert_eq!(c.tabular_line(43), "43 0 0 0 0 0 0 0 0 0 30 70");
}

#[test]
fn logical_cap_stops_when_reached() {
    let mut c = StatsCollector::new();
    let cap = Some(DataCap::LogicalData(10000));
    c.absorb(write(1, 4096));
    c.absorb(read(1, 100000));
    assert_eq!(c.evaluate_cap(cap, "s3"), CapAction::Continue);
    c.absorb(write(1, 4096));
    assert_eq!(c.evaluate_cap(cap, "s3"), CapAction::Continue);
    c.absorb(write(1, 1808));
    assert_eq!(c.written(), 10000);
    assert_eq!(c.evaluate_cap(cap, "s3"), CapAction::Stop);
    assert_eq!(c.evaluate_cap(None, "fs"), CapAction::Continue);
}

#[test]
fn percentage_cap_only_for_fs() {
    let c = StatsCollector::new();
    let cap = Some(DataCap::Percentage(80));
    assert_eq!(c.evaluate_cap(cap, "fs"), CapAction::QueryUsage(80));
    assert_eq!(c.evaluate_cap(cap, "webdav"), CapAction::Continue);
    assert!(percent_cap_reached(1000, 200, 80));
    assert!(!percent_cap_reached(1000, 201, 80));
    assert!(!percent_cap_reached(0, 0, 1));
    assert!(percent_cap_reached(u64::MAX, 0, 100));
}

#[test]
fn output_format_flags() {
    assert_eq!(OutputFormat::parse("h").unwrap(), OutputFormat::Human);
    assert_eq!("v".parse::<OutputFormat>().unwrap(), OutputFormat::HumanVerbose);
    assert_eq!(OutputFormat::parse("t").unwrap(), OutputFormat::Tabular);
    assert_eq!(
        OutputFormat::parse("x").unwrap_err(),
        ChumError::new("invalid operation requested")
    );
}
