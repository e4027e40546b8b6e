use monitor_system_ops::monitor::SystemMetrics;
use monitor_system_ops::storage::{decode_record, encode_record, Storage};

fn snap(ts: u64) -> SystemMetrics {
    SystemMetrics {
        timestamp: ts,
        cpu_usage: 123,
        memory_used: 2048,
        memory_total: 4096,
        memory_usage_percent: 500,
        disk_used: 10,
        disk_total: 100,
        disk_usage_percent: 100,
        network_rx: 11,
        network_tx: 22,
        processes_count: 42,
    }
}

#[test]
fn record_encodes_as_space_separated_decimals() {
    let line = encode_record(&snap(7));
    assert_eq!(line, "7 123 2048 4096 500 10 100 100 11 22 42");
}

#[test]
fn record_round_trips_through_the_codec() {
    let m = snap(1234567890);
    assert_eq!(decode_record(&encode_record(&m)), Some(m));
}

#[test]
fn extreme_values_round_trip() {
    let mut m = snap(u64::MAX);
    m.network_rx = u64::MAX;
    m.cpu_usage = 0;
    assert_eq!(decode_record(&encode_record(&m)), Some(m));
}

#[test]
fn malformed_lines_decode_to_none() {
    assert_eq!(decode_record(""), None);
    assert_eq!(decode_record("not a record"), None);
    assert_eq!(decode_record("1 2 3"), None);
    assert_eq!(decode_record("1 2 3 4 5 6 7 8 9 10 x"), None);
    // a twelfth field is as malformed as a missing one
    assert_eq!(decode_record("1 2 3 4 5 6 7 8 9 10 11 12"), None);
    // a value beyond 64 bits does not parse
    assert_eq!(decode_record("18446744073709551616 2 3 4 5 6 7 8 9 10 11"), None);
}

#[test]
fn append_then_load_yields_the_same_snapshots_in_order() {
    let mut st = Storage::new();
    let s1 = snap(1);
    let s2 = snap(2);
    let s3 = snap(3);
    st.save_metrics(&s1);
    st.save_metrics(&s2);
    st.save_metrics(&s3);
    assert_eq!(st.load_metrics(), vec![s1, s2, s3]);
}

#[test]
fn retention_keeps_the_newest_records_oldest_first() {
    let mut st = Storage::new();
    st.save_metrics(&snap(1));
    st.save_metrics(&snap(2));
    st.save_metrics(&snap(3));
    st.cleanup_old_records(2);
    let records: Vec<u64> = st.load_metrics().iter().map(|m| m.timestamp).collect();
    assert_eq!(records, vec![2, 3]);
}

#[test]
fn retention_leaves_a_small_store_alone() {
    let mut st = Storage::new();
    st.save_metrics(&snap(1));
    st.save_metrics(&snap(2));
    st.cleanup_old_records(5);
    assert_eq!(st.load_metrics().len(), 2);
    st.cleanup_old_records(2);
    assert_eq!(st.load_metrics().len(), 2);
}

#[test]
fn a_malformed_line_between_valid_records_is_skipped() {
    let s1 = snap(100);
    let s2 = snap(200);
    let mut text = String::new();
    text.push_str(&encode_record(&s1));
    text.push('\n');
    text.push_str("### corrupt line ###\n");
    text.push_str(&encode_record(&s2));
    text.push('\n');
    let st = Storage::from_log(&text);
    assert_eq!(st.load_metrics(), vec![s1, s2]);
}

#[test]
fn a_partially_written_tail_does_not_invalidate_the_file() {
    let s1 = snap(100);
    let mut text = String::new();
    text.push_str(&encode_record(&s1));
    text.push('\n');
    text.push_str("7 123 20");
    let st = Storage::from_log(&text);
    assert_eq!(st.load_metrics(), vec![s1]);
}

#[test]
fn log_text_round_trips_through_the_file_image() {
    let mut st = Storage::new();
    st.save_metrics(&snap(5));
    st.save_metrics(&snap(6));
    let text = st.to_log();
    let st2 = Storage::from_log(&text);
    assert_eq!(st2.load_metrics(), st.load_metrics());
}

#[test]
fn empty_store_loads_nothing() {
    assert!(Storage::new().load_metrics().is_empty());
    assert_eq!(Storage::new().to_log(), "");
}
