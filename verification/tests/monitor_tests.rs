use monitor_system_ops::monitor::{
    parse_probe_pair, parse_probe_percent, parse_probe_scalar, parse_probe_triple,
    ProbeReadings, ResourceMonitor, SystemMetrics,
};

fn readings(rx: u64, tx: u64) -> ProbeReadings {
    ProbeReadings {
        cpu_tenths: 100,
        memory_used: 2048,
        memory_total: 4096,
        memory_percent_tenths: 500,
        disk_used: 10,
        disk_total: 100,
        disk_percent_tenths: 100,
        network_rx_total: rx,
        network_tx_total: tx,
        process_count: 42,
    }
}

fn snapshot(cpu: u64, mem: u64, disk: u64) -> SystemMetrics {
    SystemMetrics {
        timestamp: 0,
        cpu_usage: cpu,
        memory_used: 0,
        memory_total: 0,
        memory_usage_percent: mem,
        disk_used: 0,
        disk_total: 0,
        disk_usage_percent: disk,
        network_rx: 0,
        network_tx: 0,
        processes_count: 0,
    }
}

#[test]
fn first_tick_delta_is_zero() {
    let mut m = ResourceMonitor::new();
    assert_eq!(m.network_deltas(1000, 700), (0, 0));
}

#[test]
fn delta_is_difference_when_counter_grows() {
    let mut m = ResourceMonitor::new();
    m.network_deltas(1000, 700);
    assert_eq!(m.network_deltas(1500, 900), (500, 200));
}

#[test]
fn delta_clamps_to_zero_on_counter_reset() {
    let mut m = ResourceMonitor::new();
    m.network_deltas(1000, 700);
    m.network_deltas(1500, 900);
    assert_eq!(m.network_deltas(1200, 100), (0, 0));
}

#[test]
fn network_samples_give_expected_delta_series() {
    let samples = [1000u64, 1500, 1200];
    let mut m = ResourceMonitor::new();
    let mut deltas = Vec::new();
    for s in samples {
        deltas.push(m.network_deltas(s, 0).0);
    }
    assert_eq!(deltas, vec![0, 500, 0]);
}

#[test]
fn collect_metrics_copies_readings_and_tracks_deltas() {
    let mut m = ResourceMonitor::new();
    let first = m.collect_metrics(&readings(1000, 700));
    assert_eq!(first.cpu_usage, 100);
    assert_eq!(first.memory_used, 2048);
    assert_eq!(first.memory_total, 4096);
    assert_eq!(first.memory_usage_percent, 500);
    assert_eq!(first.disk_used, 10);
    assert_eq!(first.disk_total, 100);
    assert_eq!(first.disk_usage_percent, 100);
    assert_eq!(first.processes_count, 42);
    assert_eq!((first.network_rx, first.network_tx), (0, 0));
    let second = m.collect_metrics(&readings(1400, 1700));
    assert_eq!((second.network_rx, second.network_tx), (400, 1000));
}

#[test]
fn high_cpu_yields_only_the_cpu_warning() {
    let m = ResourceMonitor::new();
    let warnings = m.check_anomalies(&snapshot(950, 500, 100));
    assert_eq!(warnings, vec!["High CPU usage: 95.0%".to_string()]);
}

#[test]
fn all_three_warnings_come_in_fixed_order() {
    let m = ResourceMonitor::new();
    let warnings = m.check_anomalies(&snapshot(911, 1000, 905));
    assert_eq!(
        warnings,
        vec![
            "High CPU usage: 91.1%".to_string(),
            "High memory usage: 100.0%".to_string(),
            "High disk usage: 90.5%".to_string(),
        ]
    );
}

#[test]
fn threshold_is_strict() {
    let m = ResourceMonitor::new();
    assert!(m.check_anomalies(&snapshot(900, 900, 900)).is_empty());
    assert_eq!(m.check_anomalies(&snapshot(901, 900, 900)).len(), 1);
}

#[test]
fn no_warnings_when_all_low() {
    let m = ResourceMonitor::new();
    assert!(m.check_anomalies(&snapshot(0, 0, 0)).is_empty());
}

#[test]
fn probe_triple_parses_total_used_usage() {
    assert_eq!(parse_probe_triple("  4096 2048 93.54321 \r\n"), (2048, 4096, 935));
}

#[test]
fn probe_triple_wrong_shape_degrades_to_zero() {
    assert_eq!(parse_probe_triple("4096 2048"), (0, 0, 0));
    assert_eq!(parse_probe_triple(""), (0, 0, 0));
    assert_eq!(parse_probe_triple("a b c d"), (0, 0, 0));
}

#[test]
fn probe_triple_bad_field_degrades_that_field() {
    assert_eq!(parse_probe_triple("x 2048 50.0"), (2048, 0, 500));
}

#[test]
fn probe_pair_parses_rx_tx() {
    assert_eq!(parse_probe_pair("123 456\r\n"), (123, 456));
    assert_eq!(parse_probe_pair("garbage"), (0, 0));
}

#[test]
fn probe_scalar_parses_count() {
    assert_eq!(parse_probe_scalar(" 288 \r\n"), 288);
    assert_eq!(parse_probe_scalar("not-a-number"), 0);
}

#[test]
fn probe_percent_parses_to_tenths() {
    assert_eq!(parse_probe_percent("12\r\n"), 120);
    assert_eq!(parse_probe_percent("12.75"), 127);
    assert_eq!(parse_probe_percent("0.0"), 0);
    assert_eq!(parse_probe_percent(""), 0);
    assert_eq!(parse_probe_percent("12."), 0);
    assert_eq!(parse_probe_percent("1e3"), 0);
}
