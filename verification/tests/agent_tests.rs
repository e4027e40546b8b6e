use monitor_system_ops::config::{default_config_text, Config};
use monitor_system_ops::monitor::{ProbeReadings, ResourceMonitor};
use monitor_system_ops::notification::NotificationSystem;
use monitor_system_ops::orchestrator::run_tick;
use monitor_system_ops::security::SecurityManager;
use monitor_system_ops::service_manager::{
    ServiceAction, ServiceState, WindowsServiceManager,
};
use monitor_system_ops::settings::Theme;
use monitor_system_ops::shared_state::SharedLatestState;
use monitor_system_ops::storage::Storage;

#[test]
fn latest_is_not_found_before_the_first_tick() {
    let shared = SharedLatestState::new();
    assert!(shared.latest().is_none());
}

#[test]
fn latest_sees_the_published_snapshot_whole() {
    let shared = SharedLatestState::new();
    let mut monitor = ResourceMonitor::new();
    let m = monitor.collect_metrics(&high_cpu_readings());
    shared.publish(m);
    assert_eq!(shared.latest(), Some(m));
}

fn high_cpu_readings() -> ProbeReadings {
    ProbeReadings {
        cpu_tenths: 950,
        memory_used: 1,
        memory_total: 2,
        memory_percent_tenths: 500,
        disk_used: 3,
        disk_total: 4,
        disk_percent_tenths: 100,
        network_rx_total: 1000,
        network_tx_total: 2000,
        process_count: 5,
    }
}

#[test]
fn one_tick_collects_detects_stores_and_publishes() {
    let mut monitor = ResourceMonitor::new();
    let mut storage = Storage::new();
    let shared = SharedLatestState::new();
    let t = run_tick(&mut monitor, &mut storage, &shared, &high_cpu_readings(), 10);
    assert_eq!(t.anomalies, vec!["High CPU usage: 95.0%".to_string()]);
    assert_eq!(t.snapshot.cpu_usage, 950);
    assert_eq!((t.snapshot.network_rx, t.snapshot.network_tx), (0, 0));
    assert_eq!(storage.load_metrics(), vec![t.snapshot]);
    assert_eq!(shared.latest(), Some(t.snapshot));
}

#[test]
fn ticks_respect_the_retention_window() {
    let mut monitor = ResourceMonitor::new();
    let mut storage = Storage::new();
    let shared = SharedLatestState::new();
    for _ in 0..5 {
        run_tick(&mut monitor, &mut storage, &shared, &high_cpu_readings(), 3);
    }
    assert_eq!(storage.load_metrics().len(), 3);
}

#[test]
fn status_on_a_missing_registration_reports_not_installed() {
    let report = WindowsServiceManager::status_report(None);
    assert_eq!(report.state, ServiceState::NotInstalled);
    assert_eq!(report.pid, None);
}

#[test]
fn status_maps_the_raw_state_codes() {
    assert_eq!(
        WindowsServiceManager::status_report(Some((1, None))).state,
        ServiceState::Stopped
    );
    assert_eq!(
        WindowsServiceManager::status_report(Some((2, None))).state,
        ServiceState::StartPending
    );
    assert_eq!(
        WindowsServiceManager::status_report(Some((3, None))).state,
        ServiceState::StopPending
    );
    let running = WindowsServiceManager::status_report(Some((4, Some(4242))));
    assert_eq!(running.state, ServiceState::Running);
    assert_eq!(running.pid, Some(4242));
}

#[test]
fn uninstall_stops_and_waits_unless_already_stopped() {
    assert_eq!(
        WindowsServiceManager::uninstall_plan(ServiceState::Running),
        vec![ServiceAction::Stop, ServiceAction::WaitSecs(5), ServiceAction::Delete]
    );
    assert_eq!(
        WindowsServiceManager::uninstall_plan(ServiceState::Stopped),
        vec![ServiceAction::Delete]
    );
}

#[test]
fn restart_is_stop_wait_start() {
    assert_eq!(
        WindowsServiceManager::restart_plan(),
        vec![ServiceAction::Stop, ServiceAction::WaitSecs(2), ServiceAction::Start]
    );
}

#[test]
fn install_request_carries_the_fixed_registration() {
    let r = WindowsServiceManager::install_request();
    assert_eq!(r.name, "MonitorSystemOPs");
    assert_eq!(r.display_name, "System Operations Monitor");
    assert_eq!(r.description, "Monitors system resources and provides operational insights");
    assert_eq!(r.launch_argument, "--service");
    assert_eq!(r.account_name, "NT AUTHORITY\\LocalService");
    assert!(r.auto_start);
}

#[test]
fn notifications_carry_level_message_and_service() {
    let ns = NotificationSystem::new();
    let start = ns.start_notification();
    assert_eq!(start.level, "INFO");
    assert_eq!(start.message, "Monitoring service started");
    assert_eq!(start.service, "MonitorSystemOPs");
    let stop = ns.stop_notification();
    assert_eq!(stop.message, "Monitoring service stopped");
    let err = ns.error_notification("disk on fire");
    assert_eq!(err.level, "ERROR");
    assert_eq!(err.message, "Error: disk on fire");
}

#[test]
fn anomaly_notification_joins_warnings_and_skips_empty() {
    let ns = NotificationSystem::new();
    assert!(ns.anomaly_notification(&Vec::new()).is_none());
    let n = ns
        .anomaly_notification(&vec!["one".to_string(), "two".to_string()])
        .unwrap();
    assert_eq!(n.level, "WARNING");
    assert_eq!(n.message, "Anomalies detected: one; two");
}

#[test]
fn config_backup_encodes_and_restores_the_text() {
    let sm = SecurityManager::new();
    let text = "[monitoring]\ninterval_seconds = 5\n";
    let encoded = sm.encode_backup(text);
    assert_eq!(
        encoded,
        "W21vbml0b3JpbmddCmludGVydmFsX3NlY29uZHMgPSA1Cg=="
    );
    assert_eq!(sm.decode_backup(&encoded), Some(text.to_string()));
}

#[test]
fn a_garbled_backup_does_not_restore() {
    let sm = SecurityManager::new();
    assert_eq!(sm.decode_backup("!!!not base64!!!"), None);
}

#[test]
fn default_config_has_the_built_in_values() {
    let c = Config::default();
    assert_eq!(c.monitoring.interval_seconds, 5);
    assert_eq!(c.storage.max_records, 1000);
    assert_eq!(c.web.host, "127.0.0.1");
    assert_eq!(c.web.port, 8080);
}

#[test]
fn default_config_text_matches_the_defaults() {
    assert_eq!(
        default_config_text(),
        "[monitoring]\ninterval_seconds = 5\n\n[storage]\nmax_records = 1000\n\n[web]\nhost = \"127.0.0.1\"\nport = 8080"
    );
}

#[test]
fn both_themes_are_offered_in_order() {
    assert_eq!(Theme::all(), [Theme::Light, Theme::Dark]);
}

#[test]
fn the_admin_probe_reply_is_read_case_insensitively() {
    let sm = SecurityManager::new();
    assert!(sm.is_admin_reply(" True \r\n"));
    assert!(sm.is_admin_reply("TRUE"));
    assert!(!sm.is_admin_reply("False"));
    assert!(!sm.is_admin_reply(""));
}
