//! One tick of the monitoring loop: collect a snapshot from the probe
//! readings, detect anomalies, append to the store, publish to the shared
//! slot, then enforce retention. The steps run strictly in that order;
//! retention deliberately follows publication, preserving the agent's
//! original ordering. Nothing in a tick fails: probe failures arrive as
//! zero readings, and the hosting process handles file mirroring.

use vstd::prelude::*;

use crate::monitor::{spec_anomalies, ProbeReadings, ResourceMonitor, SystemMetrics};
use crate::shared_state::SharedLatestState;
use crate::storage::{spec_encode_record, Storage};

verus! {

/// What one tick produced: the snapshot and its warnings, for the hosting
/// process to log and mirror.
pub struct TickOutcome {
    pub snapshot: SystemMetrics,
    pub anomalies: Vec<String>,
}

/// Runs one tick: collect, detect, append, publish, retain.
pub fn run_tick(
    monitor: &mut ResourceMonitor,
    storage: &mut Storage,
    shared: &SharedLatestState,
    readings: &ProbeReadings,
    max_records: usize,
) -> (t: TickOutcome)
    requires
        shared.wf(),
    ensures
        t.snapshot.cpu_usage == readings.cpu_tenths,
        t.snapshot.memory_used == readings.memory_used,
        t.snapshot.memory_total == readings.memory_total,
        t.snapshot.memory_usage_percent == readings.memory_percent_tenths,
        t.snapshot.disk_used == readings.disk_used,
        t.snapshot.disk_total == readings.disk_total,
        t.snapshot.disk_usage_percent == readings.disk_percent_tenths,
        t.snapshot.processes_count == readings.process_count,
        old(monitor).baseline() is None ==> t.snapshot.network_rx == 0 && t.snapshot.network_tx
            == 0,
        old(monitor).baseline() matches Some(p) ==> {
            &&& t.snapshot.network_rx == if p.0 <= readings.network_rx_total {
                readings.network_rx_total - p.0
            } else {
                0
            }
            &&& t.snapshot.network_tx == if p.1 <= readings.network_tx_total {
                readings.network_tx_total - p.1
            } else {
                0
            }
        },
        final(monitor).baseline() == Some(
            (readings.network_rx_total, readings.network_tx_total),
        ),
        t.anomalies.deep_view() == spec_anomalies(t.snapshot),
        ({
            let appended = old(storage).records().push(t.snapshot);
            if appended.len() > max_records {
                final(storage).records() =~= appended.skip(appended.len() - max_records)
            } else {
                &&& final(storage).records() =~= appended
                &&& final(storage).log() =~= old(storage).log().push(
                    spec_encode_record(t.snapshot),
                )
            }
        }),
{
    let snapshot = monitor.collect_metrics(readings);
    let anomalies = monitor.check_anomalies(&snapshot);
    storage.save_metrics(&snapshot);
    shared.publish(snapshot);
    storage.cleanup_old_records(max_records);
    TickOutcome { snapshot, anomalies }
}

} // verus!
