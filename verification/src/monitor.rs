//! Metric collection: the per-tick snapshot, parsing of probe output,
//! cumulative network counter deltas, and threshold anomaly detection.
//!
//! Utilization percentages are carried in tenths of a percent, so 95.0%
//! is the value 950; probe readings are quantized to that grid when
//! parsed.

use vstd::prelude::*;

use crate::numfmt::{
    all_digit_chars, digits_value, parse_u64_range, spec_digit_val, spec_tenths_chars,
    valid_u64_digits, format_tenths,
};
use crate::textscan::{
    find_from, find_in_str, lemma_find_from_in_range, split_char, split_ranges, trim_in_str,
    trimmed,
};

verus! {

/// A metric's usage is anomalous strictly above 90.0%.
pub const ANOMALY_THRESHOLD_TENTHS: u64 = 900;

/// One tick's resource readings. Immutable once created; percent fields
/// are tenths of a percent; the network fields hold the bytes received
/// and sent since the previous tick (0 on the first tick or after a
/// counter reset).
#[derive(Clone, Copy, PartialEq, Eq, Structural, Debug)]
pub struct SystemMetrics {
    pub timestamp: u64,
    pub cpu_usage: u64,
    pub memory_used: u64,
    pub memory_total: u64,
    pub memory_usage_percent: u64,
    pub disk_used: u64,
    pub disk_total: u64,
    pub disk_usage_percent: u64,
    pub network_rx: u64,
    pub network_tx: u64,
    pub processes_count: u64,
}

/// The raw values one probe round reports: best-effort readings, already
/// degraded to 0 where a probe failed. The network counters are the host's
/// cumulative totals, not deltas.
#[derive(Clone, Copy, PartialEq, Eq, Structural, Debug)]
pub struct ProbeReadings {
    pub cpu_tenths: u64,
    pub memory_used: u64,
    pub memory_total: u64,
    pub memory_percent_tenths: u64,
    pub disk_used: u64,
    pub disk_total: u64,
    pub disk_percent_tenths: u64,
    pub network_rx_total: u64,
    pub network_tx_total: u64,
    pub process_count: u64,
}

/// Tracks the previous tick's cumulative network counters so that each
/// snapshot can carry per-tick deltas.
pub struct ResourceMonitor {
    last_network_stats: Option<(u64, u64)>,
}

/// Relies on `chrono::Utc::now` for the instant a snapshot is captured;
/// nothing is assumed about the clock's value.
#[verifier::external_body]
fn now_timestamp_millis() -> u64 {
    chrono::Utc::now().timestamp_millis() as u64
}

impl ResourceMonitor {
    /// The previous tick's cumulative network counters, if a tick has
    /// completed since the process started.
    pub closed spec fn baseline(&self) -> Option<(u64, u64)> {
        self.last_network_stats
    }

    /// A fresh monitor: no network baseline yet, so the first tick's
    /// deltas are 0.
    pub fn new() -> (r: Self)
        ensures
            r.baseline() is None,
    {
        Self { last_network_stats: None }
    }

    /// One tick's network delta: the increase of each cumulative counter
    /// over the stored baseline, saturating to 0 when a counter moved
    /// backwards (adapter reset), and 0 when no baseline exists (first
    /// tick). Stores the given totals as the new baseline.
    pub fn network_deltas(&mut self, rx: u64, tx: u64) -> (d: (u64, u64))
        ensures
            old(self).baseline() is None ==> d == (0u64, 0u64),
            old(self).baseline() matches Some(p) ==> {
                &&& d.0 == if p.0 <= rx {
                    rx - p.0
                } else {
                    0
                }
                &&& d.1 == if p.1 <= tx {
                    tx - p.1
                } else {
                    0
                }
            },
            final(self).baseline() == Some((rx, tx)),
    {
        let d = match self.last_network_stats {
            Some((last_rx, last_tx)) => {
                let drx = if last_rx <= rx {
                    rx - last_rx
                } else {
                    0
                };
                let dtx = if last_tx <= tx {
                    tx - last_tx
                } else {
                    0
                };
                (drx, dtx)
            },
            None => (0u64, 0u64),
        };
        self.last_network_stats = Some((rx, tx));
        d
    }

    /// Assembles one tick's snapshot from the probe readings: every field
    /// is taken as read, the network fields become deltas against the
    /// stored baseline, and the timestamp is the clock's current value.
    /// Never fails; a failed probe already reads as 0.
    pub fn collect_metrics(&mut self, readings: &ProbeReadings) -> (m: SystemMetrics)
        ensures
            m.cpu_usage == readings.cpu_tenths,
            m.memory_used == readings.memory_used,
            m.memory_total == readings.memory_total,
            m.memory_usage_percent == readings.memory_percent_tenths,
            m.disk_used == readings.disk_used,
            m.disk_total == readings.disk_total,
            m.disk_usage_percent == readings.disk_percent_tenths,
            m.processes_count == readings.process_count,
            old(self).baseline() is None ==> m.network_rx == 0 && m.network_tx == 0,
            old(self).baseline() matches Some(p) ==> {
                &&& m.network_rx == if p.0 <= readings.network_rx_total {
                    readings.network_rx_total - p.0
                } else {
                    0
                }
                &&& m.network_tx == if p.1 <= readings.network_tx_total {
                    readings.network_tx_total - p.1
                } else {
                    0
                }
            },
            final(self).baseline() == Some((readings.network_rx_total, readings.network_tx_total)),
    {
        let timestamp = now_timestamp_millis();
        let (drx, dtx) = self.network_deltas(
            readings.network_rx_total,
            readings.network_tx_total,
        );
        SystemMetrics {
            timestamp,
            cpu_usage: readings.cpu_tenths,
            memory_used: readings.memory_used,
            memory_total: readings.memory_total,
            memory_usage_percent: readings.memory_percent_tenths,
            disk_used: readings.disk_used,
            disk_total: readings.disk_total,
            disk_usage_percent: readings.disk_percent_tenths,
            network_rx: drx,
            network_tx: dtx,
            processes_count: readings.process_count,
        }
    }

    /// The warnings a snapshot raises: one per metric strictly above the
    /// threshold, always in the order CPU, memory, disk; empty when
    /// nothing crosses. Stateless: repeated ticks above threshold repeat
    /// the warning.
    pub fn check_anomalies(&self, metrics: &SystemMetrics) -> (r: Vec<String>)
        ensures
            r.deep_view() == spec_anomalies(*metrics),
    {
        let mut anomalies: Vec<String> = Vec::new();
        if metrics.cpu_usage > ANOMALY_THRESHOLD_TENTHS {
            anomalies.push(cpu_warning(metrics.cpu_usage));
        }
        if metrics.memory_usage_percent > ANOMALY_THRESHOLD_TENTHS {
            anomalies.push(memory_warning(metrics.memory_usage_percent));
        }
        if metrics.disk_usage_percent > ANOMALY_THRESHOLD_TENTHS {
            anomalies.push(disk_warning(metrics.disk_usage_percent));
        }
        proof {
            assert(anomalies.deep_view() =~= spec_anomalies(*metrics));
        }
        anomalies
    }
}

/// The warning texts, over the fixed-point rendering of the reading.
pub open spec fn spec_cpu_warning(v: nat) -> Seq<char> {
    "High CPU usage: "@ + spec_tenths_chars(v) + "%"@
}

pub open spec fn spec_memory_warning(v: nat) -> Seq<char> {
    "High memory usage: "@ + spec_tenths_chars(v) + "%"@
}

pub open spec fn spec_disk_warning(v: nat) -> Seq<char> {
    "High disk usage: "@ + spec_tenths_chars(v) + "%"@
}

/// Exactly the threshold-crossing metrics' warnings, CPU first, then
/// memory, then disk.
pub open spec fn spec_anomalies(m: SystemMetrics) -> Seq<Seq<char>> {
    (if m.cpu_usage > ANOMALY_THRESHOLD_TENTHS {
        seq![spec_cpu_warning(m.cpu_usage as nat)]
    } else {
        Seq::<Seq<char>>::empty()
    }) + (if m.memory_usage_percent > ANOMALY_THRESHOLD_TENTHS {
        seq![spec_memory_warning(m.memory_usage_percent as nat)]
    } else {
        Seq::<Seq<char>>::empty()
    }) + (if m.disk_usage_percent > ANOMALY_THRESHOLD_TENTHS {
        seq![spec_disk_warning(m.disk_usage_percent as nat)]
    } else {
        Seq::<Seq<char>>::empty()
    })
}

/// Renders the CPU warning for a tenths-of-a-percent reading.
pub fn cpu_warning(v: u64) -> (r: String)
    ensures
        r@ == spec_cpu_warning(v as nat),
{
    let mut r = String::from_str("High CPU usage: ");
    r.append(format_tenths(v).as_str());
    proof {
        reveal_strlit("%");
    }
    r.append("%");
    r
}

/// Renders the memory warning for a tenths-of-a-percent reading.
pub fn memory_warning(v: u64) -> (r: String)
    ensures
        r@ == spec_memory_warning(v as nat),
{
    let mut r = String::from_str("High memory usage: ");
    r.append(format_tenths(v).as_str());
    proof {
        reveal_strlit("%");
    }
    r.append("%");
    r
}

/// Renders the disk warning for a tenths-of-a-percent reading.
pub fn disk_warning(v: u64) -> (r: String)
    ensures
        r@ == spec_disk_warning(v as nat),
{
    let mut r = String::from_str("High disk usage: ");
    r.append(format_tenths(v).as_str());
    proof {
        reveal_strlit("%");
    }
    r.append("%");
    r
}

/// The value of a digit segment, or 0 when the segment is not a valid
/// `u64` reading — a failed parse degrades to a zero reading.
pub open spec fn u64_or_zero(s: Seq<char>) -> u64 {
    if valid_u64_digits(s) {
        digits_value(s) as u64
    } else {
        0
    }
}

/// A decimal reading quantized to tenths: the integer part times 10 plus
/// the first fractional digit. `None` when the text is not `digits` or
/// `digits.digits`, or the value does not fit.
pub open spec fn spec_percent_tenths(s: Seq<char>) -> Option<u64> {
    match find_from(s, seq!['.'], 0) {
        None => if valid_u64_digits(s) && 10 * digits_value(s) <= u64::MAX {
            Some((10 * digits_value(s)) as u64)
        } else {
            None
        },
        Some(i) => {
            let ip = s.take(i);
            let fp = s.skip(i + 1);
            if valid_u64_digits(ip) && fp.len() > 0 && all_digit_chars(fp) && 10 * digits_value(ip)
                + spec_digit_val(fp[0]) <= u64::MAX {
                Some((10 * digits_value(ip) + spec_digit_val(fp[0])) as u64)
            } else {
                None
            }
        },
    }
}

pub open spec fn tenths_or_zero(s: Seq<char>) -> u64 {
    match spec_percent_tenths(s) {
        Some(v) => v,
        None => 0,
    }
}

/// Parses a decimal reading into tenths.
pub fn parse_percent_tenths(s: &str) -> (r: Option<u64>)
    ensures
        r == spec_percent_tenths(s@),
{
    let n = s.unicode_len();
    proof {
        reveal_strlit(".");
        assert("."@ =~= seq!['.']);
    }
    match find_in_str(s, ".", 0) {
        None => {
            proof {
                assert(s@.subrange(0, n as int) =~= s@);
            }
            match parse_u64_range(s, 0, n) {
                Some(v) => {
                    if v <= u64::MAX / 10 {
                        proof {
                            assert(10 * v <= u64::MAX) by (nonlinear_arith)
                                requires
                                    v <= u64::MAX / 10,
                            ;
                        }
                        Some(10 * v)
                    } else {
                        proof {
                            assert(10 * v > u64::MAX) by (nonlinear_arith)
                                requires
                                    v > u64::MAX / 10,
                            ;
                        }
                        None
                    }
                },
                None => None,
            }
        },
        Some(i) => {
            proof {
                lemma_find_from_in_range(s@, seq!['.'], 0, i as int);
                assert(s@.subrange(0, i as int) =~= s@.take(i as int));
            }
            let ip = parse_u64_range(s, 0, i);
            match ip {
                Some(v) => {
                    if i + 1 >= n {
                        proof {
                            assert(s@.skip(i as int + 1).len() == 0);
                        }
                        return None;
                    }
                    let mut k: usize = i + 1;
                    while k < n
                        invariant
                            i + 1 <= k <= n == s@.len(),
                            all_digit_chars(s@.subrange(i as int + 1, k as int)),
                            find_from(s@, seq!['.'], 0) == Some(i as int),
                        decreases n - k,
                    {
                        let c = s.get_char(k);
                        let d = crate::numfmt::is_digit_exec(c);
                        if !d {
                            proof {
                                let fp = s@.skip(i as int + 1);
                                assert(fp[k - i - 1] == s@[k as int]);
                                assert(!all_digit_chars(fp));
                            }
                            return None;
                        }
                        proof {
                            let p1 = s@.subrange(i as int + 1, k as int + 1);
                            assert(forall|j: int|
                                0 <= j < p1.len() ==> p1[j] == s@[i + 1 + j]);
                            assert(all_digit_chars(p1)) by {
                                let p0 = s@.subrange(i as int + 1, k as int);
                                assert(forall|j: int|
                                    0 <= j < p0.len() ==> p0[j] == s@[i + 1 + j]);
                            }
                        }
                        k = k + 1;
                    }
                    proof {
                        assert(s@.skip(i as int + 1) =~= s@.subrange(i as int + 1, n as int));
                    }
                    let f = s.get_char(i + 1);
                    let fv = crate::numfmt::digit_val_exec(f);
                    proof {
                        assert(s@.skip(i as int + 1)[0] == s@[i + 1]);
                    }
                    if v <= (u64::MAX - fv) / 10 {
                        proof {
                            assert(10 * v + fv <= u64::MAX) by (nonlinear_arith)
                                requires
                                    v <= (u64::MAX - fv) / 10,
                                    fv < 10,
                            ;
                        }
                        Some(10 * v + fv)
                    } else {
                        proof {
                            assert(10 * v + fv > u64::MAX) by (nonlinear_arith)
                                requires
                                    v > (u64::MAX - fv) / 10,
                                    fv < 10,
                            ;
                        }
                        None
                    }
                },
                None => None,
            }
        },
    }
}

/// The three-field probe reply `total used usage` as `(used, total,
/// usage_tenths)`; all zeros when the shape is wrong, a zero field where
/// a number does not parse.
pub open spec fn spec_probe_triple(s: Seq<char>) -> (u64, u64, u64) {
    let parts = split_char(trimmed(s), ' ');
    if parts.len() == 3 {
        (u64_or_zero(parts[1]), u64_or_zero(parts[0]), tenths_or_zero(parts[2]))
    } else {
        (0, 0, 0)
    }
}

/// Parses a memory or disk probe reply, `total used usage`, into
/// `(used, total, usage_tenths)`.
pub fn parse_probe_triple(s: &str) -> (r: (u64, u64, u64))
    ensures
        r == spec_probe_triple(s@),
{
    let (a, b) = trim_in_str(s);
    let t = s.substring_char(a, b);
    proof {
        assert(t@ == trimmed(s@));
    }
    let parts = split_ranges(t, ' ');
    if parts.len() != 3 {
        return (0, 0, 0);
    }
    let p0 = parts[0];
    let p1 = parts[1];
    let p2 = parts[2];
    let total = match parse_u64_range(t, p0.0, p0.1) {
        Some(v) => v,
        None => 0,
    };
    let used = match parse_u64_range(t, p1.0, p1.1) {
        Some(v) => v,
        None => 0,
    };
    let seg2 = t.substring_char(p2.0, p2.1);
    let usage = match parse_percent_tenths(seg2) {
        Some(v) => v,
        None => 0,
    };
    (used, total, usage)
}

/// The two-field network probe reply `rx tx` as cumulative totals; zeros
/// when the shape is wrong.
pub open spec fn spec_probe_pair(s: Seq<char>) -> (u64, u64) {
    let parts = split_char(trimmed(s), ' ');
    if parts.len() == 2 {
        (u64_or_zero(parts[0]), u64_or_zero(parts[1]))
    } else {
        (0, 0)
    }
}

/// Parses a network probe reply, `rx tx`.
pub fn parse_probe_pair(s: &str) -> (r: (u64, u64))
    ensures
        r == spec_probe_pair(s@),
{
    let (a, b) = trim_in_str(s);
    let t = s.substring_char(a, b);
    proof {
        assert(t@ == trimmed(s@));
    }
    let parts = split_ranges(t, ' ');
    if parts.len() != 2 {
        return (0, 0);
    }
    let p0 = parts[0];
    let p1 = parts[1];
    let rx = match parse_u64_range(t, p0.0, p0.1) {
        Some(v) => v,
        None => 0,
    };
    let tx = match parse_u64_range(t, p1.0, p1.1) {
        Some(v) => v,
        None => 0,
    };
    (rx, tx)
}

/// A single-number probe reply (the process count), 0 when it does not
/// parse.
pub open spec fn spec_probe_scalar(s: Seq<char>) -> u64 {
    u64_or_zero(trimmed(s))
}

/// Parses a count probe reply.
pub fn parse_probe_scalar(s: &str) -> (r: u64)
    ensures
        r == spec_probe_scalar(s@),
{
    let (a, b) = trim_in_str(s);
    match parse_u64_range(s, a, b) {
        Some(v) => v,
        None => 0,
    }
}

/// A percent probe reply (the CPU load), in tenths, 0 when it does not
/// parse.
pub open spec fn spec_probe_percent(s: Seq<char>) -> u64 {
    tenths_or_zero(trimmed(s))
}

/// Parses a CPU probe reply into tenths of a percent.
pub fn parse_probe_percent(s: &str) -> (r: u64)
    ensures
        r == spec_probe_percent(s@),
{
    let (a, b) = trim_in_str(s);
    let t = s.substring_char(a, b);
    proof {
        assert(t@ == trimmed(s@));
    }
    match parse_percent_tenths(t) {
        Some(v) => v,
        None => 0,
    }
}

} // verus!
