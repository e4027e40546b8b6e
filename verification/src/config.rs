//! The agent's configuration: the tick interval, the retention cap, and
//! the query interface's bind address. Loading and parsing the
//! configuration file, and writing the generated default file, are the
//! hosting process's job; the default values and the default file text
//! are fixed here.

use vstd::prelude::*;

verus! {

/// The monitoring loop's settings.
pub struct MonitoringConfig {
    pub interval_seconds: u64,
}

/// The store's retention window.
pub struct StorageConfig {
    pub max_records: usize,
}

/// Where the query interface listens.
pub struct WebConfig {
    pub host: String,
    pub port: u16,
}

/// The whole configuration, loaded once at startup and passed into every
/// component.
pub struct Config {
    pub monitoring: MonitoringConfig,
    pub storage: StorageConfig,
    pub web: WebConfig,
}

impl Default for Config {
    /// The built-in defaults: a five-second tick, a thousand retained
    /// records, and the local query address.
    fn default() -> (r: Self)
        ensures
            r.monitoring.interval_seconds == 5,
            r.storage.max_records == 1000,
            r.web.host@ == "127.0.0.1"@,
            r.web.port == 8080,
    {
        Config {
            monitoring: MonitoringConfig { interval_seconds: 5 },
            storage: StorageConfig { max_records: 1000 },
            web: WebConfig { host: String::from_str("127.0.0.1"), port: 8080 },
        }
    }
}

/// The text of the generated default configuration file.
pub fn default_config_text() -> (r: String)
    ensures
        r@
            == "[monitoring]\ninterval_seconds = 5\n\n[storage]\nmax_records = 1000\n\n[web]\nhost = \"127.0.0.1\"\nport = 8080"@,
{
    String::from_str(
        "[monitoring]\ninterval_seconds = 5\n\n[storage]\nmax_records = 1000\n\n[web]\nhost = \"127.0.0.1\"\nport = 8080",
    )
}

} // verus!
