//! The network and storage sections of the station's configuration file,
//! and the defaults the station falls back on for missing entries.

use vstd::prelude::*;

verus! {

/// NTP server used when the configuration names none.
pub open spec fn default_ntp_host() -> Seq<char> {
    "203.107.6.88"@
}

/// Interval, in samples, between cloud uploads when none is configured.
pub const DEFAULT_UPLOAD_INTERVAL: u64 = 5;

/// Interval, in written records, between flushes of the local data file
/// when none is configured.
pub const DEFAULT_FLUSH_INTERVAL: u64 = 5;

/// The `[network]` section.
pub struct NetworkConfig {
    /// Host pinged to decide whether the network is up.
    pub check_host: String,
    /// NTP server for the clock synchronisation at start-up.
    pub ntp_host: Option<String>,
}

/// The `[storage]` section.
pub struct StorageConfig {
    pub local_storage: Option<bool>,
    pub flush_interval: Option<u64>,
    pub cloud_storage: Option<bool>,
    pub upload_interval: Option<u64>,
}

impl NetworkConfig {
    /// The NTP server to synchronise with: the configured one, or the
    /// default server.
    pub fn ntp_host_or_default(&self) -> (host: String)
        ensures
            host@ == (match self.ntp_host {
                Some(h) => h@,
                None => default_ntp_host(),
            }),
            self.ntp_host is None ==> host@ == "203.107.6.88"@,
    {
        match &self.ntp_host {
            Some(h) => h.clone(),
            None => String::from_str("203.107.6.88"),
        }
    }
}

impl StorageConfig {
    /// Whether records are kept in a local file (off unless configured).
    pub fn local_storage_enabled(&self) -> (on: bool)
        ensures
            on == (self.local_storage == Some(true)),
    {
        match self.local_storage {
            Some(v) => v,
            None => false,
        }
    }

    /// Whether records are uploaded (off unless configured).
    pub fn cloud_storage_enabled(&self) -> (on: bool)
        ensures
            on == (self.cloud_storage == Some(true)),
    {
        match self.cloud_storage {
            Some(v) => v,
            None => false,
        }
    }

    /// Samples between uploads.
    pub fn upload_interval_or_default(&self) -> (n: u64)
        ensures
            n == (match self.upload_interval {
                Some(v) => v,
                None => DEFAULT_UPLOAD_INTERVAL,
            }),
            self.upload_interval is None ==> n == 5,
    {
        match self.upload_interval {
            Some(v) => v,
            None => DEFAULT_UPLOAD_INTERVAL,
        }
    }

    /// Records between flushes of the local data file.
    pub fn flush_interval_or_default(&self) -> (n: u64)
        ensures
            n == (match self.flush_interval {
                Some(v) => v,
                None => DEFAULT_FLUSH_INTERVAL,
            }),
            self.flush_interval is None ==> n == 5,
    {
        match self.flush_interval {
            Some(v) => v,
            None => DEFAULT_FLUSH_INTERVAL,
        }
    }
}

} // verus!
