//! The policy's configuration.

use crate::clock::DEFAULT_TIMEOUT_MS;
use vstd::prelude::*;

verus! {

/// The seconds that cached metadata stays fresh where the configuration gives no other time.
pub const DEFAULT_REFRESH_INTERVAL_SECONDS: i64 = 86_400;

/// The least time that a stored entry is kept: thirty days.
pub const META_STORE_MIN_TTL_MS: u64 = 30 * 24 * 60 * 60 * 1000;

/// What an operator configures. A missing value has a default.
#[derive(Debug)]
pub struct Config {
    pub cdgc_org_username: String,
    pub cdgc_org_password: String,
    /// The asset whose columns are summarized.
    pub schema_id: String,
    /// The request header that names another asset.
    pub schema_id_header: Option<String>,
    /// The token claim that names another asset.
    pub schema_id_claim: Option<String>,
    /// The words in a term's description that mark it sensitive.
    pub sensitive_marker: Option<String>,
    /// The security levels that are sensitive, separated by commas.
    pub sensitive_levels: Option<String>,
    pub header_on_miss: Option<bool>,
    pub refresh_interval_seconds: Option<i64>,
    pub fail_open_on_cdgc_error: Option<bool>,
    pub distributed: Option<bool>,
    /// The milliseconds that one call may take.
    pub timeout: Option<i64>,
}

/// The seconds that cached metadata stays fresh, never negative.
pub open spec fn refresh_seconds(configured: Option<i64>) -> int {
    let seconds = match configured {
        Some(seconds) => seconds,
        None => DEFAULT_REFRESH_INTERVAL_SECONDS,
    };
    if seconds < 0 {
        0
    } else {
        seconds as int
    }
}

/// The milliseconds that a stored entry is kept: twice the refresh interval, at least
/// [`META_STORE_MIN_TTL_MS`] and at most what a `u32` holds.
pub open spec fn store_ttl_ms(configured: Option<i64>) -> int {
    let wanted = 2 * refresh_seconds(configured) * 1000;
    if wanted < META_STORE_MIN_TTL_MS {
        META_STORE_MIN_TTL_MS as int
    } else if wanted > u32::MAX {
        u32::MAX as int
    } else {
        wanted
    }
}

impl Config {
    /// The seconds that cached metadata stays fresh.
    pub fn refresh_interval(&self) -> (r: i64)
        ensures
            r == refresh_seconds(self.refresh_interval_seconds),
    {
        let seconds: i64 = match self.refresh_interval_seconds {
            Some(seconds) => seconds,
            None => DEFAULT_REFRESH_INTERVAL_SECONDS,
        };
        if seconds < 0 {
            0
        } else {
            seconds
        }
    }

    /// The milliseconds that a stored entry is kept.
    pub fn meta_store_ttl_ms(&self) -> (r: u32)
        ensures
            r == store_ttl_ms(self.refresh_interval_seconds),
    {
        let refresh: u64 = self.refresh_interval() as u64;
        let wanted: u64 = match refresh.checked_mul(2000) {
            Some(millis) => millis,
            None => u64::MAX,
        };
        if wanted < META_STORE_MIN_TTL_MS {
            META_STORE_MIN_TTL_MS as u32
        } else if wanted > u32::MAX as u64 {
            u32::MAX
        } else {
            wanted as u32
        }
    }

    /// Whether cache and refresh lock are shared across replicas; they are not by default.
    pub fn is_distributed(&self) -> (r: bool)
        ensures
            r == (self.distributed == Some(true)),
    {
        match self.distributed {
            Some(distributed) => distributed,
            None => false,
        }
    }

    /// The milliseconds that one call may take.
    pub fn call_timeout_ms(&self) -> (r: i64)
        ensures
            r == (match self.timeout {
                Some(millis) => millis,
                None => DEFAULT_TIMEOUT_MS,
            }),
    {
        match self.timeout {
            Some(millis) => millis,
            None => DEFAULT_TIMEOUT_MS,
        }
    }
}

/// A stored entry outlives the time that it is fresh, as far as a `u32` of milliseconds reaches.
pub proof fn stored_entries_outlive_the_refresh_interval(configured: Option<i64>)
    ensures
        META_STORE_MIN_TTL_MS <= store_ttl_ms(configured) <= u32::MAX,
        store_ttl_ms(configured) < u32::MAX ==> store_ttl_ms(configured) >= 2 * refresh_seconds(
            configured,
        ) * 1000,
{
}

/// Metadata stays fresh for as long as is configured, for a day where nothing is, and for no time
/// where the configured time is negative.
pub proof fn metadata_stays_fresh_as_configured(seconds: i64)
    ensures
        seconds >= 0 ==> refresh_seconds(Some(seconds)) == seconds,
        seconds < 0 ==> refresh_seconds(Some(seconds)) == 0,
        refresh_seconds(None) == 24 * 60 * 60,
{
}

/// A stored entry is kept for twice the refresh interval, but not for less than thirty days, nor for
/// longer than a `u32` of milliseconds reaches.
pub proof fn entries_are_kept_for_twice_the_interval(configured: Option<i64>)
    ensures
        ({
            let twice = 2000 * refresh_seconds(configured);
            let kept = store_ttl_ms(configured);
            &&& 2_592_000_000 <= twice <= 4_294_967_295 ==> kept == twice
            &&& twice < 2_592_000_000 ==> kept == 2_592_000_000
            &&& twice > 4_294_967_295 ==> kept == 4_294_967_295
        }),
{
}

} // verus!
