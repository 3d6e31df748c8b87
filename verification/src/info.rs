//! What the service says of itself.

use vstd::prelude::*;

verus! {

/// The version, the home of the sources, and the seconds since start.
#[derive(Debug)]
pub struct ServiceInfo {
    pub version: String,
    pub repository: String,
    pub uptime_seconds: u64,
}

/// The service's version.
pub open spec fn version_text() -> Seq<char> {
    "0.1.0"@
}

/// The address of the service's sources.
pub open spec fn repository_text() -> Seq<char> {
    "https://github.com/flopezag/data_integrity"@
}

/// The service's description of itself after `uptime_seconds` seconds.
pub fn service_info(uptime_seconds: u64) -> (info: ServiceInfo)
    ensures
        info.version@ == version_text(),
        info.repository@ == repository_text(),
        info.uptime_seconds == uptime_seconds,
{
    ServiceInfo {
        version: "0.1.0".to_string(),
        repository: "https://github.com/flopezag/data_integrity".to_string(),
        uptime_seconds,
    }
}

} // verus!
