//! Simulated location: which transport a device's generation uses and what
//! the session reports. The coordinates themselves are floating point and
//! stay with the caller.
use vstd::prelude::*;

use crate::device_version::DeveloperGeneration;
use crate::error::CommandError;
use crate::text::copy_str;
use crate::types::StreamStatus;

verus! {

/// The transport a simulated location is set through: DVT over RSD from
/// iOS 17, Lockdown's location service before.
pub fn location_transport(generation: DeveloperGeneration) -> (r: &'static str)
    ensures
        r@ == (if generation is Legacy {
            "Lockdown"@
        } else {
            "DVT/RSD"@
        }),
{
    match generation {
        DeveloperGeneration::Legacy => "Lockdown",
        _ => "DVT/RSD",
    }
}

/// How a simulated location is kept and ended.
#[derive(Debug)]
pub struct LocationUpkeep {
    /// Every how many seconds the location is set again while it lasts.
    pub refresh_seconds: Option<u64>,
    /// Whether clearing it needs a new connection to the service.
    pub reconnect_to_clear: bool,
}

/// DVT forgets a simulated location unless it is set again every 5 seconds,
/// and clears it on the same connection; Lockdown's service keeps it, and
/// closes its connection once the location is set, so it is cleared over a
/// new one.
pub fn location_upkeep(generation: DeveloperGeneration) -> (u: LocationUpkeep)
    ensures
        generation is Legacy ==> u.refresh_seconds is None && u.reconnect_to_clear,
        !(generation is Legacy) ==> u.refresh_seconds == Some(5u64) && !u.reconnect_to_clear,
{
    match generation {
        DeveloperGeneration::Legacy => LocationUpkeep { refresh_seconds: None, reconnect_to_clear: true },
        _ => LocationUpkeep { refresh_seconds: Some(5), reconnect_to_clear: false },
    }
}

/// The status of the location stream.
pub fn location_status(state: &str, message: Option<String>) -> (s: StreamStatus)
    ensures
        s.stream@ == "location"@,
        s.state@ == state@,
        s.message.deep_view() == message.deep_view(),
{
    StreamStatus { stream: copy_str("location"), state: copy_str(state), message }
}

/// The legacy location service could not be started.
pub fn legacy_location_unavailable(error: &str) -> (e: CommandError)
    ensures
        e.kind@ == "location"@,
        e.message@
            == "Legacy location service unavailable. Mount the matching DeveloperDiskImage first: "@
            + error@,
        e.retryable,
{
    CommandError::with_detail(
        "location",
        "Legacy location service unavailable. Mount the matching DeveloperDiskImage first: ",
        error,
        true,
    )
}

/// The location service could not be reached again to clear the location.
pub fn location_clear_unavailable(error: &str) -> (e: CommandError)
    ensures
        e.kind@ == "location"@,
        e.message@ == "Unable to reconnect to clear the simulated location: "@ + error@,
        e.retryable,
{
    CommandError::with_detail(
        "location",
        "Unable to reconnect to clear the simulated location: ",
        error,
        true,
    )
}

/// The worker ended before the coordinates were applied.
pub fn location_worker_stopped() -> (e: CommandError)
    ensures
        e.kind@ == "location"@,
        e.message@ == "Location worker stopped before applying the coordinates"@,
        e.retryable,
{
    CommandError::new("location", "Location worker stopped before applying the coordinates", true)
}

} // verus!
