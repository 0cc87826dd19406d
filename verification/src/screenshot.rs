//! Screenshots: what the device returned, as an image the interface shows.
use vstd::prelude::*;

use crate::apps::{base64_standard, png_data_url};
use crate::error::CommandError;

verus! {

/// The screenshot as a PNG `data:` URL; an empty capture is an error worth
/// retrying.
pub fn screenshot_data_url(bytes: &[u8]) -> (r: Result<String, CommandError>)
    requires
        bytes@.len() <= isize::MAX,
    ensures
        bytes@.len() == 0 ==> (r matches Err(e) && e.kind@ == "screenshot"@ && e.message@
            == "The device returned an empty screenshot"@ && e.retryable),
        bytes@.len() > 0 ==> (r matches Ok(u) && u@ == "data:image/png;base64,"@ + base64_standard(
            bytes@,
        )),
{
    if bytes.len() == 0 {
        return Err(CommandError::new("screenshot", "The device returned an empty screenshot", true));
    }
    Ok(png_data_url(bytes))
}

/// The legacy screenshot service could not be started.
pub fn legacy_service_unavailable(error: &str) -> (e: CommandError)
    ensures
        e.kind@ == "screenshot"@,
        e.message@
            == "Legacy screenshot service unavailable. Mount the matching DeveloperDiskImage first: "@
            + error@,
        e.retryable,
{
    CommandError::with_detail(
        "screenshot",
        "Legacy screenshot service unavailable. Mount the matching DeveloperDiskImage first: ",
        error,
        true,
    )
}

/// The DVT screenshot service could not be reached.
pub fn dvt_service_unavailable(error: &str) -> (e: CommandError)
    ensures
        e.kind@ == "screenshot"@,
        e.message@ == "DVT screenshot service unavailable. Mount the Developer Disk Image first: "@
            + error@,
        e.retryable,
{
    CommandError::with_detail(
        "screenshot",
        "DVT screenshot service unavailable. Mount the Developer Disk Image first: ",
        error,
        true,
    )
}

} // verus!
