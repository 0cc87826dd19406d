//! The RemotePairing tunnel to iOS 17.0–17.3 devices: where its pairing
//! record is kept, how often bootstrapping is tried, and what failures say.
use vstd::prelude::*;

use crate::developer::decimal;
use crate::error::CommandError;
use crate::text::{append_str, chars_of, copy_str, string_of, trim_end_char, trim_end_chars};

verus! {

/// How many times a USB bootstrap of RemotePairing is attempted.
pub const BOOTSTRAP_ATTEMPTS: u32 = 3;

/// The host identifier the tunnel presents.
pub const HOST_IDENTIFIER: &'static str = "idevice-desktop";

/// The file a device's RemotePairing record is kept in.
pub fn remote_pairing_file_name(udid: &str) -> (r: String)
    ensures
        r@ == "remote-pairing-"@ + udid@ + ".plist"@,
{
    let mut r = copy_str("remote-pairing-");
    append_str(&mut r, udid);
    append_str(&mut r, ".plist");
    r
}

/// After a failed attempt, wait and try again unless it was the last.
pub fn retry_bootstrap(attempt: u32) -> (r: bool)
    ensures
        r == (attempt + 1 < BOOTSTRAP_ATTEMPTS),
{
    attempt < BOOTSTRAP_ATTEMPTS - 1
}

/// The host name to resolve: without trailing dots.
pub fn lookup_host_name(hostname: &str) -> (r: String)
    ensures
        r@ == trim_end_char(hostname@, '.'),
{
    string_of(&trim_end_chars(&chars_of(hostname), '.'))
}

/// No address of the host accepted a connection.
pub fn host_unreachable(hostname: &str, port: u16, last_error: Option<String>) -> (e: CommandError)
    ensures
        e.kind@ == "tunnel"@,
        e.message@ == "Unable to connect to "@ + hostname@ + ":"@ + decimal(port as u64) + ": "@
            + match last_error {
            Some(x) => x@,
            None => "Bonjour returned no address"@,
        },
        e.retryable,
{
    let mut m = copy_str("Unable to connect to ");
    append_str(&mut m, hostname);
    append_str(&mut m, ":");
    append_str(&mut m, crate::developer::u64_digits(port as u64, 10).as_str());
    append_str(&mut m, ": ");
    match last_error {
        Some(x) => append_str(&mut m, x.as_str()),
        None => append_str(&mut m, "Bonjour returned no address"),
    }
    CommandError::new("tunnel", m.as_str(), true)
}

/// The RemotePairing service did not appear in time.
pub fn discovery_timed_out() -> (e: CommandError)
    ensures
        e.kind@ == "bonjour"@,
        e.message@ == "Timed out discovering the iOS 17.0–17.3 RemotePairing service"@,
        e.retryable,
{
    CommandError::new("bonjour", "Timed out discovering the iOS 17.0–17.3 RemotePairing service", true)
}

/// The segment size of the tunnel: its MTU less 60 bytes of headers.
pub fn tunnel_mss(mtu: usize) -> (r: usize)
    ensures
        r == (if mtu >= 60 {
            (mtu - 60) as usize
        } else {
            0
        }),
{
    if mtu >= 60 {
        mtu - 60
    } else {
        0
    }
}

} // verus!
