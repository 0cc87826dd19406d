//! Choosing how to reach a device: usbmuxd first, else the network address
//! Bonjour advertised for it.
use vstd::prelude::*;

use crate::error::CommandError;
use crate::text::{append_str, copy_str};

verus! {

/// The label of connections made through usbmuxd.
pub const USBMUXD_LABEL: &'static str = "idevice-desktop";

/// The label of connections made to a Bonjour address.
pub const BONJOUR_LABEL: &'static str = "idevice-desktop-bonjour";

/// The label of the connection used to pair.
pub const PAIRING_LABEL: &'static str = "idevice-desktop-pair";

/// The kind of an advertised address that parsed.
#[derive(Debug)]
pub enum AddressKind {
    V4,
    V6,
    /// An IPv6 unicast link-local address.
    V6LinkLocal,
}

/// IPv4 first, then routable IPv6, then link-local IPv6.
pub open spec fn address_rank(k: AddressKind) -> int {
    match k {
        AddressKind::V4 => 0,
        AddressKind::V6 => 1,
        AddressKind::V6LinkLocal => 2,
    }
}

fn rank(k: &AddressKind) -> (r: u8)
    ensures
        r == address_rank(*k),
{
    match k {
        AddressKind::V4 => 0,
        AddressKind::V6 => 1,
        AddressKind::V6LinkLocal => 2,
    }
}

/// No usbmuxd route and nothing from Bonjour.
pub fn no_lockdown_route() -> (e: CommandError)
    ensures
        e.kind@ == "device"@,
        e.message@ == "The device has no active usbmuxd or Bonjour Lockdown route"@,
        e.retryable,
{
    CommandError::new("device", "The device has no active usbmuxd or Bonjour Lockdown route", true)
}

/// A command that needs a device when none is selected.
pub fn no_device_selected() -> (e: CommandError)
    ensures
        e.kind@ == "device"@,
        e.message@ == "No device selected"@,
        e.retryable,
{
    CommandError::new("device", "No device selected", true)
}

/// The address to reach a device at over the network: the first of the best
/// kind among those that parsed (`None` for one that did not). Refused when
/// none parsed, or when only link-local IPv6 addresses are left.
pub fn choose_address(hostname: &str, addresses: &Vec<Option<AddressKind>>) -> (r: Result<usize, CommandError>)
    ensures
        (forall|j: int| 0 <= j < addresses@.len() ==> addresses@[j] is None) ==> (r matches Err(e)
            && e.kind@ == "bonjour"@ && e.message@ == "Bonjour returned no usable address for "@
            + hostname@ && e.retryable),
        (exists|j: int| 0 <= j < addresses@.len() && addresses@[j] is Some) && (forall|j: int|
            0 <= j < addresses@.len() && addresses@[j] is Some ==> addresses@[j]->0 is V6LinkLocal)
            ==> (r matches Err(e) && e.kind@ == "bonjour"@ && e.message@
            == "The device only advertised a link-local IPv6 address; reconnect it to the same IPv4 network"@
            && e.retryable),
        r matches Ok(i) ==> {
            &&& i < addresses@.len()
            &&& addresses@[i as int] matches Some(k)
            &&& !(k is V6LinkLocal)
            &&& forall|j: int|
                0 <= j < addresses@.len() && addresses@[j] is Some ==> address_rank(k) <= address_rank(
                    addresses@[j]->0,
                )
            &&& forall|j: int|
                0 <= j < i && addresses@[j] is Some ==> address_rank(k) < address_rank(
                    addresses@[j]->0,
                )
        },
        r is Err ==> (forall|j: int| 0 <= j < addresses@.len() && addresses@[j] is Some ==> addresses@[j]->0 is V6LinkLocal),
{
    let mut best: Option<usize> = None;
    let mut best_rank: u8 = 3;
    let mut i: usize = 0;
    while i < addresses.len()
        invariant
            i <= addresses.len(),
            best_rank <= 3,
            best is None <==> best_rank == 3,
            best is None ==> forall|j: int| 0 <= j < i ==> addresses@[j] is None,
            best matches Some(b) ==> b < i && addresses@[b as int] is Some && address_rank(
                addresses@[b as int]->0,
            ) == best_rank,
            forall|j: int| 0 <= j < i && addresses@[j] is Some ==> best_rank <= address_rank(addresses@[j]->0),
            best matches Some(b) ==> forall|j: int|
                0 <= j < b && addresses@[j] is Some ==> best_rank < address_rank(addresses@[j]->0),
        decreases addresses.len() - i,
    {
        match &addresses[i] {
            Some(k) => {
                let r = rank(k);
                if r < best_rank {
                    best = Some(i);
                    best_rank = r;
                }
            },
            None => {},
        }
        i = i + 1;
    }
    match best {
        None => {
            let mut m = copy_str("Bonjour returned no usable address for ");
            append_str(&mut m, hostname);
            Err(CommandError::new("bonjour", m.as_str(), true))
        },
        Some(b) => {
            if best_rank == 2 {
                Err(
                    CommandError::new(
                        "bonjour",
                        "The device only advertised a link-local IPv6 address; reconnect it to the same IPv4 network",
                        true,
                    ),
                )
            } else {
                Ok(b)
            }
        },
    }
}

/// No saved pairing record lets the network route be used.
pub fn wifi_pairing_missing(udid: &str, error: &str) -> (e: CommandError)
    ensures
        e.kind@ == "pairing"@,
        e.message@ == "No saved Wi-Fi pairing record is available for "@ + udid@ + ": "@ + error@,
        e.retryable,
{
    let mut m = copy_str("No saved Wi-Fi pairing record is available for ");
    append_str(&mut m, udid);
    append_str(&mut m, ": ");
    append_str(&mut m, error);
    CommandError::new("pairing", m.as_str(), true)
}

} // verus!
