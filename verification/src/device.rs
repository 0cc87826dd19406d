//! Selecting, pairing and labelling devices, and the events the device list
//! is kept current with.
use vstd::prelude::*;

use crate::discovery::{
    record_summary, spec_remove_bonjour, spec_remove_usbmuxd, spec_summaries,
    spec_upsert_bonjour, spec_upsert_usb, usb_label, BonjourEndpoint, DiscoveryCatalog,
    RecordView, UsbDiscovery,
};
use crate::discovery::clone_opt_string;
use crate::error::CommandError;
use crate::paths::{to_uppercase, uppercase};
use crate::text::{append_str, copy_str, str_starts_with};
use crate::types::{DeviceChangeEvent, DeviceSummary, DeviceSummaryView};

verus! {

/// How usbmuxd reaches a device.
#[derive(Debug)]
pub enum ConnectionKind {
    Usb,
    /// Over the network, at this address.
    Network(String),
    /// A kind usbmuxd reported that has no name here.
    Unknown(String),
}

/// The label of a connection: `USB`, `Network · <address>`, or the kind as
/// reported.
pub open spec fn spec_connection_label(c: ConnectionKind) -> Seq<char> {
    match c {
        ConnectionKind::Usb => "USB"@,
        ConnectionKind::Network(a) => "Network · "@ + a@,
        ConnectionKind::Unknown(v) => v@,
    }
}

/// The label a connection is shown with.
pub fn connection_label(connection: &ConnectionKind) -> (r: String)
    ensures
        r@ == spec_connection_label(*connection),
{
    match connection {
        ConnectionKind::Usb => copy_str("USB"),
        ConnectionKind::Network(address) => {
            let mut r = copy_str("Network · ");
            append_str(&mut r, address.as_str());
            r
        },
        ConnectionKind::Unknown(value) => value.clone(),
    }
}

/// The answer to a liveness probe.
pub fn health() -> (r: &'static str)
    ensures
        r@ == "ok"@,
{
    "ok"
}

/// The message shown when a device is visible but cannot be opened.
pub open spec fn no_route_message() -> Seq<char> {
    "This iPhone is visible through Bonjour but has no usable Lockdown route. Connect it by USB once or configure paired Wi-Fi access."@
}

/// Which UDID a selection opens: the catalog's routable UDID for it; else a
/// refusal when the catalog knows the id (or it is a Bonjour key) but cannot
/// route it; else the id as requested, for a device the catalog has not seen.
pub fn resolve_selection(requested: &str, connectable: Option<String>, known: bool) -> (r: Result<
    String,
    CommandError,
>)
    ensures
        connectable matches Some(c) ==> (r matches Ok(s) && s@ == c@),
        connectable is None && (known || "bonjour:"@.is_prefix_of(requested@)) ==> (r matches Err(e)
            && e.kind@ == "network_discovery"@ && e.message@ == no_route_message() && e.retryable),
        connectable is None && !known && !"bonjour:"@.is_prefix_of(requested@) ==> (r matches Ok(s)
            && s@ == requested@),
{
    if let Some(c) = connectable {
        return Ok(c);
    }
    if known || str_starts_with(requested, "bonjour:") {
        return Err(
            CommandError::new(
                "network_discovery",
                "This iPhone is visible through Bonjour but has no usable Lockdown route. Connect it by USB once or configure paired Wi-Fi access.",
                true,
            ),
        );
    }
    Ok(copy_str(requested))
}

/// Pairing starts only over USB.
pub fn check_pairing_transport(connection: &ConnectionKind) -> (r: Result<(), CommandError>)
    ensures
        r is Ok <==> *connection is Usb,
        r matches Err(e) ==> e.kind@ == "pairing"@ && e.message@
            == "Initial pairing requires a USB connection"@ && !e.retryable,
{
    match connection {
        ConnectionKind::Usb => Ok(()),
        _ => Err(CommandError::new("pairing", "Initial pairing requires a USB connection", false)),
    }
}

/// The host identifier a new pairing record carries: a fresh UUID in upper case.
pub fn pairing_host_id(uuid: &str) -> (r: String)
    ensures
        r@ == uppercase(uuid@),
{
    to_uppercase(uuid)
}

/// What the device list shows of a device that was just paired over USB.
pub open spec fn paired_summary_view(d: crate::discovery::UsbDiscoveryView) -> DeviceSummaryView {
    DeviceSummaryView {
        id: d.udid,
        udid: d.udid,
        device_id: d.device_id,
        connection: d.connection,
        transports: seq![usb_label(d)],
        connectable: true,
        paired: d.paired,
        name: d.name,
        model: d.model,
        ios: d.ios,
    }
}

/// The summary returned for a device that was just paired.
pub fn paired_summary(discovered: UsbDiscovery) -> (s: DeviceSummary)
    ensures
        s@ == paired_summary_view(discovered@),
{
    let transport = if str_starts_with(discovered.connection.as_str(), "USB") {
        copy_str("USB")
    } else {
        copy_str("usbmuxd Network")
    };
    let mut transports: Vec<String> = Vec::new();
    transports.push(transport);
    let ghost d = discovered@;
    let s = DeviceSummary {
        id: discovered.udid.clone(),
        udid: discovered.udid,
        device_id: discovered.device_id,
        connection: discovered.connection,
        transports,
        connectable: true,
        paired: discovered.paired,
        name: discovered.name,
        model: discovered.model,
        ios: discovered.ios,
    };
    assert(s@.transports =~= seq![usb_label(d)]);
    s
}

/// A usbmuxd refresh that failed is an error only when nothing is listed;
/// otherwise the list keeps what it had.
pub fn refresh_failure(error: CommandError, catalog: &DiscoveryCatalog) -> (r: Result<(), CommandError>)
    ensures
        spec_summaries(catalog@).len() == 0 <==> r is Err,
        r matches Err(e) ==> e == error,
{
    if catalog.summaries().len() == 0 {
        Err(error)
    } else {
        Ok(())
    }
}

// ---------------------------------------------------------------------------
// Discovery events
// ---------------------------------------------------------------------------

/// Something usbmuxd or Bonjour reported.
#[derive(Debug)]
pub enum DiscoveryEvent {
    UsbConnected(UsbDiscovery),
    UsbDisconnected(u32),
    BonjourResolved(BonjourEndpoint),
    BonjourRemoved(String),
}

/// The catalog after an event.
pub open spec fn catalog_after(c: Seq<RecordView>, event: DiscoveryEvent) -> Seq<RecordView> {
    match event {
        DiscoveryEvent::UsbConnected(d) => spec_upsert_usb(c, d@).0,
        DiscoveryEvent::UsbDisconnected(id) => spec_remove_usbmuxd(c, id),
        DiscoveryEvent::BonjourResolved(e) => spec_upsert_bonjour(c, e@).0,
        DiscoveryEvent::BonjourRemoved(name) => spec_remove_bonjour(c, name@),
    }
}

/// Applies an event to the catalog and gives the change to report: a device
/// connected or updated with its summary, or one gone (with its usbmuxd id
/// when usbmuxd reported it).
pub fn apply_discovery_event(catalog: &mut DiscoveryCatalog, event: DiscoveryEvent) -> (r: DeviceChangeEvent)
    ensures
        final(catalog)@ == catalog_after(old(catalog)@, event),
        match event {
            DiscoveryEvent::UsbConnected(d) => r.kind@ == "connected"@ && (r.device matches Some(
                s,
            ) && s@ == record_summary(spec_upsert_usb(old(catalog)@, d@).1)) && r.device_id is None,
            DiscoveryEvent::UsbDisconnected(id) => r.kind@ == "disconnected"@ && r.device is None
                && r.device_id == Some(id),
            DiscoveryEvent::BonjourResolved(e) => r.kind@ == "updated"@ && (r.device matches Some(
                s,
            ) && s@ == record_summary(spec_upsert_bonjour(old(catalog)@, e@).1)) && r.device_id is None,
            DiscoveryEvent::BonjourRemoved(_) => r.kind@ == "disconnected"@ && r.device is None
                && r.device_id is None,
        },
{
    match event {
        DiscoveryEvent::UsbConnected(device) => {
            let summary = catalog.upsert_usb(device);
            DeviceChangeEvent { kind: copy_str("connected"), device: Some(summary), device_id: None }
        },
        DiscoveryEvent::UsbDisconnected(device_id) => {
            catalog.remove_usbmuxd(device_id);
            DeviceChangeEvent {
                kind: copy_str("disconnected"),
                device: None,
                device_id: Some(device_id),
            }
        },
        DiscoveryEvent::BonjourResolved(endpoint) => {
            let summary = catalog.upsert_bonjour(endpoint);
            DeviceChangeEvent { kind: copy_str("updated"), device: Some(summary), device_id: None }
        },
        DiscoveryEvent::BonjourRemoved(fullname) => {
            catalog.remove_bonjour(fullname.as_str());
            DeviceChangeEvent { kind: copy_str("disconnected"), device: None, device_id: None }
        },
    }
}

} // verus!
