//! The device catalog: USB (usbmuxd) and network (Bonjour) observations of the
//! same phone merged into one record.
use vstd::prelude::*;

use crate::text::{
    append_str, ascii_upper, char_ascii_upper, char_is_ascii_hexdigit, chars_lt, chars_of,
    copy_str, is_ascii_hexdigit, join, join_strings, lowercase, seq_lt, str_eq, str_starts_with,
    string_of, string_of_range, to_lowercase, trim_end_char, trim_end_chars, trim_ws,
    trim_ws_chars, char_is, find_char, has_suffix, lemma_seq_lt_irreflexive, lemma_seq_lt_transitive,
    lemma_string_order_strict, sort_strings, string_order, lemma_prefixed_join_holds_each, occurs_in,
};
use crate::seqs::{
    first_index, inserted_by, is_sorted_by, is_strict_order, lemma_filter_step, lemma_filter_subset,
    lemma_first_exists, lemma_first_index_is, lemma_first_index_none, lemma_first_index_some,
    lemma_sorted_by_permutes, lemma_sorted_by_sorted, precedes, sorted_by,
};
use crate::types::{DeviceSummary, DeviceSummaryView};

verus! {

pub const MOBDEV2_SERVICE: &'static str = "_apple-mobdev2._tcp.local.";

pub const REMOTE_PAIRING_SERVICE: &'static str = "_remotepairing._tcp.local.";

pub const REMOTE_PAIRING_MANUAL_SERVICE: &'static str = "_remotepairing-manual-pairing._tcp.local.";

/// Where an iOS 17.0–17.3 device accepts RemotePairing.
#[derive(Clone, Debug, PartialEq, Eq)]
pub struct RemotePairingTarget {
    pub hostname: String,
    pub port: u16,
}

/// Where a device's Lockdown service answers over the network.
#[derive(Clone, Debug, PartialEq, Eq)]
pub struct LockdownTarget {
    pub hostname: String,
    pub addresses: Vec<String>,
}

/// A device as usbmuxd reports it, with what Lockdown told about it.
#[derive(Clone, Debug, PartialEq, Eq)]
pub struct UsbDiscovery {
    pub udid: String,
    pub device_id: u32,
    pub connection: String,
    pub paired: bool,
    pub name: Option<String>,
    pub model: Option<String>,
    pub ios: Option<String>,
    pub wifi_address: Option<String>,
}

/// One resolved Bonjour service instance.
#[derive(Clone, Debug, PartialEq, Eq)]
pub struct BonjourEndpoint {
    pub fullname: String,
    pub service_type: String,
    pub hostname: String,
    pub port: u16,
    pub addresses: Vec<String>,
    pub udid: Option<String>,
    pub wifi_address: Option<String>,
    pub name: Option<String>,
}

/// The content of a [`UsbDiscovery`].
pub struct UsbDiscoveryView {
    pub udid: Seq<char>,
    pub device_id: u32,
    pub connection: Seq<char>,
    pub paired: bool,
    pub name: Option<Seq<char>>,
    pub model: Option<Seq<char>>,
    pub ios: Option<Seq<char>>,
    pub wifi_address: Option<Seq<char>>,
}

/// The content of a [`BonjourEndpoint`].
pub struct EndpointView {
    pub fullname: Seq<char>,
    pub service_type: Seq<char>,
    pub hostname: Seq<char>,
    pub port: u16,
    pub addresses: Seq<Seq<char>>,
    pub udid: Option<Seq<char>>,
    pub wifi_address: Option<Seq<char>>,
    pub name: Option<Seq<char>>,
}

/// The content of one catalog record: a device as far as it is known.
pub struct RecordView {
    pub id: Seq<char>,
    pub udid: Option<Seq<char>>,
    pub usb: Option<UsbDiscoveryView>,
    pub bonjour: Seq<EndpointView>,
    pub wifi_address: Option<Seq<char>>,
    pub name: Option<Seq<char>>,
    pub model: Option<Seq<char>>,
    pub ios: Option<Seq<char>>,
    pub paired: bool,
}

impl View for UsbDiscovery {
    type V = UsbDiscoveryView;

    open spec fn view(&self) -> UsbDiscoveryView {
        UsbDiscoveryView {
            udid: self.udid@,
            device_id: self.device_id,
            connection: self.connection@,
            paired: self.paired,
            name: self.name.deep_view(),
            model: self.model.deep_view(),
            ios: self.ios.deep_view(),
            wifi_address: self.wifi_address.deep_view(),
        }
    }
}

impl View for BonjourEndpoint {
    type V = EndpointView;

    open spec fn view(&self) -> EndpointView {
        EndpointView {
            fullname: self.fullname@,
            service_type: self.service_type@,
            hostname: self.hostname@,
            port: self.port,
            addresses: self.addresses.deep_view(),
            udid: self.udid.deep_view(),
            wifi_address: self.wifi_address.deep_view(),
            name: self.name.deep_view(),
        }
    }
}

// ---------------------------------------------------------------------------
// What a record shows in the device list
// ---------------------------------------------------------------------------

pub open spec fn is_mobdev2(t: Seq<char>) -> bool {
    t == MOBDEV2_SERVICE@
}

pub open spec fn is_manual_pairing(t: Seq<char>) -> bool {
    t == REMOTE_PAIRING_MANUAL_SERVICE@
}

/// Some endpoint of `bs` is of a type that `pred` accepts.
pub open spec fn any_endpoint(bs: Seq<EndpointView>, pred: spec_fn(Seq<char>) -> bool) -> bool {
    exists|i: int| 0 <= i < bs.len() && pred(#[trigger] bs[i].service_type)
}

pub open spec fn has_mobdev2(bs: Seq<EndpointView>) -> bool {
    any_endpoint(bs, |t: Seq<char>| is_mobdev2(t))
}

pub open spec fn has_manual_pairing(bs: Seq<EndpointView>) -> bool {
    any_endpoint(bs, |t: Seq<char>| is_manual_pairing(t))
}

/// An endpoint that is neither mobdev2 nor manual pairing counts as RemotePairing.
pub open spec fn has_remote_pairing(bs: Seq<EndpointView>) -> bool {
    any_endpoint(bs, |t: Seq<char>| !is_mobdev2(t) && !is_manual_pairing(t))
}

/// The label of a usbmuxd route.
pub open spec fn usb_label(u: UsbDiscoveryView) -> Seq<char> {
    if "USB"@.is_prefix_of(u.connection) {
        "USB"@
    } else {
        "usbmuxd Network"@
    }
}

/// The network transports of a record, in display order.
pub open spec fn network_labels(bs: Seq<EndpointView>) -> Seq<Seq<char>> {
    (if has_mobdev2(bs) {
        seq!["Wi-Fi"@]
    } else {
        Seq::<Seq<char>>::empty()
    }) + (if has_remote_pairing(bs) {
        seq!["RemotePairing"@]
    } else {
        Seq::<Seq<char>>::empty()
    }) + (if has_manual_pairing(bs) {
        seq!["RemotePairing Setup"@]
    } else {
        Seq::<Seq<char>>::empty()
    })
}

/// Every transport of a record, USB first, each once.
pub open spec fn record_transports(r: RecordView) -> Seq<Seq<char>> {
    (match r.usb {
        Some(u) => seq![usb_label(u)],
        None => Seq::<Seq<char>>::empty(),
    }) + network_labels(r.bonjour)
}

/// The connection text: usbmuxd's own label, or the network transports.
pub open spec fn record_connection(r: RecordView) -> Seq<char> {
    match r.usb {
        Some(u) => u.connection,
        None => if network_labels(r.bonjour).len() == 0 {
            "Network · Bonjour"@
        } else {
            "Network · "@ + join(network_labels(r.bonjour), " + "@)
        },
    }
}

/// A record can be opened over Lockdown: through usbmuxd, or as a known
/// device that advertises mobdev2.
pub open spec fn record_connectable(r: RecordView) -> bool {
    r.usb is Some || (r.udid is Some && has_mobdev2(r.bonjour))
}

/// What the device list shows of a record.
pub open spec fn record_summary(r: RecordView) -> DeviceSummaryView {
    DeviceSummaryView {
        id: r.id,
        udid: match r.udid {
            Some(u) => u,
            None => Seq::<char>::empty(),
        },
        device_id: match r.usb {
            Some(u) => u.device_id,
            None => 0,
        },
        connection: record_connection(r),
        transports: record_transports(r),
        connectable: record_connectable(r),
        paired: match r.usb {
            Some(u) => u.paired,
            None => r.paired,
        },
        name: r.name,
        model: r.model,
        ios: r.ios,
    }
}

/// A record appears in the device list when usbmuxd sees it or it advertises
/// mobdev2 or manual pairing; a RemotePairing-only record stays hidden.
pub open spec fn record_visible(r: RecordView) -> bool {
    r.usb is Some || has_mobdev2(r.bonjour) || has_manual_pairing(r.bonjour)
}

// ---------------------------------------------------------------------------
// Copies
// ---------------------------------------------------------------------------

/// The deep view of a vector of strings, element by element.
pub proof fn lemma_strings_deep_view(v: &Vec<String>)
    ensures
        v.deep_view().len() == v@.len(),
        forall|k: int| 0 <= k < v@.len() ==> #[trigger] v.deep_view()[k] == v@[k]@,
{
}

pub fn clone_opt_string(o: &Option<String>) -> (r: Option<String>)
    ensures
        r.deep_view() == o.deep_view(),
{
    match o {
        Some(s) => Some(s.clone()),
        None => None,
    }
}

pub fn clone_strings(v: &Vec<String>) -> (r: Vec<String>)
    ensures
        r.deep_view() == v.deep_view(),
{
    let mut r: Vec<String> = Vec::new();
    let mut i: usize = 0;
    while i < v.len()
        invariant
            i <= v.len(),
            r.deep_view() == v.deep_view().take(i as int),
        decreases v.len() - i,
    {
        proof {
            lemma_strings_deep_view(&r);
            lemma_strings_deep_view(v);
        }
        let c = v[i].clone();
        r.push(c);
        proof {
            lemma_strings_deep_view(&r);
        }
        i = i + 1;
        assert(r.deep_view() =~= v.deep_view().take(i as int));
    }
    assert(v.deep_view().take(v.len() as int) =~= v.deep_view());
    r
}

impl UsbDiscovery {
    pub fn copy(&self) -> (r: UsbDiscovery)
        ensures
            r@ == self@,
    {
        UsbDiscovery {
            udid: self.udid.clone(),
            device_id: self.device_id,
            connection: self.connection.clone(),
            paired: self.paired,
            name: clone_opt_string(&self.name),
            model: clone_opt_string(&self.model),
            ios: clone_opt_string(&self.ios),
            wifi_address: clone_opt_string(&self.wifi_address),
        }
    }
}

impl BonjourEndpoint {
    pub fn copy(&self) -> (r: BonjourEndpoint)
        ensures
            r@ == self@,
    {
        BonjourEndpoint {
            fullname: self.fullname.clone(),
            service_type: self.service_type.clone(),
            hostname: self.hostname.clone(),
            port: self.port,
            addresses: clone_strings(&self.addresses),
            udid: clone_opt_string(&self.udid),
            wifi_address: clone_opt_string(&self.wifi_address),
            name: clone_opt_string(&self.name),
        }
    }

    /// The label this endpoint's service contributes to a record's transports.
    pub fn transport_label(&self) -> (l: &'static str)
        ensures
            l@ == (if is_mobdev2(self.service_type@) {
                "Wi-Fi"@
            } else if is_manual_pairing(self.service_type@) {
                "RemotePairing Setup"@
            } else {
                "RemotePairing"@
            }),
    {
        if str_eq(self.service_type.as_str(), MOBDEV2_SERVICE) {
            "Wi-Fi"
        } else if str_eq(self.service_type.as_str(), REMOTE_PAIRING_MANUAL_SERVICE) {
            "RemotePairing Setup"
        } else {
            "RemotePairing"
        }
    }
}

// ---------------------------------------------------------------------------
// Records
// ---------------------------------------------------------------------------

/// One device as the catalog knows it.
#[derive(Debug)]
pub struct DiscoveryRecord {
    id: String,
    udid: Option<String>,
    usb: Option<UsbDiscovery>,
    bonjour: Vec<BonjourEndpoint>,
    wifi_address: Option<String>,
    name: Option<String>,
    model: Option<String>,
    ios: Option<String>,
    paired: bool,
}

pub open spec fn endpoint_views(v: Seq<BonjourEndpoint>) -> Seq<EndpointView> {
    v.map_values(|e: BonjourEndpoint| e@)
}

pub open spec fn opt_usb_view(u: Option<UsbDiscovery>) -> Option<UsbDiscoveryView> {
    match u {
        Some(d) => Some(d@),
        None => None,
    }
}

impl View for DiscoveryRecord {
    type V = RecordView;

    closed spec fn view(&self) -> RecordView {
        RecordView {
            id: self.id@,
            udid: self.udid.deep_view(),
            usb: opt_usb_view(self.usb),
            bonjour: endpoint_views(self.bonjour@),
            wifi_address: self.wifi_address.deep_view(),
            name: self.name.deep_view(),
            model: self.model.deep_view(),
            ios: self.ios.deep_view(),
            paired: self.paired,
        }
    }
}

/// Whether some endpoint has the service type `t`.
fn endpoints_have_type(bs: &Vec<BonjourEndpoint>, t: &str) -> (r: bool)
    ensures
        r == exists|i: int| 0 <= i < bs@.len() && (#[trigger] bs@[i])@.service_type == t@,
{
    let mut i: usize = 0;
    while i < bs.len()
        invariant
            i <= bs.len(),
            forall|k: int| 0 <= k < i ==> (#[trigger] bs@[k])@.service_type != t@,
        decreases bs.len() - i,
    {
        if str_eq(bs[i].service_type.as_str(), t) {
            return true;
        }
        i = i + 1;
    }
    false
}

/// Whether some endpoint is neither mobdev2 nor manual pairing.
fn endpoints_have_remote_pairing(bs: &Vec<BonjourEndpoint>) -> (r: bool)
    ensures
        r == has_remote_pairing(endpoint_views(bs@)),
{
    let ghost vs = endpoint_views(bs@);
    let mut i: usize = 0;
    while i < bs.len()
        invariant
            i <= bs.len(),
            vs == endpoint_views(bs@),
            forall|k: int|
                0 <= k < i ==> is_mobdev2(#[trigger] vs[k].service_type) || is_manual_pairing(
                    vs[k].service_type,
                ),
        decreases bs.len() - i,
    {
        let t = bs[i].service_type.as_str();
        if !str_eq(t, MOBDEV2_SERVICE) && !str_eq(t, REMOTE_PAIRING_MANUAL_SERVICE) {
            assert(!is_mobdev2(vs[i as int].service_type) && !is_manual_pairing(
                vs[i as int].service_type,
            ));
            return true;
        }
        i = i + 1;
    }
    false
}

fn has_mobdev2_endpoint(bs: &Vec<BonjourEndpoint>) -> (r: bool)
    ensures
        r == has_mobdev2(endpoint_views(bs@)),
{
    let r = endpoints_have_type(bs, MOBDEV2_SERVICE);
    proof {
        let vs = endpoint_views(bs@);
        if r {
            let i = choose|i: int| 0 <= i < bs@.len() && (#[trigger] bs@[i])@.service_type == MOBDEV2_SERVICE@;
            assert(is_mobdev2(vs[i].service_type));
        } else {
            assert forall|i: int| 0 <= i < vs.len() implies !is_mobdev2(#[trigger] vs[i].service_type) by {
                assert(bs@[i]@.service_type == vs[i].service_type);
            }
        }
    }
    r
}

fn has_manual_endpoint(bs: &Vec<BonjourEndpoint>) -> (r: bool)
    ensures
        r == has_manual_pairing(endpoint_views(bs@)),
{
    let r = endpoints_have_type(bs, REMOTE_PAIRING_MANUAL_SERVICE);
    proof {
        let vs = endpoint_views(bs@);
        if r {
            let i = choose|i: int|
                0 <= i < bs@.len() && (#[trigger] bs@[i])@.service_type
                    == REMOTE_PAIRING_MANUAL_SERVICE@;
            assert(is_manual_pairing(vs[i].service_type));
        } else {
            assert forall|i: int| 0 <= i < vs.len() implies !is_manual_pairing(
                #[trigger] vs[i].service_type,
            ) by {
                assert(bs@[i]@.service_type == vs[i].service_type);
            }
        }
    }
    r
}

/// The network transport labels of a set of endpoints.
fn network_label_strings(bs: &Vec<BonjourEndpoint>) -> (v: Vec<String>)
    ensures
        v.deep_view() == network_labels(endpoint_views(bs@)),
{
    let mut v: Vec<String> = Vec::new();
    if has_mobdev2_endpoint(bs) {
        v.push(copy_str("Wi-Fi"));
    }
    if endpoints_have_remote_pairing(bs) {
        v.push(copy_str("RemotePairing"));
    }
    if has_manual_endpoint(bs) {
        v.push(copy_str("RemotePairing Setup"));
    }
    assert(v.deep_view() =~= network_labels(endpoint_views(bs@)));
    v
}

impl DiscoveryRecord {
    pub(crate) fn from_id(id: String) -> (r: DiscoveryRecord)
        ensures
            r@ == empty_record(id@),
    {
        let r = DiscoveryRecord {
            id,
            udid: None,
            usb: None,
            bonjour: Vec::new(),
            wifi_address: None,
            name: None,
            model: None,
            ios: None,
            paired: false,
        };
        assert(r@.bonjour =~= Seq::<EndpointView>::empty());
        r
    }

    /// What the device list shows of this record.
    pub(crate) fn summary(&self) -> (s: DeviceSummary)
        ensures
            s@ == record_summary(self@),
    {
        let mut transports: Vec<String> = Vec::new();
        match &self.usb {
            Some(usb) => {
                if str_starts_with(usb.connection.as_str(), "USB") {
                    transports.push(copy_str("USB"));
                } else {
                    transports.push(copy_str("usbmuxd Network"));
                }
            },
            None => {},
        }
        let ghost before = transports.deep_view();
        let labels = network_label_strings(&self.bonjour);
        let mut i: usize = 0;
        while i < labels.len()
            invariant
                i <= labels.len(),
                transports.deep_view() == before + labels.deep_view().take(i as int),
            decreases labels.len() - i,
        {
            proof {
                lemma_strings_deep_view(&transports);
                lemma_strings_deep_view(&labels);
            }
            let ghost prev = transports@;
            let ghost old_dv = transports.deep_view();
            let c = labels[i].clone();
            transports.push(c);
            proof {
                lemma_strings_deep_view(&transports);
                assert(transports@ == prev.push(c));
                let target = before + labels.deep_view().take(i + 1);
                assert forall|k: int| 0 <= k < transports@.len() implies transports.deep_view()[k] == target[k] by {
                    if k < prev.len() {
                        assert(transports@[k] == prev[k]);
                        assert(old_dv[k] == prev[k]@);
                        assert(target[k] == old_dv[k]);
                    } else {
                        assert(k == before.len() + i);
                        assert(target[k] == labels.deep_view()[i as int]);
                    }
                }
            }
            i = i + 1;
            assert(transports.deep_view() =~= before + labels.deep_view().take(i as int));
        }
        assert(labels.deep_view().take(labels.len() as int) =~= labels.deep_view());
        let connection = match &self.usb {
            Some(usb) => usb.connection.clone(),
            None => {
                if labels.len() == 0 {
                    copy_str("Network · Bonjour")
                } else {
                    let mut c = copy_str("Network · ");
                    let joined = join_strings(&labels, " + ");
                    append_str(&mut c, joined.as_str());
                    c
                }
            },
        };
        let udid = match &self.udid {
            Some(u) => u.clone(),
            None => String::new(),
        };
        let device_id = match &self.usb {
            Some(usb) => usb.device_id,
            None => 0,
        };
        let connectable = self.usb.is_some() || (self.udid.is_some() && has_mobdev2_endpoint(
            &self.bonjour,
        ));
        let paired = match &self.usb {
            Some(usb) => usb.paired,
            None => self.paired,
        };
        let s = DeviceSummary {
            id: self.id.clone(),
            udid,
            device_id,
            connection,
            transports,
            connectable,
            paired,
            name: clone_opt_string(&self.name),
            model: clone_opt_string(&self.model),
            ios: clone_opt_string(&self.ios),
        };
        assert(s@.transports =~= record_transports(self@));
        s
    }

    /// No route is left: neither usbmuxd nor any Bonjour endpoint.
    pub(crate) fn is_empty(&self) -> (r: bool)
        ensures
            r == (self@.usb is None && self@.bonjour.len() == 0),
    {
        self.usb.is_none() && self.bonjour.len() == 0
    }

    /// The record appears in the device list.
    pub(crate) fn is_visible(&self) -> (r: bool)
        ensures
            r == record_visible(self@),
    {
        self.usb.is_some() || has_mobdev2_endpoint(&self.bonjour) || has_manual_endpoint(
            &self.bonjour,
        )
    }
}

/// A record that knows nothing but its key.
pub open spec fn empty_record(id: Seq<char>) -> RecordView {
    RecordView {
        id,
        udid: None,
        usb: None,
        bonjour: Seq::<EndpointView>::empty(),
        wifi_address: None,
        name: None,
        model: None,
        ios: None,
        paired: false,
    }
}


// ---------------------------------------------------------------------------
// Matching and merging
// ---------------------------------------------------------------------------

/// `a`, or `b` where `a` has nothing.
pub open spec fn or_else<T>(a: Option<T>, b: Option<T>) -> Option<T> {
    match a {
        Some(x) => Some(x),
        None => b,
    }
}

/// The hex digits of `s`, upper-cased, in order.
pub open spec fn mac_digits(s: Seq<char>) -> Seq<char>
    decreases s.len(),
{
    if s.len() == 0 {
        Seq::<char>::empty()
    } else if is_ascii_hexdigit(s.last()) {
        mac_digits(s.drop_last()).push(ascii_upper(s.last()))
    } else {
        mac_digits(s.drop_last())
    }
}

/// A Wi-Fi MAC address in canonical form: its twelve hex digits in upper case,
/// whatever separators it was written with; nothing if it has another count.
pub open spec fn normalized_mac(s: Seq<char>) -> Option<Seq<char>> {
    if mac_digits(s).len() == 12 {
        Some(mac_digits(s))
    } else {
        None
    }
}

pub open spec fn normalized_mac_opt(s: Option<Seq<char>>) -> Option<Seq<char>> {
    match s {
        Some(v) => normalized_mac(v),
        None => None,
    }
}

/// Two endpoints are the same service instance.
pub open spec fn endpoints_unique(bs: Seq<EndpointView>) -> bool {
    forall|i: int, j: int|
        0 <= i < bs.len() && 0 <= j < bs.len() && i != j ==> bs[i].fullname != bs[j].fullname
}

/// `bs` with `e` put under its service name: replacing the endpoint of that
/// name, or added after the others.
pub open spec fn put_endpoint(bs: Seq<EndpointView>, e: EndpointView) -> Seq<EndpointView> {
    if exists|i: int| 0 <= i < bs.len() && bs[i].fullname == e.fullname {
        let i = choose|i: int| 0 <= i < bs.len() && bs[i].fullname == e.fullname;
        bs.update(i, e)
    } else {
        bs.push(e)
    }
}

/// Every endpoint of `others` put into `bs`, in order.
pub open spec fn put_endpoints(bs: Seq<EndpointView>, others: Seq<EndpointView>) -> Seq<
    EndpointView,
>
    decreases others.len(),
{
    if others.len() == 0 {
        bs
    } else {
        put_endpoint(put_endpoints(bs, others.drop_last()), others.last())
    }
}

/// `a` completed with what `b` knows: each field `a` lacks is taken from `b`,
/// pairing from either, and the endpoints of both.
pub open spec fn absorb(a: RecordView, b: RecordView) -> RecordView {
    RecordView {
        id: a.id,
        udid: or_else(a.udid, b.udid),
        usb: or_else(a.usb, b.usb),
        bonjour: put_endpoints(a.bonjour, b.bonjour),
        wifi_address: or_else(a.wifi_address, b.wifi_address),
        name: or_else(a.name, b.name),
        model: or_else(a.model, b.model),
        ios: or_else(a.ios, b.ios),
        paired: a.paired || b.paired,
    }
}

/// `base` completed with each of `others`, in order.
pub open spec fn absorb_all(base: RecordView, others: Seq<RecordView>) -> RecordView
    decreases others.len(),
{
    if others.len() == 0 {
        base
    } else {
        absorb(absorb_all(base, others.drop_last()), others.last())
    }
}

/// An endpoint shares the host name, or one of the addresses.
pub open spec fn endpoint_matches(
    e: EndpointView,
    hostname: Option<Seq<char>>,
    addresses: Seq<Seq<char>>,
) -> bool {
    ||| (hostname is Some && e.hostname == hostname->0)
    ||| exists|j: int| 0 <= j < e.addresses.len() && addresses.contains(#[trigger] e.addresses[j])
}

/// A record describes the observed device: same UDID, same Wi-Fi MAC, or a
/// Bonjour endpoint on the same host name or address.
pub open spec fn record_matches(
    r: RecordView,
    udid: Option<Seq<char>>,
    wifi: Option<Seq<char>>,
    hostname: Option<Seq<char>>,
    addresses: Seq<Seq<char>>,
) -> bool {
    ||| (udid is Some && (r.id == udid->0 || r.udid == udid))
    ||| (wifi is Some && r.wifi_address == wifi)
    ||| exists|i: int|
        0 <= i < r.bonjour.len() && endpoint_matches(#[trigger] r.bonjour[i], hostname, addresses)
}

/// Catalog well-formedness: one record per key, one endpoint per service name.
pub open spec fn catalog_wf(c: Seq<RecordView>) -> bool {
    &&& forall|i: int, j: int| 0 <= i < c.len() && 0 <= j < c.len() && i != j ==> c[i].id != c[j].id
    &&& forall|i: int| 0 <= i < c.len() ==> endpoints_unique(#[trigger] c[i].bonjour)
}

pub proof fn lemma_put_endpoint_unique(bs: Seq<EndpointView>, e: EndpointView)
    requires
        endpoints_unique(bs),
    ensures
        endpoints_unique(put_endpoint(bs, e)),
        forall|k: int|
            0 <= k < put_endpoint(bs, e).len() ==> (#[trigger] put_endpoint(bs, e)[k] == e
                || bs.contains(put_endpoint(bs, e)[k])),
        put_endpoint(bs, e).contains(e),
{
    let r = put_endpoint(bs, e);
    if exists|i: int| 0 <= i < bs.len() && bs[i].fullname == e.fullname {
        let i = choose|i: int| 0 <= i < bs.len() && bs[i].fullname == e.fullname;
        assert(r[i] == e);
        assert forall|k: int| 0 <= k < r.len() implies (#[trigger] r[k] == e || bs.contains(r[k])) by {
            if k != i {
                assert(r[k] == bs[k]);
            }
        }
    } else {
        assert(r[bs.len() as int] == e);
        assert forall|k: int| 0 <= k < r.len() implies (#[trigger] r[k] == e || bs.contains(r[k])) by {
            if k < bs.len() {
                assert(r[k] == bs[k]);
            }
        }
    }
}

pub proof fn lemma_put_endpoints_unique(bs: Seq<EndpointView>, others: Seq<EndpointView>)
    requires
        endpoints_unique(bs),
    ensures
        endpoints_unique(put_endpoints(bs, others)),
    decreases others.len(),
{
    if others.len() > 0 {
        lemma_put_endpoints_unique(bs, others.drop_last());
        lemma_put_endpoint_unique(put_endpoints(bs, others.drop_last()), others.last());
    }
}

fn opt_str_eq(a: &Option<String>, b: &Option<String>) -> (r: bool)
    ensures
        r == (a.deep_view() == b.deep_view()),
{
    match (a, b) {
        (Some(x), Some(y)) => str_eq(x.as_str(), y.as_str()),
        (None, None) => true,
        _ => false,
    }
}

/// `str`-level presence of a string among several.
fn strings_contain(v: &Vec<String>, s: &str) -> (r: bool)
    ensures
        r == v.deep_view().contains(s@),
{
    proof {
        lemma_strings_deep_view(v);
    }
    let mut i: usize = 0;
    while i < v.len()
        invariant
            i <= v.len(),
            v.deep_view().len() == v@.len(),
            forall|k: int| 0 <= k < v@.len() ==> #[trigger] v.deep_view()[k] == v@[k]@,
            forall|k: int| 0 <= k < i ==> v.deep_view()[k] != s@,
        decreases v.len() - i,
    {
        if str_eq(v[i].as_str(), s) {
            assert(v.deep_view()[i as int] == s@);
            return true;
        }
        i = i + 1;
    }
    false
}

/// Canonical form of a Wi-Fi MAC address.
pub fn normalize_mac(value: &str) -> (r: Option<String>)
    ensures
        r.deep_view() == normalized_mac(value@),
{
    let chars = chars_of(value);
    let mut digits: Vec<char> = Vec::new();
    let mut i: usize = 0;
    while i < chars.len()
        invariant
            i <= chars.len(),
            digits@ == mac_digits(chars@.take(i as int)),
        decreases chars.len() - i,
    {
        let c = chars[i];
        proof {
            assert(chars@.take(i + 1).drop_last() =~= chars@.take(i as int));
        }
        if char_is_ascii_hexdigit(c) {
            digits.push(char_ascii_upper(c));
        }
        i = i + 1;
    }
    assert(chars@.take(chars.len() as int) =~= chars@);
    if digits.len() == 12 {
        Some(string_of(&digits))
    } else {
        None
    }
}

fn normalize_mac_opt(value: &Option<String>) -> (r: Option<String>)
    ensures
        r.deep_view() == normalized_mac_opt(value.deep_view()),
{
    match value {
        Some(v) => normalize_mac(v.as_str()),
        None => None,
    }
}

fn endpoint_matches_exec(e: &BonjourEndpoint, hostname: &Option<String>, addresses: &Vec<String>) -> (r:
    bool)
    ensures
        r == endpoint_matches(e@, hostname.deep_view(), addresses.deep_view()),
{
    if let Some(h) = hostname {
        if str_eq(e.hostname.as_str(), h.as_str()) {
            return true;
        }
    }
    proof {
        lemma_strings_deep_view(&e.addresses);
    }
    let mut j: usize = 0;
    while j < e.addresses.len()
        invariant
            j <= e.addresses.len(),
            e.addresses.deep_view().len() == e.addresses@.len(),
            forall|k: int| 0 <= k < e.addresses@.len() ==> #[trigger] e.addresses.deep_view()[k] == e.addresses@[k]@,
            forall|k: int| 0 <= k < j ==> !addresses.deep_view().contains(#[trigger] e.addresses.deep_view()[k]),
        decreases e.addresses.len() - j,
    {
        if strings_contain(addresses, e.addresses[j].as_str()) {
            assert(e@.addresses[j as int] == e.addresses@[j as int]@);
            assert(addresses.deep_view().contains(e@.addresses[j as int]));
            return true;
        }
        j = j + 1;
    }
    false
}

/// Whether `record` describes the observed device.
fn record_matches_exec(
    record: &DiscoveryRecord,
    udid: &Option<String>,
    wifi: &Option<String>,
    hostname: &Option<String>,
    addresses: &Vec<String>,
) -> (r: bool)
    ensures
        r == record_matches(
            record@,
            udid.deep_view(),
            wifi.deep_view(),
            hostname.deep_view(),
            addresses.deep_view(),
        ),
{
    if let Some(u) = udid {
        if str_eq(record.id.as_str(), u.as_str()) {
            return true;
        }
        if let Some(ru) = &record.udid {
            if str_eq(ru.as_str(), u.as_str()) {
                return true;
            }
        }
    }
    if wifi.is_some() && opt_str_eq(&record.wifi_address, wifi) {
        return true;
    }
    let ghost rv = record@;
    let mut i: usize = 0;
    while i < record.bonjour.len()
        invariant
            i <= record.bonjour.len(),
            rv == record@,
            rv.bonjour == endpoint_views(record.bonjour@),
            forall|k: int| 0 <= k < i ==> !endpoint_matches(#[trigger] rv.bonjour[k], hostname.deep_view(), addresses.deep_view()),
        decreases record.bonjour.len() - i,
    {
        if endpoint_matches_exec(&record.bonjour[i], hostname, addresses) {
            assert(endpoint_matches(rv.bonjour[i as int], hostname.deep_view(), addresses.deep_view()));
            return true;
        }
        i = i + 1;
    }
    false
}

impl DiscoveryRecord {
    /// Puts an endpoint under its service name.
    fn put_endpoint(&mut self, e: BonjourEndpoint)
        requires
            endpoints_unique(old(self)@.bonjour),
        ensures
            final(self)@ == (RecordView { bonjour: put_endpoint(old(self)@.bonjour, e@), ..old(self)@ }),
    {
        let ghost bs = old(self)@.bonjour;
        let mut i: usize = 0;
        while i < self.bonjour.len()
            invariant
                i <= self.bonjour.len(),
                self@ == old(self)@,
                bs == old(self)@.bonjour,
                endpoints_unique(bs),
                bs == endpoint_views(self.bonjour@),
                forall|k: int| 0 <= k < i ==> (#[trigger] bs[k]).fullname != e@.fullname,
            decreases self.bonjour.len() - i,
        {
            if str_eq(self.bonjour[i].fullname.as_str(), e.fullname.as_str()) {
                proof {
                    assert(bs[i as int].fullname == e@.fullname);
                    let j = choose|j: int| 0 <= j < bs.len() && bs[j].fullname == e@.fullname;
                    assert(j == i);
                }
                let ghost ev = e@;
                self.bonjour.set(i, e);
                assert(endpoint_views(self.bonjour@) =~= bs.update(i as int, ev));
                return;
            }
            i = i + 1;
        }
        let ghost ev = e@;
        self.bonjour.push(e);
        assert(endpoint_views(self.bonjour@) =~= bs.push(ev));
    }

    /// Completes this record with what `other` knows.
    fn absorb(&mut self, other: DiscoveryRecord)
        requires
            endpoints_unique(old(self)@.bonjour),
        ensures
            final(self)@ == absorb(old(self)@, other@),
            endpoints_unique(final(self)@.bonjour),
    {
        let ghost a = self@;
        let ghost b = other@;
        let DiscoveryRecord { id: _, udid, usb, bonjour, wifi_address, name, model, ios, paired } =
            other;
        if self.usb.is_none() {
            self.usb = usb;
        }
        if self.udid.is_none() {
            self.udid = udid;
        }
        if self.wifi_address.is_none() {
            self.wifi_address = wifi_address;
        }
        if self.name.is_none() {
            self.name = name;
        }
        if self.model.is_none() {
            self.model = model;
        }
        if self.ios.is_none() {
            self.ios = ios;
        }
        self.paired = self.paired || paired;
        assert(self@.bonjour == a.bonjour);
        let mut rest = bonjour;
        let ghost mut k: int = 0;
        let ghost others = b.bonjour;
        assert(others == endpoint_views(rest@));
        assert(others.skip(0) =~= others);
        assert(put_endpoints(a.bonjour, others.take(0)) == a.bonjour) by {
            assert(others.take(0).len() == 0);
        }
        while rest.len() > 0
            invariant
                0 <= k <= others.len(),
                rest@.len() == others.len() - k,
                endpoint_views(rest@) == others.skip(k as int),
                self@.bonjour == put_endpoints(a.bonjour, others.take(k as int)),
                endpoints_unique(self@.bonjour),
                self@.id == a.id,
                self@.udid == or_else(a.udid, b.udid),
                self@.usb == or_else(a.usb, b.usb),
                self@.wifi_address == or_else(a.wifi_address, b.wifi_address),
                self@.name == or_else(a.name, b.name),
                self@.model == or_else(a.model, b.model),
                self@.ios == or_else(a.ios, b.ios),
                self@.paired == (a.paired || b.paired),
            decreases rest.len(),
        {
            let ghost old_rest = rest@;
            let e = rest.remove(0);
            proof {
                assert(rest@ =~= old_rest.remove(0));
                assert(endpoint_views(old_rest)[0] == e@);
                assert(others.skip(k as int)[0] == e@);
                assert forall|i: int| 0 <= i < rest@.len() implies #[trigger] endpoint_views(rest@)[i] == others.skip(k + 1)[i] by {
                    assert(rest@[i] == old_rest[i + 1]);
                    assert(endpoint_views(old_rest)[i + 1] == others.skip(k as int)[i + 1]);
                }
                assert(endpoint_views(rest@) =~= others.skip(k + 1));
                assert(others.take(k + 1).drop_last() =~= others.take(k as int));
                assert(others.take(k + 1).last() == e@);
                lemma_put_endpoint_unique(self@.bonjour, e@);
            }
            self.put_endpoint(e);
            proof {
                k = k + 1;
            }
        }
        assert(others.take(k as int) =~= others);
    }
}


// ---------------------------------------------------------------------------
// The catalog
// ---------------------------------------------------------------------------

/// Records that describe the observed device.
pub open spec fn matching(
    udid: Option<Seq<char>>,
    wifi: Option<Seq<char>>,
    hostname: Option<Seq<char>>,
    addresses: Seq<Seq<char>>,
) -> spec_fn(RecordView) -> bool {
    |r: RecordView| record_matches(r, udid, wifi, hostname, addresses)
}

/// Records that do not describe the observed device.
pub open spec fn not_matching(
    udid: Option<Seq<char>>,
    wifi: Option<Seq<char>>,
    hostname: Option<Seq<char>>,
    addresses: Seq<Seq<char>>,
) -> spec_fn(RecordView) -> bool {
    |r: RecordView| !record_matches(r, udid, wifi, hostname, addresses)
}

/// Records under another key than `id`.
pub open spec fn other_key(id: Seq<char>) -> spec_fn(RecordView) -> bool {
    |r: RecordView| r.id != id
}

/// Records under the key `id`.
pub open spec fn has_key(id: Seq<char>) -> spec_fn(RecordView) -> bool {
    |r: RecordView| r.id == id
}

/// The record under `id`, or a new one.
pub open spec fn record_or_new(c: Seq<RecordView>, id: Seq<char>) -> RecordView {
    match first_index(c, has_key(id)) {
        Some(k) => c[k],
        None => empty_record(id),
    }
}

/// What `upsert_usb` makes of the catalog `c` when usbmuxd reports `d`: every
/// record that names the same UDID or Wi-Fi MAC is merged into the record
/// keyed by the UDID, which now carries the USB route.
pub open spec fn spec_upsert_usb(c: Seq<RecordView>, d: UsbDiscoveryView) -> (Seq<RecordView>, RecordView) {
    let wifi = normalized_mac_opt(d.wifi_address);
    let rest = c.filter(other_key(d.udid));
    let merged = absorb_all(
        record_or_new(c, d.udid),
        rest.filter(matching(Some(d.udid), wifi, None, Seq::empty())),
    );
    let rec = RecordView {
        id: d.udid,
        udid: Some(d.udid),
        usb: Some(d),
        bonjour: merged.bonjour,
        wifi_address: wifi,
        name: or_else(d.name, merged.name),
        model: or_else(d.model, merged.model),
        ios: or_else(d.ios, merged.ios),
        paired: d.paired,
    };
    (rest.filter(not_matching(Some(d.udid), wifi, None, Seq::empty())).push(rec), rec)
}

/// The key a Bonjour observation is filed under when no UDID is known.
pub open spec fn bonjour_fallback_key(e: EndpointView) -> Seq<char> {
    match e.udid {
        Some(u) => u,
        None => "bonjour:"@ + match e.wifi_address {
            Some(w) => w,
            None => e.fullname,
        },
    }
}

/// What `upsert_bonjour` makes of the catalog `c` when Bonjour resolves `e`:
/// every record that names the same UDID, Wi-Fi MAC, host name or address is
/// merged, the endpoint is added, and the result is filed under its UDID when
/// one is known.
pub open spec fn spec_upsert_bonjour(c: Seq<RecordView>, e: EndpointView) -> (Seq<RecordView>, RecordView) {
    let wifi = normalized_mac_opt(e.wifi_address);
    let fallback = bonjour_fallback_key(e);
    let merged = absorb_all(
        empty_record(fallback),
        c.filter(matching(e.udid, wifi, Some(e.hostname), e.addresses)),
    );
    let udid = or_else(e.udid, merged.udid);
    let key = match udid {
        Some(u) => u,
        None => fallback,
    };
    let rec = RecordView {
        id: key,
        udid,
        bonjour: put_endpoint(merged.bonjour, e),
        wifi_address: or_else(wifi, merged.wifi_address),
        name: or_else(e.name, merged.name),
        ..merged
    };
    (
        c.filter(not_matching(e.udid, wifi, Some(e.hostname), e.addresses)).filter(other_key(key)).push(
            rec,
        ),
        rec,
    )
}

/// A record whose usbmuxd route has the given device id.
pub open spec fn has_usb_device(device_id: u32) -> spec_fn(RecordView) -> bool {
    |r: RecordView|
        match r.usb {
            Some(u) => u.device_id == device_id,
            None => false,
        }
}

/// `c` with the record at `k` replaced by `r`, or dropped when `r` has no
/// route left.
pub open spec fn replace_or_drop(c: Seq<RecordView>, k: int, r: RecordView) -> Seq<RecordView> {
    if r.usb is None && r.bonjour.len() == 0 {
        c.remove(k)
    } else {
        c.update(k, r)
    }
}

/// What `remove_usbmuxd` makes of `c`: the usbmuxd route with that device id
/// is forgotten, and its record with it when nothing else reaches the device.
pub open spec fn spec_remove_usbmuxd(c: Seq<RecordView>, device_id: u32) -> Seq<RecordView> {
    match first_index(c, has_usb_device(device_id)) {
        Some(k) => replace_or_drop(c, k, RecordView { usb: None, ..c[k] }),
        None => c,
    }
}

/// A record that holds an endpoint of that service name.
pub open spec fn has_endpoint_named(name: Seq<char>) -> spec_fn(RecordView) -> bool {
    |r: RecordView| exists|i: int| 0 <= i < r.bonjour.len() && (#[trigger] r.bonjour[i]).fullname == name
}

/// An endpoint of that service name.
pub open spec fn endpoint_named(name: Seq<char>) -> spec_fn(EndpointView) -> bool {
    |e: EndpointView| e.fullname == name
}

/// What `remove_bonjour` makes of `c`: the endpoint with that service name is
/// forgotten, and its record with it when nothing else reaches the device.
pub open spec fn spec_remove_bonjour(c: Seq<RecordView>, name: Seq<char>) -> Seq<RecordView> {
    match first_index(c, has_endpoint_named(name)) {
        Some(k) => {
            let r = c[k];
            match first_index(r.bonjour, endpoint_named(name)) {
                Some(j) => replace_or_drop(c, k, RecordView { bonjour: r.bonjour.remove(j), ..r }),
                None => c,
            }
        },
        None => c,
    }
}

/// Every record with its usbmuxd route cleared.
pub open spec fn clear_usb(c: Seq<RecordView>) -> Seq<RecordView> {
    c.map_values(|r: RecordView| RecordView { usb: None, ..r })
}

/// `c` after `upsert_usb` of each of `ds` in turn.
pub open spec fn upsert_usb_all(c: Seq<RecordView>, ds: Seq<UsbDiscoveryView>) -> Seq<RecordView>
    decreases ds.len(),
{
    if ds.len() == 0 {
        c
    } else {
        spec_upsert_usb(upsert_usb_all(c, ds.drop_last()), ds.last()).0
    }
}

/// A record that still has some route.
pub open spec fn has_route() -> spec_fn(RecordView) -> bool {
    |r: RecordView| !(r.usb is None && r.bonjour.len() == 0)
}

/// What `replace_usbmuxd` makes of `c`: usbmuxd's previous snapshot is
/// dropped, the new one merged in device by device, and records left with no
/// route are removed.
pub open spec fn spec_replace_usbmuxd(c: Seq<RecordView>, ds: Seq<UsbDiscoveryView>) -> Seq<RecordView> {
    upsert_usb_all(clear_usb(c), ds).filter(has_route())
}

pub open spec fn records_view(v: Seq<DiscoveryRecord>) -> Seq<RecordView> {
    v.map_values(|r: DiscoveryRecord| r@)
}

/// The records of the catalog, one per device.
#[derive(Debug)]
struct CatalogRecords {
    records: Vec<DiscoveryRecord>,
}

impl View for CatalogRecords {
    type V = Seq<RecordView>;

    closed spec fn view(&self) -> Seq<RecordView> {
        records_view(self.records@)
    }
}

impl Default for CatalogRecords {
    fn default() -> (c: CatalogRecords)
        ensures
            c@ == Seq::<RecordView>::empty(),
    {
        let c = CatalogRecords { records: Vec::new() };
        assert(c@ =~= Seq::<RecordView>::empty());
        c
    }
}

/// Every device the application has seen, over USB or on the network. Its
/// records always have distinct keys and one endpoint per service name
/// (`catalog_wf`), and agree with their UDIDs (`catalog_consistent`).
#[derive(Debug)]
pub struct DiscoveryCatalog {
    inner: CatalogRecords,
}

impl View for DiscoveryCatalog {
    type V = Seq<RecordView>;

    closed spec fn view(&self) -> Seq<RecordView> {
        self.inner@
    }
}

impl Default for DiscoveryCatalog {
    fn default() -> (c: DiscoveryCatalog)
        ensures
            c@ == Seq::<RecordView>::empty(),
    {
        let inner = CatalogRecords::default();
        DiscoveryCatalog { inner }
    }
}

impl DiscoveryCatalog {
    /// Well-formed and consistent, always.
    #[verifier::type_invariant]
    spec fn valid(&self) -> bool {
        catalog_wf(self.inner@) && catalog_consistent(self.inner@)
    }

    /// The catalog is well-formed and consistent.
    pub fn check_valid(&self)
        ensures
            catalog_wf(self@),
            catalog_consistent(self@),
    {
        proof {
            use_type_invariant(self);
        }
    }

    fn take_inner(&mut self) -> (inner: CatalogRecords)
        ensures
            inner@ == old(self)@,
            catalog_wf(inner@),
            catalog_consistent(inner@),
            final(self)@ == Seq::<RecordView>::empty(),
    {
        proof {
            use_type_invariant(&*self);
        }
        let mut inner = CatalogRecords::default();
        std::mem::swap(&mut inner, &mut self.inner);
        inner
    }

    /// Merges what usbmuxd reports of a device into the record keyed by its
    /// UDID, absorbing every record that names the same UDID or Wi-Fi MAC.
    pub fn upsert_usb(&mut self, device: UsbDiscovery) -> (s: DeviceSummary)
        ensures
            catalog_wf(final(self)@),
            final(self)@ == spec_upsert_usb(old(self)@, device@).0,
            s@ == record_summary(spec_upsert_usb(old(self)@, device@).1),
    {
        let mut inner = self.take_inner();
        let s = inner.upsert_usb(device);
        self.inner = inner;
        s
    }

    /// Merges a resolved Bonjour endpoint into the record that describes its
    /// device.
    pub fn upsert_bonjour(&mut self, endpoint: BonjourEndpoint) -> (s: DeviceSummary)
        ensures
            catalog_wf(final(self)@),
            final(self)@ == spec_upsert_bonjour(old(self)@, endpoint@).0,
            s@ == record_summary(spec_upsert_bonjour(old(self)@, endpoint@).1),
    {
        let mut inner = self.take_inner();
        let s = inner.upsert_bonjour(endpoint);
        self.inner = inner;
        s
    }

    /// Forgets the usbmuxd route with that device id.
    pub fn remove_usbmuxd(&mut self, device_id: u32)
        ensures
            catalog_wf(final(self)@),
            final(self)@ == spec_remove_usbmuxd(old(self)@, device_id),
    {
        let mut inner = self.take_inner();
        inner.remove_usbmuxd(device_id);
        self.inner = inner;
    }

    /// Forgets the Bonjour endpoint with that service name.
    pub fn remove_bonjour(&mut self, fullname: &str)
        ensures
            catalog_wf(final(self)@),
            final(self)@ == spec_remove_bonjour(old(self)@, fullname@),
    {
        let mut inner = self.take_inner();
        inner.remove_bonjour(fullname);
        self.inner = inner;
    }

    /// Takes usbmuxd's full snapshot in place of the previous one.
    pub fn replace_usbmuxd(&mut self, devices: Vec<UsbDiscovery>)
        ensures
            catalog_wf(final(self)@),
            final(self)@ == spec_replace_usbmuxd(old(self)@, usb_views(devices@)),
    {
        let mut inner = self.take_inner();
        inner.replace_usbmuxd(devices);
        self.inner = inner;
    }

    /// The device list.
    pub fn summaries(&self) -> (v: Vec<DeviceSummary>)
        ensures
            summary_views(v@) == spec_summaries(self@),
    {
        self.inner.summaries()
    }

    /// Whether a record is filed under `id`.
    pub fn contains(&self, id: &str) -> (r: bool)
        ensures
            r == exists|k: int| 0 <= k < self@.len() && self@[k].id == id@,
    {
        self.inner.contains(id)
    }

    /// The UDID under which the record filed as `id` can be opened over
    /// Lockdown, when it has such a route.
    pub fn connectable_udid(&self, id: &str) -> (r: Option<String>)
        ensures
            r.deep_view() == spec_connectable_udid(self@, id@),
    {
        self.inner.connectable_udid(id)
    }

    /// The network Lockdown route of the device a selection names.
    pub fn lockdown_target(&self, id: &str) -> (r: Option<LockdownTarget>)
        ensures
            lockdown_target_view(r) == spec_lockdown_target(self@, id@),
    {
        self.inner.lockdown_target(id)
    }

    /// The RemotePairing service of the device a selection names.
    pub fn remote_pairing_target(&self, id: &str) -> (r: Option<RemotePairingTarget>)
        ensures
            remote_pairing_target_view(r) == spec_remote_pairing_target(self@, id@),
    {
        self.inner.remote_pairing_target(id)
    }
}

/// Keys stay distinct in a filtered catalog.
pub proof fn lemma_filter_wf(c: Seq<RecordView>, p: spec_fn(RecordView) -> bool)
    requires
        catalog_wf(c),
    ensures
        catalog_wf(c.filter(p)),
    decreases c.len(),
{
    reveal(Seq::filter);
    if c.len() > 0 {
        let d = c.drop_last();
        assert(catalog_wf(d)) by {
            assert forall|i: int| 0 <= i < d.len() implies endpoints_unique(#[trigger] d[i].bonjour) by {
                assert(d[i] == c[i]);
            }
        }
        lemma_filter_wf(d, p);
        if p(c.last()) {
            let f = d.filter(p);
            lemma_filter_subset(d, p);
            let g = f.push(c.last());
            assert forall|i: int, j: int|
                0 <= i < g.len() && 0 <= j < g.len() && i != j implies g[i].id != g[j].id by {
                if i == f.len() as int {
                    assert(d.contains(f[j]));
                    let jj = choose|jj: int| 0 <= jj < d.len() && d[jj] == f[j];
                    assert(c[jj] == d[jj]);
                } else if j == f.len() as int {
                    assert(d.contains(f[i]));
                    let ii = choose|ii: int| 0 <= ii < d.len() && d[ii] == f[i];
                    assert(c[ii] == d[ii]);
                }
            }
            assert forall|i: int| 0 <= i < g.len() implies endpoints_unique(#[trigger] g[i].bonjour) by {
                if i < f.len() {
                    assert(d.contains(f[i]));
                    let ii = choose|ii: int| 0 <= ii < d.len() && d[ii] == f[i];
                    assert(c[ii] == d[ii]);
                }
            }
        }
    }
}

/// Splits `records` into the record under `id`, if any, and the others.
fn take_key(records: Vec<DiscoveryRecord>, id: &str) -> (r: (Option<DiscoveryRecord>, Vec<DiscoveryRecord>))
    requires
        catalog_wf(records_view(records@)),
    ensures
        match first_index(records_view(records@), has_key(id@)) {
            Some(k) => r.0 is Some && r.0->0@ == records_view(records@)[k],
            None => r.0 is None,
        },
        records_view(r.1@) == records_view(records@).filter(other_key(id@)),
{
    let ghost c = records_view(records@);
    let mut input = records;
    let mut found: Option<DiscoveryRecord> = None;
    let mut rest: Vec<DiscoveryRecord> = Vec::new();
    let ghost mut i: int = 0;
    let ghost mut fk: int = 0;
    assert(records_view(input@) =~= c.skip(0));
    while input.len() > 0
        invariant
            0 <= i <= c.len(),
            catalog_wf(c),
            input@.len() == c.len() - i,
            records_view(input@) == c.skip(i),
            records_view(rest@) == c.take(i).filter(other_key(id@)),
            found is Some ==> 0 <= fk < i && c[fk].id == id@ && found->0@ == c[fk],
            found is None ==> forall|k: int| 0 <= k < i ==> c[k].id != id@,
        decreases input.len(),
    {
        let ghost old_input = input@;
        let r = input.remove(0);
        proof {
            assert(input@ =~= old_input.remove(0));
            assert(records_view(old_input)[0] == r@);
            assert(c.skip(i)[0] == c[i]);
            assert forall|j: int| 0 <= j < input@.len() implies #[trigger] records_view(input@)[j] == c.skip(i + 1)[j] by {
                assert(input@[j] == old_input[j + 1]);
                assert(records_view(old_input)[j + 1] == c.skip(i)[j + 1]);
            }
            assert(records_view(input@) =~= c.skip(i + 1));
            lemma_filter_step(c, other_key(id@), i);
        }
        if str_eq(r.id.as_str(), id) {
            found = Some(r);
            proof {
                fk = i;
            }
        } else {
            let ghost prev = rest@;
            rest.push(r);
            proof {
                assert(rest@ == prev.push(r));
                assert(records_view(rest@) =~= records_view(prev).push(r@));
            }
        }
        proof {
            i = i + 1;
        }
    }
    assert(c.take(i) =~= c);
    proof {
        if found is Some {
            assert forall|j: int| 0 <= j < fk implies !has_key(id@)(c[j]) by {
                assert(c[j].id != c[fk].id);
            }
            lemma_first_index_is(c, has_key(id@), fk);
        } else {
            lemma_first_index_none(c, has_key(id@));
        }
    }
    (found, rest)
}

/// Merges into `base` every record of `records` that describes the observed
/// device, in order; the others are returned in order.
fn merge_matching(
    base: DiscoveryRecord,
    records: Vec<DiscoveryRecord>,
    udid: &Option<String>,
    wifi: &Option<String>,
    hostname: &Option<String>,
    addresses: &Vec<String>,
) -> (r: (DiscoveryRecord, Vec<DiscoveryRecord>))
    requires
        endpoints_unique(base@.bonjour),
        catalog_wf(records_view(records@)),
    ensures
        r.0@ == absorb_all(
            base@,
            records_view(records@).filter(
                matching(udid.deep_view(), wifi.deep_view(), hostname.deep_view(), addresses.deep_view()),
            ),
        ),
        endpoints_unique(r.0@.bonjour),
        records_view(r.1@) == records_view(records@).filter(
            not_matching(udid.deep_view(), wifi.deep_view(), hostname.deep_view(), addresses.deep_view()),
        ),
{
    let ghost c = records_view(records@);
    let ghost m = matching(udid.deep_view(), wifi.deep_view(), hostname.deep_view(), addresses.deep_view());
    let ghost n = not_matching(udid.deep_view(), wifi.deep_view(), hostname.deep_view(), addresses.deep_view());
    let ghost b = base@;
    let mut input = records;
    let mut merged = base;
    let mut kept: Vec<DiscoveryRecord> = Vec::new();
    let ghost mut i: int = 0;
    assert(records_view(input@) =~= c.skip(0));
    assert(c.take(0).filter(m) =~= Seq::<RecordView>::empty()) by {
        reveal(Seq::filter);
    }
    while input.len() > 0
        invariant
            0 <= i <= c.len(),
            catalog_wf(c),
            m == matching(udid.deep_view(), wifi.deep_view(), hostname.deep_view(), addresses.deep_view()),
            n == not_matching(udid.deep_view(), wifi.deep_view(), hostname.deep_view(), addresses.deep_view()),
            input@.len() == c.len() - i,
            records_view(input@) == c.skip(i),
            merged@ == absorb_all(b, c.take(i).filter(m)),
            endpoints_unique(merged@.bonjour),
            records_view(kept@) == c.take(i).filter(n),
        decreases input.len(),
    {
        let ghost old_input = input@;
        let r = input.remove(0);
        proof {
            assert(input@ =~= old_input.remove(0));
            assert(records_view(old_input)[0] == r@);
            assert(c.skip(i)[0] == c[i]);
            assert forall|j: int| 0 <= j < input@.len() implies #[trigger] records_view(input@)[j] == c.skip(i + 1)[j] by {
                assert(input@[j] == old_input[j + 1]);
                assert(records_view(old_input)[j + 1] == c.skip(i)[j + 1]);
            }
            assert(records_view(input@) =~= c.skip(i + 1));
            lemma_filter_step(c, m, i);
            lemma_filter_step(c, n, i);
        }
        if record_matches_exec(&r, udid, wifi, hostname, addresses) {
            let ghost f = c.take(i).filter(m);
            proof {
                assert(f.push(r@).drop_last() =~= f);
            }
            merged.absorb(r);
        } else {
            let ghost prev = kept@;
            kept.push(r);
            proof {
                assert(records_view(kept@) =~= records_view(prev).push(r@));
            }
        }
        proof {
            i = i + 1;
        }
    }
    assert(c.take(i) =~= c);
    (merged, kept)
}

impl CatalogRecords {
    /// Records what usbmuxd reports about one device, merging every record
    /// that names the same UDID or Wi-Fi MAC into the one keyed by the UDID.
    pub fn upsert_usb(&mut self, device: UsbDiscovery) -> (s: DeviceSummary)
        requires
            catalog_wf(old(self)@),
        ensures
            catalog_wf(final(self)@),
            final(self)@ == spec_upsert_usb(old(self)@, device@).0,
            s@ == record_summary(spec_upsert_usb(old(self)@, device@).1),
            catalog_consistent(old(self)@) ==> catalog_consistent(final(self)@),
    {
        proof {
            if catalog_consistent(self@) {
                lemma_upsert_usb_consistent(self@, device@);
            }
        }
        let ghost c = self@;
        let ghost d = device@;
        let id = device.udid.clone();
        let wifi = normalize_mac_opt(&device.wifi_address);
        let mut records: Vec<DiscoveryRecord> = Vec::new();
        std::mem::swap(&mut records, &mut self.records);
        assert(records_view(records@) == c);
        let (found, rest) = take_key(records, id.as_str());
        let base = match found {
            Some(r) => r,
            None => DiscoveryRecord::from_id(id.clone()),
        };
        proof {
            match first_index(c, has_key(d.udid)) {
                Some(k) => {
                    assert(endpoints_unique(c[k].bonjour));
                },
                None => {},
            }
            lemma_filter_wf(c, other_key(d.udid));
        }
        let udid_opt = Some(id.clone());
        let no_host: Option<String> = None;
        let no_addresses: Vec<String> = Vec::new();
        assert(no_addresses.deep_view() =~= Seq::<Seq<char>>::empty());
        let (mut record, mut kept) = merge_matching(
            base,
            rest,
            &udid_opt,
            &wifi,
            &no_host,
            &no_addresses,
        );
        let ghost merged = record@;
        record.id = id.clone();
        record.udid = Some(id);
        record.wifi_address = wifi;
        if device.name.is_some() {
            record.name = clone_opt_string(&device.name);
        }
        if device.model.is_some() {
            record.model = clone_opt_string(&device.model);
        }
        if device.ios.is_some() {
            record.ios = clone_opt_string(&device.ios);
        }
        record.paired = device.paired;
        record.usb = Some(device);
        let ghost expected = spec_upsert_usb(c, d);
        assert(record@ == expected.1);
        let summary = record.summary();
        proof {
            let rest_v = c.filter(other_key(d.udid));
            let n = not_matching(Some(d.udid), normalized_mac_opt(d.wifi_address), None, Seq::empty());
            lemma_filter_wf(rest_v, n);
            lemma_filter_subset(c, other_key(d.udid));
            lemma_filter_subset(rest_v, n);
        }
        let ghost kv = records_view(kept@);
        kept.push(record);
        assert(records_view(kept@) =~= kv.push(expected.1));
        proof {
            let g = records_view(kept@);
            let rest_v = c.filter(other_key(d.udid));
            assert forall|i: int, j: int|
                0 <= i < g.len() && 0 <= j < g.len() && i != j implies g[i].id != g[j].id by {
                if i == kv.len() as int {
                    assert(rest_v.contains(kv[j]));
                    let jj = choose|jj: int| 0 <= jj < rest_v.len() && rest_v[jj] == kv[j];
                    assert(other_key(d.udid)(rest_v[jj]));
                } else if j == kv.len() as int {
                    assert(rest_v.contains(kv[i]));
                    let ii = choose|ii: int| 0 <= ii < rest_v.len() && rest_v[ii] == kv[i];
                    assert(other_key(d.udid)(rest_v[ii]));
                }
            }
            assert forall|i: int| 0 <= i < g.len() implies endpoints_unique(#[trigger] g[i].bonjour) by {
                if i < kv.len() {
                    assert(g[i] == kv[i]);
                }
            }
        }
        self.records = kept;
        summary
    }
}

/// Keys stay distinct when a record is dropped.
pub proof fn lemma_remove_wf(c: Seq<RecordView>, k: int)
    requires
        catalog_wf(c),
        0 <= k < c.len(),
    ensures
        catalog_wf(c.remove(k)),
{
    let g = c.remove(k);
    assert forall|i: int, j: int|
        0 <= i < g.len() && 0 <= j < g.len() && i != j implies g[i].id != g[j].id by {
        let ii = if i < k { i } else { i + 1 };
        let jj = if j < k { j } else { j + 1 };
        assert(g[i] == c[ii] && g[j] == c[jj]);
    }
    assert forall|i: int| 0 <= i < g.len() implies endpoints_unique(#[trigger] g[i].bonjour) by {
        let ii = if i < k { i } else { i + 1 };
        assert(g[i] == c[ii]);
    }
}

/// Keys stay distinct when a record is replaced by one under the same key.
pub proof fn lemma_update_wf(c: Seq<RecordView>, k: int, r: RecordView)
    requires
        catalog_wf(c),
        0 <= k < c.len(),
        r.id == c[k].id,
        endpoints_unique(r.bonjour),
    ensures
        catalog_wf(c.update(k, r)),
{
    let g = c.update(k, r);
    assert forall|i: int, j: int|
        0 <= i < g.len() && 0 <= j < g.len() && i != j implies g[i].id != g[j].id by {
        assert(g[i].id == c[i].id && g[j].id == c[j].id);
    }
    assert forall|i: int| 0 <= i < g.len() implies endpoints_unique(#[trigger] g[i].bonjour) by {
        if i != k {
            assert(g[i] == c[i]);
        }
    }
}

/// Removing an endpoint keeps service names distinct.
pub proof fn lemma_remove_endpoint_unique(bs: Seq<EndpointView>, j: int)
    requires
        endpoints_unique(bs),
        0 <= j < bs.len(),
    ensures
        endpoints_unique(bs.remove(j)),
{
    let g = bs.remove(j);
    assert forall|a: int, b: int|
        0 <= a < g.len() && 0 <= b < g.len() && a != b implies g[a].fullname != g[b].fullname by {
        let aa = if a < j { a } else { a + 1 };
        let bb = if b < j { b } else { b + 1 };
        assert(g[a] == bs[aa] && g[b] == bs[bb]);
    }
}

/// A record filed under `udid` as its UDID.
pub open spec fn has_udid(id: Seq<char>) -> spec_fn(RecordView) -> bool {
    |r: RecordView| r.udid == Some(id)
}

/// The record a selection names: the one under that key, or else the first
/// whose UDID it is.
pub open spec fn lookup_record(c: Seq<RecordView>, id: Seq<char>) -> Option<RecordView> {
    match first_index(c, has_key(id)) {
        Some(k) => Some(c[k]),
        None => match first_index(c, has_udid(id)) {
            Some(k) => Some(c[k]),
            None => None,
        },
    }
}

/// A mobdev2 endpoint.
pub open spec fn is_mobdev2_endpoint() -> spec_fn(EndpointView) -> bool {
    |e: EndpointView| is_mobdev2(e.service_type)
}

/// A RemotePairing endpoint.
pub open spec fn is_remote_pairing_endpoint() -> spec_fn(EndpointView) -> bool {
    |e: EndpointView| e.service_type == REMOTE_PAIRING_SERVICE@
}

/// The Lockdown route of a record: its first mobdev2 endpoint's host name and
/// addresses.
pub open spec fn spec_lockdown_target(c: Seq<RecordView>, id: Seq<char>) -> Option<(Seq<char>, Seq<Seq<char>>)> {
    match lookup_record(c, id) {
        Some(r) => match first_index(r.bonjour, is_mobdev2_endpoint()) {
            Some(j) => Some((r.bonjour[j].hostname, r.bonjour[j].addresses)),
            None => None,
        },
        None => None,
    }
}

/// The RemotePairing endpoint of a record: its first one's host name and port.
pub open spec fn spec_remote_pairing_target(c: Seq<RecordView>, id: Seq<char>) -> Option<(Seq<char>, u16)> {
    match lookup_record(c, id) {
        Some(r) => match first_index(r.bonjour, is_remote_pairing_endpoint()) {
            Some(j) => Some((r.bonjour[j].hostname, r.bonjour[j].port)),
            None => None,
        },
        None => None,
    }
}

/// The UDID to open for a key, when that record has a Lockdown route.
pub open spec fn spec_connectable_udid(c: Seq<RecordView>, id: Seq<char>) -> Option<Seq<char>> {
    match first_index(c, has_key(id)) {
        Some(k) => if c[k].usb is Some || has_mobdev2(c[k].bonjour) {
            c[k].udid
        } else {
            None
        },
        None => None,
    }
}

pub open spec fn lockdown_target_view(t: Option<LockdownTarget>) -> Option<(Seq<char>, Seq<Seq<char>>)> {
    match t {
        Some(t) => Some((t.hostname@, t.addresses.deep_view())),
        None => None,
    }
}

pub open spec fn remote_pairing_target_view(t: Option<RemotePairingTarget>) -> Option<(Seq<char>, u16)> {
    match t {
        Some(t) => Some((t.hostname@, t.port)),
        None => None,
    }
}

/// The first endpoint with that service name.
fn endpoint_position(bs: &Vec<BonjourEndpoint>, name: &str) -> (r: Option<usize>)
    ensures
        r matches Some(j) ==> j < bs@.len() && first_index(endpoint_views(bs@), endpoint_named(name@))
            == Some(j as int),
        r is None ==> first_index(endpoint_views(bs@), endpoint_named(name@)) is None,
{
    let ghost v = endpoint_views(bs@);
    let ghost q = endpoint_named(name@);
    let mut j: usize = 0;
    while j < bs.len()
        invariant
            j <= bs.len(),
            v == endpoint_views(bs@),
            q == endpoint_named(name@),
            forall|k: int| 0 <= k < j ==> !q(#[trigger] v[k]),
        decreases bs.len() - j,
    {
        assert(v[j as int] == bs@[j as int]@);
        if str_eq(bs[j].fullname.as_str(), name) {
            proof {
                lemma_first_index_is(v, q, j as int);
            }
            return Some(j);
        }
        j = j + 1;
    }
    proof {
        lemma_first_index_none(v, q);
    }
    None
}

impl CatalogRecords {
    /// The first record for which `want` holds: `by_udid` selects "UDID is
    /// `id`", otherwise "key is `id`".
    fn position(&self, id: &str, by_udid: bool) -> (r: Option<usize>)
        ensures
            r matches Some(k) ==> k < self@.len(),
            r matches Some(k) ==> Some(k as int) == first_index(
                self@,
                if by_udid {
                    has_udid(id@)
                } else {
                    has_key(id@)
                },
            ),
            r is None ==> first_index(
                self@,
                if by_udid {
                    has_udid(id@)
                } else {
                    has_key(id@)
                },
            ) is None,
    {
        let ghost c = self@;
        let ghost p = if by_udid {
            has_udid(id@)
        } else {
            has_key(id@)
        };
        let mut i: usize = 0;
        while i < self.records.len()
            invariant
                i <= self.records.len(),
                c == self@,
                c == records_view(self.records@),
                p == (if by_udid {
                    has_udid(id@)
                } else {
                    has_key(id@)
                }),
                forall|k: int| 0 <= k < i ==> !p(#[trigger] c[k]),
            decreases self.records.len() - i,
        {
            let r = &self.records[i];
            let hit = if by_udid {
                match &r.udid {
                    Some(u) => str_eq(u.as_str(), id),
                    None => false,
                }
            } else {
                str_eq(r.id.as_str(), id)
            };
            assert(c[i as int] == r@);
            if hit {
                proof {
                    lemma_first_index_is(c, p, i as int);
                }
                return Some(i);
            }
            i = i + 1;
        }
        proof {
            lemma_first_index_none(c, p);
        }
        None
    }

    /// The record a selection names.
    fn lookup(&self, id: &str) -> (r: Option<usize>)
        ensures
            r matches Some(k) ==> k < self@.len() && lookup_record(self@, id@) == Some(self@[k as int]),
            r is None ==> lookup_record(self@, id@) is None,
    {
        match self.position(id, false) {
            Some(k) => Some(k),
            None => self.position(id, true),
        }
    }

    /// Whether a record is filed under `id`.
    pub fn contains(&self, id: &str) -> (r: bool)
        ensures
            r == exists|k: int| 0 <= k < self@.len() && self@[k].id == id@,
    {
        let p = self.position(id, false);
        proof {
            if p is None {
                assert forall|k: int| 0 <= k < self@.len() implies self@[k].id != id@ by {
                    if self@[k].id == id@ {
                        assert(has_key(id@)(self@[k]));
                    }
                }
            } else {
                lemma_first_index_some(self@, has_key(id@));
                let k = p->0 as int;
                assert(has_key(id@)(self@[k]));
            }
        }
        p.is_some()
    }

    /// The UDID under which the record filed as `id` can be opened over
    /// Lockdown, when it has such a route.
    pub fn connectable_udid(&self, id: &str) -> (r: Option<String>)
        ensures
            r.deep_view() == spec_connectable_udid(self@, id@),
    {
        match self.position(id, false) {
            Some(k) => {
                let record = &self.records[k];
                assert(self@[k as int] == record@);
                if record.usb.is_some() || has_mobdev2_endpoint(&record.bonjour) {
                    clone_opt_string(&record.udid)
                } else {
                    None
                }
            },
            None => None,
        }
    }

    /// The network Lockdown route of the device a selection names.
    pub fn lockdown_target(&self, id: &str) -> (r: Option<LockdownTarget>)
        ensures
            lockdown_target_view(r) == spec_lockdown_target(self@, id@),
    {
        let k = match self.lookup(id) {
            Some(k) => k,
            None => return None,
        };
        let record = &self.records[k];
        assert(self@[k as int] == record@);
        let ghost bs = record@.bonjour;
        let mut j: usize = 0;
        while j < record.bonjour.len()
            invariant
                j <= record.bonjour.len(),
                bs == endpoint_views(record.bonjour@),
                bs == record@.bonjour,
                lookup_record(self@, id@) == Some(record@),
                forall|i: int| 0 <= i < j ==> !is_mobdev2_endpoint()(#[trigger] bs[i]),
            decreases record.bonjour.len() - j,
        {
            let e = &record.bonjour[j];
            if str_eq(e.service_type.as_str(), MOBDEV2_SERVICE) {
                proof {
                    assert(bs[j as int] == e@);
                    lemma_first_index_is(bs, is_mobdev2_endpoint(), j as int);
                    assert(lookup_record(self@, id@) == Some(record@));
                }
                let t = LockdownTarget { hostname: e.hostname.clone(), addresses: clone_strings(&e.addresses) };
                assert(lockdown_target_view(Some(t)) == Some((e@.hostname, e@.addresses)));
                return Some(t);
            }
            assert(bs[j as int] == e@);
            j = j + 1;
        }
        proof {
            lemma_first_index_none(bs, is_mobdev2_endpoint());
        }
        None
    }

    /// The RemotePairing endpoint of the device a selection names.
    pub fn remote_pairing_target(&self, id: &str) -> (r: Option<RemotePairingTarget>)
        ensures
            remote_pairing_target_view(r) == spec_remote_pairing_target(self@, id@),
    {
        let k = match self.lookup(id) {
            Some(k) => k,
            None => return None,
        };
        let record = &self.records[k];
        assert(self@[k as int] == record@);
        let ghost bs = record@.bonjour;
        let mut j: usize = 0;
        while j < record.bonjour.len()
            invariant
                j <= record.bonjour.len(),
                bs == endpoint_views(record.bonjour@),
                bs == record@.bonjour,
                lookup_record(self@, id@) == Some(record@),
                forall|i: int| 0 <= i < j ==> !is_remote_pairing_endpoint()(#[trigger] bs[i]),
            decreases record.bonjour.len() - j,
        {
            let e = &record.bonjour[j];
            if str_eq(e.service_type.as_str(), REMOTE_PAIRING_SERVICE) {
                proof {
                    assert(bs[j as int] == e@);
                    lemma_first_index_is(bs, is_remote_pairing_endpoint(), j as int);
                    assert(lookup_record(self@, id@) == Some(record@));
                }
                let t = RemotePairingTarget { hostname: e.hostname.clone(), port: e.port };
                assert(remote_pairing_target_view(Some(t)) == Some((e@.hostname, e@.port)));
                return Some(t);
            }
            assert(bs[j as int] == e@);
            j = j + 1;
        }
        proof {
            lemma_first_index_none(bs, is_remote_pairing_endpoint());
        }
        None
    }

    /// Forgets the usbmuxd route with that device id, and its record when no
    /// Bonjour endpoint still reaches the device.
    pub fn remove_usbmuxd(&mut self, device_id: u32)
        requires
            catalog_wf(old(self)@),
        ensures
            catalog_wf(final(self)@),
            final(self)@ == spec_remove_usbmuxd(old(self)@, device_id),
            catalog_consistent(old(self)@) ==> catalog_consistent(final(self)@),
    {
        proof {
            if catalog_consistent(self@) {
                lemma_remove_usbmuxd_consistent(self@, device_id);
            }
        }
        let ghost c = self@;
        let ghost p = has_usb_device(device_id);
        let mut i: usize = 0;
        while i < self.records.len()
            invariant
                i <= self.records.len(),
                c == self@,
                c == old(self)@,
                catalog_wf(c),
                c == records_view(self.records@),
                p == has_usb_device(device_id),
                forall|k: int| 0 <= k < i ==> !p(#[trigger] c[k]),
            decreases self.records.len() - i,
        {
            let hit = match &self.records[i].usb {
                Some(usb) => usb.device_id == device_id,
                None => false,
            };
            assert(c[i as int] == self.records@[i as int]@);
            if hit {
                proof {
                    lemma_first_index_is(c, p, i as int);
                }
                let mut record = self.records.remove(i);
                assert(record@ == c[i as int]);
                record.usb = None;
                assert(record@ == RecordView { usb: None, ..c[i as int] });
                assert(endpoints_unique(c[i as int].bonjour));
                assert(records_view(self.records@) =~= c.remove(i as int));
                let ghost rv = record@;
                if record.is_empty() {
                    proof {
                        lemma_remove_wf(c, i as int);
                    }
                    assert(self@ == replace_or_drop(c, i as int, rv));
                } else {
                    self.records.insert(i, record);
                    assert(records_view(self.records@) =~= c.update(i as int, rv));
                    proof {
                        lemma_update_wf(c, i as int, rv);
                    }
                    assert(self@ == replace_or_drop(c, i as int, rv));
                }
                return;
            }
            i = i + 1;
        }
        proof {
            lemma_first_index_none(c, p);
        }
    }

    /// The first record holding an endpoint with that service name, and the
    /// position of that endpoint in it.
    fn endpoint_owner(&self, fullname: &str) -> (r: Option<(usize, usize)>)
        ensures
            r matches Some((k, j)) ==> k < self@.len() && first_index(self@, has_endpoint_named(fullname@))
                == Some(k as int) && j < self@[k as int].bonjour.len() && first_index(
                self@[k as int].bonjour,
                endpoint_named(fullname@),
            ) == Some(j as int),
            r is None ==> first_index(self@, has_endpoint_named(fullname@)) is None,
    {
        let ghost c = self@;
        let ghost p = has_endpoint_named(fullname@);
        let mut i: usize = 0;
        while i < self.records.len()
            invariant
                i <= self.records.len(),
                c == self@,
                c == records_view(self.records@),
                p == has_endpoint_named(fullname@),
                forall|k: int| 0 <= k < i ==> !p(#[trigger] c[k]),
            decreases self.records.len() - i,
        {
            assert(c[i as int] == self.records@[i as int]@);
            match endpoint_position(&self.records[i].bonjour, fullname) {
                Some(j) => {
                    proof {
                        lemma_first_index_some(c[i as int].bonjour, endpoint_named(fullname@));
                        assert(endpoint_named(fullname@)(c[i as int].bonjour[j as int]));
                        assert(p(c[i as int]));
                        lemma_first_index_is(c, p, i as int);
                    }
                    return Some((i, j));
                },
                None => {
                    proof {
                        if p(c[i as int]) {
                            let bs = c[i as int].bonjour;
                            let k = choose|k: int| 0 <= k < bs.len() && (#[trigger] bs[k]).fullname == fullname@;
                            assert(endpoint_named(fullname@)(bs[k]));
                        }
                    }
                },
            }
            i = i + 1;
        }
        proof {
            lemma_first_index_none(c, p);
        }
        None
    }

    /// Forgets the Bonjour endpoint with that service name, and its record
    /// when nothing else reaches the device.
    pub fn remove_bonjour(&mut self, fullname: &str)
        requires
            catalog_wf(old(self)@),
        ensures
            catalog_wf(final(self)@),
            final(self)@ == spec_remove_bonjour(old(self)@, fullname@),
            catalog_consistent(old(self)@) ==> catalog_consistent(final(self)@),
    {
        proof {
            if catalog_consistent(self@) {
                lemma_remove_bonjour_consistent(self@, fullname@);
            }
        }
        let ghost c = self@;
        match self.endpoint_owner(fullname) {
            Some((i, j)) => {
                proof {
                    lemma_remove_bonjour_at(c, fullname@, i as int, j as int);
                }
                self.remove_endpoint_at(i, j);
            },
            None => {},
        }
    }

    /// Forgets endpoint `j` of record `i`, and the record when no route is
    /// left in it.
    fn remove_endpoint_at(&mut self, i: usize, j: usize)
        requires
            catalog_wf(old(self)@),
            i < old(self)@.len(),
            j < old(self)@[i as int].bonjour.len(),
        ensures
            catalog_wf(final(self)@),
            final(self)@ == replace_or_drop(
                old(self)@,
                i as int,
                RecordView { bonjour: old(self)@[i as int].bonjour.remove(j as int), ..old(self)@[i as int] },
            ),
    {
        let ghost c = self@;
        proof {
            assert(endpoints_unique(c[i as int].bonjour));
            lemma_remove_endpoint_unique(c[i as int].bonjour, j as int);
        }
        let mut record = self.records.remove(i);
        assert(record@ == c[i as int]);
        record.drop_endpoint(j);
        assert(records_view(self.records@) =~= c.remove(i as int));
        self.put_back_or_drop(i, record, Ghost(c));
    }

    /// Puts `record` back at `i`, unless no route is left in it.
    fn put_back_or_drop(&mut self, i: usize, record: DiscoveryRecord, Ghost(c): Ghost<Seq<RecordView>>)
        requires
            i < c.len(),
            catalog_wf(c),
            old(self)@ == c.remove(i as int),
            record@.id == c[i as int].id,
            endpoints_unique(record@.bonjour),
        ensures
            final(self)@ == replace_or_drop(c, i as int, record@),
            catalog_wf(final(self)@),
    {
        let ghost rv = record@;
        assert(records_view(self.records@) == c.remove(i as int));
        assert(self.records@.len() == c.len() - 1);
        if record.is_empty() {
            proof {
                lemma_remove_wf(c, i as int);
            }
        } else {
            let ghost before = self.records@;
            self.records.insert(i, record);
            proof {
                lemma_records_view_insert(before, i as int, record);
                assert(c.remove(i as int).insert(i as int, rv) =~= c.update(i as int, rv));
                lemma_update_wf(c, i as int, rv);
            }
        }
    }
}

/// The key a Bonjour observation is filed under when no UDID is known.
fn fallback_key(e: &BonjourEndpoint) -> (k: String)
    ensures
        k@ == bonjour_fallback_key(e@),
{
    match &e.udid {
        Some(u) => u.clone(),
        None => {
            let mut k = copy_str("bonjour:");
            match &e.wifi_address {
                Some(w) => append_str(&mut k, w.as_str()),
                None => append_str(&mut k, e.fullname.as_str()),
            }
            k
        },
    }
}

/// A record under a new key can join a catalog.
pub proof fn lemma_push_wf(c: Seq<RecordView>, r: RecordView)
    requires
        catalog_wf(c),
        forall|k: int| 0 <= k < c.len() ==> (#[trigger] c[k]).id != r.id,
        endpoints_unique(r.bonjour),
    ensures
        catalog_wf(c.push(r)),
{
    let g = c.push(r);
    assert forall|i: int, j: int|
        0 <= i < g.len() && 0 <= j < g.len() && i != j implies g[i].id != g[j].id by {
        if i < c.len() && j < c.len() {
            assert(g[i] == c[i] && g[j] == c[j]);
        } else if i < c.len() {
            assert(g[i] == c[i]);
        } else {
            assert(g[j] == c[j]);
        }
    }
    assert forall|i: int| 0 <= i < g.len() implies endpoints_unique(#[trigger] g[i].bonjour) by {
        if i < c.len() {
            assert(g[i] == c[i]);
        }
    }
}

impl CatalogRecords {
    /// Records a resolved Bonjour endpoint: every record that names the same
    /// UDID, Wi-Fi MAC, host name or address is merged with it, and the result
    /// is filed under its UDID when one is known.
    #[verifier::rlimit(40)]
    pub fn upsert_bonjour(&mut self, endpoint: BonjourEndpoint) -> (s: DeviceSummary)
        requires
            catalog_wf(old(self)@),
        ensures
            catalog_wf(final(self)@),
            final(self)@ == spec_upsert_bonjour(old(self)@, endpoint@).0,
            s@ == record_summary(spec_upsert_bonjour(old(self)@, endpoint@).1),
            catalog_consistent(old(self)@) ==> catalog_consistent(final(self)@),
    {
        proof {
            if catalog_consistent(self@) {
                lemma_upsert_bonjour_consistent(self@, endpoint@);
            }
        }
        let ghost c = self@;
        let ghost e = endpoint@;
        let wifi = normalize_mac_opt(&endpoint.wifi_address);
        let fallback = fallback_key(&endpoint);
        let mut records: Vec<DiscoveryRecord> = Vec::new();
        std::mem::swap(&mut records, &mut self.records);
        assert(records_view(records@) == c);
        let host = Some(endpoint.hostname.clone());
        let addresses = clone_strings(&endpoint.addresses);
        let base = DiscoveryRecord::from_id(fallback.clone());
        let (mut record, rest) = merge_matching(base, records, &endpoint.udid, &wifi, &host, &addresses);
        let ghost merged = record@;
        let ghost m = not_matching(e.udid, normalized_mac_opt(e.wifi_address), Some(e.hostname), e.addresses);
        proof {
            lemma_filter_wf(c, m);
        }
        if endpoint.udid.is_some() {
            record.udid = clone_opt_string(&endpoint.udid);
        }
        if wifi.is_some() {
            record.wifi_address = wifi;
        }
        if endpoint.name.is_some() {
            record.name = clone_opt_string(&endpoint.name);
        }
        proof {
            lemma_put_endpoint_unique(merged.bonjour, e);
        }
        record.put_endpoint(endpoint);
        let key = match &record.udid {
            Some(u) => u.clone(),
            None => fallback,
        };
        record.id = key.clone();
        let ghost expected = spec_upsert_bonjour(c, e);
        assert(record@ == expected.1);
        let summary = record.summary();
        let (_replaced, mut kept) = take_key(rest, key.as_str());
        proof {
            let f = c.filter(m);
            lemma_filter_wf(f, other_key(key@));
            lemma_filter_subset(f, other_key(key@));
            lemma_push_wf(f.filter(other_key(key@)), expected.1);
        }
        let ghost kv = records_view(kept@);
        kept.push(record);
        assert(records_view(kept@) =~= kv.push(expected.1));
        self.records = kept;
        summary
    }
}

pub open spec fn usb_views(v: Seq<UsbDiscovery>) -> Seq<UsbDiscoveryView> {
    v.map_values(|d: UsbDiscovery| d@)
}

/// Clearing usbmuxd routes keeps keys and endpoints as they were.
pub proof fn lemma_clear_usb_wf(c: Seq<RecordView>)
    requires
        catalog_wf(c),
    ensures
        catalog_wf(clear_usb(c)),
{
    let g = clear_usb(c);
    assert forall|i: int, j: int|
        0 <= i < g.len() && 0 <= j < g.len() && i != j implies g[i].id != g[j].id by {
        assert(g[i].id == c[i].id && g[j].id == c[j].id);
    }
    assert forall|i: int| 0 <= i < g.len() implies endpoints_unique(#[trigger] g[i].bonjour) by {
        assert(g[i].bonjour == c[i].bonjour);
    }
}

/// The records with their usbmuxd routes cleared.
fn cleared(records: Vec<DiscoveryRecord>) -> (r: Vec<DiscoveryRecord>)
    ensures
        records_view(r@) == clear_usb(records_view(records@)),
{
    let ghost c = records_view(records@);
    let mut input = records;
    let mut out: Vec<DiscoveryRecord> = Vec::new();
    let ghost mut i: int = 0;
    assert(records_view(input@) =~= c.skip(0));
    while input.len() > 0
        invariant
            0 <= i <= c.len(),
            input@.len() == c.len() - i,
            records_view(input@) == c.skip(i),
            records_view(out@) == clear_usb(c.take(i)),
        decreases input.len(),
    {
        let ghost old_input = input@;
        let mut r = input.remove(0);
        proof {
            assert(input@ =~= old_input.remove(0));
            assert(records_view(old_input)[0] == r@);
            assert(c.skip(i)[0] == c[i]);
            assert forall|j: int| 0 <= j < input@.len() implies #[trigger] records_view(input@)[j] == c.skip(i + 1)[j] by {
                assert(input@[j] == old_input[j + 1]);
                assert(records_view(old_input)[j + 1] == c.skip(i)[j + 1]);
            }
            assert(records_view(input@) =~= c.skip(i + 1));
        }
        r.usb = None;
        let ghost prev = out@;
        out.push(r);
        proof {
            assert(records_view(out@) =~= records_view(prev).push(r@));
            assert(clear_usb(c.take(i + 1)) =~= clear_usb(c.take(i)).push(r@));
            i = i + 1;
        }
    }
    assert(c.take(i) =~= c);
    out
}

/// The records that still have some route, in order.
fn routed(records: Vec<DiscoveryRecord>) -> (r: Vec<DiscoveryRecord>)
    ensures
        records_view(r@) == records_view(records@).filter(has_route()),
{
    let ghost c = records_view(records@);
    let mut input = records;
    let mut out: Vec<DiscoveryRecord> = Vec::new();
    let ghost mut i: int = 0;
    assert(records_view(input@) =~= c.skip(0));
    assert(c.take(0).filter(has_route()) =~= Seq::<RecordView>::empty()) by {
        reveal(Seq::filter);
    }
    while input.len() > 0
        invariant
            0 <= i <= c.len(),
            input@.len() == c.len() - i,
            records_view(input@) == c.skip(i),
            records_view(out@) == c.take(i).filter(has_route()),
        decreases input.len(),
    {
        let ghost old_input = input@;
        let r = input.remove(0);
        proof {
            assert(input@ =~= old_input.remove(0));
            assert(records_view(old_input)[0] == r@);
            assert(c.skip(i)[0] == c[i]);
            assert forall|j: int| 0 <= j < input@.len() implies #[trigger] records_view(input@)[j] == c.skip(i + 1)[j] by {
                assert(input@[j] == old_input[j + 1]);
                assert(records_view(old_input)[j + 1] == c.skip(i)[j + 1]);
            }
            assert(records_view(input@) =~= c.skip(i + 1));
            lemma_filter_step(c, has_route(), i);
        }
        if !r.is_empty() {
            let ghost prev = out@;
            out.push(r);
            proof {
                assert(records_view(out@) =~= records_view(prev).push(r@));
            }
        }
        proof {
            i = i + 1;
        }
    }
    assert(c.take(i) =~= c);
    out
}

impl CatalogRecords {
    /// Replaces usbmuxd's previous snapshot by a new one: every usbmuxd route
    /// is forgotten, each reported device is merged in again, and records left
    /// with no route are dropped. Bonjour endpoints are kept.
    pub fn replace_usbmuxd(&mut self, devices: Vec<UsbDiscovery>)
        requires
            catalog_wf(old(self)@),
        ensures
            catalog_wf(final(self)@),
            final(self)@ == spec_replace_usbmuxd(old(self)@, usb_views(devices@)),
            catalog_consistent(old(self)@) ==> catalog_consistent(final(self)@),
    {
        proof {
            if catalog_consistent(self@) {
                lemma_replace_usbmuxd_consistent(self@, usb_views(devices@));
            }
        }
        let ghost c = self@;
        let ghost ds = usb_views(devices@);
        let mut records: Vec<DiscoveryRecord> = Vec::new();
        std::mem::swap(&mut records, &mut self.records);
        assert(records_view(records@) == c);
        self.records = cleared(records);
        proof {
            lemma_clear_usb_wf(c);
        }
        let ghost start = clear_usb(c);
        let mut input = devices;
        let ghost mut k: int = 0;
        assert(usb_views(input@) =~= ds.skip(0));
        assert(ds.take(0) =~= Seq::<UsbDiscoveryView>::empty());
        while input.len() > 0
            invariant
                0 <= k <= ds.len(),
                input@.len() == ds.len() - k,
                usb_views(input@) == ds.skip(k),
                self@ == upsert_usb_all(start, ds.take(k)),
                catalog_wf(self@),
            decreases input.len(),
        {
            let ghost old_input = input@;
            let d = input.remove(0);
            proof {
                assert(input@ =~= old_input.remove(0));
                assert(usb_views(old_input)[0] == d@);
                assert(ds.skip(k)[0] == ds[k]);
                assert forall|j: int| 0 <= j < input@.len() implies #[trigger] usb_views(input@)[j] == ds.skip(k + 1)[j] by {
                    assert(input@[j] == old_input[j + 1]);
                    assert(usb_views(old_input)[j + 1] == ds.skip(k)[j + 1]);
                }
                assert(usb_views(input@) =~= ds.skip(k + 1));
                assert(ds.take(k + 1).drop_last() =~= ds.take(k));
                assert(ds.take(k + 1).last() == d@);
            }
            let _summary = self.upsert_usb(d);
            proof {
                k = k + 1;
            }
        }
        assert(ds.take(k) =~= ds);
        let ghost before = self@;
        let mut all: Vec<DiscoveryRecord> = Vec::new();
        std::mem::swap(&mut all, &mut self.records);
        assert(records_view(all@) == before);
        self.records = routed(all);
        proof {
            lemma_filter_wf(before, has_route());
        }
    }
}

// ---------------------------------------------------------------------------
// The device list
// ---------------------------------------------------------------------------

/// The name a device is listed under: its name, or else its key.
pub open spec fn summary_label(v: DeviceSummaryView) -> Seq<char> {
    match v.name {
        Some(n) => n,
        None => v.id,
    }
}

/// What the list is ordered by within one connectability: the label in lower case.
pub open spec fn summary_sort_key(v: DeviceSummaryView) -> Seq<char> {
    lowercase(summary_label(v))
}

/// `a` is listed strictly before `b`: connectable devices first, then by
/// lower-cased label.
pub open spec fn listed_before(a: DeviceSummaryView, b: DeviceSummaryView) -> bool {
    ||| (a.connectable && !b.connectable)
    ||| (a.connectable == b.connectable && seq_lt(summary_sort_key(a), summary_sort_key(b)))
}

/// The order of the device list, as a relation.
pub open spec fn listed_order() -> spec_fn(DeviceSummaryView, DeviceSummaryView) -> bool {
    |a: DeviceSummaryView, b: DeviceSummaryView| listed_before(a, b)
}

/// The summaries of the visible records, in catalog order.
pub open spec fn visible_summaries(c: Seq<RecordView>) -> Seq<DeviceSummaryView>
    decreases c.len(),
{
    if c.len() == 0 {
        Seq::<DeviceSummaryView>::empty()
    } else if record_visible(c.last()) {
        visible_summaries(c.drop_last()).push(record_summary(c.last()))
    } else {
        visible_summaries(c.drop_last())
    }
}

/// The device list of a catalog.
pub open spec fn spec_summaries(c: Seq<RecordView>) -> Seq<DeviceSummaryView> {
    sorted_by(visible_summaries(c), listed_order())
}

pub open spec fn summary_views(v: Seq<DeviceSummary>) -> Seq<DeviceSummaryView> {
    v.map_values(|s: DeviceSummary| s@)
}

proof fn lemma_summary_views_insert(v: Seq<DeviceSummary>, i: int, x: DeviceSummary)
    requires
        0 <= i <= v.len(),
    ensures
        summary_views(v.insert(i, x)) == summary_views(v).insert(i, x@),
{
    let lhs = summary_views(v.insert(i, x));
    let rhs = summary_views(v).insert(i, x@);
    assert forall|k: int| 0 <= k < lhs.len() implies lhs[k] == rhs[k] by {
        if k > i {
            assert(v.insert(i, x)[k] == v[k - 1]);
        }
    }
    assert(lhs =~= rhs);
}

/// The label a summary is listed under.
fn label_of(s: &DeviceSummary) -> (r: &str)
    ensures
        r@ == summary_label(s@),
{
    match &s.name {
        Some(n) => n.as_str(),
        None => s.id.as_str(),
    }
}

/// Whether `a` (whose sort key is `ka`) is listed before `b` (key `kb`).
fn listed_before_exec(a: &DeviceSummary, ka: &Vec<char>, b: &DeviceSummary, kb: &Vec<char>) -> (r: bool)
    requires
        ka@ == summary_sort_key(a@),
        kb@ == summary_sort_key(b@),
    ensures
        r == listed_before(a@, b@),
{
    if a.connectable != b.connectable {
        a.connectable
    } else {
        chars_lt(ka, kb)
    }
}

impl CatalogRecords {
    /// The device list: every visible record's summary, connectable devices
    /// first, then by lower-cased name (or key), ties in catalog order.
    pub fn summaries(&self) -> (v: Vec<DeviceSummary>)
        ensures
            summary_views(v@) == spec_summaries(self@),
    {
        let ghost c = self@;
        let mut out: Vec<DeviceSummary> = Vec::new();
        let mut keys: Vec<Vec<char>> = Vec::new();
        let mut i: usize = 0;
        assert(summary_views(out@) =~= Seq::<DeviceSummaryView>::empty());
        assert(c.take(0) =~= Seq::<RecordView>::empty());
        while i < self.records.len()
            invariant
                i <= self.records.len(),
                c == self@,
                c == records_view(self.records@),
                summary_views(out@) == sorted_by(visible_summaries(c.take(i as int)), listed_order()),
                keys@.len() == out@.len(),
                forall|j: int| 0 <= j < out@.len() ==> (#[trigger] keys@[j])@ == summary_sort_key(out@[j]@),
            decreases self.records.len() - i,
        {
            let record = &self.records[i];
            assert(c[i as int] == record@);
            assert(c.take(i + 1).drop_last() =~= c.take(i as int));
            assert(c.take(i + 1).last() == c[i as int]);
            if record.is_visible() {
                let s = record.summary();
                let key = chars_of(to_lowercase(label_of(&s)).as_str());
                let ghost sv = summary_views(out@);
                let ghost q = precedes(s@, listed_order());
                let mut p: usize = 0;
                let mut stop = false;
                while !stop && p < out.len()
                    invariant
                        p <= out.len(),
                        sv == summary_views(out@),
                        keys@.len() == out@.len(),
                        forall|j: int| 0 <= j < out@.len() ==> (#[trigger] keys@[j])@ == summary_sort_key(out@[j]@),
                        key@ == summary_sort_key(s@),
                        q == precedes(s@, listed_order()),
                        forall|j: int| 0 <= j < p ==> !q(#[trigger] sv[j]),
                        stop ==> p < out.len() && q(sv[p as int]),
                    decreases out.len() - p + (if stop { 0int } else { 1int }),
                {
                    assert(keys@[p as int]@ == summary_sort_key(out@[p as int]@));
                    assert(sv[p as int] == out@[p as int]@);
                    if listed_before_exec(&s, &key, &out[p], &keys[p]) {
                        stop = true;
                    } else {
                        p = p + 1;
                    }
                }
                proof {
                    if p < out.len() {
                        lemma_first_index_is(sv, q, p as int);
                    } else {
                        lemma_first_index_none(sv, q);
                    }
                    let vs = visible_summaries(c.take(i as int));
                    assert(visible_summaries(c.take(i + 1)) == vs.push(s@));
                    assert(vs.push(s@).drop_last() =~= vs);
                    assert(sorted_by(vs.push(s@), listed_order()) == inserted_by(sorted_by(vs, listed_order()), s@, listed_order()));
                }
                let ghost old_out = out@;
                let ghost old_keys = keys@;
                let ghost s_view = s@;
                if p < out.len() {
                    out.insert(p, s);
                    keys.insert(p, key);
                    proof {
                        lemma_summary_views_insert(old_out, p as int, out@[p as int]);
                        assert(out@ == old_out.insert(p as int, out@[p as int]));
                    }
                } else {
                    out.push(s);
                    keys.push(key);
                    assert(summary_views(out@) =~= sv.push(s_view));
                }
                proof {
                    assert forall|j: int| 0 <= j < out@.len() implies (#[trigger] keys@[j])@ == summary_sort_key(out@[j]@) by {
                        if j < p {
                            assert(keys@[j] == old_keys[j] && out@[j] == old_out[j]);
                        } else if j > p {
                            assert(keys@[j] == old_keys[j - 1] && out@[j] == old_out[j - 1]);
                        }
                    }
                }
            }
            i = i + 1;
        }
        assert(c.take(i as int) =~= c);
        out
    }
}

// ---------------------------------------------------------------------------
// Resolved Bonjour services
// ---------------------------------------------------------------------------

/// `str::trim` of `v`, unless nothing is left.
pub open spec fn spec_nonempty(v: Seq<char>) -> Option<Seq<char>> {
    if trim_ws(v).len() == 0 {
        None
    } else {
        Some(trim_ws(v))
    }
}

/// The instance part of a service's full name: the full name without its
/// service type and the dots around it (the full name itself, less trailing
/// dots, when the type is not its suffix).
pub open spec fn spec_service_instance(fullname: Seq<char>, service_type: Seq<char>) -> Seq<char> {
    let t = trim_end_char(fullname, '.');
    let suffix = trim_end_char(service_type, '.');
    let base = if suffix.is_suffix_of(t) {
        t.take(t.len() - suffix.len())
    } else {
        fullname
    };
    trim_end_char(base, '.')
}

/// The trimmed text, if any is left.
pub fn nonempty(value: &str) -> (r: Option<String>)
    ensures
        r.deep_view() == spec_nonempty(value@),
{
    let t = trim_ws_chars(&chars_of(value));
    if t.len() == 0 {
        None
    } else {
        Some(string_of(&t))
    }
}

/// The instance part of a service's full name.
pub fn service_instance(fullname: &str, service_type: &str) -> (r: String)
    ensures
        r@ == spec_service_instance(fullname@, service_type@),
{
    let full = chars_of(fullname);
    let t = trim_end_chars(&full, '.');
    let suffix = trim_end_chars(&chars_of(service_type), '.');
    let base = if has_suffix(&t, &suffix) {
        let n = t.len() - suffix.len();
        let mut b: Vec<char> = Vec::new();
        let mut i: usize = 0;
        while i < n
            invariant
                i <= n <= t.len(),
                b@ == t@.take(i as int),
            decreases n - i,
        {
            b.push(t[i]);
            i = i + 1;
            assert(b@ =~= t@.take(i as int));
        }
        b
    } else {
        full
    };
    string_of(&trim_end_chars(&base, '.'))
}

impl DiscoveryRecord {
    /// Forgets the endpoint at position `j`.
    fn drop_endpoint(&mut self, j: usize)
        requires
            j < old(self)@.bonjour.len(),
        ensures
            final(self)@ == (RecordView { bonjour: old(self)@.bonjour.remove(j as int), ..old(self)@ }),
    {
        let ghost before = self@;
        let _removed = self.bonjour.remove(j);
        assert(self@.bonjour =~= before.bonjour.remove(j as int));
    }
}

proof fn lemma_remove_bonjour_at(c: Seq<RecordView>, name: Seq<char>, i: int, j: int)
    requires
        first_index(c, has_endpoint_named(name)) == Some(i),
        first_index(c[i].bonjour, endpoint_named(name)) == Some(j),
    ensures
        spec_remove_bonjour(c, name) == replace_or_drop(
            c,
            i,
            RecordView { bonjour: c[i].bonjour.remove(j), ..c[i] },
        ),
{
}

/// What a resolved Bonjour service carries, as plain values: its names, host,
/// port, addresses (in any order) and the TXT values of the keys that
/// `udid_property_keys` lists, in that order (`None` where a key is absent).
#[derive(Debug)]
pub struct ResolvedServiceInfo {
    pub fullname: String,
    pub service_type: String,
    pub hostname: String,
    pub port: u16,
    pub addresses: Vec<String>,
    pub udid_properties: Vec<Option<String>>,
}

/// The TXT keys a device's UDID may be published under, in order of preference.
pub fn udid_property_keys() -> (keys: Vec<&'static str>)
    ensures
        keys@.len() == 4,
        keys@[0]@ == "udid"@,
        keys@[1]@ == "identifier"@,
        keys@[2]@ == "UniqueDeviceID"@,
        keys@[3]@ == "SerialNumber"@,
{
    let mut keys: Vec<&'static str> = Vec::new();
    keys.push("udid");
    keys.push("identifier");
    keys.push("UniqueDeviceID");
    keys.push("SerialNumber");
    keys
}

/// The value of the first key present.
pub open spec fn first_present(props: Seq<Option<Seq<char>>>) -> Option<Seq<char>>
    decreases props.len(),
{
    if props.len() == 0 {
        None
    } else {
        match props[0] {
            Some(v) => Some(v),
            None => first_present(props.drop_first()),
        }
    }
}

/// The UDID a service publishes: the value of the first key present, unless
/// that value is empty.
pub open spec fn published_udid(props: Seq<Option<Seq<char>>>) -> Option<Seq<char>> {
    match first_present(props) {
        Some(v) => if v.len() == 0 {
            None
        } else {
            Some(v)
        },
        None => None,
    }
}

/// What a mobdev2 instance name `MAC@name` tells: the Wi-Fi MAC before the
/// first `@` and the device name after it; without `@`, only a name.
pub open spec fn mobdev2_identity(instance: Seq<char>) -> (Option<Seq<char>>, Option<Seq<char>>) {
    match first_index(instance, char_is('@')) {
        Some(i) => (normalized_mac(instance.take(i)), spec_nonempty(instance.skip(i + 1))),
        None => (None, spec_nonempty(instance)),
    }
}

/// The endpoint a resolved service describes.
pub open spec fn spec_from_resolved(
    fullname: Seq<char>,
    service_type: Seq<char>,
    hostname: Seq<char>,
    port: u16,
    addresses: Seq<Seq<char>>,
    props: Seq<Option<Seq<char>>>,
) -> EndpointView {
    let identity = if is_mobdev2(service_type) {
        mobdev2_identity(spec_service_instance(fullname, service_type))
    } else {
        (None, None)
    };
    EndpointView {
        fullname,
        service_type,
        hostname: trim_end_char(hostname, '.'),
        port,
        addresses: sorted_by(addresses, string_order()),
        udid: published_udid(props),
        wifi_address: identity.0,
        name: identity.1,
    }
}

fn published_udid_exec(props: &Vec<Option<String>>) -> (r: Option<String>)
    ensures
        r.deep_view() == published_udid(props.deep_view()),
{
    let ghost s = props.deep_view();
    let mut i: usize = 0;
    assert(s.skip(0) =~= s);
    while i < props.len()
        invariant
            i <= props.len(),
            s == props.deep_view(),
            first_present(s) == first_present(s.skip(i as int)),
        decreases props.len() - i,
    {
        assert(s.skip(i as int)[0] == s[i as int]);
        match &props[i] {
            Some(v) => {
                assert(s[i as int] == Some(v@));
                if v.as_str().unicode_len() == 0 {
                    return None;
                }
                return Some(v.clone());
            },
            None => {
                assert(s.skip(i as int).drop_first() =~= s.skip(i + 1));
            },
        }
        i = i + 1;
    }
    None
}

fn mobdev2_identity_exec(instance: &str) -> (r: (Option<String>, Option<String>))
    ensures
        r.0.deep_view() == mobdev2_identity(instance@).0,
        r.1.deep_view() == mobdev2_identity(instance@).1,
{
    let chars = chars_of(instance);
    match find_char(&chars, '@') {
        Some(i) => {
            let wifi = string_of_range(&chars, 0, i);
            let name = string_of_range(&chars, i + 1, chars.len());
            assert(chars@.subrange(0, i as int) =~= chars@.take(i as int));
            assert(chars@.subrange(i + 1, chars@.len() as int) =~= chars@.skip(i + 1));
            (normalize_mac(wifi.as_str()), nonempty(name.as_str()))
        },
        None => (None, nonempty(instance)),
    }
}

impl BonjourEndpoint {
    /// The endpoint a resolved service describes: for mobdev2, the Wi-Fi MAC
    /// and name come from the instance name; the host name loses its trailing
    /// dots and the addresses are sorted.
    pub fn from_resolved(service: ResolvedServiceInfo) -> (e: BonjourEndpoint)
        ensures
            e@ == spec_from_resolved(
                service.fullname@,
                service.service_type@,
                service.hostname@,
                service.port,
                service.addresses.deep_view(),
                service.udid_properties.deep_view(),
            ),
    {
        let instance = service_instance(service.fullname.as_str(), service.service_type.as_str());
        let udid = published_udid_exec(&service.udid_properties);
        let (wifi_address, name) = if str_eq(service.service_type.as_str(), MOBDEV2_SERVICE) {
            mobdev2_identity_exec(instance.as_str())
        } else {
            (None, None)
        };
        let hostname = string_of(&trim_end_chars(&chars_of(service.hostname.as_str()), '.'));
        let addresses = sort_strings(service.addresses);
        BonjourEndpoint {
            fullname: service.fullname,
            service_type: service.service_type,
            hostname,
            port: service.port,
            addresses,
            udid,
            wifi_address,
            name,
        }
    }
}

proof fn lemma_records_view_insert(v: Seq<DiscoveryRecord>, i: int, r: DiscoveryRecord)
    requires
        0 <= i <= v.len(),
    ensures
        records_view(v.insert(i, r)) == records_view(v).insert(i, r@),
{
    let lhs = records_view(v.insert(i, r));
    let rhs = records_view(v).insert(i, r@);
    assert forall|k: int| 0 <= k < lhs.len() implies lhs[k] == rhs[k] by {
        if k < i {
        } else if k == i {
        } else {
            assert(v.insert(i, r)[k] == v[k - 1]);
        }
    }
    assert(lhs =~= rhs);
}

// ---------------------------------------------------------------------------
// Laws
// ---------------------------------------------------------------------------

/// The device-list order is a strict order.
pub proof fn lemma_listed_order_strict()
    ensures
        is_strict_order(listed_order()),
{
    assert forall|a: DeviceSummaryView| !(#[trigger] listed_order()(a, a)) by {
        lemma_seq_lt_irreflexive(summary_sort_key(a));
    }
    assert forall|a: DeviceSummaryView, b: DeviceSummaryView, c: DeviceSummaryView|
        #[trigger] listed_order()(a, b) && #[trigger] listed_order()(b, c) implies listed_order()(a, c) by {
        if a.connectable == b.connectable && b.connectable == c.connectable {
            lemma_seq_lt_transitive(summary_sort_key(a), summary_sort_key(b), summary_sort_key(c));
        }
    }
}

/// The device list holds the summary of every visible record, each once, and
/// nothing else.
pub proof fn law_device_list_shows_visible_records(c: Seq<RecordView>)
    ensures
        spec_summaries(c).to_multiset() == visible_summaries(c).to_multiset(),
{
    lemma_sorted_by_permutes(visible_summaries(c), listed_order());
}

/// The device list is ordered: connectable devices come first, and within
/// each group labels ascend in lower case.
pub proof fn law_device_list_order(c: Seq<RecordView>)
    ensures
        is_sorted_by(spec_summaries(c), listed_order()),
        forall|i: int, j: int|
            0 <= i < j < spec_summaries(c).len() && (#[trigger] spec_summaries(c)[j]).connectable
                ==> (#[trigger] spec_summaries(c)[i]).connectable,
        forall|i: int, j: int|
            0 <= i < j < spec_summaries(c).len() && (#[trigger] spec_summaries(c)[i]).connectable
                == (#[trigger] spec_summaries(c)[j]).connectable ==> !seq_lt(
                lowercase(
                    match spec_summaries(c)[j].name {
                        Some(n) => n,
                        None => spec_summaries(c)[j].id,
                    },
                ),
                lowercase(
                    match spec_summaries(c)[i].name {
                        Some(n) => n,
                        None => spec_summaries(c)[i].id,
                    },
                ),
            ),
{
    lemma_listed_order_strict();
    lemma_sorted_by_sorted(visible_summaries(c), listed_order());
    let l = spec_summaries(c);
    assert forall|i: int, j: int| 0 <= i < j < l.len() && (#[trigger] l[j]).connectable implies (#[trigger] l[i]).connectable by {
        assert(!listed_order()(l[j], l[i]));
    }
    assert forall|i: int, j: int|
        0 <= i < j < l.len() && (#[trigger] l[i]).connectable == (#[trigger] l[j]).connectable implies !seq_lt(
        lowercase(
            match l[j].name {
                Some(n) => n,
                None => l[j].id,
            },
        ),
        lowercase(
            match l[i].name {
                Some(n) => n,
                None => l[i].id,
            },
        ),
    ) by {
        assert(!listed_order()(l[j], l[i]));
    }
}

/// A device reached only over the network is described as "Network · "
/// followed by every one of its transports joined by " + " (for instance
/// "Network · Wi-Fi + RemotePairing"), and each transport it lists occurs
/// in that text; a device usbmuxd sees is described by usbmuxd's own label.
pub proof fn law_network_connection_names_every_transport(r: RecordView)
    ensures
        r.usb matches Some(u) ==> record_summary(r).connection == u.connection,
        r.usb is None && record_summary(r).transports.len() > 0 ==> record_summary(r).connection
            == "Network · "@ + join(record_summary(r).transports, " + "@),
        r.usb is None ==> forall|i: int|
            0 <= i < record_summary(r).transports.len() ==> occurs_in(
                #[trigger] record_summary(r).transports[i],
                record_summary(r).connection,
            ),
{
    if r.usb is None {
        let ts = record_summary(r).transports;
        assert(ts =~= network_labels(r.bonjour));
        lemma_prefixed_join_holds_each("Network · "@, ts, " + "@);
    }
}

/// After usbmuxd reports a device, one record describes it: the record keyed
/// by its UDID, which carries the USB route; no other record names the same
/// UDID or Wi-Fi MAC.
pub proof fn law_usb_observations_coalesce(c: Seq<RecordView>, d: UsbDiscoveryView)
    ensures
        ({
            let (after, rec) = spec_upsert_usb(c, d);
            &&& after.len() > 0
            &&& after.last() == rec
            &&& rec.id == d.udid
            &&& rec.usb == Some(d)
            &&& forall|k: int|
                0 <= k < after.len() - 1 ==> !record_matches(
                    #[trigger] after[k],
                    Some(d.udid),
                    normalized_mac_opt(d.wifi_address),
                    None,
                    Seq::empty(),
                )
        }),
{
    let wifi = normalized_mac_opt(d.wifi_address);
    let rest = c.filter(other_key(d.udid));
    lemma_filter_subset(rest, not_matching(Some(d.udid), wifi, None, Seq::empty()));
}

/// After Bonjour resolves an endpoint, one record describes it and holds the
/// endpoint; no other record names the same UDID, Wi-Fi MAC, host name or
/// address.
pub proof fn law_bonjour_observations_coalesce(c: Seq<RecordView>, e: EndpointView)
    ensures
        ({
            let (after, rec) = spec_upsert_bonjour(c, e);
            &&& after.len() > 0
            &&& after.last() == rec
            &&& rec.bonjour.contains(e)
            &&& forall|k: int|
                0 <= k < after.len() - 1 ==> !record_matches(
                    #[trigger] after[k],
                    e.udid,
                    normalized_mac_opt(e.wifi_address),
                    Some(e.hostname),
                    e.addresses,
                )
        }),
{
    let wifi = normalized_mac_opt(e.wifi_address);
    let n = not_matching(e.udid, wifi, Some(e.hostname), e.addresses);
    let f = c.filter(n);
    let key = spec_upsert_bonjour(c, e).1.id;
    lemma_filter_subset(c, n);
    lemma_filter_subset(f, other_key(key));
    let merged = absorb_all(
        empty_record(bonjour_fallback_key(e)),
        c.filter(matching(e.udid, wifi, Some(e.hostname), e.addresses)),
    );
    put_endpoint_contains(merged.bonjour, e);
    let g = f.filter(other_key(key));
    assert forall|k: int| 0 <= k < g.len() implies !record_matches(
        #[trigger] g[k],
        e.udid,
        wifi,
        Some(e.hostname),
        e.addresses,
    ) by {
        assert(f.contains(g[k]));
        let kk = choose|kk: int| 0 <= kk < f.len() && f[kk] == g[k];
        assert(n(f[kk]));
    }
}

proof fn put_endpoint_contains(bs: Seq<EndpointView>, e: EndpointView)
    ensures
        put_endpoint(bs, e).contains(e),
{
    if exists|i: int| 0 <= i < bs.len() && bs[i].fullname == e.fullname {
        let i = choose|i: int| 0 <= i < bs.len() && bs[i].fullname == e.fullname;
        assert(put_endpoint(bs, e)[i] == e);
    } else {
        assert(put_endpoint(bs, e)[bs.len() as int] == e);
    }
}

/// Losing the USB route keeps what the network knows: every record that has a
/// Bonjour endpoint is still there under its key, with the same endpoints and
/// pairing.
pub proof fn law_usb_removal_keeps_network_records(c: Seq<RecordView>, device_id: u32, k: int)
    requires
        0 <= k < c.len(),
        c[k].bonjour.len() > 0,
    ensures
        exists|m: int|
            0 <= m < spec_remove_usbmuxd(c, device_id).len() && (#[trigger] spec_remove_usbmuxd(
                c,
                device_id,
            )[m]).id == c[k].id && spec_remove_usbmuxd(c, device_id)[m].bonjour == c[k].bonjour
                && spec_remove_usbmuxd(c, device_id)[m].paired == c[k].paired,
{
    let r = spec_remove_usbmuxd(c, device_id);
    lemma_first_index_some(c, has_usb_device(device_id));
    match first_index(c, has_usb_device(device_id)) {
        Some(i) => {
            if i == k {
                assert(r[k].id == c[k].id);
            } else {
                let rv = RecordView { usb: None, ..c[i] };
                if rv.usb is None && rv.bonjour.len() == 0 {
                    let m = if k < i { k } else { k - 1 };
                    assert(r[m] == c[k]);
                } else {
                    assert(r[k] == c[k]);
                }
            }
        },
        None => {
            assert(r[k] == c[k]);
        },
    }
}

/// An empty usbmuxd snapshot drops every USB route and keeps every record that
/// a Bonjour endpoint still reaches, unchanged otherwise.
pub proof fn law_empty_snapshot_keeps_network_records(c: Seq<RecordView>)
    ensures
        spec_replace_usbmuxd(c, Seq::empty()) == clear_usb(c).filter(has_route()),
        forall|k: int|
            0 <= k < c.len() && (#[trigger] c[k]).bonjour.len() > 0 ==> spec_replace_usbmuxd(
                c,
                Seq::empty(),
            ).contains(RecordView { usb: None, ..c[k] }),
{
    broadcast use vstd::seq_lib::group_filter_ensures;

    assert forall|k: int| 0 <= k < c.len() && (#[trigger] c[k]).bonjour.len() > 0 implies spec_replace_usbmuxd(
        c,
        Seq::empty(),
    ).contains(RecordView { usb: None, ..c[k] }) by {
        let cl = clear_usb(c);
        assert(cl[k] == RecordView { usb: None, ..c[k] });
        assert(has_route()(cl[k]));
        assert(cl.contains(cl[k]));
    }
}

/// Every USB route held in `c` is one of `ds`.
pub open spec fn usb_routes_within(c: Seq<RecordView>, ds: Seq<UsbDiscoveryView>) -> bool {
    forall|i: int|
        0 <= i < c.len() && (#[trigger] c[i]).usb is Some ==> ds.contains(c[i].usb->0)
}

proof fn lemma_filter_keeps_routes_within(
    c: Seq<RecordView>,
    ds: Seq<UsbDiscoveryView>,
    p: spec_fn(RecordView) -> bool,
)
    requires
        usb_routes_within(c, ds),
    ensures
        usb_routes_within(c.filter(p), ds),
{
    broadcast use vstd::seq_lib::group_filter_ensures;

    let f = c.filter(p);
    assert forall|i: int| 0 <= i < f.len() && (#[trigger] f[i]).usb is Some implies ds.contains(
        f[i].usb->0,
    ) by {
        assert(f.contains(f[i]));
        c.lemma_filter_contains_rev(p, f[i]);
        let j = choose|j: int| 0 <= j < c.len() && c[j] == f[i];
        assert(c[j].usb is Some);
    }
}

proof fn lemma_upsert_usb_routes_within(c: Seq<RecordView>, ds: Seq<UsbDiscoveryView>, d: UsbDiscoveryView)
    requires
        usb_routes_within(c, ds),
        ds.contains(d),
    ensures
        usb_routes_within(spec_upsert_usb(c, d).0, ds),
{
    let wifi = normalized_mac_opt(d.wifi_address);
    let rest = c.filter(other_key(d.udid));
    let kept = rest.filter(not_matching(Some(d.udid), wifi, None, Seq::empty()));
    lemma_filter_keeps_routes_within(c, ds, other_key(d.udid));
    lemma_filter_keeps_routes_within(rest, ds, not_matching(Some(d.udid), wifi, None, Seq::empty()));
    let r = spec_upsert_usb(c, d).0;
    let rec = spec_upsert_usb(c, d).1;
    assert(r == kept.push(rec));
    assert forall|i: int| 0 <= i < r.len() && (#[trigger] r[i]).usb is Some implies ds.contains(
        r[i].usb->0,
    ) by {
        if i < kept.len() {
            assert(r[i] == kept[i]);
        } else {
            assert(r[i] == rec);
        }
    }
}

proof fn lemma_upsert_usb_all_routes_within(c: Seq<RecordView>, ds: Seq<UsbDiscoveryView>)
    requires
        usb_routes_within(c, Seq::empty()),
    ensures
        usb_routes_within(upsert_usb_all(c, ds), ds),
    decreases ds.len(),
{
    if ds.len() > 0 {
        let front = ds.drop_last();
        lemma_upsert_usb_all_routes_within(c, front);
        let mid = upsert_usb_all(c, front);
        assert forall|i: int| 0 <= i < mid.len() && (#[trigger] mid[i]).usb is Some implies ds.contains(
            mid[i].usb->0,
        ) by {
            let j = choose|j: int| 0 <= j < front.len() && front[j] == mid[i].usb->0;
            assert(ds[j] == front[j]);
        }
        assert(ds.contains(ds.last())) by {
            assert(ds[ds.len() - 1] == ds.last());
        }
        lemma_upsert_usb_routes_within(mid, ds, ds.last());
    }
}

/// After usbmuxd's snapshot `ds` replaces the previous one, every USB route
/// the catalog holds is a device of `ds`: no route of an earlier snapshot
/// survives.
pub proof fn law_replaced_usb_routes_come_from_snapshot(c: Seq<RecordView>, ds: Seq<UsbDiscoveryView>)
    ensures
        usb_routes_within(spec_replace_usbmuxd(c, ds), ds),
{
    let cl = clear_usb(c);
    assert(usb_routes_within(cl, Seq::empty()));
    lemma_upsert_usb_all_routes_within(cl, ds);
    lemma_filter_keeps_routes_within(upsert_usb_all(cl, ds), ds, has_route());
}

/// After a non-empty usbmuxd snapshot `ds` replaces the previous one, the
/// catalog holds a record whose USB route is the last device of `ds`.
pub proof fn law_replaced_snapshot_last_device_routable(c: Seq<RecordView>, ds: Seq<UsbDiscoveryView>)
    requires
        ds.len() > 0,
    ensures
        exists|i: int|
            0 <= i < spec_replace_usbmuxd(c, ds).len() && (#[trigger] spec_replace_usbmuxd(c, ds)[i]).usb
                == Some(ds.last()),
{
    broadcast use vstd::seq_lib::group_filter_ensures;

    let all = upsert_usb_all(clear_usb(c), ds);
    let k = all.len() - 1;
    assert(all[k].usb == Some(ds.last()));
    assert(has_route()(all[k]));
    let r = spec_replace_usbmuxd(c, ds);
    assert(r.contains(all[k]));
    let i = choose|i: int| 0 <= i < r.len() && r[i] == all[k];
    assert(r[i].usb == Some(ds.last()));
}

/// A resolved service's addresses are listed in ascending order, each one as
/// often as the service reported it.
pub proof fn law_resolved_addresses_sorted(
    fullname: Seq<char>,
    service_type: Seq<char>,
    hostname: Seq<char>,
    port: u16,
    addresses: Seq<Seq<char>>,
    props: Seq<Option<Seq<char>>>,
)
    ensures
        is_sorted_by(
            spec_from_resolved(fullname, service_type, hostname, port, addresses, props).addresses,
            string_order(),
        ),
        spec_from_resolved(fullname, service_type, hostname, port, addresses, props).addresses.to_multiset()
            == addresses.to_multiset(),
{
    lemma_string_order_strict();
    lemma_sorted_by_sorted(addresses, string_order());
    lemma_sorted_by_permutes(addresses, string_order());
}

/// A record seen only through RemotePairing endpoints, without usbmuxd, is
/// not listed: nothing identifies it to the user.
pub proof fn law_remote_pairing_only_hidden(r: RecordView)
    requires
        r.usb is None,
        forall|i: int| 0 <= i < r.bonjour.len() ==> (#[trigger] r.bonjour[i]).service_type
            == REMOTE_PAIRING_SERVICE@,
    ensures
        !record_visible(r),
{
    reveal_strlit("_remotepairing._tcp.local.");
    reveal_strlit("_apple-mobdev2._tcp.local.");
    reveal_strlit("_remotepairing-manual-pairing._tcp.local.");
    assert forall|i: int| 0 <= i < r.bonjour.len() implies !is_mobdev2(#[trigger] r.bonjour[i].service_type)
        && !is_manual_pairing(r.bonjour[i].service_type) by {
        let t = r.bonjour[i].service_type;
        assert(t[1] == 'r');
        assert(MOBDEV2_SERVICE@[1] == 'a');
        assert(t.len() == 26);
        assert(REMOTE_PAIRING_MANUAL_SERVICE@.len() == 41);
    }
}

proof fn lemma_mac_digits_canonical(s: Seq<char>)
    requires
        forall|i: int| 0 <= i < s.len() ==> is_ascii_hexdigit(#[trigger] s[i]) && ascii_upper(s[i]) == s[i],
    ensures
        mac_digits(s) == s,
    decreases s.len(),
{
    if s.len() > 0 {
        lemma_mac_digits_canonical(s.drop_last());
        assert(mac_digits(s.drop_last()).push(ascii_upper(s.last())) =~= s);
    }
}

proof fn lemma_mac_digits_upper(s: Seq<char>)
    ensures
        forall|i: int| 0 <= i < mac_digits(s).len() ==> is_ascii_hexdigit(#[trigger] mac_digits(s)[i])
            && ascii_upper(mac_digits(s)[i]) == mac_digits(s)[i],
    decreases s.len(),
{
    if s.len() > 0 {
        lemma_mac_digits_upper(s.drop_last());
        let p = mac_digits(s.drop_last());
        if is_ascii_hexdigit(s.last()) {
            let c = s.last();
            let u = ascii_upper(c);
            assert(is_ascii_hexdigit(u) && ascii_upper(u) == u);
            assert forall|i: int| 0 <= i < mac_digits(s).len() implies is_ascii_hexdigit(
                #[trigger] mac_digits(s)[i],
            ) && ascii_upper(mac_digits(s)[i]) == mac_digits(s)[i] by {
                if i < p.len() {
                    assert(mac_digits(s)[i] == p[i]);
                }
            }
        }
    }
}

/// A normalized Wi-Fi MAC address normalizes to itself: the canonical form
/// is stable, so addresses compare equal however often they are normalized.
pub proof fn law_normalized_mac_is_canonical(s: Seq<char>)
    ensures
        normalized_mac(s) matches Some(m) ==> normalized_mac(m) == Some(m),
{
    lemma_mac_digits_upper(s);
    if mac_digits(s).len() == 12 {
        lemma_mac_digits_canonical(mac_digits(s));
    }
}


// ---------------------------------------------------------------------------
// Records stay consistent with their UDID
// ---------------------------------------------------------------------------

/// A record's identity agrees with its UDID: a record usbmuxd reaches knows
/// its UDID, and a record that knows its UDID is filed under it.
pub open spec fn record_consistent(r: RecordView) -> bool {
    &&& r.usb is Some ==> r.udid is Some
    &&& r.udid matches Some(u) ==> r.id == u
}

/// Every record of the catalog is consistent. The empty catalog is, and every
/// public change of a catalog keeps it so.
pub open spec fn catalog_consistent(c: Seq<RecordView>) -> bool {
    forall|i: int| 0 <= i < c.len() ==> record_consistent(#[trigger] c[i])
}

proof fn lemma_filter_consistent(c: Seq<RecordView>, p: spec_fn(RecordView) -> bool)
    requires
        catalog_consistent(c),
    ensures
        catalog_consistent(c.filter(p)),
{
    lemma_filter_subset(c, p);
    assert forall|i: int| 0 <= i < c.filter(p).len() implies record_consistent(#[trigger] c.filter(p)[i]) by {
        assert(c.contains(c.filter(p)[i]));
    }
}

proof fn lemma_push_consistent(c: Seq<RecordView>, r: RecordView)
    requires
        catalog_consistent(c),
        record_consistent(r),
    ensures
        catalog_consistent(c.push(r)),
{
    assert forall|i: int| 0 <= i < c.push(r).len() implies record_consistent(#[trigger] c.push(r)[i]) by {
        if i < c.len() {
            assert(c.push(r)[i] == c[i]);
        }
    }
}

proof fn lemma_replace_or_drop_consistent(c: Seq<RecordView>, k: int, r: RecordView)
    requires
        catalog_consistent(c),
        0 <= k < c.len(),
        record_consistent(r),
    ensures
        catalog_consistent(replace_or_drop(c, k, r)),
{
    let d = replace_or_drop(c, k, r);
    if r.usb is None && r.bonjour.len() == 0 {
        assert forall|i: int| 0 <= i < d.len() implies record_consistent(#[trigger] d[i]) by {
            if i < k {
                assert(d[i] == c[i]);
            } else {
                assert(d[i] == c[i + 1]);
            }
        }
    } else {
        assert forall|i: int| 0 <= i < d.len() implies record_consistent(#[trigger] d[i]) by {
            if i != k {
                assert(d[i] == c[i]);
            }
        }
    }
}

/// Absorbing records that reach usbmuxd only with their UDID keeps that.
proof fn lemma_absorb_all_usb_udid(base: RecordView, others: Seq<RecordView>)
    requires
        base.usb is Some ==> base.udid is Some,
        forall|i: int| 0 <= i < others.len() ==> record_consistent(#[trigger] others[i]),
    ensures
        absorb_all(base, others).usb is Some ==> absorb_all(base, others).udid is Some,
    decreases others.len(),
{
    if others.len() > 0 {
        let d = others.drop_last();
        assert forall|i: int| 0 <= i < d.len() implies record_consistent(#[trigger] d[i]) by {
            assert(d[i] == others[i]);
        }
        lemma_absorb_all_usb_udid(base, d);
        assert(record_consistent(others[others.len() - 1]));
    }
}

proof fn lemma_upsert_usb_consistent(c: Seq<RecordView>, d: UsbDiscoveryView)
    requires
        catalog_consistent(c),
    ensures
        catalog_consistent(spec_upsert_usb(c, d).0),
{
    let wifi = normalized_mac_opt(d.wifi_address);
    let rest = c.filter(other_key(d.udid));
    lemma_filter_consistent(c, other_key(d.udid));
    lemma_filter_consistent(rest, not_matching(Some(d.udid), wifi, None, Seq::empty()));
    lemma_push_consistent(
        rest.filter(not_matching(Some(d.udid), wifi, None, Seq::empty())),
        spec_upsert_usb(c, d).1,
    );
}

proof fn lemma_upsert_bonjour_consistent(c: Seq<RecordView>, e: EndpointView)
    requires
        catalog_consistent(c),
    ensures
        catalog_consistent(spec_upsert_bonjour(c, e).0),
{
    let wifi = normalized_mac_opt(e.wifi_address);
    let fallback = bonjour_fallback_key(e);
    let matched = c.filter(matching(e.udid, wifi, Some(e.hostname), e.addresses));
    lemma_filter_consistent(c, matching(e.udid, wifi, Some(e.hostname), e.addresses));
    lemma_absorb_all_usb_udid(empty_record(fallback), matched);
    let r = spec_upsert_bonjour(c, e).1;
    assert(record_consistent(r));
    let kept = c.filter(not_matching(e.udid, wifi, Some(e.hostname), e.addresses));
    lemma_filter_consistent(c, not_matching(e.udid, wifi, Some(e.hostname), e.addresses));
    lemma_filter_consistent(kept, other_key(r.id));
    lemma_push_consistent(kept.filter(other_key(r.id)), r);
}

proof fn lemma_remove_usbmuxd_consistent(c: Seq<RecordView>, device_id: u32)
    requires
        catalog_consistent(c),
    ensures
        catalog_consistent(spec_remove_usbmuxd(c, device_id)),
{
    lemma_first_index_some(c, has_usb_device(device_id));
    if let Some(k) = first_index(c, has_usb_device(device_id)) {
        assert(record_consistent(c[k]));
        lemma_replace_or_drop_consistent(c, k, RecordView { usb: None, ..c[k] });
    }
}

proof fn lemma_remove_bonjour_consistent(c: Seq<RecordView>, name: Seq<char>)
    requires
        catalog_consistent(c),
    ensures
        catalog_consistent(spec_remove_bonjour(c, name)),
{
    lemma_first_index_some(c, has_endpoint_named(name));
    if let Some(k) = first_index(c, has_endpoint_named(name)) {
        let r = c[k];
        assert(record_consistent(r));
        if let Some(j) = first_index(r.bonjour, endpoint_named(name)) {
            lemma_replace_or_drop_consistent(c, k, RecordView { bonjour: r.bonjour.remove(j), ..r });
        }
    }
}

proof fn lemma_upsert_usb_all_consistent(c: Seq<RecordView>, ds: Seq<UsbDiscoveryView>)
    requires
        catalog_consistent(c),
    ensures
        catalog_consistent(upsert_usb_all(c, ds)),
    decreases ds.len(),
{
    if ds.len() > 0 {
        lemma_upsert_usb_all_consistent(c, ds.drop_last());
        lemma_upsert_usb_consistent(upsert_usb_all(c, ds.drop_last()), ds.last());
    }
}

proof fn lemma_replace_usbmuxd_consistent(c: Seq<RecordView>, ds: Seq<UsbDiscoveryView>)
    requires
        catalog_consistent(c),
    ensures
        catalog_consistent(spec_replace_usbmuxd(c, ds)),
{
    let cleared = clear_usb(c);
    assert forall|i: int| 0 <= i < cleared.len() implies record_consistent(#[trigger] cleared[i]) by {
        assert(record_consistent(c[i]));
    }
    lemma_upsert_usb_all_consistent(cleared, ds);
    lemma_filter_consistent(upsert_usb_all(cleared, ds), has_route());
}

/// Distinct ids in a sequence of summaries.
pub open spec fn summary_ids_distinct(s: Seq<DeviceSummaryView>) -> bool {
    forall|i: int, j: int| 0 <= i < s.len() && 0 <= j < s.len() && i != j ==> s[i].id != s[j].id
}

proof fn lemma_visible_summaries_of_records(c: Seq<RecordView>)
    requires
        catalog_wf(c),
    ensures
        summary_ids_distinct(visible_summaries(c)),
        forall|k: int| 0 <= k < visible_summaries(c).len() ==> exists|i: int|
            0 <= i < c.len() && #[trigger] visible_summaries(c)[k] == record_summary(c[i]),
    decreases c.len(),
{
    if c.len() > 0 {
        let d = c.drop_last();
        assert(catalog_wf(d)) by {
            assert forall|i: int| 0 <= i < d.len() implies endpoints_unique(#[trigger] d[i].bonjour) by {
                assert(d[i] == c[i]);
            }
        }
        lemma_visible_summaries_of_records(d);
        let v = visible_summaries(d);
        let w = visible_summaries(c);
        assert forall|k: int| 0 <= k < v.len() implies exists|i: int|
            0 <= i < c.len() && #[trigger] v[k] == record_summary(c[i]) by {
            let i = choose|i: int| 0 <= i < d.len() && v[k] == record_summary(d[i]);
            assert(d[i] == c[i]);
        }
        if record_visible(c.last()) {
            let x = record_summary(c.last());
            assert(w == v.push(x));
            assert forall|k: int| 0 <= k < v.len() implies v[k].id != x.id by {
                let i = choose|i: int| 0 <= i < d.len() && v[k] == record_summary(d[i]);
                assert(d[i] == c[i]);
                assert(c[i].id != c[c.len() - 1].id);
            }
            assert forall|k: int| 0 <= k < w.len() implies exists|i: int|
                0 <= i < c.len() && #[trigger] w[k] == record_summary(c[i]) by {
                if k < v.len() {
                    assert(w[k] == v[k]);
                } else {
                    assert(w[k] == record_summary(c[c.len() - 1]));
                }
            }
            assert forall|a: int, b: int| 0 <= a < w.len() && 0 <= b < w.len() && a != b implies w[a].id
                != w[b].id by {
                if a < v.len() && b < v.len() {
                    assert(w[a] == v[a] && w[b] == v[b]);
                } else if a < v.len() {
                    assert(w[a] == v[a] && w[b] == x);
                } else {
                    assert(w[b] == v[b] && w[a] == x);
                }
            }
        }
    }
}

proof fn lemma_sorted_summaries(s: Seq<DeviceSummaryView>, lt: spec_fn(DeviceSummaryView, DeviceSummaryView) -> bool)
    requires
        summary_ids_distinct(s),
    ensures
        summary_ids_distinct(sorted_by(s, lt)),
        forall|k: int| 0 <= k < sorted_by(s, lt).len() ==> s.contains(#[trigger] sorted_by(s, lt)[k]),
    decreases s.len(),
{
    if s.len() > 0 {
        let d = s.drop_last();
        let x = s.last();
        assert(summary_ids_distinct(d)) by {
            assert forall|i: int, j: int| 0 <= i < d.len() && 0 <= j < d.len() && i != j implies d[i].id
                != d[j].id by {
                assert(d[i] == s[i] && d[j] == s[j]);
            }
        }
        lemma_sorted_summaries(d, lt);
        let t = sorted_by(d, lt);
        let r = sorted_by(s, lt);
        assert(r == inserted_by(t, x, lt));
        let p: int = match first_index(t, precedes(x, lt)) {
            Some(p) => p,
            None => t.len() as int,
        };
        lemma_first_index_some(t, precedes(x, lt));
        assert(r =~= t.insert(p, x));
        assert forall|k: int| 0 <= k < t.len() implies t[k].id != x.id by {
            assert(d.contains(t[k]));
            let i = choose|i: int| 0 <= i < d.len() && d[i] == t[k];
            assert(s[i] == d[i]);
            assert(s[s.len() - 1] == x);
        }
        assert forall|k: int| 0 <= k < r.len() implies s.contains(#[trigger] r[k]) by {
            if k < p {
                assert(r[k] == t[k]);
                let i = choose|i: int| 0 <= i < d.len() && d[i] == t[k];
                assert(s[i] == d[i]);
            } else if k == p {
                assert(s[s.len() - 1] == x);
            } else {
                assert(r[k] == t[k - 1]);
                assert(d.contains(t[k - 1]));
                let i = choose|i: int| 0 <= i < d.len() && d[i] == t[k - 1];
                assert(s[i] == d[i]);
            }
        }
        assert forall|a: int, b: int| 0 <= a < r.len() && 0 <= b < r.len() && a != b implies r[a].id
            != r[b].id by {
            let ia: int = if a < p { a } else { a - 1 };
            let ib: int = if b < p { b } else { b - 1 };
            if a != p && b != p {
                assert(r[a] == t[ia] && r[b] == t[ib]);
            } else if a == p {
                assert(r[b] == t[ib]);
            } else {
                assert(r[a] == t[ia]);
            }
        }
    }
}

proof fn lemma_listed_records(c: Seq<RecordView>)
    requires
        catalog_wf(c),
    ensures
        summary_ids_distinct(spec_summaries(c)),
        forall|k: int| 0 <= k < spec_summaries(c).len() ==> exists|i: int|
            0 <= i < c.len() && #[trigger] spec_summaries(c)[k] == record_summary(c[i]),
{
    lemma_visible_summaries_of_records(c);
    lemma_sorted_summaries(visible_summaries(c), listed_order());
    let v = visible_summaries(c);
    assert forall|k: int| 0 <= k < spec_summaries(c).len() implies exists|i: int|
        0 <= i < c.len() && #[trigger] spec_summaries(c)[k] == record_summary(c[i]) by {
        assert(v.contains(spec_summaries(c)[k]));
        let j = choose|j: int| 0 <= j < v.len() && v[j] == spec_summaries(c)[k];
        assert(exists|i: int| 0 <= i < c.len() && v[j] == record_summary(c[i]));
    }
}

/// The device list names each device once: its ids are distinct, each is the
/// key of a record of the catalog (so `contains` finds it), and a summary
/// that carries a UDID is listed under it. Every `DiscoveryCatalog` meets the
/// requirements: they are its type invariant, which `check_valid` states.
pub proof fn law_device_list_ids(c: Seq<RecordView>)
    requires
        catalog_wf(c),
        catalog_consistent(c),
    ensures
        summary_ids_distinct(spec_summaries(c)),
        forall|k: int| 0 <= k < spec_summaries(c).len() ==> exists|i: int|
            0 <= i < c.len() && c[i].id == (#[trigger] spec_summaries(c)[k]).id,
        forall|k: int|
            0 <= k < spec_summaries(c).len() && (#[trigger] spec_summaries(c)[k]).udid.len() > 0
                ==> spec_summaries(c)[k].id == spec_summaries(c)[k].udid,
{
    lemma_listed_records(c);
    assert forall|k: int| 0 <= k < spec_summaries(c).len() implies exists|i: int|
        0 <= i < c.len() && c[i].id == (#[trigger] spec_summaries(c)[k]).id by {
        let i = choose|i: int| 0 <= i < c.len() && spec_summaries(c)[k] == record_summary(c[i]);
        assert(c[i].id == spec_summaries(c)[k].id);
    }
    assert forall|k: int|
        0 <= k < spec_summaries(c).len() && (#[trigger] spec_summaries(c)[k]).udid.len() > 0
            implies spec_summaries(c)[k].id == spec_summaries(c)[k].udid by {
        let i = choose|i: int| 0 <= i < c.len() && spec_summaries(c)[k] == record_summary(c[i]);
        assert(record_consistent(c[i]));
    }
}

/// A listed device is connectable exactly when `connectable_udid` finds a
/// Lockdown route for its id, and that route opens the UDID it shows; as
/// above, this holds of every `DiscoveryCatalog`.
pub proof fn law_connectable_matches_lookup(c: Seq<RecordView>)
    requires
        catalog_wf(c),
        catalog_consistent(c),
    ensures
        forall|k: int| 0 <= k < spec_summaries(c).len() ==> {
            let s = #[trigger] spec_summaries(c)[k];
            &&& s.connectable == spec_connectable_udid(c, s.id) is Some
            &&& s.connectable ==> spec_connectable_udid(c, s.id) == Some(s.udid)
        },
{
    lemma_listed_records(c);
    assert forall|k: int| 0 <= k < spec_summaries(c).len() implies {
        let s = #[trigger] spec_summaries(c)[k];
        &&& s.connectable == spec_connectable_udid(c, s.id) is Some
        &&& s.connectable ==> spec_connectable_udid(c, s.id) == Some(s.udid)
    } by {
        let s = spec_summaries(c)[k];
        let i = choose|i: int| 0 <= i < c.len() && spec_summaries(c)[k] == record_summary(c[i]);
        assert(record_consistent(c[i]));
        assert forall|j: int| 0 <= j < i implies !has_key(s.id)(c[j]) by {
            assert(c[j].id != c[i].id);
        }
        assert(has_key(s.id)(c[i]));
        lemma_first_index_is(c, has_key(s.id), i);
    }
}


// ---------------------------------------------------------------------------
// Repeated and reverted Bonjour observations
// ---------------------------------------------------------------------------

proof fn lemma_filter_all<A>(s: Seq<A>, p: spec_fn(A) -> bool)
    requires
        forall|i: int| 0 <= i < s.len() ==> p(#[trigger] s[i]),
    ensures
        s.filter(p) == s,
    decreases s.len(),
{
    if s.len() > 0 {
        let d = s.drop_last();
        assert forall|i: int| 0 <= i < d.len() implies p(#[trigger] d[i]) by {
            assert(d[i] == s[i]);
        }
        lemma_filter_all(d, p);
        d.lemma_filter_push(s.last(), p);
        assert(p(s[s.len() - 1]));
        assert(d.push(s.last()) =~= s);
    }
}

proof fn lemma_filter_none<A>(s: Seq<A>, p: spec_fn(A) -> bool)
    requires
        forall|i: int| 0 <= i < s.len() ==> !p(#[trigger] s[i]),
    ensures
        s.filter(p) == Seq::<A>::empty(),
    decreases s.len(),
{
    if s.len() == 0 {
        assert(s.filter(p) =~= Seq::<A>::empty()) by {
            reveal(Seq::filter);
        }
    } else {
        let d = s.drop_last();
        assert forall|i: int| 0 <= i < d.len() implies !p(#[trigger] d[i]) by {
            assert(d[i] == s[i]);
        }
        lemma_filter_none(d, p);
        d.lemma_filter_push(s.last(), p);
        assert(!p(s[s.len() - 1]));
        assert(d.push(s.last()) =~= s);
    }
}

proof fn lemma_absorb_all_unique(base: RecordView, others: Seq<RecordView>)
    requires
        endpoints_unique(base.bonjour),
    ensures
        endpoints_unique(absorb_all(base, others).bonjour),
    decreases others.len(),
{
    if others.len() > 0 {
        lemma_absorb_all_unique(base, others.drop_last());
        lemma_put_endpoints_unique(absorb_all(base, others.drop_last()).bonjour, others.last().bonjour);
    }
}

proof fn lemma_put_endpoints_into_empty(bs: Seq<EndpointView>)
    requires
        endpoints_unique(bs),
    ensures
        put_endpoints(Seq::<EndpointView>::empty(), bs) == bs,
    decreases bs.len(),
{
    if bs.len() > 0 {
        let d = bs.drop_last();
        assert(endpoints_unique(d)) by {
            assert forall|i: int, j: int| 0 <= i < d.len() && 0 <= j < d.len() && i != j implies d[i].fullname
                != d[j].fullname by {
                assert(d[i] == bs[i] && d[j] == bs[j]);
            }
        }
        lemma_put_endpoints_into_empty(d);
        assert(!(exists|i: int| 0 <= i < d.len() && d[i].fullname == bs.last().fullname)) by {
            if exists|i: int| 0 <= i < d.len() && d[i].fullname == bs.last().fullname {
                let i = choose|i: int| 0 <= i < d.len() && d[i].fullname == bs.last().fullname;
                assert(d[i] == bs[i]);
                assert(bs[bs.len() - 1] == bs.last());
            }
        }
        assert(d.push(bs.last()) =~= bs);
    }
}

proof fn lemma_put_endpoint_present(bs: Seq<EndpointView>, e: EndpointView, j: int)
    requires
        endpoints_unique(bs),
        0 <= j < bs.len(),
        bs[j] == e,
    ensures
        put_endpoint(bs, e) == bs,
{
    assert(exists|i: int| 0 <= i < bs.len() && bs[i].fullname == e.fullname);
    let i = choose|i: int| 0 <= i < bs.len() && bs[i].fullname == e.fullname;
    assert(i == j);
    assert(bs.update(j, e) =~= bs);
}

/// A Bonjour resolve repeated for the same endpoint changes nothing: the
/// catalog stays as the first resolve left it, and the device it reports is
/// the same.
pub proof fn law_repeated_resolve_changes_nothing(c: Seq<RecordView>, e: EndpointView)
    ensures
        spec_upsert_bonjour(spec_upsert_bonjour(c, e).0, e) == spec_upsert_bonjour(c, e),
        record_summary(spec_upsert_bonjour(spec_upsert_bonjour(c, e).0, e).1) == record_summary(
            spec_upsert_bonjour(c, e).1,
        ),
{
    let wifi = normalized_mac_opt(e.wifi_address);
    let fallback = bonjour_fallback_key(e);
    let m = matching(e.udid, wifi, Some(e.hostname), e.addresses);
    let nm = not_matching(e.udid, wifi, Some(e.hostname), e.addresses);
    let merged = absorb_all(empty_record(fallback), c.filter(m));
    lemma_absorb_all_unique(empty_record(fallback), c.filter(m));
    lemma_put_endpoint_unique(merged.bonjour, e);
    let (c1, rec) = spec_upsert_bonjour(c, e);
    let key = rec.id;
    let kept = c.filter(nm);
    let k1 = kept.filter(other_key(key));
    assert(c1 == k1.push(rec));
    // The record holds the endpoint, so it matches; nothing else does.
    let j = choose|j: int| 0 <= j < rec.bonjour.len() && rec.bonjour[j] == e;
    assert(endpoint_matches(rec.bonjour[j], Some(e.hostname), e.addresses));
    assert(m(rec));
    lemma_filter_subset(c, nm);
    lemma_filter_subset(kept, other_key(key));
    assert forall|i: int| 0 <= i < k1.len() implies nm(#[trigger] k1[i]) && other_key(key)(k1[i]) by {
        assert(kept.contains(k1[i]));
    }
    assert forall|i: int| 0 <= i < k1.len() implies !m(#[trigger] k1[i]) by {
        assert(nm(k1[i]));
    }
    lemma_filter_none(k1, m);
    k1.lemma_filter_push(rec, m);
    let matched1 = c1.filter(m);
    assert(matched1 =~= seq![rec]);
    // Absorbing the one record into a fresh one gives back its fields.
    let merged1 = absorb_all(empty_record(fallback), matched1);
    assert(matched1.drop_last() =~= Seq::<RecordView>::empty());
    assert(absorb_all(empty_record(fallback), matched1.drop_last()) == empty_record(fallback));
    assert(merged1 == absorb(empty_record(fallback), rec));
    lemma_put_endpoints_into_empty(rec.bonjour);
    lemma_put_endpoint_present(rec.bonjour, e, j);
    let rec1 = spec_upsert_bonjour(c1, e).1;
    assert(rec1.bonjour == rec.bonjour);
    assert(rec1 == rec);
    // The rest of the catalog passes both filters unchanged.
    lemma_filter_all(k1, nm);
    k1.lemma_filter_push(rec, nm);
    assert(c1.filter(nm) == k1);
    lemma_filter_all(k1, other_key(key));
    assert(spec_upsert_bonjour(c1, e).0 == k1.push(rec));
}

proof fn lemma_fresh_upsert(c: Seq<RecordView>, e: EndpointView)
    requires
        forall|i: int|
            0 <= i < c.len() ==> !record_matches(
                #[trigger] c[i],
                e.udid,
                normalized_mac_opt(e.wifi_address),
                Some(e.hostname),
                e.addresses,
            ),
        forall|i: int| 0 <= i < c.len() ==> (#[trigger] c[i]).id != bonjour_fallback_key(e),
    ensures
        spec_upsert_bonjour(c, e).0 == c.push(spec_upsert_bonjour(c, e).1),
        spec_upsert_bonjour(c, e).1.bonjour == seq![e],
        spec_upsert_bonjour(c, e).1.usb is None,
{
    let wifi = normalized_mac_opt(e.wifi_address);
    let fallback = bonjour_fallback_key(e);
    let m = matching(e.udid, wifi, Some(e.hostname), e.addresses);
    let nm = not_matching(e.udid, wifi, Some(e.hostname), e.addresses);
    assert forall|i: int| 0 <= i < c.len() implies !m(#[trigger] c[i]) by {}
    lemma_filter_none(c, m);
    assert(absorb_all(empty_record(fallback), c.filter(m)) == empty_record(fallback));
    assert(put_endpoint(Seq::<EndpointView>::empty(), e) =~= seq![e]);
    let rec = spec_upsert_bonjour(c, e).1;
    assert(rec.id == fallback);
    assert forall|i: int| 0 <= i < c.len() implies nm(#[trigger] c[i]) by {}
    lemma_filter_all(c, nm);
    assert forall|i: int| 0 <= i < c.len() implies other_key(fallback)(#[trigger] c[i]) by {}
    lemma_filter_all(c, other_key(fallback));
}

proof fn lemma_remove_fresh(c: Seq<RecordView>, rec: RecordView, name: Seq<char>)
    requires
        forall|i: int| 0 <= i < c.len() ==> !has_endpoint_named(name)(#[trigger] c[i]),
        rec.bonjour.len() == 1,
        rec.bonjour[0].fullname == name,
        rec.usb is None,
    ensures
        spec_remove_bonjour(c.push(rec), name) == c,
{
    let c1 = c.push(rec);
    let p = has_endpoint_named(name);
    assert(p(rec)) by {
        assert(rec.bonjour[0].fullname == name);
    }
    assert forall|j: int| 0 <= j < c.len() implies !p(#[trigger] c1[j]) by {
        assert(c1[j] == c[j]);
    }
    assert(c1[c.len() as int] == rec);
    lemma_first_index_is(c1, p, c.len() as int);
    assert(endpoint_named(name)(rec.bonjour[0]));
    lemma_first_index_is(rec.bonjour, endpoint_named(name), 0);
    assert(rec.bonjour.remove(0) =~= Seq::<EndpointView>::empty());
    assert(c1.remove(c.len() as int) =~= c);
}

/// A device seen on the network for the first time and then lost leaves the
/// catalog as it was: resolving an endpoint that no record describes, under a
/// key no record has, and then removing it restores every record.
pub proof fn law_fresh_endpoint_round_trip(c: Seq<RecordView>, e: EndpointView)
    requires
        forall|i: int|
            0 <= i < c.len() ==> !record_matches(
                #[trigger] c[i],
                e.udid,
                normalized_mac_opt(e.wifi_address),
                Some(e.hostname),
                e.addresses,
            ),
        forall|i: int| 0 <= i < c.len() ==> !has_endpoint_named(e.fullname)(#[trigger] c[i]),
        forall|i: int| 0 <= i < c.len() ==> (#[trigger] c[i]).id != bonjour_fallback_key(e),
    ensures
        spec_remove_bonjour(spec_upsert_bonjour(c, e).0, e.fullname) == c,
        spec_summaries(spec_remove_bonjour(spec_upsert_bonjour(c, e).0, e.fullname)) == spec_summaries(c),
{
    lemma_fresh_upsert(c, e);
    let rec = spec_upsert_bonjour(c, e).1;
    lemma_remove_fresh(c, rec, e.fullname);
}

} // verus!
