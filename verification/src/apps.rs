//! The installed-apps list: which apps appear, under what name and size, in
//! what order, and the icons and progress reports that go with it.
use vstd::prelude::*;

use crate::plist_data::{
    dict_string, dict_u64, keys_view, spec_dict_string, spec_dict_u64, PlistDict,
};
use crate::seqs::sorted_by;
use crate::sorting::{key_before, ordered_by_key, sort_by_key};
use crate::text::{
    append_str, ascii_lowercase, ascii_lowercase_chars, chars_of, copy_str, lowercase, str_eq,
    string_of, to_lowercase,
};
use crate::types::OperationProgress;

verus! {

/// The standard base64 alphabet (RFC 4648): `A`–`Z`, `a`–`z`, `0`–`9`, `+`, `/`.
pub open spec fn base64_digit(v: int) -> char {
    if v < 26 {
        (v + 65) as char
    } else if v < 52 {
        (v - 26 + 97) as char
    } else if v < 62 {
        (v - 52 + 48) as char
    } else if v == 62 {
        '+'
    } else {
        '/'
    }
}

/// Padded standard base64 (RFC 4648): each group of three bytes as four
/// digits of six bits, a last group of one or two bytes padded with `=`.
pub open spec fn base64_standard(b: Seq<u8>) -> Seq<char>
    decreases b.len(),
{
    let x: int = if b.len() > 0 { b[0] as int } else { 0 };
    let y: int = if b.len() > 1 { b[1] as int } else { 0 };
    let z: int = if b.len() > 2 { b[2] as int } else { 0 };
    if b.len() == 0 {
        Seq::empty()
    } else if b.len() == 1 {
        seq![base64_digit(x / 4), base64_digit((x % 4) * 16), '=', '=']
    } else if b.len() == 2 {
        seq![base64_digit(x / 4), base64_digit((x % 4) * 16 + y / 16), base64_digit((y % 16) * 4), '=']
    } else {
        seq![
            base64_digit(x / 4),
            base64_digit((x % 4) * 16 + y / 16),
            base64_digit((y % 16) * 4 + z / 64),
            base64_digit(z % 64),
        ] + base64_standard(b.skip(3))
    }
}

/// Padded standard base64 (the `base64` crate's `STANDARD` engine, which
/// encodes with the RFC 4648 alphabet and pads with `=`).
#[verifier::external_body]
pub(crate) fn encode_base64(bytes: &[u8]) -> (r: String)
    requires
        bytes@.len() <= isize::MAX,
    ensures
        r@ == base64_standard(bytes@),
{
    base64::Engine::encode(&base64::engine::general_purpose::STANDARD, bytes)
}

/// A PNG image as a `data:` URL.
pub fn png_data_url(bytes: &[u8]) -> (r: String)
    requires
        bytes@.len() <= isize::MAX,
    ensures
        r@ == "data:image/png;base64,"@ + base64_standard(bytes@),
{
    let mut r = copy_str("data:image/png;base64,");
    append_str(&mut r, encode_base64(bytes).as_str());
    r
}

/// What the list shows of a user app.
#[derive(Debug)]
pub struct InstalledAppFields {
    pub bundle_id: String,
    pub name: String,
    pub version: String,
    pub size_bytes: u64,
}

/// An app registered as a system app (its `ApplicationType`, in any ASCII case).
pub open spec fn is_system_app(d: PlistDict) -> bool {
    match spec_dict_string(d, seq!["ApplicationType"@]) {
        Some(t) => ascii_lowercase(t) == "system"@,
        None => false,
    }
}

/// Whether an app is registered as a system app.
pub fn system_app(info: &PlistDict) -> (r: bool)
    ensures
        r == is_system_app(*info),
{
    let type_keys: [&str; 1] = ["ApplicationType"];
    proof {
        assert(keys_view(type_keys@) =~= seq!["ApplicationType"@]);
    }
    match dict_string(info, type_keys.as_slice()) {
        Some(t) => {
            let l = string_of(&ascii_lowercase_chars(&chars_of(t.as_str())));
            str_eq(l.as_str(), "system")
        },
        None => false,
    }
}

/// The on-disk size of an app: its static and its dynamic usage.
pub open spec fn app_size(d: PlistDict) -> int {
    (match spec_dict_u64(d, seq!["StaticDiskUsage"@]) {
        Some(n) => n as int,
        None => 0,
    }) + (match spec_dict_u64(d, seq!["DynamicDiskUsage"@]) {
        Some(n) => n as int,
        None => 0,
    })
}

/// The fields of a listed app: shown under its display name, bundle name or
/// identifier, with its short version (or build) and its size; system apps
/// are left out.
pub fn installed_app_fields(bundle_id: String, info: &PlistDict) -> (r: Option<InstalledAppFields>)
    requires
        !is_system_app(*info) ==> app_size(*info) <= u64::MAX,
    ensures
        is_system_app(*info) <==> r is None,
        r matches Some(a) ==> {
            &&& a.bundle_id@ == bundle_id@
            &&& a.name@ == match spec_dict_string(*info, seq!["CFBundleDisplayName"@, "CFBundleName"@]) {
                Some(n) => n,
                None => bundle_id@,
            }
            &&& a.version@ == match spec_dict_string(
                *info,
                seq!["CFBundleShortVersionString"@, "CFBundleVersion"@],
            ) {
                Some(v) => v,
                None => Seq::<char>::empty(),
            }
            &&& a.size_bytes == app_size(*info)
        },
{
    let name_keys: [&str; 2] = ["CFBundleDisplayName", "CFBundleName"];
    let version_keys: [&str; 2] = ["CFBundleShortVersionString", "CFBundleVersion"];
    let static_keys: [&str; 1] = ["StaticDiskUsage"];
    let dynamic_keys: [&str; 1] = ["DynamicDiskUsage"];
    proof {
        assert(keys_view(name_keys@) =~= seq!["CFBundleDisplayName"@, "CFBundleName"@]);
        assert(keys_view(version_keys@) =~= seq!["CFBundleShortVersionString"@, "CFBundleVersion"@]);
        assert(keys_view(static_keys@) =~= seq!["StaticDiskUsage"@]);
        assert(keys_view(dynamic_keys@) =~= seq!["DynamicDiskUsage"@]);
    }
    if system_app(info) {
        return None;
    }
    let name = match dict_string(info, name_keys.as_slice()) {
        Some(n) => n,
        None => bundle_id.clone(),
    };
    let version = match dict_string(info, version_keys.as_slice()) {
        Some(v) => v,
        None => String::new(),
    };
    let static_size = match dict_u64(info, static_keys.as_slice()) {
        Some(n) => n,
        None => 0,
    };
    let dynamic_size = match dict_u64(info, dynamic_keys.as_slice()) {
        Some(n) => n,
        None => 0,
    };
    Some(InstalledAppFields { bundle_id, name, version, size_bytes: static_size + dynamic_size })
}

/// The sort key of an app: its lower-cased name.
pub open spec fn installed_key(a: InstalledAppFields) -> (bool, Seq<char>) {
    (false, lowercase(a.name@))
}

pub open spec fn installed_order() -> spec_fn(InstalledAppFields, InstalledAppFields) -> bool {
    |a: InstalledAppFields, b: InstalledAppFields| key_before(installed_key(a), installed_key(b))
}

/// Apps in display order: by lower-cased name, ties in the order given.
pub fn sort_installed_apps(apps: Vec<InstalledAppFields>) -> (r: Vec<InstalledAppFields>)
    ensures
        r@ == sorted_by(apps@, installed_order()),
{
    let mut flags: Vec<bool> = Vec::new();
    let mut texts: Vec<Vec<char>> = Vec::new();
    let mut i: usize = 0;
    while i < apps.len()
        invariant
            i <= apps.len(),
            flags@.len() == i,
            texts@.len() == i,
            forall|j: int| 0 <= j < i ==> #[trigger] installed_key(apps@[j]) == (flags@[j], texts@[j]@),
        decreases apps.len() - i,
    {
        flags.push(false);
        texts.push(chars_of(to_lowercase(apps[i].name.as_str()).as_str()));
        i = i + 1;
    }
    let ghost key = |a: InstalledAppFields| installed_key(a);
    assert(ordered_by_key(installed_order(), key));
    sort_by_key(apps, flags, texts, Ghost(installed_order()), Ghost(key))
}

/// A progress report of an installation or removal.
pub fn app_progress(operation: &str, item: &str, percent: u64) -> (p: OperationProgress)
    ensures
        p.operation@ == operation@,
        p.item@ == item@,
        p.percent == percent,
{
    OperationProgress { operation: copy_str(operation), item: copy_str(item), percent }
}

} // verus!
