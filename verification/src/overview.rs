//! The device overview: identity fields, battery readings and storage, from
//! what Lockdown, the battery gauge and AFC report.
use vstd::prelude::*;

use crate::plist_data::{
    dict_string, dict_u64, keys_view, spec_dict_string, spec_dict_u64, PlistDict,
};
use crate::text::{append_str, copy_str};
use crate::types::StorageSummary;

verus! {

/// Capacity as AFC reports it; what is used is what is not free, never below
/// zero.
pub fn storage_summary(total_bytes: u64, free_bytes: u64, block_size: u64) -> (s: StorageSummary)
    ensures
        s.total_bytes == total_bytes,
        s.free_bytes == free_bytes,
        s.used_bytes == (if total_bytes >= free_bytes {
            (total_bytes - free_bytes) as u64
        } else {
            0
        }),
        s.block_size == block_size,
{
    StorageSummary {
        total_bytes,
        free_bytes,
        used_bytes: if total_bytes >= free_bytes {
            total_bytes - free_bytes
        } else {
            0
        },
        block_size,
    }
}

/// The upper-case hex digit of `d`.
pub open spec fn upper_hex_digit(d: int) -> char {
    if d < 10 {
        ((d + 0x30) as u8) as char
    } else {
        ((d - 10 + 0x41) as u8) as char
    }
}

/// `n` in upper-case hex, without leading zeros (`{:X}`).
pub open spec fn upper_hex(n: u64) -> Seq<char>
    decreases n,
{
    if n < 16 {
        seq![upper_hex_digit(n as int)]
    } else {
        upper_hex(n / 16).push(upper_hex_digit((n % 16) as int))
    }
}

fn upper_hex_text(n: u64) -> (r: String)
    ensures
        r@ == upper_hex(n),
    decreases n,
{
    let d = n % 16;
    let b: u8 = if d < 10 {
        (d as u8) + 0x30
    } else {
        (d as u8) - 10 + 0x41
    };
    if n < 16 {
        let mut s = String::new();
        crate::text::push_char(&mut s, b as char);
        assert(s@ =~= upper_hex(n));
        s
    } else {
        let mut s = upper_hex_text(n / 16);
        crate::text::push_char(&mut s, b as char);
        s
    }
}

/// The chip identifier: as text when Lockdown gives text, else the number in
/// `0x`-prefixed upper-case hex.
pub fn unique_chip_id(values: &PlistDict) -> (r: Option<String>)
    ensures
        r.deep_view() == match spec_dict_string(*values, seq!["UniqueChipID"@]) {
            Some(s) => Some(s),
            None => match spec_dict_u64(*values, seq!["UniqueChipID"@]) {
                Some(n) => Some("0x"@ + upper_hex(n)),
                None => None,
            },
        },
{
    let keys: [&str; 1] = ["UniqueChipID"];
    proof {
        assert(keys_view(keys@) =~= seq!["UniqueChipID"@]);
    }
    match dict_string(values, keys.as_slice()) {
        Some(s) => Some(s),
        None => match dict_u64(values, keys.as_slice()) {
            Some(n) => {
                let mut r = copy_str("0x");
                append_str(&mut r, upper_hex_text(n).as_str());
                Some(r)
            },
            None => None,
        },
    }
}

/// The battery level: from the gas gauge, else the battery domain, else the
/// device values.
pub fn battery_level(gauge: &PlistDict, domain: &PlistDict, values: &PlistDict) -> (r: Option<u64>)
    ensures
        r == match spec_dict_u64(
            *gauge,
            seq!["CurrentCapacity"@, "BatteryCurrentCapacity"@, "AbsoluteCapacity"@],
        ) {
            Some(n) => Some(n),
            None => match spec_dict_u64(*domain, seq!["BatteryCurrentCapacity"@]) {
                Some(n) => Some(n),
                None => spec_dict_u64(*values, seq!["BatteryCurrentCapacity"@]),
            },
        },
{
    let gauge_keys: [&str; 3] = ["CurrentCapacity", "BatteryCurrentCapacity", "AbsoluteCapacity"];
    let keys: [&str; 1] = ["BatteryCurrentCapacity"];
    proof {
        assert(keys_view(gauge_keys@) =~= seq![
            "CurrentCapacity"@,
            "BatteryCurrentCapacity"@,
            "AbsoluteCapacity"@,
        ]);
        assert(keys_view(keys@) =~= seq!["BatteryCurrentCapacity"@]);
    }
    match dict_u64(gauge, gauge_keys.as_slice()) {
        Some(n) => Some(n),
        None => match dict_u64(domain, keys.as_slice()) {
            Some(n) => Some(n),
            None => dict_u64(values, keys.as_slice()),
        },
    }
}

/// The battery's charge cycle count.
pub fn battery_cycle_count(gauge: &PlistDict) -> (r: Option<u64>)
    ensures
        r == spec_dict_u64(*gauge, seq!["CycleCount"@, "BatteryCycleCount"@]),
{
    let keys: [&str; 2] = ["CycleCount", "BatteryCycleCount"];
    proof {
        assert(keys_view(keys@) =~= seq!["CycleCount"@, "BatteryCycleCount"@]);
    }
    dict_u64(gauge, keys.as_slice())
}

/// A text field of the device values, under the first of `keys` present.
pub fn device_value(values: &PlistDict, keys: &[&str]) -> (r: Option<String>)
    ensures
        r.deep_view() == spec_dict_string(*values, keys_view(keys@)),
{
    dict_string(values, keys)
}

} // verus!
