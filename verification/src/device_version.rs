//! iOS versions and the developer-service generation each one selects.
use vstd::prelude::*;

use crate::error::CommandError;
use crate::text::{
    all_ascii_digits, append_str, chars_of, copy_str, decimal_value, is_ascii_digit, lemma_split_on_append,
    lemma_split_on_nonempty, lemma_split_on_single, parse_u32, parse_u32_chars, split_chars, split_on,
};

verus! {

/// A parsed `ProductVersion` such as `17.3.1`.
#[derive(Debug, Clone, Copy, PartialEq, Eq, PartialOrd, Ord, Structural)]
pub struct IosVersion {
    pub major: u32,
    pub minor: u32,
    pub patch: u32,
}

/// The transport a device's developer services need.
#[derive(Debug, Clone, Copy, PartialEq, Eq, Structural)]
pub enum DeveloperGeneration {
    /// iOS 16 and earlier: DeveloperDiskImage + lockdownd developer services.
    Legacy,
    /// iOS 17.0 through 17.3.x: personalized DDI + remoted/RemotePairing tunnel.
    CoreDeviceRemote,
    /// iOS 17.4 and later: personalized DDI + lockdownd CoreDeviceProxy tunnel.
    CoreDeviceLockdown,
}

/// The value of an optional version component: a missing or unparsable one
/// counts as zero.
pub open spec fn component_or_zero(parts: Seq<Seq<char>>, k: int) -> u32 {
    if k < parts.len() {
        match parse_u32(parts[k]) {
            Some(v) => v,
            None => 0,
        }
    } else {
        0
    }
}

/// What `IosVersion::parse` returns: the dot-separated components, of which the
/// first must be a number and the second and third default to zero.
pub open spec fn spec_parse_version(s: Seq<char>) -> Option<IosVersion> {
    let parts = split_on(s, '.');
    match parse_u32(parts[0]) {
        Some(major) => Some(
            IosVersion {
                major,
                minor: component_or_zero(parts, 1),
                patch: component_or_zero(parts, 2),
            },
        ),
        None => None,
    }
}

/// The generation a version selects.
pub open spec fn spec_generation(v: IosVersion) -> DeveloperGeneration {
    if v.major < 17 {
        DeveloperGeneration::Legacy
    } else if v.major == 17 && v.minor < 4 {
        DeveloperGeneration::CoreDeviceRemote
    } else {
        DeveloperGeneration::CoreDeviceLockdown
    }
}

/// Version order: by major, then minor, then patch.
pub open spec fn version_le(a: IosVersion, b: IosVersion) -> bool {
    ||| a.major < b.major
    ||| (a.major == b.major && a.minor < b.minor)
    ||| (a.major == b.major && a.minor == b.minor && a.patch <= b.patch)
}

/// The generations in the order in which iOS introduced them.
pub open spec fn generation_rank(g: DeveloperGeneration) -> int {
    match g {
        DeveloperGeneration::Legacy => 0,
        DeveloperGeneration::CoreDeviceRemote => 1,
        DeveloperGeneration::CoreDeviceLockdown => 2,
    }
}

impl IosVersion {
    /// Parses a `ProductVersion` string.
    pub fn parse(value: &str) -> (r: Option<IosVersion>)
        ensures
            r == spec_parse_version(value@),
    {
        let chars = chars_of(value);
        let parts = split_chars(&chars, '.');
        proof {
            lemma_split_on_nonempty(chars@, '.');
        }
        let major = match parse_u32_chars(&parts[0]) {
            Some(v) => v,
            None => return None,
        };
        let minor = if parts.len() > 1 {
            match parse_u32_chars(&parts[1]) {
                Some(v) => v,
                None => 0,
            }
        } else {
            0
        };
        let patch = if parts.len() > 2 {
            match parse_u32_chars(&parts[2]) {
                Some(v) => v,
                None => 0,
            }
        } else {
            0
        };
        Some(IosVersion { major, minor, patch })
    }

    /// The developer-service generation of this version.
    pub fn developer_generation(self) -> (g: DeveloperGeneration)
        ensures
            g == spec_generation(self),
    {
        if self.major < 17 {
            DeveloperGeneration::Legacy
        } else if self.major == 17 && self.minor < 4 {
            DeveloperGeneration::CoreDeviceRemote
        } else {
            DeveloperGeneration::CoreDeviceLockdown
        }
    }
}

/// A run of decimal digits whose value fits in a `u32`.
pub open spec fn decimal_u32(s: Seq<char>) -> bool {
    s.len() > 0 && all_ascii_digits(s) && decimal_value(s) <= u32::MAX
}

proof fn lemma_digits_have_no_dot(s: Seq<char>)
    requires
        all_ascii_digits(s),
    ensures
        !s.contains('.'),
{
    if s.contains('.') {
        let k = choose|k: int| 0 <= k < s.len() && s[k] == '.';
        assert(is_ascii_digit(s[k]));
    }
}

proof fn lemma_parse_decimal(s: Seq<char>)
    requires
        decimal_u32(s),
    ensures
        parse_u32(s) == Some(decimal_value(s) as u32),
{
    assert(is_ascii_digit(s[0]));
}

/// A version written as three decimal numbers joined by dots, such as
/// `17.3.1`, reads as exactly those numbers: major, minor and patch.
pub proof fn law_parse_three_components(a: Seq<char>, b: Seq<char>, c: Seq<char>)
    requires
        decimal_u32(a),
        decimal_u32(b),
        decimal_u32(c),
    ensures
        spec_parse_version(a + seq!['.'] + b + seq!['.'] + c) == Some(
            IosVersion {
                major: decimal_value(a) as u32,
                minor: decimal_value(b) as u32,
                patch: decimal_value(c) as u32,
            },
        ),
{
    lemma_digits_have_no_dot(a);
    lemma_digits_have_no_dot(b);
    lemma_digits_have_no_dot(c);
    lemma_split_on_single(a, '.');
    lemma_split_on_append(a, b, '.');
    lemma_split_on_append(a + seq!['.'] + b, c, '.');
    let parts = split_on(a + seq!['.'] + b + seq!['.'] + c, '.');
    assert(parts =~= seq![a, b, c]);
    lemma_parse_decimal(a);
    lemma_parse_decimal(b);
    lemma_parse_decimal(c);
}

/// A version with only major and minor numbers, such as `16.7`, has patch 0.
pub proof fn law_parse_two_components(a: Seq<char>, b: Seq<char>)
    requires
        decimal_u32(a),
        decimal_u32(b),
    ensures
        spec_parse_version(a + seq!['.'] + b) == Some(
            IosVersion { major: decimal_value(a) as u32, minor: decimal_value(b) as u32, patch: 0 },
        ),
{
    lemma_digits_have_no_dot(a);
    lemma_digits_have_no_dot(b);
    lemma_split_on_single(a, '.');
    lemma_split_on_append(a, b, '.');
    assert(split_on(a + seq!['.'] + b, '.') =~= seq![a, b]);
    lemma_parse_decimal(a);
    lemma_parse_decimal(b);
}

/// A later iOS never selects an earlier generation.
pub proof fn law_generation_monotone(a: IosVersion, b: IosVersion)
    requires
        version_le(a, b),
    ensures
        generation_rank(spec_generation(a)) <= generation_rank(spec_generation(b)),
{
}

/// Every iOS before 17 needs the legacy transport, 17.0 through 17.3.x the
/// RemotePairing tunnel, and 17.4 onward the Lockdown CoreDeviceProxy tunnel.
pub proof fn law_generation_boundaries(v: IosVersion)
    ensures
        (spec_generation(v) == DeveloperGeneration::Legacy) <==> v.major <= 16,
        (spec_generation(v) == DeveloperGeneration::CoreDeviceRemote) <==> (v.major == 17
            && v.minor <= 3),
        (spec_generation(v) == DeveloperGeneration::CoreDeviceLockdown) <==> (v.major > 17 || (
        v.major == 17 && v.minor >= 4)),
{
}

/// Reads the version a device reported, refusing one that does not parse.
pub fn parse_reported_version(value: &str) -> (r: Result<IosVersion, CommandError>)
    ensures
        match spec_parse_version(value@) {
            Some(v) => r == Ok::<IosVersion, CommandError>(v),
            None => r is Err && r->Err_0.kind@ == "device"@ && r->Err_0.message@
                == "Device returned an invalid iOS version: "@ + value@ && !r->Err_0.retryable,
        },
{
    match IosVersion::parse(value) {
        Some(v) => Ok(v),
        None => {
            let mut message = copy_str("Device returned an invalid iOS version: ");
            append_str(&mut message, value);
            Err(CommandError::new("device", message.as_str(), false))
        },
    }
}

} // verus!
