//! Developer services: reading debugserver replies, the steps of mounting a
//! Developer Disk Image, and what a JIT session reports.
use vstd::prelude::*;

use crate::device_version::{spec_parse_version, DeveloperGeneration, IosVersion};
use crate::error::CommandError;
use crate::paths::{from_utf8_lossy, string_from_utf8, utf8_lossy};
use crate::plist_data::{
    decode_plist, dict_at, dict_get, get, get_dict, get_string, plist_decoding, string_at, PlistDict,
    PlistValue,
};
use crate::seqs::{first_index, lemma_first_index_is, lemma_first_index_none};
use crate::text::{
    append_str, char_is_ascii_hexdigit, chars_of, chars_range, copy_str, find, find_chars, is_ascii_hexdigit,
    occurs_at, string_of, trim_ws, trim_ws_chars,
};
use crate::types::StreamStatus;
use vstd::string::StringSliceAdditionalSpecFns;
use vstd::utf8::{decode_utf8, encode_utf8, valid_utf8};

verus! {

// ---------------------------------------------------------------------------
// Hex-encoded debugserver messages
// ---------------------------------------------------------------------------

/// The value of an ASCII hex digit byte.
pub open spec fn hex_byte(c: u8) -> Option<u8> {
    if 0x30 <= c <= 0x39 {
        Some((c - 0x30) as u8)
    } else if 0x61 <= c <= 0x66 {
        Some((c - 0x61 + 10) as u8)
    } else if 0x41 <= c <= 0x46 {
        Some((c - 0x41 + 10) as u8)
    } else {
        None
    }
}

/// The byte a pair of hex digits stands for; nothing for any other pair.
pub open spec fn pair_value(b0: u8, b1: u8) -> Option<u8> {
    match (hex_byte(b0), hex_byte(b1)) {
        (Some(h), Some(l)) => Some((h * 16 + l) as u8),
        _ => None,
    }
}

/// The bytes a run of hex pairs stands for, when every pair is one.
pub open spec fn hex_pairs(b: Seq<u8>) -> Option<Seq<u8>>
    decreases b.len(),
{
    if b.len() == 0 {
        Some(Seq::<u8>::empty())
    } else if b.len() < 2 {
        None
    } else {
        match pair_value(b[0], b[1]) {
            Some(v) => match hex_pairs(b.skip(2)) {
                Some(rest) => Some(seq![v] + rest),
                None => None,
            },
            None => None,
        }
    }
}

/// A hex-encoded UTF-8 message, trimmed; nothing when it is empty, of odd
/// length, not hex, not UTF-8, or only white space.
pub open spec fn spec_decode_hex_message(message: Seq<char>) -> Option<Seq<char>> {
    let b = encode_utf8(message);
    if b.len() == 0 || b.len() % 2 != 0 {
        None
    } else {
        match hex_pairs(b) {
            Some(d) => if valid_utf8(d) && trim_ws(decode_utf8(d)).len() > 0 {
                Some(trim_ws(decode_utf8(d)))
            } else {
                None
            },
            None => None,
        }
    }
}

fn hex_byte_exec(c: u8) -> (r: Option<u8>)
    ensures
        r == hex_byte(c),
{
    if 0x30 <= c && c <= 0x39 {
        Some(c - 0x30)
    } else if 0x61 <= c && c <= 0x66 {
        Some(c - 0x61 + 10)
    } else if 0x41 <= c && c <= 0x46 {
        Some(c - 0x41 + 10)
    } else {
        None
    }
}

fn pair_value_exec(b0: u8, b1: u8) -> (r: Option<u8>)
    ensures
        r == pair_value(b0, b1),
{
    match (hex_byte_exec(b0), hex_byte_exec(b1)) {
        (Some(h), Some(l)) => Some(h * 16 + l),
        _ => None,
    }
}

/// Decodes a hex-encoded message.
pub fn decode_hex_message(message: &str) -> (r: Option<String>)
    ensures
        r.deep_view() == spec_decode_hex_message(message@),
{
    let bytes = message.as_bytes();
    let ghost b = bytes@;
    assert(b == encode_utf8(message@));
    if bytes.len() == 0 || bytes.len() % 2 != 0 {
        return None;
    }
    let mut out: Vec<u8> = Vec::new();
    let mut i: usize = 0;
    assert(b.skip(0) =~= b);
    assert(out@ + Seq::<u8>::empty() =~= out@);
    while i < bytes.len()
        invariant
            b == bytes@,
            b == encode_utf8(message@),
            i <= bytes.len(),
            i % 2 == 0,
            bytes.len() % 2 == 0,
            hex_pairs(b) == (match hex_pairs(b.skip(i as int)) {
                Some(rest) => Some(out@ + rest),
                None => None,
            }),
        decreases bytes.len() - i,
    {
        let ghost t = b.skip(i as int);
        assert(i + 2 <= bytes.len());
        assert(t[0] == bytes@[i as int] && t[1] == bytes@[i + 1]);
        match pair_value_exec(bytes[i], bytes[i + 1]) {
            Some(v) => {
                assert(t.skip(2) =~= b.skip(i + 2));
                let ghost prev = out@;
                out.push(v);
                proof {
                    match hex_pairs(b.skip(i + 2)) {
                        Some(rest) => {
                            assert(prev + (seq![v] + rest) =~= out@ + rest);
                        },
                        None => {},
                    }
                }
                i = i + 2;
            },
            None => {
                return None;
            },
        }
    }
    assert(b.skip(i as int) =~= Seq::<u8>::empty());
    assert(out@ + Seq::<u8>::empty() =~= out@);
    let text = match string_from_utf8(out) {
        Some(t) => t,
        None => return None,
    };
    let trimmed = trim_ws_chars(&chars_of(text.as_str()));
    if trimmed.len() == 0 {
        None
    } else {
        Some(string_of(&trimmed))
    }
}

// ---------------------------------------------------------------------------
// Replies to vAttach
// ---------------------------------------------------------------------------

/// A reply's error code and hex message, when it has the shape of a GDB
/// error packet `E<code>[;<message>]` after trimming.
pub open spec fn error_packet(reply: Seq<char>) -> Option<(Seq<char>, Option<Seq<char>>)> {
    let t = trim_ws(reply);
    if t.len() > 0 && t[0] == 'E' {
        let rest = t.drop_first();
        match find(rest, ";"@) {
            Some(i) => Some((rest.take(i), Some(rest.skip(i + 1)))),
            None => Some((rest, None)),
        }
    } else {
        None
    }
}

/// A non-empty run of hex digits.
pub open spec fn is_hex_code(code: Seq<char>) -> bool {
    code.len() > 0 && forall|i: int| 0 <= i < code.len() ==> is_ascii_hexdigit(#[trigger] code[i])
}

/// Why debugserver refused an attach: the decoded message of an error
/// packet, or its code; nothing for any other reply, such as a stop packet.
pub open spec fn spec_attach_failure(response: Option<Seq<char>>) -> Option<Seq<char>> {
    match response {
        Some(r) => match error_packet(r) {
            Some((code, message)) => if is_hex_code(code) {
                Some(
                    match message {
                        Some(m) => match spec_decode_hex_message(m) {
                            Some(d) => d,
                            None => "debugserver rejected the attach with error "@ + code,
                        },
                        None => "debugserver rejected the attach with error "@ + code,
                    },
                )
            } else {
                None
            },
            None => None,
        },
        None => None,
    }
}

fn all_hex(code: &Vec<char>) -> (r: bool)
    ensures
        r == is_hex_code(code@),
{
    if code.len() == 0 {
        return false;
    }
    let mut i: usize = 0;
    while i < code.len()
        invariant
            i <= code.len(),
            forall|k: int| 0 <= k < i ==> is_ascii_hexdigit(#[trigger] code@[k]),
        decreases code.len() - i,
    {
        if !char_is_ascii_hexdigit(code[i]) {
            return false;
        }
        i = i + 1;
    }
    true
}

pub open spec fn packet_view(p: Option<(Vec<char>, Option<Vec<char>>)>) -> Option<
    (Seq<char>, Option<Seq<char>>),
> {
    match p {
        Some((c, m)) => Some(
            (
                c@,
                match m {
                    Some(x) => Some(x@),
                    None => None,
                },
            ),
        ),
        None => None,
    }
}

#[verifier::rlimit(40)]
fn split_error_packet(reply: &str) -> (r: Option<(Vec<char>, Option<Vec<char>>)>)
    ensures
        packet_view(r) == error_packet(reply@),
{
    let t = trim_ws_chars(&chars_of(reply));
    assert(t@ == trim_ws(reply@));
    if t.len() == 0 || t[0] != 'E' {
        return None;
    }
    let rest = chars_range(&t, 1, t.len());
    assert(rest@ =~= t@.drop_first());
    let semicolon = chars_of(";");
    proof {
        reveal_strlit(";");
    }
    match find_chars(&rest, &semicolon) {
        Some(i) => {
            let code = chars_range(&rest, 0, i);
            let message = chars_range(&rest, i + 1, rest.len());
            assert(code@ =~= rest@.take(i as int));
            assert(message@ =~= rest@.skip(i + 1));
            let r = Some((code, Some(message)));
            assert(packet_view(r) == Some((rest@.take(i as int), Some(rest@.skip(i + 1)))));
            r
        },
        None => {
            let r = Some((rest, None));
            assert(packet_view(r) == Some((t@.drop_first(), None::<Seq<char>>)));
            r
        },
    }
}

fn rejection_text(code: &Vec<char>, message: Option<Vec<char>>) -> (r: String)
    ensures
        r@ == match message {
            Some(m) => match spec_decode_hex_message(m@) {
                Some(d) => d,
                None => "debugserver rejected the attach with error "@ + code@,
            },
            None => "debugserver rejected the attach with error "@ + code@,
        },
{
    let decoded = match message {
        Some(m) => {
            let text = string_of(&m);
            decode_hex_message(text.as_str())
        },
        None => None,
    };
    match decoded {
        Some(d) => d,
        None => {
            let mut fallback = copy_str("debugserver rejected the attach with error ");
            append_str(&mut fallback, string_of(code).as_str());
            fallback
        },
    }
}

/// Reads debugserver's reply to `vAttach`: the reason for a refusal, or
/// nothing when the attach went through.
pub fn attach_failure(response: Option<&str>) -> (r: Option<String>)
    ensures
        r.deep_view() == spec_attach_failure(
            match response {
                Some(s) => Some(s@),
                None => None,
            },
        ),
{
    let reply = match response {
        Some(s) => s,
        None => return None,
    };
    let packet = split_error_packet(reply);
    let (code, message) = match packet {
        Some(p) => p,
        None => return None,
    };
    assert(error_packet(reply@) == Some(
        (
            code@,
            match message {
                Some(x) => Some(x@),
                None => None,
            },
        ),
    ));
    if !all_hex(&code) {
        return None;
    }
    Some(rejection_text(&code, message))
}

/// The lower-case hex digit of `d`.
pub open spec fn hex_digit_char(d: int) -> char {
    if d < 10 {
        ((d + 0x30) as u8) as char
    } else {
        ((d - 10 + 0x61) as u8) as char
    }
}

/// `n` in lower-case hex, without leading zeros (`{:x}`).
pub open spec fn lower_hex(n: u64) -> Seq<char>
    decreases n,
{
    if n < 16 {
        seq![hex_digit_char(n as int)]
    } else {
        lower_hex(n / 16).push(hex_digit_char((n % 16) as int))
    }
}

/// `n` in decimal, without leading zeros (`{}`).
pub open spec fn decimal(n: u64) -> Seq<char>
    decreases n,
{
    if n < 10 {
        seq![((n + 0x30) as u8) as char]
    } else {
        decimal(n / 10).push(((n % 10 + 0x30) as u8) as char)
    }
}

fn digit_char(d: u64, radix: u64) -> (c: char)
    requires
        d < radix,
        radix == 10 || radix == 16,
    ensures
        radix == 16 ==> c == hex_digit_char(d as int),
        radix == 10 ==> c == ((d + 0x30) as u8) as char,
{
    let b: u8 = if d < 10 {
        (d as u8) + 0x30
    } else {
        (d as u8) - 10 + 0x61
    };
    b as char
}

/// `n` written in base `radix` (10 or 16, lower-case digits).
pub fn u64_digits(n: u64, radix: u64) -> (r: String)
    requires
        radix == 10 || radix == 16,
    ensures
        radix == 16 ==> r@ == lower_hex(n),
        radix == 10 ==> r@ == decimal(n),
    decreases n,
{
    if n < radix {
        let mut s = String::new();
        crate::text::push_char(&mut s, digit_char(n, radix));
        proof {
            if radix == 16 {
                assert(s@ =~= lower_hex(n));
            } else {
                assert(s@ =~= decimal(n));
            }
        }
        s
    } else {
        let mut s = u64_digits(n / radix, radix);
        crate::text::push_char(&mut s, digit_char(n % radix, radix));
        s
    }
}

/// The debugserver packet that attaches to process `pid`.
pub fn vattach_command(pid: u64) -> (r: String)
    ensures
        r@ == "vAttach;"@ + lower_hex(pid),
{
    let mut r = copy_str("vAttach;");
    append_str(&mut r, u64_digits(pid, 16).as_str());
    r
}

// ---------------------------------------------------------------------------
// JIT sessions
// ---------------------------------------------------------------------------

/// A JIT step that took too long.
pub fn jit_timeout(label: &str) -> (e: CommandError)
    ensures
        e.kind@ == "jit"@,
        e.message@ == "Timed out while "@ + label@,
        e.retryable,
{
    let mut m = copy_str("Timed out while ");
    append_str(&mut m, label);
    CommandError::new("jit", m.as_str(), true)
}

/// JIT needs a CoreDevice generation; the legacy transport is refused.
pub fn jit_generation_check(generation: DeveloperGeneration) -> (r: Result<(), CommandError>)
    ensures
        r is Err <==> generation is Legacy,
        r matches Err(e) ==> e.kind@ == "jit"@ && e.message@
            == "JIT on iOS 16 and earlier requires the legacy debugserver transport"@ && !e.retryable,
{
    match generation {
        DeveloperGeneration::Legacy => Err(
            CommandError::new(
                "jit",
                "JIT on iOS 16 and earlier requires the legacy debugserver transport",
                false,
            ),
        ),
        _ => Ok(()),
    }
}

/// The error for an attach debugserver refused.
pub fn attach_rejected(bundle_id: &str, detail: &str) -> (e: CommandError)
    ensures
        e.kind@ == "jit"@,
        e.message@ == "Unable to attach to "@ + bundle_id@ + ": "@ + detail@,
        !e.retryable,
{
    let mut m = copy_str("Unable to attach to ");
    append_str(&mut m, bundle_id);
    append_str(&mut m, ": ");
    append_str(&mut m, detail);
    CommandError::new("jit", m.as_str(), false)
}

/// The status reported once a JIT session is attached.
pub fn jit_attached_status(bundle_id: &str, pid: u64) -> (s: StreamStatus)
    ensures
        s.stream@ == "jit"@,
        s.state@ == "attached"@,
        s.message matches Some(m) && m@ == bundle_id@ + " · pid "@ + decimal(pid),
{
    let mut m = copy_str(bundle_id);
    append_str(&mut m, " · pid ");
    append_str(&mut m, u64_digits(pid, 10).as_str());
    StreamStatus { stream: copy_str("jit"), state: copy_str("attached"), message: Some(m) }
}

/// The status of a stream that changed state with nothing more to say.
pub fn stream_status(stream: &str, state: &str) -> (s: StreamStatus)
    ensures
        s.stream@ == stream@,
        s.state@ == state@,
        s.message is None,
{
    StreamStatus { stream: copy_str(stream), state: copy_str(state), message: None }
}

// ---------------------------------------------------------------------------
// Developer Disk Images
// ---------------------------------------------------------------------------

/// The version Lockdown reported, for choosing how to mount an image.
pub fn product_version(value: &str) -> (r: Result<IosVersion, CommandError>)
    ensures
        match spec_parse_version(value@) {
            Some(v) => r == Ok::<IosVersion, CommandError>(v),
            None => (r matches Err(e) && e.kind@ == "device"@ && e.message@
                == "Device returned an invalid iOS version"@ && !e.retryable),
        },
{
    match IosVersion::parse(value) {
        Some(v) => Ok(v),
        None => Err(CommandError::new("device", "Device returned an invalid iOS version", false)),
    }
}

/// The product type an automatic mount needs, when Lockdown gave one.
pub fn require_product_type(value: Option<String>) -> (r: Result<String, CommandError>)
    ensures
        match value {
            Some(v) => (r matches Ok(s) && s@ == v@),
            None => (r matches Err(e) && is_ddi_error(e, "Device did not return ProductType"@)),
        },
{
    match value {
        Some(v) => Ok(v),
        None => Err(CommandError::new("ddi", "Device did not return ProductType", false)),
    }
}

/// Where the mounted image lives, by generation.
pub fn unmount_path(generation: DeveloperGeneration) -> (r: &'static str)
    ensures
        r@ == (if generation is Legacy {
            "/Developer"@
        } else {
            "/System/Developer"@
        }),
{
    match generation {
        DeveloperGeneration::Legacy => "/Developer",
        _ => "/System/Developer",
    }
}

/// What a manual mount needs, by generation.
#[derive(Debug)]
pub enum DdiMountPlan {
    /// A DeveloperDiskImage with its signature file.
    Legacy { signature_path: String },
    /// A personalized image with its build manifest and trust cache.
    Personalized { manifest_path: String, trust_cache_path: String },
}

pub open spec fn is_ddi_error(e: CommandError, message: Seq<char>) -> bool {
    e.kind@ == "ddi"@ && e.message@ == message && !e.retryable
}

/// Checks that the files a manual mount needs were chosen.
pub fn ddi_mount_plan(
    generation: DeveloperGeneration,
    signature_path: Option<String>,
    manifest_path: Option<String>,
    trust_cache_path: Option<String>,
) -> (r: Result<DdiMountPlan, CommandError>)
    ensures
        generation is Legacy ==> match signature_path {
            Some(s) => (r matches Ok(DdiMountPlan::Legacy { signature_path: p }) && p@ == s@),
            None => (r matches Err(e) && is_ddi_error(e, "A signature file is required before iOS 17"@)),
        },
        !(generation is Legacy) ==> match (manifest_path, trust_cache_path) {
            (Some(m), Some(t)) => (r matches Ok(
                DdiMountPlan::Personalized { manifest_path: pm, trust_cache_path: pt },
            ) && pm@ == m@ && pt@ == t@),
            (None, _) => (r matches Err(e) && is_ddi_error(e, "BuildManifest.plist is required on iOS 17+"@)),
            (Some(_), None) => (r matches Err(e) && is_ddi_error(e, "A trust cache is required on iOS 17+"@)),
        },
{
    match generation {
        DeveloperGeneration::Legacy => match signature_path {
            Some(s) => Ok(DdiMountPlan::Legacy { signature_path: s }),
            None => Err(CommandError::new("ddi", "A signature file is required before iOS 17", false)),
        },
        _ => match manifest_path {
            None => Err(CommandError::new("ddi", "BuildManifest.plist is required on iOS 17+", false)),
            Some(m) => match trust_cache_path {
                None => Err(CommandError::new("ddi", "A trust cache is required on iOS 17+", false)),
                Some(t) => Ok(DdiMountPlan::Personalized { manifest_path: m, trust_cache_path: t }),
            },
        },
    }
}

/// Automatic mounting needs iOS 17 or later; the message names what to do
/// instead, which differs where Apple's CoreDevice tools are available.
pub fn automatic_mount_check(generation: DeveloperGeneration, with_devicectl: bool) -> (r: Result<
    (),
    CommandError,
>)
    ensures
        r is Err <==> generation is Legacy,
        r matches Err(e) ==> is_ddi_error(
            e,
            if with_devicectl {
                "Automatic CoreDevice DDI mounting requires iOS 17 or later. Use Choose files with a matching DeveloperDiskImage.dmg and signature for this iOS version."@
            } else {
                "Automatic DDI selection currently requires iOS 17 or later"@
            },
        ),
{
    match generation {
        DeveloperGeneration::Legacy => if with_devicectl {
            Err(
                CommandError::new(
                    "ddi",
                    "Automatic CoreDevice DDI mounting requires iOS 17 or later. Use Choose files with a matching DeveloperDiskImage.dmg and signature for this iOS version.",
                    false,
                ),
            )
        } else {
            Err(CommandError::new("ddi", "Automatic DDI selection currently requires iOS 17 or later", false))
        },
        _ => Ok(()),
    }
}

/// Whether the developer tunnel is available: never on the legacy
/// generation; with a mounted image on iOS 17.0–17.3; and on iOS 17.4+ when
/// CoreDeviceProxy answers, which only the caller can try.
#[derive(Debug)]
pub enum RsdAvailability {
    Known(bool),
    ProbeCoreDeviceProxy,
}

pub fn rsd_availability(generation: DeveloperGeneration, ddi_mounted: bool) -> (r: RsdAvailability)
    ensures
        generation is Legacy ==> r == RsdAvailability::Known(false),
        generation is CoreDeviceRemote ==> r == RsdAvailability::Known(ddi_mounted),
        generation is CoreDeviceLockdown ==> r is ProbeCoreDeviceProxy,
{
    match generation {
        DeveloperGeneration::Legacy => RsdAvailability::Known(false),
        DeveloperGeneration::CoreDeviceRemote => RsdAvailability::Known(ddi_mounted),
        DeveloperGeneration::CoreDeviceLockdown => RsdAvailability::ProbeCoreDeviceProxy,
    }
}

/// `text` contains `pat`.
pub open spec fn contains_text(text: Seq<char>, pat: Seq<char>) -> bool {
    find(text, pat) is Some
}

fn str_contains(text: &str, pat: &str) -> (r: bool)
    ensures
        r == contains_text(text@, pat@),
{
    find_chars(&chars_of(text), &chars_of(pat)).is_some()
}

/// What devicectl printed: its output and error text, each trimmed, joined
/// by a line break when both are there.
pub open spec fn spec_devicectl_output(stdout: Seq<u8>, stderr: Seq<u8>) -> Seq<char> {
    let out = trim_ws(utf8_lossy(stdout));
    let err = trim_ws(utf8_lossy(stderr));
    if out.len() > 0 && err.len() > 0 {
        out + "\n"@ + err
    } else if out.len() > 0 {
        out
    } else if err.len() > 0 {
        err
    } else {
        "devicectl did not return an error description"@
    }
}

/// The text devicectl produced.
pub fn devicectl_output(stdout: &[u8], stderr: &[u8]) -> (r: String)
    ensures
        r@ == spec_devicectl_output(stdout@, stderr@),
{
    let out = trim_ws_chars(&chars_of(from_utf8_lossy(stdout).as_str()));
    let err = trim_ws_chars(&chars_of(from_utf8_lossy(stderr).as_str()));
    if out.len() > 0 && err.len() > 0 {
        let mut r = string_of(&out);
        append_str(&mut r, "\n");
        append_str(&mut r, string_of(&err).as_str());
        r
    } else if out.len() > 0 {
        string_of(&out)
    } else if err.len() > 0 {
        string_of(&err)
    } else {
        copy_str("devicectl did not return an error description")
    }
}

/// devicectl failed because the device is not paired with CoreDevice.
pub open spec fn spec_pairing_required(text: Seq<char>) -> bool {
    contains_text(text, "must be paired"@) || contains_text(text, "RemotePairingError"@)
        || contains_text(text, "not paired"@)
}

pub fn pairing_required(text: &str) -> (r: bool)
    ensures
        r == spec_pairing_required(text@),
{
    str_contains(text, "must be paired") || str_contains(text, "RemotePairingError") || str_contains(
        text,
        "not paired",
    )
}

/// devicectl reports usable Developer Disk Image services.
pub fn ddi_services_usable(text: &str) -> (r: bool)
    ensures
        r == contains_text(text@, "isUsable: true"@),
{
    str_contains(text, "isUsable: true")
}

/// A step of mounting through devicectl.
#[derive(Debug)]
pub enum DdiStep {
    /// Ask for the DDI services, mounting automatically.
    Query,
    /// Pair with CoreDevice.
    Pair,
    /// Ask again after pairing.
    Retry,
}

/// How a devicectl run ended.
#[derive(Debug)]
pub enum DevicectlOutcome {
    Succeeded,
    /// It ran and failed, printing this.
    Failed(String),
    /// It could not be started, for this reason.
    NotStarted(String),
}

/// What to do next: report progress and run a step, finish, or fail.
#[derive(Debug)]
pub enum DdiAction {
    Run { step: DdiStep, item: String, percent: u64 },
    Done { item: String, percent: u64 },
    Fail(CommandError),
}

/// The first action of a devicectl mount.
pub fn ddi_mount_start() -> (a: DdiAction)
    ensures
        a matches DdiAction::Run { step: DdiStep::Query, item, percent } && item@
            == "Connecting with Apple CoreDevice"@ && percent == 15,
{
    DdiAction::Run { step: DdiStep::Query, item: copy_str("Connecting with Apple CoreDevice"), percent: 15 }
}

fn prefixed(prefix: &str, text: &str) -> (r: String)
    ensures
        r@ == prefix@ + text@,
{
    let mut r = copy_str(prefix);
    append_str(&mut r, text);
    r
}

/// The next action after a devicectl step ended.
pub fn ddi_mount_next(step: DdiStep, outcome: DevicectlOutcome) -> (a: DdiAction)
    ensures
        outcome is Succeeded && step is Pair ==> (a matches DdiAction::Run {
            step: DdiStep::Retry,
            item,
            percent,
        } && item@ == "Mounting Developer Disk Image"@ && percent == 70),
        outcome is Succeeded && !(step is Pair) ==> (a matches DdiAction::Done { item, percent }
            && item@ == "Developer Disk Image services ready"@ && percent == 100),
        match outcome {
            DevicectlOutcome::NotStarted(reason) => (a matches DdiAction::Fail(e) && match step {
                DdiStep::Query => e.kind@ == "ddi"@ && e.message@ == "Unable to start Apple's DDI manager: "@
                    + reason@ && !e.retryable,
                DdiStep::Pair => e.kind@ == "pairing"@ && e.message@
                    == "Unable to start CoreDevice pairing: "@ + reason@ && e.retryable,
                DdiStep::Retry => e.kind@ == "ddi"@ && e.message@
                    == "Unable to restart Apple's DDI manager: "@ + reason@ && e.retryable,
            }),
            DevicectlOutcome::Failed(text) => match step {
                DdiStep::Query => if spec_pairing_required(text@) {
                    (a matches DdiAction::Run { step: DdiStep::Pair, item, percent } && item@
                        == "Pairing with Apple CoreDevice"@ && percent == 40)
                } else {
                    (a matches DdiAction::Fail(e) && e.kind@ == "ddi"@ && e.message@
                        == "Apple DDI manager failed: "@ + text@ && e.retryable)
                },
                DdiStep::Pair => (a matches DdiAction::Fail(e) && e.kind@ == "pairing"@ && e.message@
                    == "CoreDevice pairing failed. Keep the iPhone unlocked and accept the trust prompt, then retry. "@
                    + text@ && e.retryable),
                DdiStep::Retry => (a matches DdiAction::Fail(e) && e.kind@ == "ddi"@ && e.message@
                    == "CoreDevice paired successfully, but DDI mounting failed: "@ + text@
                    && e.retryable),
            },
            DevicectlOutcome::Succeeded => true,
        },
{
    match outcome {
        DevicectlOutcome::Succeeded => match step {
            DdiStep::Pair => DdiAction::Run {
                step: DdiStep::Retry,
                item: copy_str("Mounting Developer Disk Image"),
                percent: 70,
            },
            _ => DdiAction::Done { item: copy_str("Developer Disk Image services ready"), percent: 100 },
        },
        DevicectlOutcome::NotStarted(reason) => match step {
            DdiStep::Query => DdiAction::Fail(
                CommandError::new(
                    "ddi",
                    prefixed("Unable to start Apple's DDI manager: ", reason.as_str()).as_str(),
                    false,
                ),
            ),
            DdiStep::Pair => DdiAction::Fail(
                CommandError::new(
                    "pairing",
                    prefixed("Unable to start CoreDevice pairing: ", reason.as_str()).as_str(),
                    true,
                ),
            ),
            DdiStep::Retry => DdiAction::Fail(
                CommandError::new(
                    "ddi",
                    prefixed("Unable to restart Apple's DDI manager: ", reason.as_str()).as_str(),
                    true,
                ),
            ),
        },
        DevicectlOutcome::Failed(text) => match step {
            DdiStep::Query => if pairing_required(text.as_str()) {
                DdiAction::Run {
                    step: DdiStep::Pair,
                    item: copy_str("Pairing with Apple CoreDevice"),
                    percent: 40,
                }
            } else {
                DdiAction::Fail(
                    CommandError::new(
                        "ddi",
                        prefixed("Apple DDI manager failed: ", text.as_str()).as_str(),
                        true,
                    ),
                )
            },
            DdiStep::Pair => DdiAction::Fail(
                CommandError::new(
                    "pairing",
                    prefixed(
                        "CoreDevice pairing failed. Keep the iPhone unlocked and accept the trust prompt, then retry. ",
                        text.as_str(),
                    ).as_str(),
                    true,
                ),
            ),
            DdiStep::Retry => DdiAction::Fail(
                CommandError::new(
                    "ddi",
                    prefixed("CoreDevice paired successfully, but DDI mounting failed: ", text.as_str()).as_str(),
                    true,
                ),
            ),
        },
    }
}

/// The devicectl arguments that ask for the DDI services without mounting.
pub fn ddi_probe_arguments(udid: &str) -> (r: Vec<String>)
    ensures
        r@.len() == 6,
        r@[0]@ == "device"@ && r@[1]@ == "info"@ && r@[2]@ == "ddiServices"@ && r@[3]@ == "--device"@
            && r@[4]@ == udid@ && r@[5]@ == "--no-auto-mount-ddis"@,
{
    let mut r: Vec<String> = Vec::new();
    r.push(copy_str("device"));
    r.push(copy_str("info"));
    r.push(copy_str("ddiServices"));
    r.push(copy_str("--device"));
    r.push(copy_str(udid));
    r.push(copy_str("--no-auto-mount-ddis"));
    r
}

/// The devicectl arguments of a step, for the device `udid`.
pub fn devicectl_arguments(step: &DdiStep, udid: &str) -> (r: Vec<String>)
    ensures
        r@.len() == (if *step is Pair {
            4int
        } else {
            6int
        }),
        *step is Pair ==> r@[0]@ == "manage"@ && r@[1]@ == "pair"@ && r@[2]@ == "--device"@ && r@[3]@
            == udid@,
        !(*step is Pair) ==> r@[0]@ == "device"@ && r@[1]@ == "info"@ && r@[2]@ == "ddiServices"@
            && r@[3]@ == "--device"@ && r@[4]@ == udid@ && r@[5]@ == "--auto-mount-ddis"@,
{
    let mut r: Vec<String> = Vec::new();
    match step {
        DdiStep::Pair => {
            r.push(copy_str("manage"));
            r.push(copy_str("pair"));
            r.push(copy_str("--device"));
            r.push(copy_str(udid));
        },
        _ => {
            r.push(copy_str("device"));
            r.push(copy_str("info"));
            r.push(copy_str("ddiServices"));
            r.push(copy_str("--device"));
            r.push(copy_str(udid));
            r.push(copy_str("--auto-mount-ddis"));
        },
    }
    r
}

// ---------------------------------------------------------------------------
// Automatic Developer Disk Image selection
// ---------------------------------------------------------------------------

/// A build identity for `product_type`.
pub open spec fn identity_matches(product_type: Seq<char>) -> spec_fn(PlistValue) -> bool {
    |v: PlistValue|
        match v {
            PlistValue::Dictionary(d) => string_at(d, "Ap,ProductType"@) == Some(product_type),
            _ => false,
        }
}

/// The build identities a manifest lists.
pub open spec fn manifest_identities(manifest: PlistValue) -> Option<Seq<PlistValue>> {
    match manifest {
        PlistValue::Dictionary(d) => match dict_get(d, "BuildIdentities"@) {
            Some(PlistValue::Array(items)) => Some(items@),
            _ => None,
        },
        _ => None,
    }
}

/// The build identity of a manifest for a product type: the first listed
/// dictionary whose `Ap,ProductType` names it.
pub fn select_build_identity<'a>(manifest: &'a PlistValue, product_type: &str) -> (r: Result<
    &'a PlistDict,
    CommandError,
>)
    ensures
        match manifest_identities(*manifest) {
            None => (r matches Err(e) && is_ddi_error(e, "BuildManifest has no identities"@)),
            Some(items) => match first_index(items, identity_matches(product_type@)) {
                Some(i) => (r matches Ok(d) && items[i] == PlistValue::Dictionary(*d)),
                None => (r matches Err(e) && is_ddi_error(
                    e,
                    "No compatible DDI found for "@ + product_type@,
                )),
            },
        },
{
    let items = match manifest {
        PlistValue::Dictionary(d) => match get(d, "BuildIdentities") {
            Some(PlistValue::Array(items)) => items,
            _ => return Err(CommandError::new("ddi", "BuildManifest has no identities", false)),
        },
        _ => return Err(CommandError::new("ddi", "BuildManifest has no identities", false)),
    };
    let ghost s = items@;
    let ghost q = identity_matches(product_type@);
    let mut i: usize = 0;
    while i < items.len()
        invariant
            i <= items@.len(),
            s == items@,
            manifest_identities(*manifest) == Some(s),
            q == identity_matches(product_type@),
            forall|j: int| 0 <= j < i ==> !q(#[trigger] s[j]),
        decreases items.len() - i,
    {
        let item = &items[i];
        assert(s[i as int] == *item);
        match item {
            PlistValue::Dictionary(d) => {
                let hit = match get_string(d, "Ap,ProductType") {
                    Some(t) => crate::text::str_eq(t.as_str(), product_type),
                    None => false,
                };
                assert(hit == q(s[i as int]));
                if hit {
                    proof {
                        lemma_first_index_is(s, q, i as int);
                    }
                    return Ok(d);
                }
            },
            _ => {
                assert(!q(s[i as int]));
            },
        }
        i = i + 1;
    }
    proof {
        lemma_first_index_none(s, q);
    }
    Err(CommandError::with_detail("ddi", "No compatible DDI found for ", product_type, false))
}

/// Where a manifest component lies: `Manifest/<component>/Info/Path`.
pub open spec fn spec_component_path(identity: PlistDict, component: Seq<char>) -> Option<Seq<char>> {
    match dict_at(identity, "Manifest"@) {
        Some(m) => match dict_at(m, component) {
            Some(c) => match dict_at(c, "Info"@) {
                Some(info) => string_at(info, "Path"@),
                None => None,
            },
            None => None,
        },
        None => None,
    }
}

/// Where a component of a build identity lies.
pub fn manifest_component_path(identity: &PlistDict, component: &str) -> (r: Option<String>)
    ensures
        r.deep_view() == spec_component_path(*identity, component@),
{
    let m = match get_dict(identity, "Manifest") {
        Some(m) => m,
        None => return None,
    };
    let c = match get_dict(m, component) {
        Some(c) => c,
        None => return None,
    };
    let info = match get_dict(c, "Info") {
        Some(info) => info,
        None => return None,
    };
    match get_string(info, "Path") {
        Some(p) => Some(p.clone()),
        None => None,
    }
}

/// The image and trust-cache paths of a build identity.
pub fn ddi_component_paths(identity: &PlistDict) -> (r: Result<(String, String), CommandError>)
    ensures
        match spec_component_path(*identity, "PersonalizedDMG"@) {
            None => (r matches Err(e) && is_ddi_error(e, "DDI image path is missing"@)),
            Some(image) => match spec_component_path(*identity, "LoadableTrustCache"@) {
                None => (r matches Err(e) && is_ddi_error(e, "DDI trust cache path is missing"@)),
                Some(trust) => (r matches Ok((i, t)) && i@ == image && t@ == trust),
            },
        },
{
    let image = match manifest_component_path(identity, "PersonalizedDMG") {
        Some(p) => p,
        None => return Err(CommandError::new("ddi", "DDI image path is missing", false)),
    };
    let trust = match manifest_component_path(identity, "LoadableTrustCache") {
        Some(p) => p,
        None => return Err(CommandError::new("ddi", "DDI trust cache path is missing", false)),
    };
    Ok((image, trust))
}

/// The image and trust-cache paths a build manifest gives for a product
/// type, or the message of the error met on the way.
pub open spec fn manifest_paths(manifest: PlistValue, product_type: Seq<char>) -> Result<
    (Seq<char>, Seq<char>),
    Seq<char>,
> {
    match manifest_identities(manifest) {
        None => Err("BuildManifest has no identities"@),
        Some(items) => match first_index(items, identity_matches(product_type)) {
            None => Err("No compatible DDI found for "@ + product_type),
            Some(i) => match items[i] {
                PlistValue::Dictionary(d) => match spec_component_path(d, "PersonalizedDMG"@) {
                    None => Err("DDI image path is missing"@),
                    Some(image) => match spec_component_path(d, "LoadableTrustCache"@) {
                        None => Err("DDI trust cache path is missing"@),
                        Some(trust) => Ok((image, trust)),
                    },
                },
                _ => Err("BuildManifest has no identities"@),
            },
        },
    }
}

/// The Developer Disk Image files a `BuildManifest.plist`, given as its
/// bytes, names for a product type: the personalized image and its trust
/// cache, relative to the manifest's folder. Bytes that are no property list
/// are refused with the parser's message.
pub fn ddi_manifest_paths(manifest: &[u8], product_type: &str) -> (r: Result<(String, String), CommandError>)
    ensures
        match plist_decoding(manifest@) {
            Err(t) => (r matches Err(e) && is_ddi_error(e, t)),
            Ok(v) => match manifest_paths(v, product_type@) {
                Ok((image, trust)) => (r matches Ok((i, t)) && i@ == image && t@ == trust),
                Err(m) => (r matches Err(e) && is_ddi_error(e, m)),
            },
        },
{
    match decode_plist(manifest) {
        Err(t) => Err(CommandError::new("ddi", t.as_str(), false)),
        Ok(v) => {
            let identity = select_build_identity(&v, product_type)?;
            ddi_component_paths(identity)
        },
    }
}

/// What a finished attach leads to: an error when debugserver refused it
/// (the launched app must then be cleaned up), else the session and the
/// status to report.
pub fn jit_after_attach(bundle_id: String, pid: u64, response: Option<String>) -> (r: Result<
    (crate::types::JitSession, StreamStatus),
    CommandError,
>)
    ensures
        match spec_attach_failure(response.deep_view()) {
            Some(detail) => (r matches Err(e) && e.kind@ == "jit"@ && e.message@ == "Unable to attach to "@
                + bundle_id@ + ": "@ + detail && !e.retryable),
            None => (r matches Ok((session, status)) && session.bundle_id@ == bundle_id@ && session.pid
                == pid && session.response.deep_view() == response.deep_view() && status.stream@
                == "jit"@ && status.state@ == "attached"@ && (status.message matches Some(m) && m@
                == bundle_id@ + " · pid "@ + decimal(pid))),
        },
{
    let failure = match &response {
        Some(s) => attach_failure(Some(s.as_str())),
        None => attach_failure(None),
    };
    match failure {
        Some(detail) => Err(attach_rejected(bundle_id.as_str(), detail.as_str())),
        None => {
            let status = jit_attached_status(bundle_id.as_str(), pid);
            Ok((crate::types::JitSession { bundle_id, pid, response }, status))
        },
    }
}

} // verus!
