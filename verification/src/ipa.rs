//! What makes an IPA installable: a signed Mach-O executable inside a
//! `Payload/<name>.app` bundle.
use vstd::prelude::*;

use crate::error::CommandError;
use crate::paths::{extension, file_name, path_extension, path_file_name};
use crate::plist_data::{decode_plist, get_string, plist_decoding, string_at, PlistValue};
use crate::seqs::first_index;
use crate::text::{
    append_str, ascii_lowercase, ascii_lowercase_chars, chars_of, contains_char, copy_str,
    split_chars, split_on, str_ends_with, str_eq, string_of, views_of,
};

verus! {

/// Load command that points at the embedded code signature.
pub const LC_CODE_SIGNATURE: u32 = 0x1d;

/// Magic number of an embedded signature super-blob (big-endian on disk).
pub const EMBEDDED_SIGNATURE_MAGIC: u32 = 0xfade0cc0;

/// The byte order of a Mach-O structure.
#[derive(Clone, Copy, Debug, PartialEq, Eq, Structural)]
pub enum ByteOrder {
    Big,
    Little,
}

// ---------------------------------------------------------------------------
// Integers in a byte sequence
// ---------------------------------------------------------------------------

/// Four bytes, most significant first.
pub open spec fn word32(b0: u8, b1: u8, b2: u8, b3: u8) -> int {
    ((b0 * 256 + b1) * 256 + b2) * 256 + b3
}

/// Eight bytes, most significant first.
pub open spec fn word64(b: Seq<u8>) -> int
    recommends
        b.len() == 8,
{
    word32(b[0], b[1], b[2], b[3]) * 0x1_0000_0000 + word32(b[4], b[5], b[6], b[7])
}

/// The 32-bit integer stored at `offset`, when four bytes are there.
pub open spec fn spec_read_u32(bytes: Seq<u8>, offset: int, order: ByteOrder) -> Option<u32> {
    if 0 <= offset && offset + 4 <= bytes.len() {
        Some(
            (match order {
                ByteOrder::Big => word32(
                    bytes[offset],
                    bytes[offset + 1],
                    bytes[offset + 2],
                    bytes[offset + 3],
                ),
                ByteOrder::Little => word32(
                    bytes[offset + 3],
                    bytes[offset + 2],
                    bytes[offset + 1],
                    bytes[offset],
                ),
            }) as u32,
        )
    } else {
        None
    }
}

/// The 64-bit integer stored at `offset`, when eight bytes are there.
pub open spec fn spec_read_u64(bytes: Seq<u8>, offset: int, order: ByteOrder) -> Option<u64> {
    if 0 <= offset && offset + 8 <= bytes.len() {
        let b = bytes.subrange(offset, offset + 8);
        Some(
            (match order {
                ByteOrder::Big => word64(b),
                ByteOrder::Little => word64(b.reverse()),
            }) as u64,
        )
    } else {
        None
    }
}

proof fn lemma_word32_bound(b0: u8, b1: u8, b2: u8, b3: u8)
    ensures
        0 <= word32(b0, b1, b2, b3) < 0x1_0000_0000,
{
}

/// Reads a 32-bit integer at `offset` in the given byte order.
pub fn read_u32(bytes: &[u8], offset: usize, order: ByteOrder) -> (r: Option<u32>)
    ensures
        r == spec_read_u32(bytes@, offset as int, order),
{
    if offset > bytes.len() || bytes.len() - offset < 4 {
        return None;
    }
    let b0 = bytes[offset];
    let b1 = bytes[offset + 1];
    let b2 = bytes[offset + 2];
    let b3 = bytes[offset + 3];
    let value: u32 = match order {
        ByteOrder::Big => (b0 as u32) * 0x100_0000 + (b1 as u32) * 0x1_0000 + (b2 as u32) * 0x100
            + (b3 as u32),
        ByteOrder::Little => (b3 as u32) * 0x100_0000 + (b2 as u32) * 0x1_0000 + (b1 as u32)
            * 0x100 + (b0 as u32),
    };
    proof {
        lemma_word32_bound(b0, b1, b2, b3);
        lemma_word32_bound(b3, b2, b1, b0);
    }
    Some(value)
}

/// Reads a 64-bit integer at `offset` in the given byte order.
pub fn read_u64(bytes: &[u8], offset: usize, order: ByteOrder) -> (r: Option<u64>)
    ensures
        r == spec_read_u64(bytes@, offset as int, order),
{
    if offset > bytes.len() || bytes.len() - offset < 8 {
        return None;
    }
    let ghost b = bytes@.subrange(offset as int, offset + 8);
    let hi = read_u32(bytes, offset, ByteOrder::Big);
    let lo = read_u32(bytes, offset + 4, ByteOrder::Big);
    let hi_le = read_u32(bytes, offset + 4, ByteOrder::Little);
    let lo_le = read_u32(bytes, offset, ByteOrder::Little);
    match (hi, lo, hi_le, lo_le) {
        (Some(hi), Some(lo), Some(hi_le), Some(lo_le)) => {
            proof {
                assert(b[0] == bytes@[offset as int] && b[1] == bytes@[offset + 1] && b[2]
                    == bytes@[offset + 2] && b[3] == bytes@[offset + 3]);
                assert(b[4] == bytes@[offset + 4] && b[5] == bytes@[offset + 5] && b[6]
                    == bytes@[offset + 6] && b[7] == bytes@[offset + 7]);
                let r = b.reverse();
                assert(r[0] == b[7] && r[1] == b[6] && r[2] == b[5] && r[3] == b[4]);
                assert(r[4] == b[3] && r[5] == b[2] && r[6] == b[1] && r[7] == b[0]);
                lemma_word32_bound(b[0], b[1], b[2], b[3]);
                lemma_word32_bound(b[4], b[5], b[6], b[7]);
                lemma_word32_bound(r[0], r[1], r[2], r[3]);
                lemma_word32_bound(r[4], r[5], r[6], r[7]);
            }
            let value: u64 = match order {
                ByteOrder::Big => (hi as u64) * 0x1_0000_0000 + (lo as u64),
                ByteOrder::Little => (hi_le as u64) * 0x1_0000_0000 + (lo_le as u64),
            };
            Some(value)
        },
        _ => None,
    }
}

// ---------------------------------------------------------------------------
// Mach-O code signatures
// ---------------------------------------------------------------------------

/// The byte order and header size of a thin Mach-O image, from its magic.
pub open spec fn thin_header(bytes: Seq<u8>) -> Option<(ByteOrder, int)> {
    if bytes.len() < 4 {
        None
    } else if bytes[0] == 0xce && bytes[1] == 0xfa && bytes[2] == 0xed && bytes[3] == 0xfe {
        Some((ByteOrder::Little, 28))
    } else if bytes[0] == 0xcf && bytes[1] == 0xfa && bytes[2] == 0xed && bytes[3] == 0xfe {
        Some((ByteOrder::Little, 32))
    } else if bytes[0] == 0xfe && bytes[1] == 0xed && bytes[2] == 0xfa && bytes[3] == 0xce {
        Some((ByteOrder::Big, 28))
    } else if bytes[0] == 0xfe && bytes[1] == 0xed && bytes[2] == 0xfa && bytes[3] == 0xcf {
        Some((ByteOrder::Big, 32))
    } else {
        None
    }
}

/// A code-signature load command of `size` bytes at `cursor` whose blob lies
/// inside the image and starts with the embedded-signature magic.
pub open spec fn signature_command_valid(bytes: Seq<u8>, order: ByteOrder, cursor: int, size: int) -> bool {
    &&& size >= 16
    &&& match (spec_read_u32(bytes, cursor + 8, order), spec_read_u32(bytes, cursor + 12, order)) {
        (Some(offset), Some(length)) => length >= 12 && offset + length <= bytes.len()
            && spec_read_u32(bytes, offset as int, ByteOrder::Big) == Some(EMBEDDED_SIGNATURE_MAGIC),
        _ => false,
    }
}

/// Walking at most `remaining` load commands from `cursor`, each well formed
/// and inside `[cursor, end)`, one reaches a valid code-signature command.
pub open spec fn commands_signed(
    bytes: Seq<u8>,
    order: ByteOrder,
    cursor: int,
    remaining: nat,
    end: int,
) -> bool
    decreases remaining,
{
    if remaining == 0 {
        false
    } else {
        match (spec_read_u32(bytes, cursor, order), spec_read_u32(bytes, cursor + 4, order)) {
            (Some(command), Some(size)) => if size < 8 || cursor + size > end {
                false
            } else if command == LC_CODE_SIGNATURE {
                signature_command_valid(bytes, order, cursor, size as int)
            } else {
                commands_signed(bytes, order, cursor + size, (remaining - 1) as nat, end)
            },
            _ => false,
        }
    }
}

/// A thin Mach-O image whose load commands fit in it and carry a valid
/// embedded code signature.
pub open spec fn thin_signed(bytes: Seq<u8>) -> bool {
    match thin_header(bytes) {
        Some((order, header_size)) => match (
            spec_read_u32(bytes, 16, order),
            spec_read_u32(bytes, 20, order),
        ) {
            (Some(count), Some(commands_size)) => header_size + commands_size <= bytes.len()
                && commands_signed(bytes, order, header_size, count as nat, header_size + commands_size),
            _ => false,
        },
        None => false,
    }
}

/// The byte order of a universal (fat) binary and whether its records are
/// the 64-bit kind, from its magic.
pub open spec fn fat_header(bytes: Seq<u8>) -> Option<(ByteOrder, bool)> {
    if bytes.len() < 4 {
        None
    } else if bytes[0] == 0xca && bytes[1] == 0xfe && bytes[2] == 0xba && bytes[3] == 0xbe {
        Some((ByteOrder::Big, false))
    } else if bytes[0] == 0xbe && bytes[1] == 0xba && bytes[2] == 0xfe && bytes[3] == 0xca {
        Some((ByteOrder::Little, false))
    } else if bytes[0] == 0xca && bytes[1] == 0xfe && bytes[2] == 0xba && bytes[3] == 0xbf {
        Some((ByteOrder::Big, true))
    } else if bytes[0] == 0xbf && bytes[1] == 0xba && bytes[2] == 0xfe && bytes[3] == 0xca {
        Some((ByteOrder::Little, true))
    } else {
        None
    }
}

/// Where the record of architecture `index` starts in a fat header.
pub open spec fn fat_record_offset(is_64: bool, index: int) -> int {
    8 + index * (if is_64 {
        32int
    } else {
        20int
    })
}

/// The offset and size of architecture `index`'s slice, as its record says.
pub open spec fn fat_slice(bytes: Seq<u8>, order: ByteOrder, is_64: bool, index: int) -> Option<
    (int, int),
> {
    let record = fat_record_offset(is_64, index);
    if is_64 {
        match (spec_read_u64(bytes, record + 8, order), spec_read_u64(bytes, record + 16, order)) {
            (Some(offset), Some(size)) => Some((offset as int, size as int)),
            _ => None,
        }
    } else {
        match (spec_read_u32(bytes, record + 8, order), spec_read_u32(bytes, record + 12, order)) {
            (Some(offset), Some(size)) => Some((offset as int, size as int)),
            _ => None,
        }
    }
}

/// Architecture `index` of a fat binary lies inside it and is a signed thin image.
pub open spec fn arch_signed(bytes: Seq<u8>, order: ByteOrder, is_64: bool, index: int) -> bool {
    match fat_slice(bytes, order, is_64, index) {
        Some((offset, size)) => offset + size <= bytes.len() && thin_signed(
            bytes.subrange(offset, offset + size),
        ),
        None => false,
    }
}

/// An executable carries a valid embedded code signature: a signed thin image,
/// or a fat binary of one to 64 architectures, every one of them signed.
pub open spec fn macho_signed(bytes: Seq<u8>) -> bool {
    match fat_header(bytes) {
        Some((order, is_64)) => match spec_read_u32(bytes, 4, order) {
            Some(count) => 1 <= count <= 64 && forall|i: int|
                0 <= i < count ==> #[trigger] arch_signed(bytes, order, is_64, i),
            None => false,
        },
        None => thin_signed(bytes),
    }
}

fn thin_header_exec(bytes: &[u8]) -> (r: Option<(ByteOrder, usize)>)
    ensures
        match r {
            Some((order, size)) => thin_header(bytes@) == Some((order, size as int)),
            None => thin_header(bytes@) is None,
        },
{
    if bytes.len() < 4 {
        return None;
    }
    let (b0, b1, b2, b3) = (bytes[0], bytes[1], bytes[2], bytes[3]);
    if b0 == 0xce && b1 == 0xfa && b2 == 0xed && b3 == 0xfe {
        Some((ByteOrder::Little, 28))
    } else if b0 == 0xcf && b1 == 0xfa && b2 == 0xed && b3 == 0xfe {
        Some((ByteOrder::Little, 32))
    } else if b0 == 0xfe && b1 == 0xed && b2 == 0xfa && b3 == 0xce {
        Some((ByteOrder::Big, 28))
    } else if b0 == 0xfe && b1 == 0xed && b2 == 0xfa && b3 == 0xcf {
        Some((ByteOrder::Big, 32))
    } else {
        None
    }
}

/// Whether a thin Mach-O image carries a valid embedded code signature.
pub fn thin_macho_has_signature(bytes: &[u8]) -> (r: bool)
    ensures
        r == thin_signed(bytes@),
{
    let (order, header_size) = match thin_header_exec(bytes) {
        Some(h) => h,
        None => return false,
    };
    let command_count = match read_u32(bytes, 16, order) {
        Some(v) => v as usize,
        None => return false,
    };
    let commands_size = match read_u32(bytes, 20, order) {
        Some(v) => v as usize,
        None => return false,
    };
    if commands_size > bytes.len() || header_size > bytes.len() - commands_size {
        return false;
    }
    let commands_end = header_size + commands_size;
    let ghost total = command_count as nat;
    let mut cursor = header_size;
    let mut i: usize = 0;
    while i < command_count
        invariant
            i <= command_count,
            total == command_count as nat,
            commands_end <= bytes@.len(),
            cursor <= commands_end,
            thin_signed(bytes@) == commands_signed(
                bytes@,
                order,
                cursor as int,
                (total - i) as nat,
                commands_end as int,
            ),
        decreases command_count - i,
    {
        let command = match read_u32(bytes, cursor, order) {
            Some(v) => v,
            None => return false,
        };
        assert(cursor + 4 <= bytes.len());
        let command_size = match read_u32(bytes, cursor + 4, order) {
            Some(v) => v as usize,
            None => return false,
        };
        if command_size < 8 || command_size > commands_end - cursor {
            return false;
        }
        let command_end = cursor + command_size;
        if command == LC_CODE_SIGNATURE {
            if command_size < 16 {
                return false;
            }
            let signature_offset = match read_u32(bytes, cursor + 8, order) {
                Some(v) => v as usize,
                None => return false,
            };
            let signature_size = match read_u32(bytes, cursor + 12, order) {
                Some(v) => v as usize,
                None => return false,
            };
            if signature_offset > bytes.len() || signature_size > bytes.len() - signature_offset {
                return false;
            }
            return signature_size >= 12 && match read_u32(bytes, signature_offset, ByteOrder::Big) {
                Some(magic) => magic == EMBEDDED_SIGNATURE_MAGIC,
                None => false,
            };
        }
        cursor = command_end;
        i = i + 1;
    }
    false
}

fn fat_header_exec(bytes: &[u8]) -> (r: Option<(ByteOrder, bool)>)
    ensures
        r == fat_header(bytes@),
{
    if bytes.len() < 4 {
        return None;
    }
    let (b0, b1, b2, b3) = (bytes[0], bytes[1], bytes[2], bytes[3]);
    if b0 == 0xca && b1 == 0xfe && b2 == 0xba && b3 == 0xbe {
        Some((ByteOrder::Big, false))
    } else if b0 == 0xbe && b1 == 0xba && b2 == 0xfe && b3 == 0xca {
        Some((ByteOrder::Little, false))
    } else if b0 == 0xca && b1 == 0xfe && b2 == 0xba && b3 == 0xbf {
        Some((ByteOrder::Big, true))
    } else if b0 == 0xbf && b1 == 0xba && b2 == 0xfe && b3 == 0xca {
        Some((ByteOrder::Little, true))
    } else {
        None
    }
}

/// Whether architecture `index` of a fat binary is a signed thin image.
fn arch_has_signature(bytes: &[u8], order: ByteOrder, is_64: bool, index: usize) -> (r: bool)
    requires
        index < 64,
    ensures
        r == arch_signed(bytes@, order, is_64, index as int),
{
    let record_size: usize = if is_64 {
        32
    } else {
        20
    };
    let record = 8 + index * record_size;
    assert(record == fat_record_offset(is_64, index as int));
    let (slice_offset, slice_size) = if is_64 {
        (read_u64(bytes, record + 8, order), read_u64(bytes, record + 16, order))
    } else {
        (
            match read_u32(bytes, record + 8, order) {
                Some(v) => Some(v as u64),
                None => None,
            },
            match read_u32(bytes, record + 12, order) {
                Some(v) => Some(v as u64),
                None => None,
            },
        )
    };
    let (offset, size) = match (slice_offset, slice_size) {
        (Some(o), Some(s)) => (o, s),
        _ => return false,
    };
    if offset > bytes.len() as u64 || size > bytes.len() as u64 - offset {
        return false;
    }
    let start = offset as usize;
    let end = (offset + size) as usize;
    let slice = &bytes[start..end];
    thin_macho_has_signature(slice)
}

/// A universal binary is signed only when every one of its architectures is:
/// one unsigned slice makes the whole executable unsigned.
pub proof fn law_fat_binary_needs_every_architecture(
    bytes: Seq<u8>,
    order: ByteOrder,
    is_64: bool,
    count: u32,
    i: int,
)
    requires
        fat_header(bytes) == Some((order, is_64)),
        spec_read_u32(bytes, 4, order) == Some(count),
        0 <= i < count,
        !arch_signed(bytes, order, is_64, i),
    ensures
        !macho_signed(bytes),
{
    if macho_signed(bytes) {
        assert(fat_header(bytes) is Some);
        let h = fat_header(bytes)->0;
        assert(h.0 == order);
        assert(h.1 == is_64);
        assert(forall|j: int| 0 <= j < count ==> #[trigger] arch_signed(bytes, order, is_64, j));
        assert(arch_signed(bytes, order, is_64, i));
    }
}

/// Whether an executable carries a valid embedded code signature: a signed
/// thin image, or a fat binary whose every architecture is one.
pub fn macho_has_signature(bytes: &[u8]) -> (r: bool)
    ensures
        r == macho_signed(bytes@),
{
    let (order, is_64) = match fat_header_exec(bytes) {
        Some(h) => h,
        None => return thin_macho_has_signature(bytes),
    };
    let count32 = match read_u32(bytes, 4, order) {
        Some(v) => v,
        None => return false,
    };
    if count32 == 0 || count32 > 64 {
        return false;
    }
    let count = count32 as usize;
    let mut i: usize = 0;
    while i < count
        invariant
            i <= count <= 64,
            fat_header(bytes@) == Some((order, is_64)),
            spec_read_u32(bytes@, 4, order) == Some(count32),
            count == count32,
            forall|j: int| 0 <= j < i ==> #[trigger] arch_signed(bytes@, order, is_64, j),
        decreases count - i,
    {
        if !arch_has_signature(bytes, order, is_64, i) {
            proof {
                law_fat_binary_needs_every_architecture(bytes@, order, is_64, count32, i as int);
            }
            return false;
        }
        i = i + 1;
    }
    true
}

// ---------------------------------------------------------------------------
// IPA structure
// ---------------------------------------------------------------------------

/// The largest `Info.plist` read from an IPA.
pub const MAX_INFO_PLIST_SIZE: u64 = 4194304;

/// The largest executable read from an IPA.
pub const MAX_EXECUTABLE_SIZE: u64 = 536870912;

/// An error about the IPA being installed.
pub open spec fn is_ipa_error(e: CommandError, message: Seq<char>) -> bool {
    e.kind@ == "ipa_signature"@ && e.message@ == message && !e.retryable
}

/// An error about the IPA being installed.
pub fn ipa_error(message: &str) -> (e: CommandError)
    ensures
        is_ipa_error(e, message@),
{
    CommandError::new("ipa_signature", message, false)
}

/// An archive error, with what was being done and what the archive reported.
pub fn zip_error(context: &str, error: &str) -> (e: CommandError)
    ensures
        is_ipa_error(e, context@ + ": "@ + error@),
{
    let mut m = copy_str(context);
    append_str(&mut m, ": ");
    append_str(&mut m, error);
    ipa_error(m.as_str())
}

/// An IPA is chosen by a file with the extension `ipa`, in any ASCII case.
pub fn check_ipa_choice(path: &str, is_file: bool) -> (r: Result<(), CommandError>)
    ensures
        r is Ok <==> is_file && (path_extension(path@) matches Some(x) && ascii_lowercase(x)
            == "ipa"@),
        r matches Err(e) ==> is_ipa_error(e, "Please choose a valid .ipa file"@),
{
    let ok = is_file && match extension(path) {
        Some(x) => {
            let l = string_of(&ascii_lowercase_chars(&chars_of(x.as_str())));
            str_eq(l.as_str(), "ipa")
        },
        None => false,
    };
    if ok {
        Ok(())
    } else {
        Err(ipa_error("Please choose a valid .ipa file"))
    }
}

/// An archive entry no larger than the limit for its kind.
pub fn check_entry_size(name: &str, size: u64, maximum: u64) -> (r: Result<(), CommandError>)
    ensures
        r is Ok <==> size <= maximum,
        r matches Err(e) ==> is_ipa_error(e, "IPA entry is too large: "@ + name@),
{
    if size > maximum {
        let mut m = copy_str("IPA entry is too large: ");
        append_str(&mut m, name);
        Err(ipa_error(m.as_str()))
    } else {
        Ok(())
    }
}

/// An entry name of the form `Payload/<name>.app/Info.plist`.
pub open spec fn is_info_plist_entry(name: Seq<char>) -> bool {
    let parts = split_on(name, '/');
    parts.len() == 3 && parts[0] == "Payload"@ && ".app"@.is_suffix_of(parts[1]) && parts[2]
        == "Info.plist"@
}

pub open spec fn info_plist_entry() -> spec_fn(Seq<char>) -> bool {
    |n: Seq<char>| is_info_plist_entry(n)
}

fn info_plist_entry_exec(name: &str) -> (r: bool)
    ensures
        r == is_info_plist_entry(name@),
{
    let parts = split_chars(&chars_of(name), '/');
    let ghost pv = views_of(parts@);
    if parts.len() != 3 {
        return false;
    }
    assert(pv[0] == parts@[0]@ && pv[1] == parts@[1]@ && pv[2] == parts@[2]@);
    let first = string_of(&parts[0]);
    let second = string_of(&parts[1]);
    let third = string_of(&parts[2]);
    str_eq(first.as_str(), "Payload") && str_ends_with(second.as_str(), ".app") && str_eq(
        third.as_str(),
        "Info.plist",
    )
}

/// The application's `Info.plist` among the archive's entry names: the
/// first of the form `Payload/<name>.app/Info.plist`.
pub fn find_info_plist(names: &Vec<String>) -> (r: Result<String, CommandError>)
    ensures
        match first_index(names.deep_view(), info_plist_entry()) {
            Some(i) => (r matches Ok(s) && s@ == names.deep_view()[i]),
            None => (r matches Err(e) && is_ipa_error(
                e,
                "Invalid IPA: Payload/*.app/Info.plist was not found"@,
            )),
        },
{
    let ghost v = names.deep_view();
    proof {
        crate::discovery::lemma_strings_deep_view(names);
    }
    let mut i: usize = 0;
    while i < names.len()
        invariant
            i <= names.len(),
            v == names.deep_view(),
            v.len() == names@.len(),
            forall|k: int| 0 <= k < names@.len() ==> #[trigger] v[k] == names@[k]@,
            forall|k: int| 0 <= k < i ==> !info_plist_entry()(#[trigger] v[k]),
        decreases names.len() - i,
    {
        if info_plist_entry_exec(names[i].as_str()) {
            proof {
                crate::seqs::lemma_first_index_is(v, info_plist_entry(), i as int);
            }
            return Ok(names[i].clone());
        }
        i = i + 1;
    }
    proof {
        crate::seqs::lemma_first_index_none(v, info_plist_entry());
    }
    Err(ipa_error("Invalid IPA: Payload/*.app/Info.plist was not found"))
}

/// The application folder: the `Info.plist` path without `/Info.plist`.
pub fn app_root(info_path: &str) -> (r: Result<String, CommandError>)
    ensures
        "/Info.plist"@.is_suffix_of(info_path@) ==> (r matches Ok(s) && s@ == info_path@.take(
            info_path@.len() - 11,
        )),
        !"/Info.plist"@.is_suffix_of(info_path@) ==> (r matches Err(e) && is_ipa_error(
            e,
            "Invalid IPA application structure"@,
        )),
{
    proof {
        reveal_strlit("/Info.plist");
    }
    if str_ends_with(info_path, "/Info.plist") {
        let chars = chars_of(info_path);
        let root = crate::text::chars_range(&chars, 0, chars.len() - 11);
        assert(root@ =~= info_path@.take(info_path@.len() - 11));
        Ok(string_of(&root))
    } else {
        Err(ipa_error("Invalid IPA application structure"))
    }
}

/// Where an application's signature manifest lies.
pub fn code_resources_path(app_root: &str) -> (r: String)
    ensures
        r@ == app_root@ + "/_CodeSignature/CodeResources"@,
{
    let mut r = copy_str(app_root);
    append_str(&mut r, "/_CodeSignature/CodeResources");
    r
}

/// The signature manifest must exist and not be empty.
pub fn check_code_resources(size: Option<u64>) -> (r: Result<(), CommandError>)
    ensures
        size is None ==> (r matches Err(e) && is_ipa_error(
            e,
            "This IPA is not signed: _CodeSignature/CodeResources is missing"@,
        )),
        size == Some(0u64) ==> (r matches Err(e) && is_ipa_error(
            e,
            "This IPA is not signed: CodeResources is empty"@,
        )),
        (size matches Some(n) && n > 0) ==> r is Ok,
{
    match size {
        None => Err(ipa_error("This IPA is not signed: _CodeSignature/CodeResources is missing")),
        Some(0) => Err(ipa_error("This IPA is not signed: CodeResources is empty")),
        Some(_) => Ok(()),
    }
}

/// A usable executable name: not empty, and naming no folder.
pub open spec fn valid_executable_name(name: Seq<char>) -> bool {
    name.len() > 0 && !name.contains('/') && !name.contains('\\')
}

/// The executable an `Info.plist` names in `CFBundleExecutable`.
pub fn executable_name(value: Option<String>) -> (r: Result<String, CommandError>)
    ensures
        (value matches Some(v) && valid_executable_name(v@)) ==> (r matches Ok(s) && s@ == value->0@),
        !(value matches Some(v) && valid_executable_name(v@)) ==> (r matches Err(e) && is_ipa_error(
            e,
            "Invalid IPA: CFBundleExecutable is missing"@,
        )),
{
    match value {
        Some(v) => {
            let chars = chars_of(v.as_str());
            if chars.len() > 0 && !contains_char(&chars, '/') && !contains_char(&chars, '\\') {
                Ok(v)
            } else {
                Err(ipa_error("Invalid IPA: CFBundleExecutable is missing"))
            }
        },
        None => Err(ipa_error("Invalid IPA: CFBundleExecutable is missing")),
    }
}

/// An `Info.plist` that cannot be read.
pub fn info_plist_error(error: &str) -> (e: CommandError)
    ensures
        is_ipa_error(e, "Invalid IPA Info.plist: "@ + error@),
{
    let mut m = copy_str("Invalid IPA Info.plist: ");
    append_str(&mut m, error);
    ipa_error(m.as_str())
}

/// The executable an `Info.plist` value names, when it is a dictionary with
/// a string under `CFBundleExecutable`.
pub open spec fn info_executable(v: PlistValue) -> Option<Seq<char>> {
    match v {
        PlistValue::Dictionary(d) => string_at(d, "CFBundleExecutable"@),
        _ => None,
    }
}

/// The executable an app's `Info.plist`, given as its bytes, names: refused
/// when the bytes are no property list, and when the name is missing, empty
/// or names a folder.
pub fn ipa_executable_name(info_plist: &[u8]) -> (r: Result<String, CommandError>)
    ensures
        match plist_decoding(info_plist@) {
            Err(t) => (r matches Err(e) && is_ipa_error(e, "Invalid IPA Info.plist: "@ + t)),
            Ok(v) => if info_executable(v) matches Some(n) && valid_executable_name(n) {
                (r matches Ok(s) && s@ == info_executable(v)->0)
            } else {
                (r matches Err(e) && is_ipa_error(e, "Invalid IPA: CFBundleExecutable is missing"@))
            },
        },
{
    match decode_plist(info_plist) {
        Err(t) => Err(info_plist_error(t.as_str())),
        Ok(v) => {
            let name = match &v {
                PlistValue::Dictionary(d) => match get_string(d, "CFBundleExecutable") {
                    Some(n) => Some(copy_str(n.as_str())),
                    None => None,
                },
                _ => None,
            };
            executable_name(name)
        },
    }
}

/// Where the executable lies in the archive.
pub fn executable_path(app_root: &str, name: &str) -> (r: String)
    ensures
        r@ == app_root@ + "/"@ + name@,
{
    let mut r = copy_str(app_root);
    append_str(&mut r, "/");
    append_str(&mut r, name);
    r
}

/// The executable must carry a valid embedded code signature.
pub fn check_executable_signature(executable: &[u8]) -> (r: Result<(), CommandError>)
    ensures
        r is Ok <==> macho_signed(executable@),
        r matches Err(e) ==> is_ipa_error(
            e,
            "This IPA is not signed: the app executable has no valid embedded code signature"@,
        ),
{
    if macho_has_signature(executable) {
        Ok(())
    } else {
        Err(
            ipa_error(
                "This IPA is not signed: the app executable has no valid embedded code signature",
            ),
        )
    }
}

/// The name an installation is reported under: the package's file name.
pub fn install_display_name(local_path: &str) -> (r: String)
    ensures
        r@ == match path_file_name(local_path@) {
            Some(n) => n,
            None => "Application.ipa"@,
        },
{
    match file_name(local_path) {
        Some(n) => n,
        None => copy_str("Application.ipa"),
    }
}


} // verus!
