//! File names, stems and extensions as `std::path::Path` reads them, and the
//! Unicode case and UTF-8 conversions of std that the library relies on.
use vstd::prelude::*;

use crate::seqs::{first_index, lemma_first_index_is};
use crate::text::char_is;
use vstd::utf8::{decode_utf8, valid_utf8};

verus! {

/// What `Path::file_name` gives for a path written as `p`: its final
/// component, if it has one.
pub uninterp spec fn path_file_name(p: Seq<char>) -> Option<Seq<char>>;

/// What `str::to_uppercase` makes of a string: its Unicode upper-case mapping,
/// which depends on the string alone.
pub uninterp spec fn uppercase(s: Seq<char>) -> Seq<char>;

/// What `String::from_utf8_lossy` makes of bytes: their UTF-8 decoding, with
/// each invalid sequence replaced by U+FFFD.
pub uninterp spec fn utf8_lossy(bytes: Seq<u8>) -> Seq<char>;

/// The position of the last `.` of a file name.
pub open spec fn last_dot(name: Seq<char>) -> Option<int> {
    match first_index(name.reverse(), char_is('.')) {
        Some(k) => Some(name.len() - 1 - k),
        None => None,
    }
}

/// `Path::file_stem` of a file name: the part before the last `.`, or the
/// whole name when it has no `.` but a leading one.
pub open spec fn stem_of(name: Seq<char>) -> Seq<char> {
    match last_dot(name) {
        Some(k) => if k == 0 {
            name
        } else {
            name.take(k)
        },
        None => name,
    }
}

/// `Path::extension` of a file name: the part after the last `.`, unless that
/// `.` is the leading one or there is none.
pub open spec fn extension_of(name: Seq<char>) -> Option<Seq<char>> {
    match last_dot(name) {
        Some(k) => if k == 0 {
            None
        } else {
            Some(name.skip(k + 1))
        },
        None => None,
    }
}

/// The extension of `stem.ext`, for a non-empty stem and an extension
/// without a dot, is `ext`.
pub proof fn lemma_extension_of_dotted(stem: Seq<char>, ext: Seq<char>)
    requires
        stem.len() > 0,
        !ext.contains('.'),
    ensures
        extension_of(stem + seq!['.'] + ext) == Some(ext),
{
    let n = stem + seq!['.'] + ext;
    let r = n.reverse();
    let e = ext.len() as int;
    assert forall|j: int| 0 <= j < e implies !char_is('.')(#[trigger] r[j]) by {
        assert(r[j] == n[n.len() - 1 - j]);
        assert(n[n.len() - 1 - j] == ext[e - 1 - j]);
        if ext[e - 1 - j] == '.' {
            assert(ext.contains('.'));
        }
    }
    assert(r[e] == n[stem.len() as int]);
    assert(char_is('.')(r[e]));
    lemma_first_index_is(r, char_is('.'), e);
    assert(last_dot(n) == Some(stem.len() as int));
    assert(n.skip(stem.len() as int + 1) =~= ext);
}

/// `Path::file_stem` of a path.
pub open spec fn path_file_stem(p: Seq<char>) -> Option<Seq<char>> {
    match path_file_name(p) {
        Some(n) => Some(stem_of(n)),
        None => None,
    }
}

/// `Path::extension` of a path.
pub open spec fn path_extension(p: Seq<char>) -> Option<Seq<char>> {
    match path_file_name(p) {
        Some(n) => extension_of(n),
        None => None,
    }
}

/// The final component of a path (std's `Path::file_name`, as text: a
/// component of a `str` path is itself valid UTF-8).
#[verifier::external_body]
pub(crate) fn file_name(path: &str) -> (r: Option<String>)
    ensures
        r.deep_view() == path_file_name(path@),
{
    std::path::Path::new(path).file_name().and_then(|v| v.to_str()).map(|v| v.to_owned())
}

/// std's `Path::file_stem`. Its documentation defines the stem from the file
/// name: the whole name without an embedded `.` or with only a leading one,
/// else the part before the final `.`.
#[verifier::external_body]
pub(crate) fn file_stem(path: &str) -> (r: Option<String>)
    ensures
        r.deep_view() == path_file_stem(path@),
{
    std::path::Path::new(path).file_stem().and_then(|v| v.to_str()).map(|v| v.to_owned())
}

/// std's `Path::extension`. Its documentation defines it from the file name:
/// none without an embedded `.` or with only a leading one, else the part
/// after the final `.`.
#[verifier::external_body]
pub(crate) fn extension(path: &str) -> (r: Option<String>)
    ensures
        r.deep_view() == path_extension(path@),
{
    std::path::Path::new(path).extension().and_then(|v| v.to_str()).map(|v| v.to_owned())
}

/// Unicode upper case (std's `str::to_uppercase`).
#[verifier::external_body]
pub(crate) fn to_uppercase(s: &str) -> (r: String)
    ensures
        r@ == uppercase(s@),
{
    s.to_uppercase()
}

/// std's `String::from_utf8`: the text, when the bytes are valid UTF-8.
#[verifier::external_body]
pub(crate) fn string_from_utf8(bytes: Vec<u8>) -> (r: Option<String>)
    ensures
        r is Some <==> valid_utf8(bytes@),
        r matches Some(s) ==> s@ == decode_utf8(bytes@),
{
    String::from_utf8(bytes).ok()
}

/// std's `String::from_utf8_lossy`; on valid UTF-8 it decodes exactly, as
/// its documentation says.
#[verifier::external_body]
pub(crate) fn from_utf8_lossy(bytes: &[u8]) -> (r: String)
    ensures
        r@ == utf8_lossy(bytes@),
        valid_utf8(bytes@) ==> r@ == decode_utf8(bytes@),
{
    String::from_utf8_lossy(bytes).into_owned()
}

} // verus!
