use vstd::prelude::*;
use vstd::string::*;
use vstd::utf8::*;
use crate::paths::{spec_join, join_under};
use crate::payload::utf8_to_string;

verus! {

/// Whether `char::is_alphabetic` holds of the character: a fixed
/// classification, a function of the character alone.
pub uninterp spec fn is_alpha(c: char) -> bool;

/// Relies on `char::is_alphabetic`. Below 128 the classification holds
/// exactly of the letters.
#[verifier::external_body]
fn char_is_alphabetic(c: char) -> (r: bool)
    ensures
        r == is_alpha(c),
        ((97 <= (c as u32) && (c as u32) <= 122) || (65 <= (c as u32) && (c as u32) <= 90)) ==> r,
        ((c as u32) < 128 && !((97 <= (c as u32) && (c as u32) <= 122) || (65 <= (c as u32) && (c
            as u32) <= 90))) ==> !r,
{
    c.is_alphabetic()
}

/// The plausibility filter for a recovered name: no NUL anywhere, and each
/// character either ASCII or alphabetic.
pub open spec fn is_plausible_name(s: Seq<char>) -> bool {
    forall|i: int|
        0 <= i < s.len() ==> s[i] != '\0' && ((s[i] as u32) < 128 || is_alpha(s[i]))
}

/// Tests the plausibility filter; see `is_plausible_name`.
pub fn is_valid_filename(s: &str) -> (r: bool)
    ensures
        r == is_plausible_name(s@),
{
    let n = s.unicode_len();
    let mut i: usize = 0;
    while i < n
        invariant
            i <= n,
            n == s@.len(),
            forall|k: int|
                0 <= k < i ==> s@[k] != '\0' && ((s@[k] as u32) < 128 || is_alpha(s@[k])),
        decreases n - i,
    {
        let c = s.get_char(i);
        if c == '\0' {
            return false;
        }
        if !((c as u32) < 128) && !char_is_alphabetic(c) {
            return false;
        }
        i = i + 1;
    }
    true
}

/// What the windows-1252 decoder makes of the bytes, with its error flag.
/// A function of the bytes alone.
pub uninterp spec fn windows1252_decoded(raw: Seq<u8>) -> (Seq<char>, bool);

/// What the GBK decoder makes of the bytes, with its error flag. A
/// function of the bytes alone.
pub uninterp spec fn gbk_decoded(raw: Seq<u8>) -> (Seq<char>, bool);

/// What the Big5 decoder makes of the bytes, with its error flag. A
/// function of the bytes alone.
pub uninterp spec fn big5_decoded(raw: Seq<u8>) -> (Seq<char>, bool);

/// What the replacing UTF-8 decoder makes of the bytes, with its error
/// flag. A function of the bytes alone.
pub uninterp spec fn utf8_replace_decoded(raw: Seq<u8>) -> (Seq<char>, bool);

/// What the lossy UTF-8 conversion makes of the bytes: every invalid
/// sequence replaced, never failing. A function of the bytes alone.
pub uninterp spec fn utf8_lossy(raw: Seq<u8>) -> Seq<char>;

/// Relies on `encoding_rs::WINDOWS_1252.decode`: text and error flag are
/// functions of the bytes alone.
#[verifier::external_body]
fn decode_windows1252(raw: &Vec<u8>) -> (r: (String, bool))
    ensures
        (r.0@, r.1) == windows1252_decoded(raw@),
{
    let (cow, _, had_errors) = encoding_rs::WINDOWS_1252.decode(raw.as_slice());
    (cow.into_owned(), had_errors)
}

/// Relies on `encoding_rs::GBK.decode`: text and error flag are functions
/// of the bytes alone.
#[verifier::external_body]
fn decode_gbk(raw: &Vec<u8>) -> (r: (String, bool))
    ensures
        (r.0@, r.1) == gbk_decoded(raw@),
{
    let (cow, _, had_errors) = encoding_rs::GBK.decode(raw.as_slice());
    (cow.into_owned(), had_errors)
}

/// Relies on `encoding_rs::BIG5.decode`: text and error flag are functions
/// of the bytes alone.
#[verifier::external_body]
fn decode_big5(raw: &Vec<u8>) -> (r: (String, bool))
    ensures
        (r.0@, r.1) == big5_decoded(raw@),
{
    let (cow, _, had_errors) = encoding_rs::BIG5.decode(raw.as_slice());
    (cow.into_owned(), had_errors)
}

/// Relies on `encoding_rs::UTF_8.decode`: text and error flag are
/// functions of the bytes alone.
#[verifier::external_body]
fn decode_utf8_replace(raw: &Vec<u8>) -> (r: (String, bool))
    ensures
        (r.0@, r.1) == utf8_replace_decoded(raw@),
{
    let (cow, _, had_errors) = encoding_rs::UTF_8.decode(raw.as_slice());
    (cow.into_owned(), had_errors)
}

/// Relies on `String::from_utf8_lossy`: a total function of the bytes that
/// equals the plain UTF-8 decoding wherever the bytes are valid UTF-8.
#[verifier::external_body]
fn decode_lossy(raw: &Vec<u8>) -> (r: String)
    ensures
        r@ == utf8_lossy(raw@),
        valid_utf8(raw@) ==> r@ == decode_utf8(raw@),
{
    String::from_utf8_lossy(raw.as_slice()).into_owned()
}

/// The name an archive entry's raw bytes recover to: strict UTF-8 first,
/// then the legacy encodings in a fixed order, each accepted only where it
/// decodes without error and passes the plausibility filter; when
/// everything fails, the lossy UTF-8 reading. Never an error.
pub open spec fn spec_decode_filename(raw: Seq<u8>) -> Seq<char> {
    if valid_utf8(raw) && is_plausible_name(decode_utf8(raw)) {
        decode_utf8(raw)
    } else if !windows1252_decoded(raw).1 && is_plausible_name(windows1252_decoded(raw).0) {
        windows1252_decoded(raw).0
    } else if !gbk_decoded(raw).1 && is_plausible_name(gbk_decoded(raw).0) {
        gbk_decoded(raw).0
    } else if !big5_decoded(raw).1 && is_plausible_name(big5_decoded(raw).0) {
        big5_decoded(raw).0
    } else if !utf8_replace_decoded(raw).1 && is_plausible_name(utf8_replace_decoded(raw).0) {
        utf8_replace_decoded(raw).0
    } else {
        utf8_lossy(raw)
    }
}

/// Recovers a readable name from an archive entry's raw name bytes; see
/// `spec_decode_filename`. Always returns some string.
pub fn decode_filename(raw: &Vec<u8>) -> (r: String)
    ensures
        r@ == spec_decode_filename(raw@),
{
    match utf8_to_string(raw) {
        Option::Some(name) => {
            if is_valid_filename(name.as_str()) {
                return name;
            }
        },
        Option::None => {},
    }
    let (text, had_errors) = decode_windows1252(raw);
    if !had_errors && is_valid_filename(text.as_str()) {
        return text;
    }
    let (text, had_errors) = decode_gbk(raw);
    if !had_errors && is_valid_filename(text.as_str()) {
        return text;
    }
    let (text, had_errors) = decode_big5(raw);
    if !had_errors && is_valid_filename(text.as_str()) {
        return text;
    }
    let (text, had_errors) = decode_utf8_replace(raw);
    if !had_errors && is_valid_filename(text.as_str()) {
        return text;
    }
    decode_lossy(raw)
}

/// One archive entry as the container reader reports it: the raw name
/// bytes, the directory flag of its display name, the payload size and the
/// stored permission bits if any.
#[derive(Debug, Clone)]
pub struct ArchiveEntry {
    pub raw_name: Vec<u8>,
    pub is_dir: bool,
    pub size: u64,
    pub unix_mode: Option<u32>,
}

/// One step of an extraction: create the directory at `path`, or write the
/// payload of entry `entry_index` to the file at `path`; afterwards apply
/// `unix_mode` where the platform can.
#[derive(Debug, Clone, PartialEq, Eq)]
pub struct ExtractStep {
    pub path: String,
    pub is_dir: bool,
    pub entry_index: usize,
    pub unix_mode: Option<u32>,
}

/// Plans an extraction: one step per entry, in archive order, each entry's
/// recovered name joined beneath the output directory, directory flag and
/// permission bits carried through.
pub fn plan_extraction(entries: &Vec<ArchiveEntry>, output_dir: &str) -> (r: Vec<ExtractStep>)
    ensures
        r@.len() == entries@.len(),
        forall|i: int|
            0 <= i < entries@.len() ==> {
                &&& (#[trigger] r@[i]).path@ == spec_join(
                    output_dir@,
                    spec_decode_filename(entries@[i].raw_name@),
                )
                &&& r@[i].is_dir == entries@[i].is_dir
                &&& r@[i].entry_index == i
                &&& r@[i].unix_mode == entries@[i].unix_mode
            },
{
    let mut out: Vec<ExtractStep> = Vec::new();
    let mut i: usize = 0;
    while i < entries.len()
        invariant
            i <= entries@.len(),
            out@.len() == i,
            forall|k: int|
                0 <= k < i ==> {
                    &&& (#[trigger] out@[k]).path@ == spec_join(
                        output_dir@,
                        spec_decode_filename(entries@[k].raw_name@),
                    )
                    &&& out@[k].is_dir == entries@[k].is_dir
                    &&& out@[k].entry_index == k
                    &&& out@[k].unix_mode == entries@[k].unix_mode
                },
        decreases entries@.len() - i,
    {
        let name = decode_filename(&entries[i].raw_name);
        let path = join_under(output_dir, name.as_str());
        out.push(
            ExtractStep {
                path,
                is_dir: entries[i].is_dir,
                entry_index: i,
                unix_mode: entries[i].unix_mode,
            },
        );
        i = i + 1;
    }
    out
}

} // verus!
