use vstd::prelude::*;
use vstd::string::*;
use vstd::utf8::*;
use crate::payload::utf8_to_string;
use crate::paths::{spec_join, spec_basename, join_under, basename};

verus! {

/// Credentials of an object-storage endpoint for the download side.
#[derive(Debug, Clone)]
pub struct OssConfig {
    pub oss_bucket: String,
    pub oss_endpoint: String,
    pub key_secret: String,
    pub key_id: String,
}

/// A ready-made configuration pointing at the binary bucket, with
/// placeholder credentials.
pub fn build_config() -> (r: OssConfig)
    ensures
        r.oss_bucket@ == "cm-binary"@,
        r.oss_endpoint@ == "oss-cn-hangzhou.aliyuncs.com"@,
        r.key_id@ == "xxx"@,
        r.key_secret@ == "xxx"@,
{
    OssConfig {
        oss_bucket: String::from_str("cm-binary"),
        oss_endpoint: String::from_str("oss-cn-hangzhou.aliyuncs.com"),
        key_id: String::from_str("xxx"),
        key_secret: String::from_str("xxx"),
    }
}

/// The local path a downloaded object lands at: the object key's final
/// component placed under the output directory.
pub fn download_output_path(output_dir: &str, file_key: &str) -> (r: String)
    ensures
        r@ == spec_join(output_dir@, spec_basename(file_key@)),
{
    let name = basename(file_key);
    join_under(output_dir, name.as_str())
}

/// The 128-bit content digest of a byte sequence, written as hex digits.
/// It is a function of the bytes alone.
pub uninterp spec fn md5_hex(data: Seq<u8>) -> Seq<char>;

/// Relies on `md5::compute` and the `LowerHex` rendering of its digest:
/// the digest is a function of the bytes alone, sixteen bytes written as
/// 32 hex digits.
#[verifier::external_body]
pub fn digest_hex(data: &Vec<u8>) -> (r: String)
    ensures
        r@ == md5_hex(data@),
        r@.len() == 32,
{
    format!("{:x}", md5::compute(data.as_slice()))
}

pub open spec fn is_space(c: char) -> bool {
    c == ' ' || c == '\t' || c == '\n' || c == '\r'
}

/// The string with surrounding whitespace removed.
pub open spec fn spec_trim(s: Seq<char>) -> Seq<char>
    decreases s.len(),
{
    if s.len() > 0 && is_space(s[0]) {
        spec_trim(s.drop_first())
    } else if s.len() > 0 && is_space(s[s.len() - 1]) {
        spec_trim(s.drop_last())
    } else {
        s
    }
}

fn is_ws(c: char) -> (r: bool)
    ensures
        r == is_space(c),
{
    c == ' ' || c == '\t' || c == '\n' || c == '\r'
}

/// Removes surrounding whitespace; see `spec_trim`.
pub fn trim_whitespace(s: &str) -> (r: String)
    ensures
        r@ == spec_trim(s@),
{
    let n = s.unicode_len();
    let mut lo: usize = 0;
    proof {
        assert(s@.subrange(0, n as int) =~= s@);
    }
    while lo < n && is_ws(s.get_char(lo))
        invariant
            lo <= n,
            n == s@.len(),
            spec_trim(s@) == spec_trim(s@.subrange(lo as int, n as int)),
        decreases n - lo,
    {
        proof {
            assert(s@.subrange(lo as int, n as int).drop_first() =~= s@.subrange(
                lo + 1,
                n as int,
            ));
        }
        lo = lo + 1;
    }
    let mut hi: usize = n;
    while hi > lo && is_ws(s.get_char(hi - 1))
        invariant
            lo <= hi <= n,
            n == s@.len(),
            lo < n ==> !is_space(s@[lo as int]),
            spec_trim(s@) == spec_trim(s@.subrange(lo as int, hi as int)),
        decreases hi,
    {
        proof {
            assert(s@.subrange(lo as int, hi as int).drop_last() =~= s@.subrange(
                lo as int,
                hi - 1,
            ));
        }
        hi = hi - 1;
    }
    let piece = String::from_str(s.substring_char(lo, hi));
    proof {
        assert(piece@ =~= s@.subrange(lo as int, hi as int));
    }
    piece
}

pub open spec fn opt_bytes(o: Option<Vec<u8>>) -> Option<Seq<u8>> {
    match o {
        Option::Some(v) => Option::Some(v@),
        Option::None => Option::None,
    }
}

/// Whether an object must be fetched again. With caching off the answer is
/// always yes. With caching on, a missing local copy, a failed sidecar
/// fetch, an unreadable sidecar, and a digest mismatch each force the
/// download; only a sidecar whose trimmed text equals the local digest
/// lets the copy be reused.
pub open spec fn spec_should_download(
    cache_enabled: bool,
    local: Option<Seq<u8>>,
    sidecar: Option<Seq<u8>>,
) -> bool {
    if !cache_enabled {
        true
    } else {
        match local {
            Option::None => true,
            Option::Some(content) => match sidecar {
                Option::None => true,
                Option::Some(sc) => if valid_utf8(sc) {
                    md5_hex(content) != spec_trim(decode_utf8(sc))
                } else {
                    true
                },
            },
        }
    }
}

/// Decides whether a cached download is stale; see `spec_should_download`.
/// `local_content` is the cached file's bytes if one exists; `sidecar` is
/// the fetched `<key>.md5` object if the fetch succeeded.
pub fn should_download(
    cache_enabled: bool,
    local_content: &Option<Vec<u8>>,
    sidecar: &Option<Vec<u8>>,
) -> (r: bool)
    ensures
        r == spec_should_download(cache_enabled, opt_bytes(*local_content), opt_bytes(*sidecar)),
        !cache_enabled ==> r,
        local_content is None ==> r,
        sidecar is None ==> r,
{
    if !cache_enabled {
        return true;
    }
    match local_content {
        Option::None => true,
        Option::Some(content) => match sidecar {
            Option::None => true,
            Option::Some(sc) => {
                match utf8_to_string(sc) {
                    Option::None => true,
                    Option::Some(text) => {
                        let local_digest = digest_hex(content);
                        let trimmed = trim_whitespace(text.as_str());
                        !(local_digest == trimmed)
                    },
                }
            },
        },
    }
}

} // verus!
