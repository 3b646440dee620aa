//! Checksum options and digests: parsing of the mode and algorithm
//! options, and hex digests of byte content for integrity comparison.
use vstd::prelude::*;
use vstd::string::StringExecFns;

use crate::text::ascii_upper;
use crate::text::ascii_upper_char;
use crate::text::str_eq;

use md5::Digest;
use md5::Md5;
use sha1::Sha1;
use sha2::Sha256;

verus! {

/// Whether checksums are requested at all; the only accepted mode.
#[derive(Debug, Clone, Copy, PartialEq, Eq, Structural)]
pub enum ChecksumMode {
    Enabled,
}

/// The checksum algorithm named by an option.
#[derive(Debug, Clone, Copy, PartialEq, Eq, Structural)]
pub enum ChecksumAlgo {
    Crc32,
    Crc32C,
    Sha1,
    Sha256,
}

/// ASCII upper-casing of a string, character by character.
pub open spec fn upper(s: Seq<char>) -> Seq<char> {
    s.map_values(|c: char| ascii_upper_char(c))
}

/// The algorithm named by an already upper-cased option value.
pub open spec fn algo_for(u: Seq<char>) -> Option<ChecksumAlgo> {
    if u == "CRC32"@ {
        Some(ChecksumAlgo::Crc32)
    } else if u == "CRC32C"@ {
        Some(ChecksumAlgo::Crc32C)
    } else if u == "SHA1"@ {
        Some(ChecksumAlgo::Sha1)
    } else if u == "SHA256"@ {
        Some(ChecksumAlgo::Sha256)
    } else {
        None
    }
}

/// The view of an optional string.
pub open spec fn opt_view(o: Option<String>) -> Option<Seq<char>> {
    match o {
        Some(s) => Some(s@),
        None => None,
    }
}

/// Whether the mode option, if present, spells `ENABLED` in any case.
pub open spec fn mode_ok(mode: Option<Seq<char>>) -> bool {
    match mode {
        Some(ms) => upper(ms) == "ENABLED"@,
        None => true,
    }
}

/// Whether the algorithm option, if present, names a known algorithm.
pub open spec fn algo_ok(algo: Option<Seq<char>>) -> bool {
    match algo {
        Some(a) => algo_for(upper(a)) is Some,
        None => true,
    }
}

/// What `parse_checksum_options` returns: the mode must spell `ENABLED`
/// and the algorithm one of the four known names, ignoring ASCII case;
/// the first offending option is refused with its message.
pub open spec fn checksum_options_result(
    mode: Option<Seq<char>>,
    algo: Option<Seq<char>>,
    r: Result<(Option<ChecksumMode>, Option<ChecksumAlgo>), String>,
) -> bool {
    if !mode_ok(mode) {
        r matches Err(e) && e@ == "Invalid checksum mode: "@ + mode->0 + ". Use ENABLED"@
    } else if !algo_ok(algo) {
        r matches Err(e) && e@ == "Invalid checksum algorithm: "@ + algo->0
            + ". Use CRC32, CRC32C, SHA1, or SHA256"@
    } else {
        r matches Ok(v) && v.0 == (if mode is Some {
            Some(ChecksumMode::Enabled)
        } else {
            None
        }) && v.1 == (match algo {
            Some(a) => algo_for(upper(a)),
            None => None,
        })
    }
}

/// Parses the checksum mode and algorithm options, refusing unknown
/// values.
pub fn parse_checksum_options(mode: Option<String>, algorithm: Option<String>) -> (r: Result<
    (Option<ChecksumMode>, Option<ChecksumAlgo>),
    String,
>)
    ensures
        checksum_options_result(opt_view(mode), opt_view(algorithm), r),
{
    let checksum_mode = match &mode {
        Some(m) => {
            let u = ascii_upper(m.as_str());
            if str_eq(u.as_str(), "ENABLED") {
                Some(ChecksumMode::Enabled)
            } else {
                return Err(
                    String::from_str("Invalid checksum mode: ").concat(m.as_str()).concat(
                        ". Use ENABLED",
                    ),
                );
            }
        },
        None => None,
    };
    let checksum_algo = match &algorithm {
        Some(a) => {
            let u = ascii_upper(a.as_str());
            if str_eq(u.as_str(), "CRC32") {
                Some(ChecksumAlgo::Crc32)
            } else if str_eq(u.as_str(), "CRC32C") {
                Some(ChecksumAlgo::Crc32C)
            } else if str_eq(u.as_str(), "SHA1") {
                Some(ChecksumAlgo::Sha1)
            } else if str_eq(u.as_str(), "SHA256") {
                Some(ChecksumAlgo::Sha256)
            } else {
                return Err(
                    String::from_str("Invalid checksum algorithm: ").concat(a.as_str()).concat(
                        ". Use CRC32, CRC32C, SHA1, or SHA256",
                    ),
                );
            }
        },
        None => None,
    };
    Ok((checksum_mode, checksum_algo))
}

/// The MD5 digest of the bytes, as 32 lower-case hex characters;
/// `md5::Md5` computes it.
pub uninterp spec fn md5_hex(data: Seq<u8>) -> Seq<char>;

/// The SHA-1 digest of the bytes, as lower-case hex; `sha1::Sha1`
/// computes it.
pub uninterp spec fn sha1_hex(data: Seq<u8>) -> Seq<char>;

/// The SHA-256 digest of the bytes, as lower-case hex; `sha2::Sha256`
/// computes it.
pub uninterp spec fn sha256_hex(data: Seq<u8>) -> Seq<char>;

/// The CRC32 checksum of the bytes, as 8 lower-case hex characters;
/// `crc32fast::Hasher` computes it.
pub uninterp spec fn crc32_hex(data: Seq<u8>) -> Seq<char>;

/// Relies on `md5::Md5` through the `Digest` trait: the digest depends on
/// the bytes alone.
#[verifier::external_body]
pub(crate) fn compute_md5_hex(data: &[u8]) -> (r: String)
    ensures
        r@ == md5_hex(data@),
{
    let mut hasher = Md5::new();
    hasher.update(data);
    format!("{:x}", hasher.finalize())
}

/// Relies on `sha1::Sha1` through the `Digest` trait: the digest depends
/// on the bytes alone.
#[verifier::external_body]
pub(crate) fn compute_sha1_hex(data: &[u8]) -> (r: String)
    ensures
        r@ == sha1_hex(data@),
{
    let mut hasher = Sha1::new();
    hasher.update(data);
    format!("{:x}", hasher.finalize())
}

/// Relies on `sha2::Sha256` through the `Digest` trait: the digest
/// depends on the bytes alone.
#[verifier::external_body]
pub(crate) fn compute_sha256_hex(data: &[u8]) -> (r: String)
    ensures
        r@ == sha256_hex(data@),
{
    let mut hasher = Sha256::new();
    hasher.update(data);
    format!("{:x}", hasher.finalize())
}

/// Relies on `crc32fast::Hasher`: the checksum depends on the bytes
/// alone.
#[verifier::external_body]
pub(crate) fn compute_crc32_hex(data: &[u8]) -> (r: String)
    ensures
        r@ == crc32_hex(data@),
{
    let mut hasher = crc32fast::Hasher::new();
    hasher.update(data);
    format!("{:08x}", hasher.finalize())
}

/// The hex digest an algorithm choice yields; the CRC32 implementation
/// stands in for CRC32C as well.
pub open spec fn spec_checksum_hex(algo: ChecksumAlgo, data: Seq<u8>) -> Seq<char> {
    match algo {
        ChecksumAlgo::Crc32 => crc32_hex(data),
        ChecksumAlgo::Crc32C => crc32_hex(data),
        ChecksumAlgo::Sha1 => sha1_hex(data),
        ChecksumAlgo::Sha256 => sha256_hex(data),
    }
}

/// Computes the hex digest of the bytes under the chosen algorithm.
pub fn checksum_hex(algo: ChecksumAlgo, data: &[u8]) -> (r: String)
    ensures
        r@ == spec_checksum_hex(algo, data@),
{
    match algo {
        ChecksumAlgo::Crc32 => compute_crc32_hex(data),
        ChecksumAlgo::Crc32C => compute_crc32_hex(data),
        ChecksumAlgo::Sha1 => compute_sha1_hex(data),
        ChecksumAlgo::Sha256 => compute_sha256_hex(data),
    }
}

} // verus!
