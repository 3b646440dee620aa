//! The pure decisions of the stat command: content-type detection from a
//! file extension, and which checksums a stat request asks for.
use vstd::prelude::*;

use crate::checksum::algo_for;
use crate::checksum::upper;
use crate::checksum::ChecksumAlgo;
use crate::text::str_eq;

verus! {

/// The view of an optional string slice.
pub open spec fn opt_ext_view(o: Option<&str>) -> Option<Seq<char>> {
    match o {
        Some(s) => Some(s@),
        None => None,
    }
}

/// The content type reported for a file extension; anything unknown is an
/// octet stream.
pub open spec fn spec_content_type(ext: Option<Seq<char>>) -> Seq<char> {
    match ext {
        None => "application/octet-stream"@,
        Some(e) => if e == "txt"@ {
            "text/plain"@
        } else if e == "html"@ || e == "htm"@ {
            "text/html"@
        } else if e == "json"@ {
            "application/json"@
        } else if e == "xml"@ {
            "application/xml"@
        } else if e == "pdf"@ {
            "application/pdf"@
        } else if e == "jpg"@ || e == "jpeg"@ {
            "image/jpeg"@
        } else if e == "png"@ {
            "image/png"@
        } else if e == "gif"@ {
            "image/gif"@
        } else if e == "zip"@ {
            "application/zip"@
        } else if e == "tar"@ {
            "application/x-tar"@
        } else if e == "gz"@ {
            "application/gzip"@
        } else {
            "application/octet-stream"@
        },
    }
}

/// Maps a file extension to the content type shown by stat.
pub fn content_type_for_extension(ext: Option<&str>) -> (r: &'static str)
    ensures
        r@ == spec_content_type(opt_ext_view(ext)),
{
    match ext {
        None => "application/octet-stream",
        Some(e) => {
            if str_eq(e, "txt") {
                "text/plain"
            } else if str_eq(e, "html") || str_eq(e, "htm") {
                "text/html"
            } else if str_eq(e, "json") {
                "application/json"
            } else if str_eq(e, "xml") {
                "application/xml"
            } else if str_eq(e, "pdf") {
                "application/pdf"
            } else if str_eq(e, "jpg") || str_eq(e, "jpeg") {
                "image/jpeg"
            } else if str_eq(e, "png") {
                "image/png"
            } else if str_eq(e, "gif") {
                "image/gif"
            } else if str_eq(e, "zip") {
                "application/zip"
            } else if str_eq(e, "tar") {
                "application/x-tar"
            } else if str_eq(e, "gz") {
                "application/gzip"
            } else {
                "application/octet-stream"
            }
        },
    }
}

/// Whether a stat request asks for checksums: the mode option must spell
/// `ENABLED` or `enabled` exactly.
pub fn should_compute_checksums(mode: &Option<String>) -> (r: bool)
    ensures
        r == (match mode {
            Some(m) => m@ == "ENABLED"@ || m@ == "enabled"@,
            None => false,
        }),
{
    match mode {
        Some(m) => str_eq(m.as_str(), "ENABLED") || str_eq(m.as_str(), "enabled"),
        None => false,
    }
}

/// Which checksum a stat request computes: the named algorithm when it is
/// known, none when it is unknown, and SHA-256 when none is named.
pub fn stat_checksum_choice(algorithm: &Option<String>) -> (r: Option<ChecksumAlgo>)
    ensures
        r == (match algorithm {
            Some(a) => algo_for(upper(a@)),
            None => Some(ChecksumAlgo::Sha256),
        }),
{
    match algorithm {
        None => Some(ChecksumAlgo::Sha256),
        Some(a) => {
            let u = crate::text::ascii_upper(a.as_str());
            if str_eq(u.as_str(), "CRC32") {
                Some(ChecksumAlgo::Crc32)
            } else if str_eq(u.as_str(), "CRC32C") {
                Some(ChecksumAlgo::Crc32C)
            } else if str_eq(u.as_str(), "SHA1") {
                Some(ChecksumAlgo::Sha1)
            } else if str_eq(u.as_str(), "SHA256") {
                Some(ChecksumAlgo::Sha256)
            } else {
                None
            }
        },
    }
}

} // verus!
