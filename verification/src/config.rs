//! Client configuration: the option set handed to client construction,
//! and the size grammar used by multipart settings such as `8MB`.
use vstd::prelude::*;
use vstd::string::StrSliceExecFns;
use vstd::string::StringExecFns;

use crate::decimal::all_dec_digits;
use crate::decimal::dec_val;
use crate::decimal::parse_u64;
use crate::text::after_char;
use crate::text::ascii_upper;
use crate::text::before_char;
use crate::text::contains_char;
use crate::text::str_ends_with;
use crate::text::trim_blanks;
use crate::text::trim_blanks_spec;

verus! {

/// The default multipart threshold and chunk size, in bytes.
pub const DEFAULT_MULTIPART_BYTES: u64 = 8388608;

/// Options for building an object-store client.
#[derive(Clone)]
pub struct S3ClientConfig {
    pub endpoint_url: Option<String>,
    pub region: Option<String>,
    pub profile: Option<String>,
    pub verify_ssl: bool,
    pub debug: bool,
    pub multipart_threshold: u64,
    pub multipart_chunksize: u64,
}

impl Default for S3ClientConfig {
    /// No endpoint, region or profile override; SSL verified, debug off,
    /// and the default multipart sizes.
    fn default() -> (r: Self)
        ensures
            r.endpoint_url is None,
            r.region is None,
            r.profile is None,
            r.verify_ssl == true,
            r.debug == false,
            r.multipart_threshold == DEFAULT_MULTIPART_BYTES,
            r.multipart_chunksize == DEFAULT_MULTIPART_BYTES,
    {
        S3ClientConfig {
            endpoint_url: None,
            region: None,
            profile: None,
            verify_ssl: true,
            debug: false,
            multipart_threshold: 8388608,
            multipart_chunksize: 8388608,
        }
    }
}

/// The multiplier a size suffix carries, with the number part standing
/// before it; suffixes are tried in this order.
pub open spec fn size_suffix_split(u: Seq<char>) -> Option<(Seq<char>, u64)> {
    if "MB"@.is_suffix_of(u) {
        Some((u.take(u.len() - 2), 1048576u64))
    } else if "M"@.is_suffix_of(u) {
        Some((u.take(u.len() - 1), 1048576u64))
    } else if "KB"@.is_suffix_of(u) {
        Some((u.take(u.len() - 2), 1024u64))
    } else if "K"@.is_suffix_of(u) {
        Some((u.take(u.len() - 1), 1024u64))
    } else if "GB"@.is_suffix_of(u) {
        Some((u.take(u.len() - 2), 1073741824u64))
    } else if "G"@.is_suffix_of(u) {
        Some((u.take(u.len() - 1), 1073741824u64))
    } else {
        None
    }
}

/// The value of an upper-cased size string: either a plain byte count, or
/// a number and a suffix whose product must fit in a `u64`.
pub open spec fn spec_parse_size(u: Seq<char>) -> Option<u64> {
    if all_dec_digits(u) && dec_val(u) <= u64::MAX {
        Some(dec_val(u) as u64)
    } else {
        match size_suffix_split(u) {
            Some((num, mult)) => {
                let t = trim_blanks_spec(num);
                if all_dec_digits(t) && dec_val(t) <= u64::MAX && dec_val(t) * mult <= u64::MAX {
                    Some((dec_val(t) * mult) as u64)
                } else {
                    None
                }
            },
            None => None,
        }
    }
}

/// Parses a size value such as `10485760`, `8MB` or `5M`, ignoring ASCII
/// case; the suffixes K/KB, M/MB and G/GB scale by powers of 1024.
pub fn parse_size_value(value: &str) -> (r: Result<u64, String>)
    ensures
        match spec_parse_size(crate::checksum::upper(value@)) {
            Some(v) => r matches Ok(x) && x == v,
            None => r matches Err(e) && e@ == "Invalid size format"@,
        },
{
    let u = ascii_upper(value);
    match parse_u64(u.as_str()) {
        Some(v) => {
            return Ok(v);
        },
        None => {},
    }
    let n = u.as_str().unicode_len();
    let (num_part, mult): (&str, u64) = if str_ends_with(u.as_str(), "MB") {
        proof {
            reveal_strlit("MB");
        }
        (u.as_str().substring_char(0, n - 2), 1048576)
    } else if str_ends_with(u.as_str(), "M") {
        proof {
            reveal_strlit("M");
        }
        (u.as_str().substring_char(0, n - 1), 1048576)
    } else if str_ends_with(u.as_str(), "KB") {
        proof {
            reveal_strlit("KB");
        }
        (u.as_str().substring_char(0, n - 2), 1024)
    } else if str_ends_with(u.as_str(), "K") {
        proof {
            reveal_strlit("K");
        }
        (u.as_str().substring_char(0, n - 1), 1024)
    } else if str_ends_with(u.as_str(), "GB") {
        proof {
            reveal_strlit("GB");
        }
        (u.as_str().substring_char(0, n - 2), 1073741824)
    } else if str_ends_with(u.as_str(), "G") {
        proof {
            reveal_strlit("G");
        }
        (u.as_str().substring_char(0, n - 1), 1073741824)
    } else {
        return Err(String::from_str("Invalid size format"));
    };
    proof {
        assert(num_part@ =~= u@.take(num_part@.len() as int));
    }
    let t = trim_blanks(num_part);
    match parse_u64(t) {
        None => Err(String::from_str("Invalid size format")),
        Some(num) => match num.checked_mul(mult) {
            None => Err(String::from_str("Invalid size format")),
            Some(v) => Ok(v),
        },
    }
}

/// The pieces of `s` between occurrences of the line separator.
pub open spec fn split_lines(s: Seq<char>) -> Seq<Seq<char>>
    decreases s.len(),
    via split_lines_decreases
{
    if !contains_char(s, '\n') {
        seq![s]
    } else {
        seq![before_char(s, '\n')] + split_lines(after_char(s, '\n'))
    }
}

#[via_fn]
proof fn split_lines_decreases(s: Seq<char>) {
    if contains_char(s, '\n') {
        let i = crate::text::lemma_first_occurrence(s, '\n');
        crate::text::lemma_split_at_char(s, '\n', i);
    }
}

/// The section header that selects a profile's own settings.
pub open spec fn spec_profile_header(profile: Seq<char>) -> Seq<char> {
    if profile == "default"@ {
        "[default]"@
    } else {
        "[profile "@ + profile + "]"@
    }
}

/// Where a scan of the configuration text stands: which section the
/// current line lies in, and the last value seen for each setting.
#[derive(Debug, Clone, Copy)]
pub struct ScanState {
    pub in_profile: bool,
    pub in_s3: bool,
    pub threshold: Option<u64>,
    pub chunksize: Option<u64>,
}

/// How one configuration line changes the scan: a `[...]` header selects
/// or deselects the profile and `[s3]` sections; inside either, a
/// `multipart_threshold` or `multipart_chunksize` assignment whose value
/// parses as a size is recorded, the last one winning.
pub open spec fn scan_line(raw: Seq<char>, header: Seq<char>, st: ScanState) -> ScanState {
    let line = trim_blanks_spec(raw);
    if line.len() > 0 && line[0] == '[' && line.last() == ']' {
        ScanState {
            in_profile: line == header,
            in_s3: line == "[s3]"@,
            threshold: st.threshold,
            chunksize: st.chunksize,
        }
    } else if (st.in_profile || st.in_s3) && contains_char(line, '=') {
        let key = trim_blanks_spec(before_char(line, '='));
        let value = trim_blanks_spec(after_char(line, '='));
        if key == "multipart_threshold"@ {
            match spec_parse_size(crate::checksum::upper(value)) {
                Some(v) => ScanState {
                    in_profile: st.in_profile,
                    in_s3: st.in_s3,
                    threshold: Some(v),
                    chunksize: st.chunksize,
                },
                None => st,
            }
        } else if key == "multipart_chunksize"@ {
            match spec_parse_size(crate::checksum::upper(value)) {
                Some(v) => ScanState {
                    in_profile: st.in_profile,
                    in_s3: st.in_s3,
                    threshold: st.threshold,
                    chunksize: Some(v),
                },
                None => st,
            }
        } else {
            st
        }
    } else {
        st
    }
}

/// The scan folded over a sequence of lines.
pub open spec fn scan_lines(lines: Seq<Seq<char>>, header: Seq<char>, st: ScanState) -> ScanState
    decreases lines.len(),
{
    if lines.len() == 0 {
        st
    } else {
        scan_lines(lines.drop_first(), header, scan_line(lines[0], header, st))
    }
}

fn scan_line_exec(raw: &str, header: &str, st: ScanState) -> (r: ScanState)
    ensures
        r == scan_line(raw@, header@, st),
{
    let line = trim_blanks(raw);
    let n = line.unicode_len();
    if n > 0 && line.get_char(0) == '[' && line.get_char(n - 1) == ']' {
        ScanState {
            in_profile: crate::text::str_eq(line, header),
            in_s3: crate::text::str_eq(line, "[s3]"),
            threshold: st.threshold,
            chunksize: st.chunksize,
        }
    } else if st.in_profile || st.in_s3 {
        match crate::text::find_char(line, '=') {
            Some(i) => {
                proof {
                    crate::text::lemma_split_at_char(line@, '=', i as int);
                }
                let key = trim_blanks(line.substring_char(0, i));
                let value = trim_blanks(line.substring_char(i + 1, n));
                proof {
                    assert(line@.take(i as int) =~= line@.subrange(0, i as int));
                    assert(line@.skip(i + 1) =~= line@.subrange(i + 1, n as int));
                }
                if crate::text::str_eq(key, "multipart_threshold") {
                    match parse_size_value(value) {
                        Ok(v) => ScanState {
                            in_profile: st.in_profile,
                            in_s3: st.in_s3,
                            threshold: Some(v),
                            chunksize: st.chunksize,
                        },
                        Err(_) => st,
                    }
                } else if crate::text::str_eq(key, "multipart_chunksize") {
                    match parse_size_value(value) {
                        Ok(v) => ScanState {
                            in_profile: st.in_profile,
                            in_s3: st.in_s3,
                            threshold: st.threshold,
                            chunksize: Some(v),
                        },
                        Err(_) => st,
                    }
                } else {
                    st
                }
            },
            None => st,
        }
    } else {
        st
    }
}

/// Reads the multipart threshold and chunk size that a configuration
/// text sets for a profile, falling back to the defaults where a setting
/// never appears in the profile's section or in `[s3]`.
pub fn parse_multipart_settings(content: &str, profile: &str) -> (r: (u64, u64))
    ensures
        ({
            let st = scan_lines(
                split_lines(content@),
                spec_profile_header(profile@),
                ScanState { in_profile: false, in_s3: false, threshold: None, chunksize: None },
            );
            &&& r.0 == (match st.threshold {
                Some(v) => v,
                None => DEFAULT_MULTIPART_BYTES,
            })
            &&& r.1 == (match st.chunksize {
                Some(v) => v,
                None => DEFAULT_MULTIPART_BYTES,
            })
        }),
{
    proof {
        reveal_strlit("default");
    }
    let header = if crate::text::str_eq(profile, "default") {
        String::from_str("[default]")
    } else {
        String::from_str("[profile ").concat(profile).concat("]")
    };
    let mut st = ScanState { in_profile: false, in_s3: false, threshold: None, chunksize: None };
    let ghost init = st;
    let mut rest: &str = content;
    loop
        invariant
            header@ == spec_profile_header(profile@),
            scan_lines(split_lines(content@), header@, init) == scan_lines(
                split_lines(rest@),
                header@,
                st,
            ),
        ensures
            scan_lines(split_lines(content@), header@, init) == st,
        decreases rest@.len(),
    {
        match crate::text::find_char(rest, '\n') {
            None => {
                proof {
                    assert(!contains_char(rest@, '\n')) by {
                        if contains_char(rest@, '\n') {
                            let j = choose|j: int| 0 <= j < rest@.len() && rest@[j] == '\n';
                            assert(rest@[j] != '\n');
                        }
                    }
                    assert(split_lines(rest@) == seq![rest@]);
                    assert(seq![rest@][0] == rest@);
                    assert(seq![rest@].drop_first() =~= Seq::<Seq<char>>::empty());
                    assert(scan_lines(Seq::<Seq<char>>::empty(), header@, scan_line(
                        rest@,
                        header@,
                        st,
                    )) == scan_line(rest@, header@, st));
                    assert(scan_lines(split_lines(rest@), header@, st) == scan_line(
                        rest@,
                        header@,
                        st,
                    ));
                }
                st = scan_line_exec(rest, header.as_str(), st);
                break ;
            },
            Some(i) => {
                proof {
                    crate::text::lemma_split_at_char(rest@, '\n', i as int);
                }
                let n = rest.unicode_len();
                let line = rest.substring_char(0, i);
                let next = rest.substring_char(i + 1, n);
                proof {
                    assert(line@ =~= rest@.take(i as int));
                    assert(next@ =~= rest@.skip(i + 1));
                    let pieces = seq![line@] + split_lines(next@);
                    assert(split_lines(rest@) == pieces);
                    assert(pieces.drop_first() =~= split_lines(next@));
                    assert(pieces[0] == line@);
                }
                st = scan_line_exec(line, header.as_str(), st);
                rest = next;
            },
        }
    }
    (
        match st.threshold {
            Some(v) => v,
            None => 8388608,
        },
        match st.chunksize {
            Some(v) => v,
            None => 8388608,
        },
    )
}

} // verus!
