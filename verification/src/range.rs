//! Byte-range option handling: the `start-end` / `start-` grammar with an
//! optional `bytes=` prefix, the conflict rule between a range string and
//! offset/size options, and range-header formatting.
use vstd::prelude::*;
use vstd::string::StrSliceExecFns;
use vstd::string::StringExecFns;

use crate::decimal::all_dec_digits;
use crate::decimal::dec_chars;
use crate::decimal::dec_val;
use crate::decimal::parse_u64;
use crate::decimal::u64_to_dec;
use crate::text::after_char;
use crate::text::before_char;
use crate::text::contains_char;
use crate::text::find_char;
use crate::text::str_starts_with;

verus! {

/// What a range string denotes: an open or closed range, or one of the
/// ways it can be malformed.
pub enum RangeForm {
    /// Not of the form `start-end` or `start-`, or the closed range's
    /// length does not fit in a `u64`.
    Malformed,
    /// The start segment is not an unsigned decimal that fits in a `u64`.
    BadStart,
    /// The end segment is present but not an unsigned decimal that fits.
    BadEnd,
    /// Both segments are numeric but the end lies before the start.
    EndBeforeStart,
    /// `start-`: read from `start` to the end of the object.
    Open(u64),
    /// `start-end`: the start and the length `end - start + 1`.
    Closed(u64, u64),
}

/// The range string without its optional `bytes=` prefix.
pub open spec fn strip_bytes_prefix(s: Seq<char>) -> Seq<char> {
    if "bytes="@.is_prefix_of(s) {
        s.skip(6)
    } else {
        s
    }
}

/// Classification of a range string under the grammar: one `-` splits a
/// decimal start from a decimal or empty end.
pub open spec fn classify_range_string(s: Seq<char>) -> RangeForm {
    let body = strip_bytes_prefix(s);
    let sp = before_char(body, '-');
    let ep = after_char(body, '-');
    if !(contains_char(body, '-') && !contains_char(ep, '-')) {
        RangeForm::Malformed
    } else if !(all_dec_digits(sp) && dec_val(sp) <= u64::MAX) {
        RangeForm::BadStart
    } else if ep.len() == 0 {
        RangeForm::Open(dec_val(sp) as u64)
    } else if !(all_dec_digits(ep) && dec_val(ep) <= u64::MAX) {
        RangeForm::BadEnd
    } else if dec_val(ep) < dec_val(sp) {
        RangeForm::EndBeforeStart
    } else if dec_val(ep) - dec_val(sp) + 1 > u64::MAX {
        RangeForm::Malformed
    } else {
        RangeForm::Closed(dec_val(sp) as u64, (dec_val(ep) - dec_val(sp) + 1) as u64)
    }
}

enum RangeIssue<'a> {
    Malformed,
    BadStart(&'a str),
    BadEnd(&'a str),
    EndBeforeStart,
}

fn range_body<'a>(s: &'a str) -> (b: &'a str)
    ensures
        b@ == strip_bytes_prefix(s@),
{
    proof {
        reveal_strlit("bytes=");
    }
    if str_starts_with(s, "bytes=") {
        let b = s.substring_char(6, s.unicode_len());
        proof {
            assert(b@ =~= s@.skip(6));
        }
        b
    } else {
        s
    }
}

fn resolve_range_core<'a>(rs: &'a str) -> (r: Result<(u64, Option<u64>), RangeIssue<'a>>)
    ensures
        ({
            let sp = before_char(strip_bytes_prefix(rs@), '-');
            let ep = after_char(strip_bytes_prefix(rs@), '-');
            match classify_range_string(rs@) {
                RangeForm::Malformed => r matches Err(RangeIssue::Malformed),
                RangeForm::BadStart => r matches Err(RangeIssue::BadStart(p)) && p@ == sp,
                RangeForm::BadEnd => r matches Err(RangeIssue::BadEnd(p)) && p@ == ep,
                RangeForm::EndBeforeStart => r matches Err(RangeIssue::EndBeforeStart),
                RangeForm::Open(s) => r matches Ok(v) && v == (s, None::<u64>),
                RangeForm::Closed(s, l) => r matches Ok(v) && v == (s, Some(l)),
            }
        }),
{
    let body = range_body(rs);
    let n = body.unicode_len();
    match find_char(body, '-') {
        None => Err(RangeIssue::Malformed),
        Some(i) => {
            proof {
                crate::text::lemma_split_at_char(body@, '-', i as int);
            }
            let sp = body.substring_char(0, i);
            let ep = body.substring_char(i + 1, n);
            proof {
                assert(sp@ =~= body@.take(i as int));
                assert(ep@ =~= body@.skip(i + 1));
            }
            match find_char(ep, '-') {
                Some(_) => Err(RangeIssue::Malformed),
                None => {
                    match parse_u64(sp) {
                        None => Err(RangeIssue::BadStart(sp)),
                        Some(sv) => {
                            if ep.unicode_len() == 0 {
                                Ok((sv, None))
                            } else {
                                match parse_u64(ep) {
                                    None => Err(RangeIssue::BadEnd(ep)),
                                    Some(ev) => {
                                        if ev < sv {
                                            Err(RangeIssue::EndBeforeStart)
                                        } else {
                                            let diff = ev - sv;
                                            match diff.checked_add(1) {
                                                None => Err(RangeIssue::Malformed),
                                                Some(l) => Ok((sv, Some(l))),
                                            }
                                        }
                                    },
                                }
                            }
                        },
                    }
                },
            }
        },
    }
}

/// The view of an optional string.
pub open spec fn opt_str_view(o: Option<String>) -> Option<Seq<char>> {
    match o {
        Some(s) => Some(s@),
        None => None,
    }
}

/// What `resolve_range` returns: a conflict or a malformed range string is
/// refused with its message, otherwise the resolved `(start, limit)` pair,
/// with absent options passed through unchanged.
pub open spec fn resolve_range_result(
    range: Option<Seq<char>>,
    offset: Option<u64>,
    size: Option<u64>,
    r: Result<(Option<u64>, Option<u64>), String>,
) -> bool {
    match range {
        Some(rs) => if offset is Some || size is Some {
            r matches Err(e) && e@ == "Cannot specify both --range and --offset/--size"@
        } else {
            let sp = before_char(strip_bytes_prefix(rs), '-');
            let ep = after_char(strip_bytes_prefix(rs), '-');
            match classify_range_string(rs) {
                RangeForm::Malformed => r matches Err(e) && e@ == "Invalid range '"@ + rs
                    + "', expected 'start-end'"@,
                RangeForm::BadStart => r matches Err(e) && e@ == "Invalid range start '"@ + sp
                    + "'"@,
                RangeForm::BadEnd => r matches Err(e) && e@ == "Invalid range end '"@ + ep + "'"@,
                RangeForm::EndBeforeStart => r matches Err(e) && e@ == "Range end must be >= start"@,
                RangeForm::Open(s) => r matches Ok(v) && v == (Some(s), None::<u64>),
                RangeForm::Closed(s, l) => r matches Ok(v) && v == (Some(s), Some(l)),
            }
        },
        None => r matches Ok(v) && v == (offset, size),
    }
}

/// Resolves range options into `(start, limit)` byte counts: a range
/// string must stand alone, and a closed `start-end` range has limit
/// `end - start + 1`.
pub fn resolve_range(range: Option<String>, offset: Option<u64>, size: Option<u64>) -> (r: Result<
    (Option<u64>, Option<u64>),
    String,
>)
    ensures
        resolve_range_result(opt_str_view(range), offset, size, r),
{
    match range {
        Some(rs) => {
            if offset.is_some() || size.is_some() {
                return Err(String::from_str("Cannot specify both --range and --offset/--size"));
            }
            match resolve_range_core(rs.as_str()) {
                Ok((s, l)) => Ok((Some(s), l)),
                Err(issue) => Err(
                    match issue {
                        RangeIssue::Malformed => String::from_str("Invalid range '").concat(
                            rs.as_str(),
                        ).concat("', expected 'start-end'"),
                        RangeIssue::BadStart(p) => String::from_str("Invalid range start '").concat(
                            p,
                        ).concat("'"),
                        RangeIssue::BadEnd(p) => String::from_str("Invalid range end '").concat(
                            p,
                        ).concat("'"),
                        RangeIssue::EndBeforeStart => String::from_str(
                            "Range end must be >= start",
                        ),
                    },
                ),
            }
        },
        None => Ok((offset, size)),
    }
}

/// What `parse_range_options` returns: as `resolve_range`, under the
/// messages of the object-read command.
pub open spec fn parse_range_options_result(
    range: Option<Seq<char>>,
    offset: Option<u64>,
    size: Option<u64>,
    r: Result<(Option<u64>, Option<u64>), String>,
) -> bool {
    match range {
        Some(rs) => if offset is Some || size is Some {
            r matches Err(e) && e@ == "Cannot specify both --range and --offset/--size options"@
        } else {
            let sp = before_char(strip_bytes_prefix(rs), '-');
            let ep = after_char(strip_bytes_prefix(rs), '-');
            match classify_range_string(rs) {
                RangeForm::Malformed => r matches Err(e) && e@ == "Invalid range format: '"@ + rs
                    + "'. Expected format: 'start-end' or 'start-'"@,
                RangeForm::BadStart => r matches Err(e) && e@ == "Invalid start position in range: '"@
                    + sp + "'"@,
                RangeForm::BadEnd => r matches Err(e) && e@ == "Invalid end position in range: '"@
                    + ep + "'"@,
                RangeForm::EndBeforeStart => r matches Err(e) && e@
                    == "End position must be greater than or equal to start position"@,
                RangeForm::Open(s) => r matches Ok(v) && v == (Some(s), None::<u64>),
                RangeForm::Closed(s, l) => r matches Ok(v) && v == (Some(s), Some(l)),
            }
        },
        None => r matches Ok(v) && v == (offset, size),
    }
}

/// Parses range options into `(start position, size to read)`; either
/// option may stand alone, a missing size running to the end of the
/// object and a missing offset starting at the beginning.
pub fn parse_range_options(range: Option<String>, offset: Option<u64>, size: Option<u64>) -> (r:
    Result<(Option<u64>, Option<u64>), String>)
    ensures
        parse_range_options_result(opt_str_view(range), offset, size, r),
{
    match range {
        Some(rs) => {
            if offset.is_some() || size.is_some() {
                return Err(
                    String::from_str("Cannot specify both --range and --offset/--size options"),
                );
            }
            match resolve_range_core(rs.as_str()) {
                Ok((s, l)) => Ok((Some(s), l)),
                Err(issue) => Err(
                    match issue {
                        RangeIssue::Malformed => String::from_str("Invalid range format: '").concat(
                            rs.as_str(),
                        ).concat("'. Expected format: 'start-end' or 'start-'"),
                        RangeIssue::BadStart(p) => String::from_str(
                            "Invalid start position in range: '",
                        ).concat(p).concat("'"),
                        RangeIssue::BadEnd(p) => String::from_str(
                            "Invalid end position in range: '",
                        ).concat(p).concat("'"),
                        RangeIssue::EndBeforeStart => String::from_str(
                            "End position must be greater than or equal to start position",
                        ),
                    },
                ),
            }
        },
        None => Ok((offset, size)),
    }
}

/// The header for a closed byte range, both ends inclusive.
pub open spec fn closed_range_header(s: int, e: int) -> Seq<char> {
    "bytes="@ + dec_chars(s) + "-"@ + dec_chars(e)
}

/// The header for an open-ended byte range.
pub open spec fn open_range_header(s: int) -> Seq<char> {
    "bytes="@ + dec_chars(s) + "-"@
}

/// Builds the range header for a resolved `(start, limit)` pair: a limit
/// turns into the inclusive end `start + limit - 1`, no start means the
/// whole object.
pub fn build_range_header(start: Option<u64>, limit: Option<u64>) -> (r: Option<String>)
    requires
        (start is Some && limit is Some) ==> 1 <= limit->0 && start->0 + limit->0 - 1
            <= u64::MAX,
    ensures
        match (start, limit) {
            (Some(s), Some(l)) => r matches Some(h) && h@ == closed_range_header(
                s as int,
                s + l - 1,
            ),
            (Some(s), None) => r matches Some(h) && h@ == open_range_header(s as int),
            _ => r is None,
        },
{
    match (start, limit) {
        (Some(s), Some(l)) => {
            let end_dec = u64_to_dec(l - 1 + s);
            let start_dec = u64_to_dec(s);
            Some(
                String::from_str("bytes=").concat(start_dec.as_str()).concat("-").concat(
                    end_dec.as_str(),
                ),
            )
        },
        (Some(s), None) => {
            let start_dec = u64_to_dec(s);
            Some(String::from_str("bytes=").concat(start_dec.as_str()).concat("-"))
        },
        _ => None,
    }
}

/// The range parameter handed to an object-store read: a given range
/// string is used as is once prefixed with `bytes=`; otherwise the header
/// is built from the offset and size options, a size alone bounding a
/// read that starts at the beginning of the object.
pub fn s3_range_param(range: Option<String>, offset: Option<u64>, size: Option<u64>) -> (r: Option<
    String,
>)
    requires
        (range is None && offset is Some && size is Some) ==> 1 <= size->0 && offset->0 + size->0
            - 1 <= u64::MAX,
        (range is None && offset is None && size is Some) ==> 1 <= size->0,
    ensures
        match range {
            Some(rs) => r matches Some(h) && h@ == (if "bytes="@.is_prefix_of(rs@) {
                rs@
            } else {
                "bytes="@ + rs@
            }),
            None => match (offset, size) {
                (Some(s), Some(l)) => r matches Some(h) && h@ == closed_range_header(
                    s as int,
                    s + l - 1,
                ),
                (Some(s), None) => r matches Some(h) && h@ == open_range_header(s as int),
                (None, Some(l)) => r matches Some(h) && h@ == closed_range_header(0, l - 1),
                (None, None) => r is None,
            },
        },
{
    match range {
        Some(rs) => {
            proof {
                reveal_strlit("bytes=");
            }
            if str_starts_with(rs.as_str(), "bytes=") {
                Some(rs)
            } else {
                Some(String::from_str("bytes=").concat(rs.as_str()))
            }
        },
        None => match (offset, size) {
            (None, Some(l)) => build_range_header(Some(0), Some(l)),
            _ => build_range_header(offset, size),
        },
    }
}

/// How many bytes the next bounded read may take: the buffer length,
/// capped by what remains when a limit is set.
pub fn read_chunk_len(remaining: Option<u64>, buf_len: usize) -> (r: usize)
    ensures
        match remaining {
            Some(rem) => r == (if rem < buf_len as u64 {
                rem as usize
            } else {
                buf_len
            }),
            None => r == buf_len,
        },
{
    match remaining {
        Some(rem) => if rem < buf_len as u64 {
            rem as usize
        } else {
            buf_len
        },
        None => buf_len,
    }
}

} // verus!
