//! Parsing of location strings: either a local filesystem path or an
//! `s3://bucket/key` object URI, plus key joining and normalization.
use vstd::prelude::*;
use vstd::string::StrSliceExecFns;
use vstd::string::StringExecFns;

use crate::text::drop_while_char;
use crate::text::find_char;
use crate::text::str_starts_with;
use crate::text::trim_leading_char;

verus! {

/// A resolved location: a local path, or a bucket and key inside it.
#[derive(Debug, Clone, PartialEq)]
pub enum PathType {
    Local(String),
    S3 { bucket: String, key: String },
}

/// Whether `s` begins with the `s3://` scheme.
pub open spec fn has_s3_scheme(s: Seq<char>) -> bool {
    s.len() >= 5 && s[0] == 's' && s[1] == '3' && s[2] == ':' && s[3] == '/' && s[4] == '/'
}

/// The bucket part of an URI remainder: everything before the first slash.
pub open spec fn bucket_of(rest: Seq<char>) -> Seq<char> {
    crate::text::before_char(rest, '/')
}

/// The key part of an URI remainder: everything after the first slash, or
/// empty when there is none.
pub open spec fn key_of(rest: Seq<char>) -> Seq<char> {
    crate::text::after_char(rest, '/')
}

proof fn lemma_split_at_slash(rest: Seq<char>, i: int)
    requires
        0 <= i <= rest.len(),
        forall|j: int| 0 <= j < i ==> rest[j] != '/',
        i < rest.len() ==> rest[i] == '/',
    ensures
        i < rest.len() ==> bucket_of(rest) == rest.take(i) && key_of(rest) == rest.skip(i + 1),
        i == rest.len() ==> bucket_of(rest) == rest && key_of(rest) == Seq::<char>::empty(),
{
    crate::text::lemma_split_at_char(rest, '/', i);
}

proof fn lemma_scheme_prefix(s: Seq<char>)
    ensures
        "s3://"@.is_prefix_of(s) <==> has_s3_scheme(s),
{
    reveal_strlit("s3://");
    assert("s3://"@ =~= seq!['s', '3', ':', '/', '/']);
    if has_s3_scheme(s) {
        assert(s.subrange(0, 5) =~= "s3://"@);
    }
    if "s3://"@.is_prefix_of(s) {
        assert(forall|j: int| 0 <= j < 5 ==> s[j] == #[trigger] s.subrange(0, 5)[j]);
    }
}

/// The message reported for a string without the `s3://` scheme.
pub open spec fn invalid_uri_message(uri: Seq<char>) -> Seq<char> {
    "Invalid S3 URI: "@ + uri
}

/// What parsing an `s3://` URI yields: the bucket runs to the first slash,
/// the key is the remainder; a missing or empty bucket is refused.
pub open spec fn s3_uri_result(uri: Seq<char>, r: Result<PathType, String>) -> bool {
    if !has_s3_scheme(uri) {
        r matches Err(e) && e@ == invalid_uri_message(uri)
    } else if uri.len() == 5 {
        r matches Err(e) && e@ == "S3 URI must contain a bucket name"@
    } else if uri[5] == '/' {
        r matches Err(e) && e@ == "Bucket name cannot be empty"@
    } else {
        r matches Ok(PathType::S3 { bucket, key }) && bucket@ == bucket_of(uri.skip(5)) && key@
            == key_of(uri.skip(5))
    }
}

/// Parses an S3 URI of the form `s3://bucket/key` or `s3://bucket`.
pub fn parse_s3_uri(uri: &str) -> (r: Result<PathType, String>)
    ensures
        s3_uri_result(uri@, r),
{
    proof {
        lemma_scheme_prefix(uri@);
    }
    if !str_starts_with(uri, "s3://") {
        return Err(String::from_str("Invalid S3 URI: ").concat(uri));
    }
    let n = uri.unicode_len();
    let rest = uri.substring_char(5, n);
    proof {
        assert(rest@ =~= uri@.skip(5));
    }
    if rest.unicode_len() == 0 {
        return Err(String::from_str("S3 URI must contain a bucket name"));
    }
    match find_char(rest, '/') {
        Some(i) => {
            proof {
                lemma_split_at_slash(rest@, i as int);
            }
            if i == 0 {
                return Err(String::from_str("Bucket name cannot be empty"));
            }
            let bucket = rest.substring_char(0, i).to_owned();
            let key = rest.substring_char(i + 1, rest.unicode_len()).to_owned();
            proof {
                assert(bucket@ =~= rest@.take(i as int));
                assert(key@ =~= rest@.skip(i + 1));
            }
            Ok(PathType::S3 { bucket, key })
        },
        None => {
            proof {
                lemma_split_at_slash(rest@, rest@.len() as int);
            }
            let bucket = rest.to_owned();
            Ok(PathType::S3 { bucket, key: String::new() })
        },
    }
}

/// Parses a location string: an `s3://` URI becomes a bucket/key pair, any
/// other string is taken verbatim as a local path.
pub fn parse_path(path: &str) -> (r: Result<PathType, String>)
    ensures
        has_s3_scheme(path@) ==> s3_uri_result(path@, r),
        !has_s3_scheme(path@) ==> (r matches Ok(p) && p matches PathType::Local(l) && l@ == path@),
{
    proof {
        lemma_scheme_prefix(path@);
    }
    if str_starts_with(path, "s3://") {
        parse_s3_uri(path)
    } else {
        Ok(PathType::Local(path.to_owned()))
    }
}

/// Removes every leading slash from an S3 key.
pub fn normalize_s3_key(key: &str) -> (r: String)
    ensures
        r@ == drop_while_char(key@, '/'),
{
    trim_leading_char(key, '/').to_owned()
}

/// How key components join: an empty prefix strips leading separators from
/// the name; otherwise the two join with exactly one separator.
pub open spec fn join_key(prefix: Seq<char>, name: Seq<char>) -> Seq<char> {
    if prefix.len() == 0 {
        drop_while_char(name, '/')
    } else if prefix.last() == '/' {
        prefix + drop_while_char(name, '/')
    } else {
        prefix + seq!['/'] + drop_while_char(name, '/')
    }
}

/// Joins an S3 key prefix and a name with exactly one separator.
pub fn join_s3_key(prefix: &str, name: &str) -> (r: String)
    ensures
        r@ == join_key(prefix@, name@),
{
    let n = prefix.unicode_len();
    if n == 0 {
        normalize_s3_key(name)
    } else if prefix.get_char(n - 1) == '/' {
        String::from_str(prefix).concat(trim_leading_char(name, '/'))
    } else {
        proof {
            reveal_strlit("/");
        }
        let r = String::from_str(prefix).concat("/").concat(trim_leading_char(name, '/'));
        proof {
            assert(r@ =~= join_key(prefix@, name@));
        }
        r
    }
}

/// The key relative to a listing prefix: when the prefix matches, it is
/// stripped together with one run of leading separators.
pub open spec fn spec_relative_key(key: Seq<char>, prefix: Seq<char>) -> Seq<char> {
    if prefix.len() > 0 && prefix.is_prefix_of(key) {
        drop_while_char(key.skip(prefix.len() as int), '/')
    } else {
        key
    }
}

/// Strips a listing prefix and any separators that follow it from a key.
pub fn relative_key<'a>(key: &'a str, prefix: &str) -> (r: &'a str)
    ensures
        r@ == spec_relative_key(key@, prefix@),
{
    let p = prefix.unicode_len();
    if p > 0 && str_starts_with(key, prefix) {
        let rest = key.substring_char(p, key.unicode_len());
        proof {
            assert(rest@ =~= key@.skip(p as int));
        }
        trim_leading_char(rest, '/')
    } else {
        key
    }
}

/// Relies on `std::path::Path::is_dir`: whether the path names an existing
/// directory on the local filesystem at the time of the call.
#[verifier::external_body]
pub fn is_local_dir(path: &str) -> bool {
    std::path::Path::new(path).is_dir()
}

/// Relies on `std::path::Path::is_file`: whether the path names an existing
/// regular file on the local filesystem at the time of the call.
#[verifier::external_body]
pub fn is_local_file(path: &str) -> bool {
    std::path::Path::new(path).is_file()
}

} // verus!
