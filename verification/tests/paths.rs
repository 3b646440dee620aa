use s3kit::path_utils::join_s3_key;
use s3kit::path_utils::normalize_s3_key;
use s3kit::path_utils::parse_path;
use s3kit::path_utils::parse_s3_uri;
use s3kit::path_utils::relative_key;
use s3kit::path_utils::PathType;

#[test]
fn test_parse_s3_uri() {
    let result = parse_s3_uri("s3://my-bucket/path/to/file.txt");
    assert!(result.is_ok());
    if let PathType::S3 { bucket, key } = result.unwrap() {
        assert_eq!(bucket, "my-bucket");
        assert_eq!(key, "path/to/file.txt");
    }

    let result = parse_s3_uri("s3://my-bucket");
    assert!(result.is_ok());
    if let PathType::S3 { bucket, key } = result.unwrap() {
        assert_eq!(bucket, "my-bucket");
        assert_eq!(key, "");
    }
}

#[test]
fn test_join_s3_key() {
    assert_eq!(join_s3_key("prefix", "file.txt"), "prefix/file.txt");
    assert_eq!(join_s3_key("prefix/", "file.txt"), "prefix/file.txt");
    assert_eq!(join_s3_key("", "file.txt"), "file.txt");
}

#[test]
fn parse_s3_uri_rejects_missing_bucket() {
    let e = parse_s3_uri("s3://").unwrap_err();
    assert_eq!(e, "S3 URI must contain a bucket name");
    let e = parse_s3_uri("s3:///key").unwrap_err();
    assert_eq!(e, "Bucket name cannot be empty");
    let e = parse_s3_uri("plain/path").unwrap_err();
    assert_eq!(e, "Invalid S3 URI: plain/path");
}

#[test]
fn parse_path_local_is_verbatim() {
    let p = parse_path("some/dir/file.bin").unwrap();
    assert_eq!(p, PathType::Local("some/dir/file.bin".to_string()));
    let p = parse_path("s3://b/k").unwrap();
    assert_eq!(
        p,
        PathType::S3 {
            bucket: "b".to_string(),
            key: "k".to_string()
        }
    );
}

#[test]
fn normalize_strips_leading_slashes() {
    assert_eq!(normalize_s3_key("///a/b"), "a/b");
    assert_eq!(normalize_s3_key("a/b"), "a/b");
    assert_eq!(normalize_s3_key(""), "");
}

#[test]
fn relative_key_strips_prefix() {
    assert_eq!(relative_key("prefix/a/b", "prefix"), "a/b");
    assert_eq!(relative_key("prefix/a/b", ""), "prefix/a/b");
    assert_eq!(relative_key("other/a", "prefix"), "other/a");
    assert_eq!(relative_key("prefixa", "prefix"), "a");
}
