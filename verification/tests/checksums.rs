use s3kit::checksum::checksum_hex;
use s3kit::checksum::parse_checksum_options;
use s3kit::checksum::ChecksumAlgo;
use s3kit::checksum::ChecksumMode;
use s3kit::config::parse_size_value;
use s3kit::config::S3ClientConfig;
use s3kit::stat::content_type_for_extension;
use s3kit::stat::should_compute_checksums;
use s3kit::stat::stat_checksum_choice;

#[test]
fn checksum_options_accept_known_values() {
    let (mode, algo) =
        parse_checksum_options(Some("enabled".to_string()), Some("sha256".to_string())).unwrap();
    assert_eq!(mode, Some(ChecksumMode::Enabled));
    assert_eq!(algo, Some(ChecksumAlgo::Sha256));
    let (mode, algo) = parse_checksum_options(None, None).unwrap();
    assert_eq!(mode, None);
    assert_eq!(algo, None);
    let (_, algo) = parse_checksum_options(None, Some("crc32c".to_string())).unwrap();
    assert_eq!(algo, Some(ChecksumAlgo::Crc32C));
}

#[test]
fn checksum_options_refuse_unknown_values() {
    let e = parse_checksum_options(Some("on".to_string()), None).unwrap_err();
    assert_eq!(e, "Invalid checksum mode: on. Use ENABLED");
    let e = parse_checksum_options(None, Some("md5".to_string())).unwrap_err();
    assert_eq!(
        e,
        "Invalid checksum algorithm: md5. Use CRC32, CRC32C, SHA1, or SHA256"
    );
}

#[test]
fn digests_match_known_values() {
    assert_eq!(
        checksum_hex(ChecksumAlgo::Sha256, b"abc"),
        "ba7816bf8f01cfea414140de5dae2223b00361a396177a9cb410ff61f20015ad"
    );
    assert_eq!(
        checksum_hex(ChecksumAlgo::Sha1, b"abc"),
        "a9993e364706816aba3e25717850c26c9cd0d89d"
    );
    assert_eq!(checksum_hex(ChecksumAlgo::Crc32, b"123456789"), "cbf43926");
    assert_eq!(checksum_hex(ChecksumAlgo::Crc32C, b"123456789"), "cbf43926");
}

#[test]
fn size_values_scale_by_suffix() {
    assert_eq!(parse_size_value("10485760").unwrap(), 10485760);
    assert_eq!(parse_size_value("8MB").unwrap(), 8388608);
    assert_eq!(parse_size_value("5M").unwrap(), 5242880);
    assert_eq!(parse_size_value("2KB").unwrap(), 2048);
    assert_eq!(parse_size_value("2K").unwrap(), 2048);
    assert_eq!(parse_size_value("1GB").unwrap(), 1073741824);
    assert_eq!(parse_size_value("1G").unwrap(), 1073741824);
    assert_eq!(parse_size_value("8mb").unwrap(), 8388608);
    assert_eq!(parse_size_value("8 MB").unwrap(), 8388608);
}

#[test]
fn size_values_refuse_garbage() {
    assert_eq!(parse_size_value("abc").unwrap_err(), "Invalid size format");
    assert_eq!(parse_size_value("8TB").unwrap_err(), "Invalid size format");
    assert_eq!(parse_size_value("").unwrap_err(), "Invalid size format");
    assert_eq!(
        parse_size_value("99999999999999999999G").unwrap_err(),
        "Invalid size format"
    );
}

#[test]
fn default_config_uses_default_multipart_sizes() {
    let c = S3ClientConfig::default();
    assert_eq!(c.multipart_threshold, 8388608);
    assert_eq!(c.multipart_chunksize, 8388608);
    assert!(c.verify_ssl);
    assert!(!c.debug);
    assert!(c.endpoint_url.is_none());
    assert!(c.region.is_none());
    assert!(c.profile.is_none());
}

#[test]
fn content_types_follow_extension() {
    assert_eq!(content_type_for_extension(Some("txt")), "text/plain");
    assert_eq!(content_type_for_extension(Some("htm")), "text/html");
    assert_eq!(content_type_for_extension(Some("json")), "application/json");
    assert_eq!(content_type_for_extension(Some("jpeg")), "image/jpeg");
    assert_eq!(
        content_type_for_extension(Some("weird")),
        "application/octet-stream"
    );
    assert_eq!(content_type_for_extension(None), "application/octet-stream");
}

#[test]
fn stat_checksum_requests() {
    assert!(should_compute_checksums(&Some("ENABLED".to_string())));
    assert!(should_compute_checksums(&Some("enabled".to_string())));
    assert!(!should_compute_checksums(&Some("Enabled".to_string())));
    assert!(!should_compute_checksums(&None));
    assert_eq!(stat_checksum_choice(&None), Some(ChecksumAlgo::Sha256));
    assert_eq!(
        stat_checksum_choice(&Some("crc32".to_string())),
        Some(ChecksumAlgo::Crc32)
    );
    assert_eq!(stat_checksum_choice(&Some("nope".to_string())), None);
}

#[test]
fn multipart_settings_come_from_profile_or_s3_section() {
    let content = "[default]\nmultipart_threshold = 16MB\n\n[s3]\nmultipart_chunksize = 5M\n";
    let (threshold, chunksize) = s3kit::config::parse_multipart_settings(content, "default");
    assert_eq!(threshold, 16777216);
    assert_eq!(chunksize, 5242880);

    // another profile's section is ignored; defaults fill the gaps
    let (threshold, chunksize) = s3kit::config::parse_multipart_settings(content, "other");
    assert_eq!(threshold, 8388608);
    assert_eq!(chunksize, 5242880);

    // a named profile is selected by its own header
    let content = "[profile dev]\nmultipart_threshold=1024\nmultipart_chunksize=2048\n";
    let (threshold, chunksize) = s3kit::config::parse_multipart_settings(content, "dev");
    assert_eq!(threshold, 1024);
    assert_eq!(chunksize, 2048);

    // settings outside any relevant section are ignored
    let content = "multipart_threshold = 1\n[other]\nmultipart_threshold = 2\n";
    let (threshold, chunksize) = s3kit::config::parse_multipart_settings(content, "default");
    assert_eq!(threshold, 8388608);
    assert_eq!(chunksize, 8388608);

    // an unparsable value leaves the earlier one standing
    let content = "[s3]\nmultipart_threshold = 4096\nmultipart_threshold = bogus\n";
    let (threshold, _) = s3kit::config::parse_multipart_settings(content, "default");
    assert_eq!(threshold, 4096);
}
