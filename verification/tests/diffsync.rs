use s3kit::diff::diff_summary;
use s3kit::diff::find_differences;
use s3kit::diff::make_local_meta;
use s3kit::diff::DiffType;
use s3kit::diff::ObjectMeta;
use s3kit::path_utils::PathType;
use s3kit::sync::sync_plan;
use s3kit::transfer::copy_source_param;
use s3kit::transfer::recursive_copy_route;
use s3kit::transfer::sync_route;
use s3kit::transfer::transfer_route;
use s3kit::transfer::use_multipart;
use s3kit::transfer::TransferRoute;

fn meta(key: &str, size: u64, etag: Option<&str>) -> ObjectMeta {
    ObjectMeta {
        key: key.to_string(),
        path: key.to_string(),
        size,
        etag: etag.map(|e| e.to_string()),
    }
}

#[test]
fn diff_classifies_and_sorts() {
    let a = vec![meta("b", 2, None), meta("a", 1, None), meta("d", 9, None)];
    let b = vec![meta("a", 1, None), meta("c", 3, None), meta("d", 4, None)];
    let diffs = find_differences(&a, &b, false);
    let got: Vec<(String, DiffType)> = diffs.iter().map(|d| (d.key.clone(), d.kind)).collect();
    assert_eq!(
        got,
        vec![
            ("b".to_string(), DiffType::OnlyInSource),
            ("c".to_string(), DiffType::OnlyInDest),
            ("d".to_string(), DiffType::SizeDiffers),
        ]
    );
}

#[test]
fn diff_swap_mirrors_classifications() {
    let a = vec![meta("b", 2, None), meta("d", 9, None), meta("e", 5, Some("x"))];
    let b = vec![meta("c", 3, None), meta("d", 4, None), meta("e", 5, Some("y"))];
    let fwd = find_differences(&a, &b, true);
    let rev = find_differences(&b, &a, true);
    assert_eq!(fwd.len(), rev.len());
    for (f, r) in fwd.iter().zip(rev.iter()) {
        assert_eq!(f.key, r.key);
        let swapped = match f.kind {
            DiffType::OnlyInSource => DiffType::OnlyInDest,
            DiffType::OnlyInDest => DiffType::OnlyInSource,
            other => other,
        };
        assert_eq!(r.kind, swapped);
    }
}

#[test]
fn copied_object_diffs_clean() {
    let data: &[u8] = b"hello world";
    let src = vec![make_local_meta("f".to_string(), "src/f".to_string(), data, true)];
    let dst = vec![make_local_meta("f".to_string(), "dst/f".to_string(), data, true)];
    assert_eq!(src[0].etag.as_deref(), Some("5eb63bbbe01eeed093cb22bb8f5acdc3"));
    let diffs = find_differences(&src, &dst, true);
    assert!(diffs.is_empty());
}

#[test]
fn same_size_content_change_needs_both_digests() {
    let data: &[u8] = b"hello world";
    let changed: &[u8] = b"hello worlD";
    let src = vec![make_local_meta("f".to_string(), "src/f".to_string(), data, true)];
    let dst = vec![make_local_meta("f".to_string(), "dst/f".to_string(), changed, true)];
    let diffs = find_differences(&src, &dst, true);
    assert_eq!(diffs.len(), 1);
    assert_eq!(diffs[0].key, "f");
    assert_eq!(diffs[0].kind, DiffType::ContentDiffers);

    // a one-sided missing digest silently skips the content comparison
    let dst = vec![make_local_meta("f".to_string(), "dst/f".to_string(), changed, false)];
    let diffs = find_differences(&src, &dst, true);
    assert!(diffs.is_empty());

    // without content comparison the digests are never consulted
    let dst = vec![make_local_meta("f".to_string(), "dst/f".to_string(), changed, true)];
    let diffs = find_differences(&src, &dst, false);
    assert!(diffs.is_empty());
}

#[test]
fn summary_counts_by_category() {
    let a = vec![meta("a", 1, None), meta("b", 2, None), meta("d", 9, None)];
    let b = vec![meta("c", 3, None), meta("d", 4, None)];
    let diffs = find_differences(&a, &b, false);
    let s = diff_summary(&diffs);
    assert_eq!(s.only_in_source, 2);
    assert_eq!(s.only_in_dest, 1);
    assert_eq!(s.size_differs, 1);
    assert_eq!(s.content_differs, 0);
    assert_eq!(s.total, 4);
}

#[test]
fn sync_copies_only_the_missing_entry() {
    let source = vec![meta("a", 10, None), meta("b", 20, None)];
    let dest = vec![meta("a", 10, None)];
    let (decisions, copied, skipped) = sync_plan(&source, &dest);
    assert_eq!(decisions, vec![false, true]);
    assert_eq!(copied, 1);
    assert_eq!(skipped, 1);
}

#[test]
fn sync_recopies_on_size_change() {
    let source = vec![meta("a", 10, None)];
    let dest = vec![meta("a", 11, None)];
    let (decisions, copied, skipped) = sync_plan(&source, &dest);
    assert_eq!(decisions, vec![true]);
    assert_eq!(copied, 1);
    assert_eq!(skipped, 0);
}

#[test]
fn routes_cover_all_kind_pairs() {
    let local = PathType::Local("p".to_string());
    let remote = PathType::S3 {
        bucket: "b".to_string(),
        key: "k".to_string(),
    };
    assert_eq!(transfer_route(&local, &remote), TransferRoute::Upload);
    assert_eq!(transfer_route(&remote, &local), TransferRoute::Download);
    assert_eq!(transfer_route(&remote, &remote), TransferRoute::RemoteCopy);
    assert_eq!(transfer_route(&local, &local), TransferRoute::LocalCopy);
}

#[test]
fn multipart_starts_at_the_threshold() {
    assert!(!use_multipart(8388607, 8388608));
    assert!(use_multipart(8388608, 8388608));
    assert!(use_multipart(8388609, 8388608));
}

#[test]
fn local_to_local_recursion_is_refused() {
    let local = PathType::Local("p".to_string());
    let remote = PathType::S3 {
        bucket: "b".to_string(),
        key: "k".to_string(),
    };
    assert_eq!(
        recursive_copy_route(&local, &remote).unwrap(),
        TransferRoute::Upload
    );
    let e = recursive_copy_route(&local, &local).unwrap_err();
    assert_eq!(
        e,
        "Local to local recursive copy not implemented. Use standard 'cp -r' command."
    );
    assert_eq!(sync_route(&remote, &local).unwrap(), TransferRoute::Download);
    let e = sync_route(&local, &local).unwrap_err();
    assert_eq!(
        e,
        "Local to local sync not implemented. Use standard 'rsync' command."
    );
}

#[test]
fn copy_source_joins_bucket_and_key() {
    assert_eq!(copy_source_param("bucket", "path/to/key"), "bucket/path/to/key");
    assert_eq!(copy_source_param("b", ""), "b/");
}
