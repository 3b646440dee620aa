use s3kit::filters::FileFilter;

#[test]
fn test_include_only() {
    let filter = FileFilter::new(vec!["*.txt".to_string()], vec![]).unwrap();
    assert!(filter.matches("file.txt"));
    assert!(!filter.matches("file.rs"));
}

#[test]
fn test_exclude_only() {
    let filter = FileFilter::new(vec![], vec!["*.log".to_string()]).unwrap();
    assert!(filter.matches("file.txt"));
    assert!(!filter.matches("file.log"));
}

#[test]
fn test_exclude_precedence() {
    let filter =
        FileFilter::new(vec!["*.txt".to_string()], vec!["secret*.txt".to_string()]).unwrap();
    assert!(filter.matches("file.txt"));
    assert!(!filter.matches("secret.txt"));
    assert!(!filter.matches("secret_key.txt"));
}

#[test]
fn test_no_filters() {
    let filter = FileFilter::new(vec![], vec![]).unwrap();
    assert!(filter.matches("any_file.txt"));
    assert!(filter.matches("any_file.rs"));
}

#[test]
fn invalid_pattern_is_refused() {
    let e = match FileFilter::new(vec!["a[".to_string()], vec![]) {
        Err(e) => e,
        Ok(_) => panic!("pattern should not compile"),
    };
    assert!(e.starts_with("Invalid include pattern: "));
    let e = match FileFilter::new(vec![], vec!["b[".to_string()]) {
        Err(e) => e,
        Ok(_) => panic!("pattern should not compile"),
    };
    assert!(e.starts_with("Invalid exclude pattern: "));
}

#[test]
fn has_filters_reports_any_pattern() {
    let none = FileFilter::new(vec![], vec![]).unwrap();
    assert!(!none.has_filters());
    let some = FileFilter::new(vec!["*.txt".to_string()], vec![]).unwrap();
    assert!(some.has_filters());
    let some = FileFilter::new(vec![], vec!["*.log".to_string()]).unwrap();
    assert!(some.has_filters());
}
