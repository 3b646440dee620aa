use s3kit::multipart::plan_parts;
use s3kit::multipart::MultipartSession;
use s3kit::multipart::PartPlan;

#[test]
fn plan_covers_size_with_short_last_part() {
    let parts = plan_parts(10, 4);
    assert_eq!(
        parts,
        vec![
            PartPlan {
                number: 1,
                offset: 0,
                size: 4
            },
            PartPlan {
                number: 2,
                offset: 4,
                size: 4
            },
            PartPlan {
                number: 3,
                offset: 8,
                size: 2
            },
        ]
    );
}

#[test]
fn plan_exact_multiple_keeps_full_last_part() {
    let parts = plan_parts(8, 4);
    assert_eq!(parts.len(), 2);
    assert_eq!(parts[1].number, 2);
    assert_eq!(parts[1].size, 4);
}

#[test]
fn plan_small_file_is_one_part() {
    let parts = plan_parts(3, 5);
    assert_eq!(parts.len(), 1);
    assert_eq!(parts[0].number, 1);
    assert_eq!(parts[0].size, 3);
}

#[test]
fn plan_of_empty_input_is_empty() {
    assert!(plan_parts(0, 4).is_empty());
}

#[test]
fn session_numbers_parts_in_read_order() {
    let mut s = MultipartSession::new(4);
    assert!(s.still_open());
    assert_eq!(s.next_part_number(), 1);
    s.record_part(4, "etag-one".to_string());
    assert!(s.still_open());
    assert_eq!(s.next_part_number(), 2);
    s.record_part(2, "etag-two".to_string());
    assert!(!s.still_open());
    assert_eq!(s.bytes_recorded(), 6);
    let parts = s.into_parts();
    assert_eq!(
        parts,
        vec![(1, "etag-one".to_string()), (2, "etag-two".to_string())]
    );
}
