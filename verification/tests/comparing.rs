use s3kit::cmp::cmp_chunk_step;
use s3kit::cmp::cmp_final;
use s3kit::cmp::CmpSession;
use s3kit::cmp::count_lines;
use s3kit::cmp::first_mismatch;
use s3kit::cmp::CmpState;
use s3kit::cmp::CmpStep;

#[test]
fn counts_line_breaks() {
    assert_eq!(count_lines(b""), 0);
    assert_eq!(count_lines(b"abc"), 0);
    assert_eq!(count_lines(b"a\nb\n"), 2);
    assert_eq!(count_lines(b"\n\n\n"), 3);
}

#[test]
fn finds_first_differing_byte() {
    assert_eq!(first_mismatch(b"abc", b"abd"), Some(2));
    assert_eq!(first_mismatch(b"abc", b"abc"), None);
    assert_eq!(first_mismatch(b"abc", b"abcdef"), None);
    assert_eq!(first_mismatch(b"", b"abc"), None);
}

#[test]
fn difference_at_byte_six_reports_offset_six() {
    // equal through byte 5, differing at byte 6 (1-based)
    let left: &[u8] = b"AAAAABXXXX";
    let right: &[u8] = b"AAAAACYYYY";
    let st = CmpState { pos: 0, lines: 0 };
    let step = cmp_chunk_step(st, left, right);
    assert_eq!(step, CmpStep::Differ { offset: 6, line: 1 });
}

#[test]
fn difference_reports_cumulative_line_number() {
    let st = CmpState { pos: 0, lines: 0 };
    let step = cmp_chunk_step(st, b"a\nb\nX", b"a\nb\nY");
    assert_eq!(step, CmpStep::Differ { offset: 5, line: 3 });
    // the state carries lines seen in earlier chunks
    let st = CmpState { pos: 100, lines: 7 };
    let step = cmp_chunk_step(st, b"zX", b"zY");
    assert_eq!(
        step,
        CmpStep::Differ {
            offset: 102,
            line: 8
        }
    );
}

#[test]
fn equal_chunks_advance_the_state() {
    let st = CmpState { pos: 0, lines: 0 };
    let step = cmp_chunk_step(st, b"a\nb", b"a\nb");
    assert_eq!(
        step,
        CmpStep::Continue(CmpState { pos: 3, lines: 1 })
    );
    let step = cmp_chunk_step(CmpState { pos: 3, lines: 1 }, b"", b"");
    assert_eq!(step, CmpStep::Done);
}

#[test]
fn shorter_side_is_reported() {
    let st = CmpState { pos: 0, lines: 0 };
    assert_eq!(cmp_chunk_step(st, b"ab", b"abcd"), CmpStep::ShorterLeft);
    assert_eq!(cmp_chunk_step(st, b"abcd", b"ab"), CmpStep::ShorterRight);
}

#[test]
fn size_check_applies_only_without_a_requested_range() {
    assert_eq!(cmp_final(false, 5, 7), CmpStep::ShorterLeft);
    assert_eq!(cmp_final(false, 7, 5), CmpStep::ShorterRight);
    assert_eq!(cmp_final(false, 5, 5), CmpStep::Done);
    // an explicitly requested range, even an open-ended one, skips it
    assert_eq!(cmp_final(true, 5, 7), CmpStep::Done);
}

#[test]
fn session_stops_at_the_first_verdict() {
    let mut session = CmpSession::new(0);
    let step = session.step(b"a\nb", b"a\nb");
    assert_eq!(step, CmpStep::Continue(CmpState { pos: 3, lines: 1 }));
    assert_eq!(session.position(), 3);
    assert_eq!(session.line_count(), 1);
    let step = session.step(b"X", b"Y");
    assert_eq!(step, CmpStep::Differ { offset: 4, line: 2 });
    // the verdict closed the session; no further chunk is compared
    assert_eq!(session.position(), 3);
}
