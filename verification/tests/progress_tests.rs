use mod_manager::progress::{extraction_percent, DownloadProgress};

#[test]
fn progress_reports_every_five_points() {
    let mut p = DownloadProgress::new(1000);
    assert_eq!(p.record_chunk(10), None);
    assert_eq!(p.downloaded, 10);
    assert_eq!(p.record_chunk(40), Some(5));
    assert_eq!(p.last_emitted_percent, 5);
    assert_eq!(p.record_chunk(40), None);
    assert_eq!(p.record_chunk(10), Some(10));
    assert_eq!(p.record_chunk(900), Some(100));
    assert_eq!(p.downloaded, 1000);
}

#[test]
fn progress_reports_completion() {
    let mut p = DownloadProgress::new(100);
    assert_eq!(p.record_chunk(97), Some(97));
    assert_eq!(p.record_chunk(2), None);
    assert_eq!(p.record_chunk(1), Some(100));
}

#[test]
fn unknown_size_reports_nothing() {
    let mut p = DownloadProgress::new(0);
    assert_eq!(p.record_chunk(500), None);
    assert_eq!(p.downloaded, 500);
    assert_eq!(p.last_emitted_percent, 0);
}

#[test]
fn extraction_percentages() {
    assert_eq!(extraction_percent(0, 4), 25);
    assert_eq!(extraction_percent(3, 4), 100);
    assert_eq!(extraction_percent(0, 3), 33);
    assert_eq!(extraction_percent(0, 1), 100);
}
