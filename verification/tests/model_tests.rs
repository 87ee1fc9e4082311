use yaad::models::{partial_file_name, DownloadTracker};

#[test]
fn progress_is_reported_only_when_the_percentage_grows() {
    let mut t = DownloadTracker::new(1000);
    assert!(t.record_chunk(5).is_none()); // 0%
    let p = t.record_chunk(10).unwrap(); // 15 bytes -> 1%
    assert_eq!((p.percentage, p.current, p.total), (1, 15, 1000));
    assert!(t.record_chunk(4).is_none()); // 19 bytes -> still 1%
    let p = t.record_chunk(481).unwrap(); // 500 -> 50%
    assert_eq!(p.percentage, 50);
    let p = t.record_chunk(500).unwrap();
    assert_eq!((p.percentage, p.current), (100, 1000));
    assert_eq!(t.last_percent, 100);
}

#[test]
fn unknown_size_reports_nothing() {
    let mut t = DownloadTracker::new(0);
    assert!(t.record_chunk(1 << 20).is_none());
    assert_eq!(t.downloaded, 1 << 20);
}

#[test]
fn partial_names() {
    assert_eq!(partial_file_name(Some("ggml-small.en.bin")), "ggml-small.en.bin.part");
    assert_eq!(partial_file_name(None), "download.part");
}
