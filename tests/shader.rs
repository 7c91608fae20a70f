use comanche::shader::{diagnostic, LOG_CAPACITY, STATUS_OK};

#[test]
fn success_reports_nothing() {
    assert_eq!(diagnostic(STATUS_OK, &b"ignored".to_vec(), 7), None);
}

#[test]
fn failure_reports_written_bytes() {
    let mut log = b"0:1(1): error: syntax error".to_vec();
    log.resize(LOG_CAPACITY, 0);
    assert_eq!(diagnostic(0, &log, 27), Some(b"0:1(1): error: syntax error".to_vec()));
}

#[test]
fn failure_log_is_bounded() {
    let log = vec![b'x'; 2000];
    assert_eq!(diagnostic(0, &log, 2000).unwrap().len(), 511);
    assert_eq!(diagnostic(0, &log, -5), Some(Vec::new()));
    assert_eq!(diagnostic(0, &b"abc".to_vec(), 10), Some(b"abc".to_vec()));
}
