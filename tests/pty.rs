use replicating_tmux::pty::{PtySize, WriterError, WriterGate};

#[test]
fn size_keeps_its_fields() {
    let s = PtySize::new(24, 80, 640, 480);
    assert_eq!(s.rows, 24);
    assert_eq!(s.cols, 80);
    assert_eq!(s.pixel_width, 640);
    assert_eq!(s.pixel_height, 480);
    assert_eq!(s, PtySize { rows: 24, cols: 80, pixel_width: 640, pixel_height: 480 });
}

#[test]
fn second_writer_request_is_refused() {
    let mut gate = WriterGate::new();
    assert!(!gate.writer_taken());
    let first: Result<u32, WriterError<()>> = gate.take_writer(|| Ok(3));
    assert!(matches!(first, Ok(3)));
    assert!(gate.writer_taken());
    let mut called = false;
    let second: Result<u32, WriterError<()>> = gate.take_writer(|| {
        called = true;
        Ok(4)
    });
    assert!(matches!(second, Err(WriterError::AlreadyTaken)));
    assert!(!called);
    // the first handle is untouched
    assert!(matches!(first, Ok(3)));
}

#[test]
fn failed_duplicate_leaves_the_writer_available() {
    let mut gate = WriterGate::new();
    let failed: Result<u32, WriterError<i32>> = gate.take_writer(|| Err(24));
    assert!(matches!(failed, Err(WriterError::Os(24))));
    assert!(!gate.writer_taken());
    let retry: Result<u32, WriterError<i32>> = gate.take_writer(|| Ok(5));
    assert!(matches!(retry, Ok(5)));
}
