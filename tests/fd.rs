use replicating_tmux::fd::{
    descriptor_result, descriptors_to_close, parse_descriptor, read_result, write_result,
};

#[test]
fn read_counts_pass_through() {
    assert_eq!(read_result(12, 0), Ok(12));
    assert_eq!(read_result(0, 0), Ok(0));
}

#[test]
fn io_error_reads_as_end_of_stream() {
    assert_eq!(read_result(-1, libc::EIO), Ok(0));
}

#[test]
fn other_read_errors_surface() {
    assert_eq!(read_result(-1, libc::EAGAIN), Err(libc::EAGAIN));
    assert_eq!(read_result(-1, libc::EBADF), Err(libc::EBADF));
}

#[test]
fn write_and_descriptor_results() {
    assert_eq!(write_result(5, 0), Ok(5));
    assert_eq!(write_result(-1, libc::EPIPE), Err(libc::EPIPE));
    assert_eq!(descriptor_result(7, 0), Ok(7));
    assert_eq!(descriptor_result(-1, libc::EMFILE), Err(libc::EMFILE));
}

#[test]
fn descriptor_names() {
    assert_eq!(parse_descriptor(b"0"), Some(0));
    assert_eq!(parse_descriptor(b"17"), Some(17));
    assert_eq!(parse_descriptor(b"2147483647"), Some(i32::MAX));
    assert_eq!(parse_descriptor(b"2147483648"), None);
    assert_eq!(parse_descriptor(b""), None);
    assert_eq!(parse_descriptor(b"."), None);
    assert_eq!(parse_descriptor(b"1a"), None);
    assert_eq!(parse_descriptor(b"-1"), None);
}

#[test]
fn only_descriptors_above_the_standard_streams_close() {
    let names: Vec<Vec<u8>> = ["0", "1", "2", "3", ".", "..", "10", "x"]
        .iter()
        .map(|s| s.as_bytes().to_vec())
        .collect();
    assert_eq!(descriptors_to_close(&names), vec![3, 10]);
    assert!(descriptors_to_close(&Vec::new()).is_empty());
}
