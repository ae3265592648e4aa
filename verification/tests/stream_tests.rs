use canabi::stream::{InputStream, OutputStream, StreamError};

#[test]
fn read_is_non_blocking_and_empty_is_not_an_error() {
    let mut s = InputStream::new();
    let got = s.read(16).unwrap();
    assert_eq!(got.len(), 0);
}

#[test]
fn poll_liveness_blocking_read_waits_for_delivery() {
    // Data becomes available only "after a delay": it sits in the pending
    // queue and is not readable before the suspension point.
    let mut s = InputStream::new();
    s.deliver(b"abc".to_vec());
    // A non-blocking read before readiness sees nothing...
    assert_eq!(s.read(16).unwrap(), Vec::<u8>::new());
    // ...and the blocking read returns the data, never zero bytes early.
    let got = s.blocking_read(16).unwrap();
    assert_eq!(got, b"abc".to_vec());
    assert!(!got.is_empty());
}

#[test]
fn blocking_read_respects_max_and_keeps_the_rest() {
    let mut s = InputStream::new();
    s.deliver(b"hello world".to_vec());
    assert_eq!(s.blocking_read(5).unwrap(), b"hello".to_vec());
    // The rest of the chunk is buffered and read without blocking.
    assert_eq!(s.read(64).unwrap(), b" world".to_vec());
}

#[test]
fn end_of_stream_is_distinct_from_temporarily_empty() {
    let mut s = InputStream::new();
    assert_eq!(s.read(8).unwrap(), Vec::<u8>::new());
    s.finish();
    assert_eq!(s.read(8), Err(StreamError::Ended));
    assert_eq!(s.blocking_read(8), Err(StreamError::Ended));
}

#[test]
fn buffered_data_is_readable_after_eof() {
    let mut s = InputStream::new();
    s.deliver(b"tail".to_vec());
    s.finish();
    assert_eq!(s.blocking_read(8).unwrap(), b"tail".to_vec());
    assert_eq!(s.blocking_read(8), Err(StreamError::Ended));
}

#[test]
fn transport_failure_surfaces_with_its_cause() {
    let mut s = InputStream::new();
    s.fail(54);
    assert_eq!(s.read(8), Err(StreamError::Transport(54)));
}

#[test]
fn close_is_idempotent_and_operations_after_close_fail() {
    let mut s = InputStream::new();
    s.deliver(b"x".to_vec());
    s.close();
    s.close();
    assert_eq!(s.read(8), Err(StreamError::Closed));
    assert_eq!(s.blocking_read(8), Err(StreamError::Closed));
}

#[test]
fn write_accepts_up_to_capacity() {
    let mut s = OutputStream::new(4);
    let n = s.write(&b"abcdef".to_vec()).unwrap();
    assert_eq!(n, 4);
    assert_eq!(s.buf, b"abcd".to_vec());
    // Nothing left in the buffer accepts nothing more.
    assert_eq!(s.write(&b"gh".to_vec()).unwrap(), 0);
}

#[test]
fn blocking_write_delivers_everything() {
    let mut s = OutputStream::new(4);
    s.write(&b"xy".to_vec()).unwrap();
    s.blocking_write_all(&b"abcdefghij".to_vec()).unwrap();
    assert_eq!(s.sent, b"xyabcdefghij".to_vec());
    assert_eq!(s.buf.len(), 0);
}

#[test]
fn output_close_and_failure() {
    let mut s = OutputStream::new(8);
    s.close();
    assert_eq!(s.write(&b"a".to_vec()), Err(StreamError::Closed));
    let mut t = OutputStream::new(8);
    t.fail(9);
    assert_eq!(t.blocking_write_all(&b"a".to_vec()), Err(StreamError::Transport(9)));
}
