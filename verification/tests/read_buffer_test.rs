use grok::read_buffer::ReadBuffer;
use std::time::Duration;

#[test]
fn read_buffer_tracks_offsets() {
    let mut b = ReadBuffer::new(100);
    assert_eq!((b.start(), b.end(), b.pos(), b.len(), b.remaining()), (100, 100, 100, 0, 0));
    b.extend(b"hello world".to_vec());
    assert_eq!((b.start(), b.end(), b.pos(), b.len(), b.remaining()), (100, 111, 100, 11, 11));
    b.consume(6);
    assert_eq!(b.get_buffer(), b"world");
    assert_eq!(b.pos(), 106);
    b.discard_front(4);
    assert_eq!((b.start(), b.pos(), b.remaining()), (104, 106, 5));
    assert_eq!(b.get_buffer(), b"world");
}

#[test]
fn seek_to_stays_inside_the_buffer() {
    let mut b = ReadBuffer::new(10);
    b.extend(b"abcdef".to_vec());
    assert!(b.seek_to(12));
    assert_eq!(b.get_buffer(), b"cdef");
    assert!(!b.seek_to(16));
    assert!(!b.seek_to(9));
    assert_eq!(b.pos(), 12);
}

#[test]
fn timeout_latches() {
    let mut t = grok::timeout::Timeout::Unset;
    assert!(!t.is_timed_out());
    t.set(Some(Duration::from_secs(3600)));
    assert!(!t.is_timed_out());
    assert!(!t.timed_out());
    t = grok::timeout::Timeout::TimedOut;
    assert!(t.is_timed_out());
    t.set(None);
    assert!(!t.is_timed_out());
}

#[test]
fn timeout_too_far_off_never_runs_out() {
    let mut t = grok::timeout::Timeout::Unset;
    t.set(Some(Duration::MAX));
    assert!(!t.is_timed_out());
}
