use upload_engine::adapter::ReadStep;
use upload_engine::error::{Error, ErrorKind};
use upload_engine::seekable::SeekableReader;

#[test]
fn reads_follow_the_stream() {
    let mut r = SeekableReader::new(None);
    assert_eq!(r.read(4), ReadStep::Pull);
    assert_eq!(r.supply(Ok(Some(vec![0, 1, 2, 3, 4, 5]))), Ok(()));
    assert_eq!(r.read(4), ReadStep::Ready(vec![0, 1, 2, 3]));
    assert_eq!(r.position(), 4);
    assert_eq!(r.read(4), ReadStep::Ready(vec![4, 5]));
    assert_eq!(r.read(4), ReadStep::Pull);
    assert_eq!(r.supply(Ok(None)), Ok(()));
    assert_eq!(r.read(4), ReadStep::Ready(Vec::new()));
}

#[test]
fn seek_back_into_what_is_kept_reads_it_again() {
    let mut r = SeekableReader::new(None);
    assert_eq!(r.supply(Ok(Some(vec![10, 11, 12, 13]))), Ok(()));
    assert_eq!(r.read(4), ReadStep::Ready(vec![10, 11, 12, 13]));
    assert_eq!(r.seek(1), Ok(()));
    assert_eq!(r.position(), 1);
    assert_eq!(r.read(2), ReadStep::Ready(vec![11, 12]));
    assert_eq!(r.seek(0), Ok(()));
    assert_eq!(r.read(1), ReadStep::Ready(vec![10]));
}

#[test]
fn seek_ahead_pulls_until_the_position_is_reached() {
    let mut r = SeekableReader::new(None);
    assert_eq!(r.seek(5), Ok(()));
    assert_eq!(r.read(2), ReadStep::Pull);
    assert_eq!(r.supply(Ok(Some(vec![0, 1, 2]))), Ok(()));
    assert_eq!(r.read(2), ReadStep::Pull);
    assert_eq!(r.supply(Ok(Some(vec![3, 4, 5, 6]))), Ok(()));
    assert_eq!(r.read(2), ReadStep::Ready(vec![5, 6]));
}

#[test]
fn seek_past_the_end_reads_empty() {
    let mut r = SeekableReader::new(None);
    assert_eq!(r.supply(Ok(Some(vec![0, 1]))), Ok(()));
    assert_eq!(r.supply(Ok(None)), Ok(()));
    assert_eq!(r.seek(10), Ok(()));
    assert_eq!(r.read(2), ReadStep::Ready(Vec::new()));
}

#[test]
fn limit_drops_the_oldest_bytes_behind_the_position() {
    let mut r = SeekableReader::new(Some(2));
    assert_eq!(r.supply(Ok(Some(vec![0, 1, 2, 3]))), Ok(()));
    // nothing was read yet, so nothing may go
    assert_eq!(r.oldest(), 0);
    assert_eq!(r.read(3), ReadStep::Ready(vec![0, 1, 2]));
    assert_eq!(r.supply(Ok(Some(vec![4, 5]))), Ok(()));
    // six bytes are kept, three of them behind the position: they go
    assert_eq!(r.oldest(), 3);
    assert_eq!(r.read(10), ReadStep::Ready(vec![3, 4, 5]));
    assert_eq!(r.supply(Ok(Some(vec![6]))), Ok(()));
    // four are kept, two over the limit
    assert_eq!(r.oldest(), 5);
}

#[test]
fn seek_to_a_dropped_byte_is_not_supported() {
    let mut r = SeekableReader::new(Some(1));
    assert_eq!(r.supply(Ok(Some(vec![0, 1, 2, 3]))), Ok(()));
    assert_eq!(r.read(4), ReadStep::Ready(vec![0, 1, 2, 3]));
    assert_eq!(r.supply(Ok(Some(vec![4]))), Ok(()));
    assert_eq!(r.oldest(), 4);
    assert_eq!(r.seek(3), Err(Error::UnsupportedSeek));
    assert_eq!(Error::UnsupportedSeek.kind(), ErrorKind::Io);
    // the failed seek changed nothing
    assert_eq!(r.position(), 4);
    assert_eq!(r.seek(4), Ok(()));
    assert_eq!(r.read(1), ReadStep::Ready(vec![4]));
}

#[test]
fn limit_of_zero_keeps_only_what_is_unread() {
    let mut r = SeekableReader::new(Some(0));
    assert_eq!(r.supply(Ok(Some(vec![0, 1, 2]))), Ok(()));
    assert_eq!(r.read(2), ReadStep::Ready(vec![0, 1]));
    assert_eq!(r.supply(Ok(Some(vec![3]))), Ok(()));
    assert_eq!(r.oldest(), 2);
    assert_eq!(r.read(5), ReadStep::Ready(vec![2, 3]));
}

#[test]
fn failed_pull_is_handed_back() {
    let mut r = SeekableReader::new(None);
    let e = Error::Io { message: String::from("timeout") };
    assert_eq!(r.supply(Err(e.clone())), Err(e));
    assert_eq!(r.read(1), ReadStep::Pull);
}
