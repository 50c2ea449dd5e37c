use upload_engine::adapter::{ReadStep, ReaderStream, SinkStep, SinkWriter, SourceReader, StreamStep};
use upload_engine::error::{Error, ErrorKind};
use upload_engine::pump::{Pump, PumpAction, PumpEvent};

fn io(message: &str) -> Error {
    Error::Io { message: String::from(message) }
}

#[test]
fn reader_asks_for_a_pull_when_it_holds_nothing() {
    let mut r = SourceReader::new();
    assert_eq!(r.read(4), ReadStep::Pull);
}

#[test]
fn reader_hands_out_a_segment_piece_by_piece() {
    let mut r = SourceReader::new();
    assert_eq!(r.supply(Ok(Some(vec![1, 2, 3, 4, 5]))), Ok(()));
    assert_eq!(r.read(2), ReadStep::Ready(vec![1, 2]));
    assert_eq!(r.read(2), ReadStep::Ready(vec![3, 4]));
    assert_eq!(r.read(2), ReadStep::Ready(vec![5]));
    assert_eq!(r.read(2), ReadStep::Pull);
}

#[test]
fn reader_read_of_zero_bytes_is_empty() {
    let mut r = SourceReader::new();
    assert_eq!(r.read(0), ReadStep::Ready(Vec::new()));
    assert_eq!(r.supply(Ok(Some(vec![9]))), Ok(()));
    assert_eq!(r.read(0), ReadStep::Ready(Vec::new()));
    assert_eq!(r.read(1), ReadStep::Ready(vec![9]));
}

#[test]
fn reader_joins_segments_without_loss() {
    let mut r = SourceReader::new();
    assert_eq!(r.supply(Ok(Some(vec![1, 2, 3]))), Ok(()));
    assert_eq!(r.read(2), ReadStep::Ready(vec![1, 2]));
    assert_eq!(r.supply(Ok(Some(vec![4, 5]))), Ok(()));
    assert_eq!(r.read(10), ReadStep::Ready(vec![3, 4, 5]));
}

#[test]
fn reader_reads_empty_at_the_end() {
    let mut r = SourceReader::new();
    assert_eq!(r.supply(Ok(Some(vec![1]))), Ok(()));
    assert_eq!(r.supply(Ok(None)), Ok(()));
    assert_eq!(r.read(8), ReadStep::Ready(vec![1]));
    assert_eq!(r.read(8), ReadStep::Ready(Vec::new()));
    assert_eq!(r.read(8), ReadStep::Ready(Vec::new()));
}

#[test]
fn reader_hands_a_failure_back_and_stays_as_it_was() {
    let mut r = SourceReader::new();
    assert_eq!(r.supply(Ok(Some(vec![1]))), Ok(()));
    assert_eq!(r.supply(Err(io("reset"))), Err(io("reset")));
    assert_eq!(r.read(8), ReadStep::Ready(vec![1]));
    assert_eq!(r.read(8), ReadStep::Pull);
}

#[test]
fn stream_refuses_a_capacity_of_zero() {
    assert!(matches!(ReaderStream::new(0), Err(Error::InvalidChunkSize)));
}

#[test]
fn stream_reads_until_the_first_empty_read() {
    let mut s = ReaderStream::new(3).unwrap();
    assert_eq!(s.next(), StreamStep::Read(3));
    assert_eq!(s.took(Ok(vec![1, 2, 3])), Ok(Some(vec![1, 2, 3])));
    assert_eq!(s.next(), StreamStep::Read(3));
    assert_eq!(s.took(Ok(vec![4])), Ok(Some(vec![4])));
    assert_eq!(s.next(), StreamStep::Read(3));
    assert_eq!(s.took(Ok(Vec::new())), Ok(None));
    assert_eq!(s.next(), StreamStep::End);
    assert_eq!(s.next(), StreamStep::End);
}

#[test]
fn stream_hands_a_failure_on_and_goes_on() {
    let mut s = ReaderStream::new(3).unwrap();
    assert_eq!(s.took(Err(io("again"))), Err(io("again")));
    assert_eq!(s.next(), StreamStep::Read(3));
}

#[test]
fn writer_forwards_writes_while_open() {
    let mut w = SinkWriter::new();
    assert!(!w.is_closed());
    assert_eq!(w.write(vec![1, 2]), SinkStep::Push(vec![1, 2]));
    assert_eq!(w.write(Vec::new()), SinkStep::Push(Vec::new()));
}

#[test]
fn writer_tells_the_sink_of_the_end_once() {
    let mut w = SinkWriter::new();
    assert_eq!(w.close(), SinkStep::Close);
    assert!(w.is_closed());
    assert_eq!(w.close(), SinkStep::Nothing);
    assert_eq!(w.close(), SinkStep::Nothing);
}

#[test]
fn write_after_close_is_an_error() {
    let mut w = SinkWriter::new();
    assert_eq!(w.write(vec![1]), SinkStep::Push(vec![1]));
    assert_eq!(w.close(), SinkStep::Close);
    assert_eq!(w.write(vec![2]), SinkStep::Fail(Error::WriteAfterClose));
    assert_eq!(Error::WriteAfterClose.kind(), ErrorKind::Protocol);
}

#[test]
fn pump_moves_every_segment_and_then_closes() {
    let (mut pump, first) = Pump::start();
    assert_eq!(first, PumpAction::Pull);
    assert_eq!(pump.advance(PumpEvent::Pulled(Ok(Some(vec![1, 2])))), PumpAction::Push(vec![1, 2]));
    assert_eq!(pump.advance(PumpEvent::Pushed(Ok(()))), PumpAction::Pull);
    assert_eq!(pump.advance(PumpEvent::Pulled(Ok(Some(vec![3])))), PumpAction::Push(vec![3]));
    assert_eq!(pump.advance(PumpEvent::Pushed(Ok(()))), PumpAction::Pull);
    assert_eq!(pump.advance(PumpEvent::Pulled(Ok(None))), PumpAction::Close);
    assert!(!pump.is_finished());
    assert_eq!(pump.advance(PumpEvent::Closed(Ok(()))), PumpAction::Finish(Ok(())));
    assert!(pump.is_finished());
}

#[test]
fn pump_stops_at_the_first_failure_of_the_source() {
    let (mut pump, _) = Pump::start();
    assert_eq!(
        pump.advance(PumpEvent::Pulled(Err(io("source")))),
        PumpAction::Finish(Err(io("source")))
    );
    assert!(pump.is_finished());
    assert_eq!(
        pump.advance(PumpEvent::Pulled(Ok(Some(vec![1])))),
        PumpAction::Finish(Err(Error::UnexpectedEvent))
    );
}

#[test]
fn pump_stops_at_the_first_failure_of_the_sink() {
    let (mut pump, _) = Pump::start();
    let _ = pump.advance(PumpEvent::Pulled(Ok(Some(vec![1]))));
    assert_eq!(
        pump.advance(PumpEvent::Pushed(Err(io("sink")))),
        PumpAction::Finish(Err(io("sink")))
    );
    assert!(pump.is_finished());
}

#[test]
fn pump_hands_on_the_failure_of_the_close() {
    let (mut pump, _) = Pump::start();
    assert_eq!(pump.advance(PumpEvent::Pulled(Ok(None))), PumpAction::Close);
    assert_eq!(
        pump.advance(PumpEvent::Closed(Err(io("flush")))),
        PumpAction::Finish(Err(io("flush")))
    );
}

#[test]
fn pump_refuses_an_event_out_of_turn() {
    let (mut pump, _) = Pump::start();
    assert_eq!(
        pump.advance(PumpEvent::Pushed(Ok(()))),
        PumpAction::Finish(Err(Error::UnexpectedEvent))
    );
    assert!(pump.is_finished());
}
