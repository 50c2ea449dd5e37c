//! Adapters between the four shapes in which bytes move: a source that is
//! pulled from, a sink that is pushed into, a reader that is asked for up
//! to so many bytes, and a writer that is written to and closed.
//!
//! An adapter holds the state of a conversion and decides; the caller
//! pulls, pushes, reads and writes. Each adapter consumes what it wraps
//! once and holds at most one segment.

use crate::error::{Error, ErrorView};
use crate::observe::{pull_view, PullView};
use vstd::prelude::*;
use vstd::slice::{slice_subrange, slice_to_vec};

verus! {

/// What a reader over a source says to a read.
#[derive(Debug, Clone, PartialEq, Eq)]
pub enum ReadStep {
    /// These bytes are read. Empty at the end of the data, or where no
    /// bytes were asked for.
    Ready(Vec<u8>),
    /// Nothing is at hand: pull from the source and supply what comes.
    Pull,
}

/// Mathematical model of a [`ReadStep`].
pub enum ReadStepView {
    Ready(Seq<u8>),
    Pull,
}

impl View for ReadStep {
    type V = ReadStepView;

    open spec fn view(&self) -> ReadStepView {
        match *self {
            ReadStep::Ready(bytes) => ReadStepView::Ready(bytes@),
            ReadStep::Pull => ReadStepView::Pull,
        }
    }
}

/// Mathematical model of a reader over a source: the bytes pulled and not
/// yet read, and whether the source has ended.
pub struct SourceReaderView {
    pub pending: Seq<u8>,
    pub ended: bool,
}

/// What a read of up to `max_len` bytes does. Bytes at hand are handed
/// out from the front, as many as asked for or all. With none at hand the
/// read is empty at the end of the data or where nothing was asked for,
/// and else asks for a pull.
pub open spec fn reader_read(r: SourceReaderView, max_len: nat) -> (SourceReaderView, ReadStepView) {
    if max_len == 0 || (r.pending.len() == 0 && r.ended) {
        (r, ReadStepView::Ready(Seq::empty()))
    } else if r.pending.len() == 0 {
        (r, ReadStepView::Pull)
    } else if max_len < r.pending.len() {
        (
            SourceReaderView { pending: r.pending.skip(max_len as int), ended: r.ended },
            ReadStepView::Ready(r.pending.take(max_len as int)),
        )
    } else {
        (
            SourceReaderView { pending: Seq::empty(), ended: r.ended },
            ReadStepView::Ready(r.pending),
        )
    }
}

/// What the outcome of a pull does to the reader: a segment joins the
/// bytes at hand, the end is noted, a failure changes nothing.
pub open spec fn reader_supplied(r: SourceReaderView, outcome: PullView) -> SourceReaderView {
    match outcome {
        PullView::Segment(segment) => SourceReaderView {
            pending: r.pending + segment,
            ended: r.ended,
        },
        PullView::End => SourceReaderView { pending: r.pending, ended: true },
        PullView::Failed(_) => r,
    }
}

/// A reader over a source: reads hand out the bytes of the segments that
/// were pulled, in order, each byte once. A read asks for a pull only
/// when nothing is at hand, so with a caller that pulls when asked the
/// reader never holds more than one segment.
pub struct SourceReader {
    buffer: Vec<u8>,
    position: usize,
    ended: bool,
}

impl View for SourceReader {
    type V = SourceReaderView;

    closed spec fn view(&self) -> SourceReaderView {
        SourceReaderView {
            pending: self.buffer@.skip(self.position as int),
            ended: self.ended,
        }
    }
}

impl SourceReader {
    /// The reader holds no more than it says.
    pub closed spec fn wf(&self) -> bool {
        self.position <= self.buffer@.len()
    }

    /// A reader over a source from which nothing was pulled yet.
    pub fn new() -> (r: Self)
        ensures
            r.wf(),
            r@ == (SourceReaderView { pending: Seq::empty(), ended: false }),
    {
        let r = SourceReader { buffer: Vec::new(), position: 0, ended: false };
        assert(r@.pending =~= Seq::<u8>::empty());
        r
    }

    /// Reads up to `max_len` bytes.
    pub fn read(&mut self, max_len: usize) -> (step: ReadStep)
        requires
            old(self).wf(),
        ensures
            final(self).wf(),
            final(self)@ == reader_read(old(self)@, max_len as nat).0,
            step@ == reader_read(old(self)@, max_len as nat).1,
    {
        let at_hand: usize = self.buffer.len() - self.position;
        if max_len == 0 || (at_hand == 0 && self.ended) {
            return ReadStep::Ready(Vec::new());
        }
        if at_hand == 0 {
            return ReadStep::Pull;
        }
        let count: usize = if max_len < at_hand {
            max_len
        } else {
            at_hand
        };
        let bytes = slice_to_vec(
            slice_subrange(self.buffer.as_slice(), self.position, self.position + count),
        );
        proof {
            let pending = old(self)@.pending;
            assert(bytes@ =~= pending.take(count as int));
            assert(self.buffer@.skip(self.position + count) =~= pending.skip(count as int));
            assert(pending.take(pending.len() as int) =~= pending);
        }
        self.position = self.position + count;
        proof {
            let pending = old(self)@.pending;
            assert(self@.pending =~= pending.skip(count as int));
            if count == at_hand {
                assert(self@.pending =~= Seq::<u8>::empty());
            }
        }
        ReadStep::Ready(bytes)
    }

    /// Takes the outcome of the pull that a read asked for. A failure is
    /// handed back; the reader is as it was and the read can be tried
    /// again.
    pub fn supply(&mut self, outcome: Result<Option<Vec<u8>>, Error>) -> (r: Result<(), Error>)
        requires
            old(self).wf(),
        ensures
            final(self).wf(),
            final(self)@ == reader_supplied(old(self)@, pull_view(outcome)),
            match outcome {
                Ok(_) => r is Ok,
                Err(error) => r == Err::<(), Error>(error),
            },
    {
        match outcome {
            Ok(Some(segment)) => {
                if self.position == self.buffer.len() {
                    self.buffer = segment;
                    self.position = 0;
                    assert(self@.pending =~= old(self)@.pending + segment@);
                } else {
                    self.buffer.extend_from_slice(segment.as_slice());
                    assert(self@.pending =~= old(self)@.pending + segment@);
                }
                Ok(())
            },
            Ok(None) => {
                self.ended = true;
                Ok(())
            },
            Err(error) => Err(error),
        }
    }
}

/// A call on a reader over a source.
pub enum ReaderCall {
    /// A read of up to so many bytes.
    Read(nat),
    /// The outcome of a pull.
    Supply(PullView),
}

/// What a sequence of calls comes to: the reader after them, the bytes
/// that the reads handed out, joined, and the bytes of the segments that
/// were supplied, joined.
pub open spec fn reader_calls(r: SourceReaderView, calls: Seq<ReaderCall>) -> (
    SourceReaderView,
    Seq<u8>,
    Seq<u8>,
)
    decreases calls.len(),
{
    if calls.len() == 0 {
        (r, Seq::empty(), Seq::empty())
    } else {
        let before = reader_calls(r, calls.drop_last());
        match calls.last() {
            ReaderCall::Read(max_len) => {
                let read = reader_read(before.0, max_len);
                (
                    read.0,
                    before.1 + match read.1 {
                        ReadStepView::Ready(bytes) => bytes,
                        ReadStepView::Pull => Seq::empty(),
                    },
                    before.2,
                )
            },
            ReaderCall::Supply(outcome) => (
                reader_supplied(before.0, outcome),
                before.1,
                before.2 + match outcome {
                    PullView::Segment(segment) => segment,
                    _ => Seq::empty(),
                },
            ),
        }
    }
}

/// Nothing is lost and nothing comes twice: whatever is read and supplied
/// in whatever order, the bytes handed out so far, followed by the bytes
/// still at hand, are the bytes that were at hand at first followed by
/// the bytes supplied since.
pub proof fn lemma_reader_keeps_bytes(r: SourceReaderView, calls: Seq<ReaderCall>)
    ensures
        reader_calls(r, calls).1 + reader_calls(r, calls).0.pending == r.pending + reader_calls(
            r,
            calls,
        ).2,
    decreases calls.len(),
{
    let end = reader_calls(r, calls);
    if calls.len() == 0 {
        assert(end.1 + end.0.pending =~= r.pending + end.2);
    } else {
        let before = reader_calls(r, calls.drop_last());
        lemma_reader_keeps_bytes(r, calls.drop_last());
        match calls.last() {
            ReaderCall::Read(max_len) => {
                let pending = before.0.pending;
                if max_len < pending.len() {
                    assert(pending.take(max_len as int) + pending.skip(max_len as int)
                        =~= pending);
                }
                assert(end.1 + end.0.pending =~= before.1 + before.0.pending);
            },
            ReaderCall::Supply(outcome) => {
                assert(end.1 + end.0.pending =~= (before.1 + before.0.pending) + (match outcome {
                    PullView::Segment(segment) => segment,
                    _ => Seq::empty(),
                }));
                assert(r.pending + end.2 =~= (r.pending + before.2) + (match outcome {
                    PullView::Segment(segment) => segment,
                    _ => Seq::empty(),
                }));
            },
        }
    }
}

/// What a stream over a reader does next.
#[derive(Debug, Clone, Copy, PartialEq, Eq, Structural)]
pub enum StreamStep {
    /// Read up to this many bytes from the reader and hand over what
    /// comes.
    Read(usize),
    /// The stream has ended: there is nothing more to read.
    End,
}

/// Mathematical model of a stream over a reader.
pub struct ReaderStreamView {
    pub capacity: nat,
    pub ended: bool,
}

/// The segment that a read gives to the stream: the bytes read, or the
/// end where none were read, or the failure.
pub open spec fn stream_segment(outcome: Result<Seq<u8>, ErrorView>) -> PullView {
    match outcome {
        Ok(bytes) => if bytes.len() == 0 {
            PullView::End
        } else {
            PullView::Segment(bytes)
        },
        Err(error) => PullView::Failed(error),
    }
}

/// The model of the outcome of a read.
pub open spec fn read_view(outcome: Result<Vec<u8>, Error>) -> Result<Seq<u8>, ErrorView> {
    match outcome {
        Ok(bytes) => Ok(bytes@),
        Err(error) => Err(error@),
    }
}

/// A stream of segments over a reader: each segment is one read of up to
/// `capacity` bytes, and the first empty read ends the stream for good.
pub struct ReaderStream {
    capacity: usize,
    ended: bool,
}

impl View for ReaderStream {
    type V = ReaderStreamView;

    closed spec fn view(&self) -> ReaderStreamView {
        ReaderStreamView { capacity: self.capacity as nat, ended: self.ended }
    }
}

impl ReaderStream {
    /// A stream whose segments hold up to `capacity` bytes. A capacity of
    /// zero is refused: every read would be empty.
    pub fn new(capacity: usize) -> (r: Result<Self, Error>)
        ensures
            capacity == 0 ==> r == Err::<Self, Error>(Error::InvalidChunkSize),
            capacity > 0 ==> r is Ok && r->Ok_0@ == (ReaderStreamView {
                capacity: capacity as nat,
                ended: false,
            }),
    {
        if capacity == 0 {
            Err(Error::InvalidChunkSize)
        } else {
            Ok(ReaderStream { capacity, ended: false })
        }
    }

    /// What to do for the next segment.
    pub fn next(&self) -> (step: StreamStep)
        ensures
            step == (if self@.ended {
                StreamStep::End
            } else {
                StreamStep::Read(self@.capacity as usize)
            }),
    {
        if self.ended {
            StreamStep::End
        } else {
            StreamStep::Read(self.capacity)
        }
    }

    /// Takes the outcome of the read and gives the segment: the bytes
    /// read; none where the read was empty, which ends the stream; the
    /// failure where the read failed.
    pub fn took(&mut self, outcome: Result<Vec<u8>, Error>) -> (segment: Result<
        Option<Vec<u8>>,
        Error,
    >)
        ensures
            pull_view(segment) == stream_segment(read_view(outcome)),
            final(self)@.capacity == old(self)@.capacity,
            final(self)@.ended == (old(self)@.ended || pull_view(segment) is End),
    {
        match outcome {
            Ok(bytes) => {
                if bytes.len() == 0 {
                    self.ended = true;
                    Ok(None)
                } else {
                    Ok(Some(bytes))
                }
            },
            Err(error) => Err(error),
        }
    }
}

/// What a writer over a sink asks for.
#[derive(Debug, Clone, PartialEq, Eq)]
pub enum SinkStep {
    /// Push these bytes into the sink.
    Push(Vec<u8>),
    /// Tell the sink that the data has ended.
    Close,
    /// Do nothing: the sink was told already.
    Nothing,
    /// The call is refused.
    Fail(Error),
}

/// Mathematical model of a [`SinkStep`].
pub enum SinkStepView {
    Push(Seq<u8>),
    Close,
    Nothing,
    Fail(ErrorView),
}

impl View for SinkStep {
    type V = SinkStepView;

    open spec fn view(&self) -> SinkStepView {
        match *self {
            SinkStep::Push(bytes) => SinkStepView::Push(bytes@),
            SinkStep::Close => SinkStepView::Close,
            SinkStep::Nothing => SinkStepView::Nothing,
            SinkStep::Fail(error) => SinkStepView::Fail(error@),
        }
    }
}

/// A call on a writer over a sink.
pub enum SinkCall {
    Write(Seq<u8>),
    Close,
}

/// What a call on a writer does, given whether it was closed before: the
/// writer is closed after a close, and a write is forwarded while it is
/// open.
pub open spec fn sink_call(closed: bool, call: SinkCall) -> (bool, SinkStepView) {
    match call {
        SinkCall::Write(bytes) => if closed {
            (closed, SinkStepView::Fail(ErrorView::WriteAfterClose))
        } else {
            (closed, SinkStepView::Push(bytes))
        },
        SinkCall::Close => if closed {
            (true, SinkStepView::Nothing)
        } else {
            (true, SinkStepView::Close)
        },
    }
}

/// A writer over a sink: forwards writes, and tells the sink of the end
/// once.
pub struct SinkWriter {
    closed: bool,
}

impl SinkWriter {
    /// Whether the writer was closed.
    pub closed spec fn closed(&self) -> bool {
        self.closed
    }

    /// An open writer.
    pub fn new() -> (w: Self)
        ensures
            !w.closed(),
    {
        SinkWriter { closed: false }
    }

    /// Whether the writer was closed.
    pub fn is_closed(&self) -> (closed: bool)
        ensures
            closed == self.closed(),
    {
        self.closed
    }

    /// Writes `bytes`: they are to be pushed into the sink, unless the
    /// writer was closed.
    pub fn write(&mut self, bytes: Vec<u8>) -> (step: SinkStep)
        ensures
            final(self).closed() == sink_call(old(self).closed(), SinkCall::Write(bytes@)).0,
            step@ == sink_call(old(self).closed(), SinkCall::Write(bytes@)).1,
    {
        if self.closed {
            SinkStep::Fail(Error::WriteAfterClose)
        } else {
            SinkStep::Push(bytes)
        }
    }

    /// Closes the writer: the sink is to be told of the end, unless it
    /// was told before.
    pub fn close(&mut self) -> (step: SinkStep)
        ensures
            final(self).closed() == sink_call(old(self).closed(), SinkCall::Close).0,
            step@ == sink_call(old(self).closed(), SinkCall::Close).1,
    {
        if self.closed {
            SinkStep::Nothing
        } else {
            self.closed = true;
            SinkStep::Close
        }
    }
}

/// The steps that a sequence of calls on a writer leads to, and whether
/// the writer is closed after them.
pub open spec fn sink_calls(closed: bool, calls: Seq<SinkCall>) -> (bool, Seq<SinkStepView>)
    decreases calls.len(),
{
    if calls.len() == 0 {
        (closed, Seq::empty())
    } else {
        let before = sink_calls(closed, calls.drop_last());
        let last = sink_call(before.0, calls.last());
        (last.0, before.1.push(last.1))
    }
}

/// Whatever is called in whatever order on an open writer, the sink is
/// told of the end at most once, nothing is pushed after that, and every
/// write before it is pushed as it is.
pub proof fn lemma_sink_closed_once(calls: Seq<SinkCall>, i: int, j: int)
    requires
        0 <= i < j < calls.len(),
    ensures
        sink_calls(false, calls).1.len() == calls.len(),
        sink_calls(false, calls).1[i] is Close ==> !(sink_calls(false, calls).1[j] is Close) && !(
        sink_calls(false, calls).1[j] is Push),
        sink_calls(false, calls).1[j] is Push ==> calls[i] is Write && sink_calls(false, calls).1[i]
            == SinkStepView::Push(calls[i]->Write_0),
{
    lemma_sink_calls(calls);
}

proof fn lemma_sink_calls(calls: Seq<SinkCall>)
    ensures
        sink_calls(false, calls).1.len() == calls.len(),
        sink_calls(false, calls).0 <==> exists|k: int|
            0 <= k < calls.len() && #[trigger] sink_calls(false, calls).1[k] is Close,
        forall|i: int, j: int|
            0 <= i < j < calls.len() && #[trigger] sink_calls(false, calls).1[i] is Close ==> !(
            #[trigger] sink_calls(false, calls).1[j] is Close) && !(sink_calls(false, calls).1[j]
                is Push),
        forall|i: int|
            0 <= i < calls.len() && !sink_calls(false, calls).0 ==> (#[trigger] calls[i]) is Write
                && sink_calls(false, calls).1[i] == SinkStepView::Push(calls[i]->Write_0),
        forall|i: int, j: int|
            0 <= i < j < calls.len() && #[trigger] sink_calls(false, calls).1[j] is Push
                ==> (#[trigger] calls[i]) is Write && sink_calls(false, calls).1[i]
                == SinkStepView::Push(calls[i]->Write_0),
    decreases calls.len(),
{
    if calls.len() > 0 {
        let front = calls.drop_last();
        lemma_sink_calls(front);
        let before = sink_calls(false, front);
        let steps = sink_calls(false, calls).1;
        let last = calls.len() - 1;
        assert forall|i: int| 0 <= i < last implies steps[i] == before.1[i] && calls[i]
            == front[i] by {}
        if before.0 {
            let k = choose|k: int| 0 <= k < front.len() && #[trigger] before.1[k] is Close;
            assert(steps[k] is Close);
        } else if sink_calls(false, calls).0 {
            assert(steps[last] is Close);
        }
        assert forall|i: int, j: int|
            0 <= i < j < calls.len() && #[trigger] steps[i] is Close implies !(
        #[trigger] steps[j] is Close) && !(steps[j] is Push) by {
            assert(before.1[i] is Close);
        }
    }
}

} // verus!
