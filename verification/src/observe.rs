//! Observers: one event per successful transfer, and nothing else.
//!
//! An observer looks at the outcome of a pull from a source or of a push
//! into a sink and says which event, if any, is owed for it. It takes the
//! outcome by reference, so the bytes that pass are the bytes that came.

use crate::error::{Error, ErrorView};
use vstd::prelude::*;

verus! {

/// A transfer of `bytes` bytes went through.
#[derive(Debug, Clone, Copy, PartialEq, Eq, Structural)]
pub struct TransferEvent {
    pub bytes: usize,
}

/// Outcome of one pull, as a mathematical value.
pub enum PullView {
    /// A segment came.
    Segment(Seq<u8>),
    /// The source has no more data.
    End,
    /// The pull failed.
    Failed(ErrorView),
}

/// Outcome of one push of `len` bytes, as a mathematical value.
pub struct PushView {
    pub len: nat,
    pub accepted: bool,
}

/// The model of the outcome of a pull.
pub open spec fn pull_view(outcome: Result<Option<Vec<u8>>, Error>) -> PullView {
    match outcome {
        Ok(Some(segment)) => PullView::Segment(segment@),
        Ok(None) => PullView::End,
        Err(error) => PullView::Failed(error@),
    }
}

/// The event owed for a pull: one that carries the segment's length where
/// a segment came, none at the end of the data or on failure.
pub open spec fn read_event(outcome: PullView) -> Option<TransferEvent> {
    match outcome {
        PullView::Segment(segment) => Some(TransferEvent { bytes: segment.len() as usize }),
        _ => None,
    }
}

/// The event owed for a push: one that carries the length where the sink
/// took the bytes, none on failure.
pub open spec fn write_event(outcome: PushView) -> Option<TransferEvent> {
    if outcome.accepted {
        Some(TransferEvent { bytes: outcome.len as usize })
    } else {
        None
    }
}

/// The event owed for the outcome of a pull from a source.
pub fn observe_read(outcome: &Result<Option<Vec<u8>>, Error>) -> (event: Option<TransferEvent>)
    ensures
        event == read_event(pull_view(*outcome)),
{
    match outcome {
        Ok(Some(segment)) => Some(TransferEvent { bytes: segment.len() }),
        _ => None,
    }
}

/// The event owed for the outcome of a push of `len` bytes into a sink.
pub fn observe_write(len: usize, outcome: &Result<(), Error>) -> (event: Option<TransferEvent>)
    ensures
        event == write_event(PushView { len: len as nat, accepted: *outcome is Ok }),
{
    match outcome {
        Ok(_) => Some(TransferEvent { bytes: len }),
        Err(_) => None,
    }
}

/// Bytes that a sequence of pulls brought.
pub open spec fn bytes_pulled(outcomes: Seq<PullView>) -> nat
    decreases outcomes.len(),
{
    if outcomes.len() == 0 {
        0
    } else {
        bytes_pulled(outcomes.drop_last()) + match outcomes.last() {
            PullView::Segment(segment) => segment.len(),
            _ => 0,
        }
    }
}

/// Bytes that a sequence of pushes delivered.
pub open spec fn bytes_pushed(outcomes: Seq<PushView>) -> nat
    decreases outcomes.len(),
{
    if outcomes.len() == 0 {
        0
    } else {
        bytes_pushed(outcomes.drop_last()) + if outcomes.last().accepted {
            outcomes.last().len
        } else {
            0
        }
    }
}

/// The events emitted for a sequence of pulls, in order.
pub open spec fn read_events(outcomes: Seq<PullView>) -> Seq<TransferEvent>
    decreases outcomes.len(),
{
    if outcomes.len() == 0 {
        Seq::empty()
    } else {
        let before = read_events(outcomes.drop_last());
        match read_event(outcomes.last()) {
            Some(event) => before.push(event),
            None => before,
        }
    }
}

/// The events emitted for a sequence of pushes, in order.
pub open spec fn write_events(outcomes: Seq<PushView>) -> Seq<TransferEvent>
    decreases outcomes.len(),
{
    if outcomes.len() == 0 {
        Seq::empty()
    } else {
        let before = write_events(outcomes.drop_last());
        match write_event(outcomes.last()) {
            Some(event) => before.push(event),
            None => before,
        }
    }
}

/// Bytes that a sequence of events reports in all.
pub open spec fn bytes_reported(events: Seq<TransferEvent>) -> nat
    decreases events.len(),
{
    if events.len() == 0 {
        0
    } else {
        bytes_reported(events.drop_last()) + events.last().bytes as nat
    }
}

/// How many of the pulls brought a segment.
pub open spec fn segments_pulled(outcomes: Seq<PullView>) -> nat
    decreases outcomes.len(),
{
    if outcomes.len() == 0 {
        0
    } else {
        segments_pulled(outcomes.drop_last()) + if outcomes.last() is Segment {
            1nat
        } else {
            0nat
        }
    }
}

/// How many of the pushes were accepted.
pub open spec fn pushes_accepted(outcomes: Seq<PushView>) -> nat
    decreases outcomes.len(),
{
    if outcomes.len() == 0 {
        0
    } else {
        pushes_accepted(outcomes.drop_last()) + if outcomes.last().accepted {
            1nat
        } else {
            0nat
        }
    }
}

/// Every segment fits in memory, so its length is a machine number.
pub open spec fn pulls_fit(outcomes: Seq<PullView>) -> bool {
    forall|i: int|
        0 <= i < outcomes.len() ==> match #[trigger] outcomes[i] {
            PullView::Segment(segment) => segment.len() <= usize::MAX,
            _ => true,
        }
}

/// Every pushed length is a machine number.
pub open spec fn pushes_fit(outcomes: Seq<PushView>) -> bool {
    forall|i: int| 0 <= i < outcomes.len() ==> (#[trigger] outcomes[i]).len <= usize::MAX
}

/// Around a source, the events report exactly the bytes that were pulled:
/// one event per segment, and their byte counts add up to the bytes that
/// came through.
pub proof fn lemma_read_events_account(outcomes: Seq<PullView>)
    requires
        pulls_fit(outcomes),
    ensures
        bytes_reported(read_events(outcomes)) == bytes_pulled(outcomes),
        read_events(outcomes).len() == segments_pulled(outcomes),
    decreases outcomes.len(),
{
    if outcomes.len() > 0 {
        let front = outcomes.drop_last();
        assert(pulls_fit(front)) by {
            assert forall|i: int| 0 <= i < front.len() implies match #[trigger] front[i] {
                PullView::Segment(segment) => segment.len() <= usize::MAX,
                _ => true,
            } by {
                assert(front[i] == outcomes[i]);
            }
        }
        lemma_read_events_account(front);
        let before = read_events(front);
        if let Some(event) = read_event(outcomes.last()) {
            assert(before.push(event).drop_last() =~= before);
        }
    }
}

/// Around a sink, the events report exactly the bytes that were pushed:
/// one event per accepted push, and their byte counts add up to the bytes
/// that the sink took.
pub proof fn lemma_write_events_account(outcomes: Seq<PushView>)
    requires
        pushes_fit(outcomes),
    ensures
        bytes_reported(write_events(outcomes)) == bytes_pushed(outcomes),
        write_events(outcomes).len() == pushes_accepted(outcomes),
    decreases outcomes.len(),
{
    if outcomes.len() > 0 {
        let front = outcomes.drop_last();
        assert(pushes_fit(front)) by {
            assert forall|i: int| 0 <= i < front.len() implies (#[trigger] front[i]).len
                <= usize::MAX by {
                assert(front[i] == outcomes[i]);
            }
        }
        lemma_write_events_account(front);
        let before = write_events(front);
        if let Some(event) = write_event(outcomes.last()) {
            assert(before.push(event).drop_last() =~= before);
        }
    }
}

} // verus!
