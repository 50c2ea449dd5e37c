//! Driving a source into a sink: pull a segment, push it, and so on until
//! the source ends; then tell the sink. The first failure on either side
//! ends the transfer.

use crate::error::{Error, ErrorView};
use crate::observe::{pull_view, PullView};
use vstd::prelude::*;

verus! {

/// What the pump asks its caller to do next.
#[derive(Debug, PartialEq, Eq)]
pub enum PumpAction {
    /// Pull the next segment from the source.
    Pull,
    /// Push this segment into the sink.
    Push(Vec<u8>),
    /// Tell the sink that the data has ended.
    Close,
    /// The transfer is over, with this result.
    Finish(Result<(), Error>),
}

/// What came of the last action.
#[derive(Debug, PartialEq, Eq)]
pub enum PumpEvent {
    /// The outcome of a pull.
    Pulled(Result<Option<Vec<u8>>, Error>),
    /// The outcome of a push.
    Pushed(Result<(), Error>),
    /// The outcome of telling the sink of the end.
    Closed(Result<(), Error>),
}

/// Mathematical model of a [`PumpAction`].
pub enum PumpActionView {
    Pull,
    Push(Seq<u8>),
    Close,
    Finish(Result<(), ErrorView>),
}

/// Mathematical model of a [`PumpEvent`].
pub enum PumpEventView {
    Pulled(PullView),
    Pushed(Result<(), ErrorView>),
    Closed(Result<(), ErrorView>),
}

/// The model of a result without a value.
pub open spec fn unit_view(r: Result<(), Error>) -> Result<(), ErrorView> {
    match r {
        Ok(_) => Ok(()),
        Err(error) => Err(error@),
    }
}

impl View for PumpAction {
    type V = PumpActionView;

    open spec fn view(&self) -> PumpActionView {
        match *self {
            PumpAction::Pull => PumpActionView::Pull,
            PumpAction::Push(segment) => PumpActionView::Push(segment@),
            PumpAction::Close => PumpActionView::Close,
            PumpAction::Finish(r) => PumpActionView::Finish(unit_view(r)),
        }
    }
}

impl View for PumpEvent {
    type V = PumpEventView;

    open spec fn view(&self) -> PumpEventView {
        match *self {
            PumpEvent::Pulled(outcome) => PumpEventView::Pulled(pull_view(outcome)),
            PumpEvent::Pushed(r) => PumpEventView::Pushed(unit_view(r)),
            PumpEvent::Closed(r) => PumpEventView::Closed(unit_view(r)),
        }
    }
}

/// Where a transfer stands.
#[derive(Debug, Clone, Copy, PartialEq, Eq, Structural)]
pub enum PumpPhase {
    /// A pull is out.
    Pulling,
    /// A push is out.
    Pushing,
    /// The sink is being told of the end.
    Closing,
    /// The transfer is over.
    Finished,
}

/// The transfer ends here as failed.
pub open spec fn pump_fail(error: ErrorView) -> (PumpPhase, PumpActionView) {
    (PumpPhase::Finished, PumpActionView::Finish(Err(error)))
}

/// Takes the outcome of the last action and names the next one. A pulled
/// segment is pushed; after a push the next segment is pulled; at the end
/// of the source the sink is told, and its answer is the result. A
/// failure on either side ends the transfer with that failure; an event
/// that does not answer the last action ends it with a protocol error.
pub open spec fn pump_step(phase: PumpPhase, event: PumpEventView) -> (PumpPhase, PumpActionView) {
    match (phase, event) {
        (PumpPhase::Pulling, PumpEventView::Pulled(PullView::Segment(segment))) => (
            PumpPhase::Pushing,
            PumpActionView::Push(segment),
        ),
        (PumpPhase::Pulling, PumpEventView::Pulled(PullView::End)) => (
            PumpPhase::Closing,
            PumpActionView::Close,
        ),
        (PumpPhase::Pulling, PumpEventView::Pulled(PullView::Failed(error))) => pump_fail(error),
        (PumpPhase::Pushing, PumpEventView::Pushed(Ok(_))) => (
            PumpPhase::Pulling,
            PumpActionView::Pull,
        ),
        (PumpPhase::Pushing, PumpEventView::Pushed(Err(error))) => pump_fail(error),
        (PumpPhase::Closing, PumpEventView::Closed(r)) => (
            PumpPhase::Finished,
            PumpActionView::Finish(r),
        ),
        _ => pump_fail(ErrorView::UnexpectedEvent),
    }
}

/// Drives one source into one sink.
pub struct Pump {
    phase: PumpPhase,
}

impl Pump {
    /// Where the transfer stands.
    pub closed spec fn phase(&self) -> PumpPhase {
        self.phase
    }

    /// Starts a transfer. The first action is always a pull.
    pub fn start() -> (r: (Self, PumpAction))
        ensures
            r.0.phase() == PumpPhase::Pulling,
            r.1@ == PumpActionView::Pull,
    {
        (Pump { phase: PumpPhase::Pulling }, PumpAction::Pull)
    }

    /// Whether the transfer is over.
    pub fn is_finished(&self) -> (finished: bool)
        ensures
            finished == (self.phase() == PumpPhase::Finished),
    {
        match self.phase {
            PumpPhase::Finished => true,
            _ => false,
        }
    }

    /// Takes the outcome of the last action and returns the next action.
    pub fn advance(&mut self, event: PumpEvent) -> (action: PumpAction)
        ensures
            final(self).phase() == pump_step(old(self).phase(), event@).0,
            action@ == pump_step(old(self).phase(), event@).1,
    {
        let phase = self.phase;
        self.phase = PumpPhase::Finished;
        match event {
            PumpEvent::Pulled(outcome) => match phase {
                PumpPhase::Pulling => match outcome {
                    Ok(Some(segment)) => {
                        self.phase = PumpPhase::Pushing;
                        PumpAction::Push(segment)
                    },
                    Ok(None) => {
                        self.phase = PumpPhase::Closing;
                        PumpAction::Close
                    },
                    Err(error) => PumpAction::Finish(Err(error)),
                },
                _ => PumpAction::Finish(Err(Error::UnexpectedEvent)),
            },
            PumpEvent::Pushed(r) => match phase {
                PumpPhase::Pushing => match r {
                    Ok(_) => {
                        self.phase = PumpPhase::Pulling;
                        PumpAction::Pull
                    },
                    Err(error) => PumpAction::Finish(Err(error)),
                },
                _ => PumpAction::Finish(Err(Error::UnexpectedEvent)),
            },
            PumpEvent::Closed(r) => match phase {
                PumpPhase::Closing => PumpAction::Finish(r),
                _ => PumpAction::Finish(Err(Error::UnexpectedEvent)),
            },
        }
    }
}

/// A transfer that has seen `events`: where it stands after them, and
/// every action so far. The first action is the first pull, action
/// `i + 1` answers event `i`.
pub open spec fn pump_run(events: Seq<PumpEventView>) -> (PumpPhase, Seq<PumpActionView>)
    decreases events.len(),
{
    if events.len() == 0 {
        (PumpPhase::Pulling, seq![PumpActionView::Pull])
    } else {
        let before = pump_run(events.drop_last());
        let after = pump_step(before.0, events.last());
        (after.0, before.1.push(after.1))
    }
}

/// The segments among `actions` that were to be pushed, in order.
pub open spec fn segments_pushed(actions: Seq<PumpActionView>) -> Seq<Seq<u8>>
    decreases actions.len(),
{
    if actions.len() == 0 {
        Seq::empty()
    } else {
        let before = segments_pushed(actions.drop_last());
        match actions.last() {
            PumpActionView::Push(segment) => before.push(segment),
            _ => before,
        }
    }
}

/// The segments that the pulls among `events` brought, in order.
pub open spec fn segments_brought(events: Seq<PumpEventView>) -> Seq<Seq<u8>>
    decreases events.len(),
{
    if events.len() == 0 {
        Seq::empty()
    } else {
        let before = segments_brought(events.drop_last());
        match events.last() {
            PumpEventView::Pulled(PullView::Segment(segment)) => before.push(segment),
            _ => before,
        }
    }
}

/// Whether `event` is the outcome of `action`.
pub open spec fn answers(event: PumpEventView, action: PumpActionView) -> bool {
    match action {
        PumpActionView::Pull => event is Pulled,
        PumpActionView::Push(_) => event is Pushed,
        PumpActionView::Close => event is Closed,
        PumpActionView::Finish(_) => false,
    }
}

/// Every event is the outcome of the action before it: the caller did
/// what it was asked, and stopped when the transfer was over.
pub open spec fn in_turn(events: Seq<PumpEventView>) -> bool {
    forall|i: int| 0 <= i < events.len() ==> answers(#[trigger] events[i], pump_run(events).1[i])
}

proof fn lemma_pump_prefix(events: Seq<PumpEventView>, k: int)
    requires
        0 <= k <= events.len(),
    ensures
        pump_run(events).1.len() == events.len() + 1,
        pump_run(events.take(k)).1 == pump_run(events).1.take(k + 1),
    decreases events.len(),
{
    if k == events.len() {
        if events.len() > 0 {
            lemma_pump_prefix(events.drop_last(), 0);
        }
        assert(events.take(k) =~= events);
        assert(pump_run(events).1.take(k + 1) =~= pump_run(events).1);
    } else {
        let front = events.drop_last();
        lemma_pump_prefix(front, k);
        assert(front.take(k) =~= events.take(k));
        assert(pump_run(front).1.take(k + 1) =~= pump_run(events).1.take(k + 1));
    }
}

/// Where the caller does what it is asked, the pump pushes exactly the
/// segments that the source brought, in the order in which they came,
/// each once. When the transfer ends in success the sink was told of the
/// end, after the last segment.
pub proof fn lemma_pump_forwards(events: Seq<PumpEventView>)
    requires
        in_turn(events),
    ensures
        segments_pushed(pump_run(events).1) == segments_brought(events),
        pump_run(events).1.len() == events.len() + 1,
        pump_run(events).1.last() == PumpActionView::Finish(Ok(())) ==> events.len() >= 2
            && pump_run(events).1[events.len() - 1] is Close,
        match pump_run(events).0 {
            PumpPhase::Pulling => pump_run(events).1.last() is Pull,
            PumpPhase::Pushing => pump_run(events).1.last() is Push,
            PumpPhase::Closing => pump_run(events).1.last() is Close,
            PumpPhase::Finished => pump_run(events).1.last() is Finish,
        },
    decreases events.len(),
{
    if events.len() == 0 {
        let first = seq![PumpActionView::Pull];
        assert(first.drop_last() =~= Seq::<PumpActionView>::empty());
        assert(segments_pushed(first.drop_last()) =~= Seq::<Seq<u8>>::empty());
    } else {
        let front = events.drop_last();
        let last = events.len() - 1;
        lemma_pump_prefix(events, last);
        assert(events.take(last) =~= front);
        assert(in_turn(front)) by {
            assert forall|i: int| 0 <= i < front.len() implies answers(
                #[trigger] front[i],
                pump_run(front).1[i],
            ) by {
                assert(front[i] == events[i]);
                assert(pump_run(events).1.take(last + 1)[i] == pump_run(events).1[i]);
            }
        }
        lemma_pump_forwards(front);
        let before = pump_run(front);
        let after = pump_step(before.0, events.last());
        assert(pump_run(events).1.take(last + 1)[last] == pump_run(events).1[last]);
        assert(answers(events[last], before.1.last()));
        assert(before.1.push(after.1).drop_last() =~= before.1);
    }
}

/// The first failure ends the transfer with that failure, and after the
/// end the pump asks for nothing more.
pub proof fn lemma_pump_stops(phase: PumpPhase, event: PumpEventView)
    ensures
        phase == PumpPhase::Finished ==> pump_step(phase, event) == pump_fail(
            ErrorView::UnexpectedEvent,
        ),
        pump_step(phase, event).1 is Finish <==> pump_step(phase, event).0 == PumpPhase::Finished,
        phase == PumpPhase::Pulling && event is Pulled && event->Pulled_0 is Failed ==> pump_step(
            phase,
            event,
        ) == pump_fail(event->Pulled_0->Failed_0),
        phase == PumpPhase::Pushing && event is Pushed && event->Pushed_0 is Err ==> pump_step(
            phase,
            event,
        ) == pump_fail(event->Pushed_0->Err_0),
{
}

} // verus!
