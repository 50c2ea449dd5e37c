//! Whole writes: the actions that a write goes through, whatever the
//! backend answers, and what holds of them.

use crate::chunk::{
    chunk_count, chunk_end, chunk_limit, chunk_start, lemma_chunk_count_bounds,
    lemma_chunk_lengths, lemma_chunk_range, lemma_offset_is_chunk_start,
};
use crate::error::{ErrorKind, ErrorView};
use crate::model::{
    begin, lemma_wf_preserved, step, upload_at, ActionView, EventView, PhaseView, WriterView,
};
use crate::observe::{
    bytes_pushed, bytes_reported, lemma_write_events_account, pushes_accepted, pushes_fit,
    write_events, PushView,
};
use crate::path::names_file;
use crate::status::{chunk_accepted, put_succeeded, session_created};
use vstd::prelude::*;

verus! {

/// A write of `payload` that has seen `events`: the writer after them, and
/// every action so far. The first action answers the start of the write,
/// action `i + 1` answers event `i`.
pub open spec fn run(w: WriterView, payload: Seq<u8>, events: Seq<EventView>) -> (
    WriterView,
    Seq<ActionView>,
)
    decreases events.len(),
{
    if events.len() == 0 {
        (begin(w, payload).0, seq![begin(w, payload).1])
    } else {
        let before = run(w, payload, events.drop_last());
        let after = step(before.0, events.last());
        (after.0, before.1.push(after.1))
    }
}

/// How many of `actions` are single-shot uploads.
pub open spec fn count_puts(actions: Seq<ActionView>) -> nat
    decreases actions.len(),
{
    if actions.len() == 0 {
        0
    } else {
        count_puts(actions.drop_last()) + if actions.last() is Put {
            1nat
        } else {
            0nat
        }
    }
}

/// How many of `actions` are session-creation requests.
pub open spec fn count_session_requests(actions: Seq<ActionView>) -> nat
    decreases actions.len(),
{
    if actions.len() == 0 {
        0
    } else {
        count_session_requests(actions.drop_last()) + if actions.last() is CreateSession {
            1nat
        } else {
            0nat
        }
    }
}

/// How many of `actions` are chunk requests.
pub open spec fn count_chunk_requests(actions: Seq<ActionView>) -> nat
    decreases actions.len(),
{
    if actions.len() == 0 {
        0
    } else {
        count_chunk_requests(actions.drop_last()) + if actions.last() is UploadChunk {
            1nat
        } else {
            0nat
        }
    }
}

/// The bodies of the chunk requests among `actions`, joined in the order
/// in which they were sent.
pub open spec fn uploaded_bytes(actions: Seq<ActionView>) -> Seq<u8>
    decreases actions.len(),
{
    if actions.len() == 0 {
        Seq::empty()
    } else {
        uploaded_bytes(actions.drop_last()) + if actions.last() is UploadChunk {
            actions.last()->UploadChunk_body
        } else {
            Seq::empty()
        }
    }
}

/// How many of `actions` send a request to the backend, of any kind.
pub open spec fn count_requests(actions: Seq<ActionView>) -> nat {
    count_puts(actions) + count_session_requests(actions) + count_chunk_requests(actions)
}

/// Action `j` is a chunk request in its place: the session was granted
/// and decoded first, and the request carries chunk `j - 2` of the
/// payload to the session's endpoint.
pub open spec fn chunk_in_place(
    w: WriterView,
    payload: Seq<u8>,
    events: Seq<EventView>,
    actions: Seq<ActionView>,
    j: int,
) -> bool {
    &&& 2 <= j < actions.len()
    &&& actions[0] is CreateSession
    &&& events.len() >= 2
    &&& events[0] is Response
    &&& session_created(events[0]->Response_status)
    &&& events[1] is SessionDecoded
    &&& j - 2 < chunk_count(payload.len(), w.chunk_size_factor)
    &&& actions[j] == upload_at(
        payload,
        events[1]->SessionDecoded_0.upload_url,
        w.chunk_size_factor,
        chunk_start((j - 2) as nat, w.chunk_size_factor),
    )
}

/// The requests of a complete write: one single-shot upload for a payload
/// up to the threshold; for a larger one, one session request and one
/// request per chunk, whose bodies joined are the payload.
pub open spec fn requests_complete(
    w: WriterView,
    payload: Seq<u8>,
    actions: Seq<ActionView>,
) -> bool {
    if w.is_simple(payload.len()) {
        &&& count_puts(actions) == 1
        &&& count_session_requests(actions) == 0
        &&& count_chunk_requests(actions) == 0
    } else {
        &&& count_puts(actions) == 0
        &&& count_session_requests(actions) == 1
        &&& count_chunk_requests(actions) == chunk_count(payload.len(), w.chunk_size_factor)
        &&& uploaded_bytes(actions) == payload
    }
}

/// The requests that a write can have sent, whatever the backend
/// answered: none where the path names no file; else for a payload up to
/// the threshold the one single-shot upload; else the one session request
/// and no more chunk requests than the payload has chunks.
pub open spec fn requests_bounded(
    w: WriterView,
    payload: Seq<u8>,
    actions: Seq<ActionView>,
) -> bool {
    if !names_file(w.path) {
        &&& count_puts(actions) == 0
        &&& count_session_requests(actions) == 0
        &&& count_chunk_requests(actions) == 0
    } else if w.is_simple(payload.len()) {
        &&& count_puts(actions) == 1
        &&& count_session_requests(actions) == 0
        &&& count_chunk_requests(actions) == 0
    } else {
        &&& count_puts(actions) == 0
        &&& count_session_requests(actions) == 1
        &&& count_chunk_requests(actions) <= chunk_count(payload.len(), w.chunk_size_factor)
    }
}

spec fn no_finish(actions: Seq<ActionView>) -> bool {
    forall|k: int| 0 <= k < actions.len() ==> !(#[trigger] actions[k] is Finish)
}

spec fn phase_fits(w: WriterView, payload: Seq<u8>, events: Seq<EventView>) -> bool {
    let cur = run(w, payload, events).0;
    let actions = run(w, payload, events).1;
    let simple = w.is_simple(payload.len());
    match cur.phase {
        PhaseView::Idle => actions.last() is Finish,
        PhaseView::AwaitingPut => {
            &&& simple
            &&& names_file(w.path)
            &&& actions.last() is Put
            &&& events.len() == 0
            &&& no_finish(actions)
            &&& count_puts(actions) == 1
            &&& count_session_requests(actions) == 0
            &&& count_chunk_requests(actions) == 0
        },
        PhaseView::AwaitingSession { payload: p } => {
            &&& !simple
            &&& names_file(w.path)
            &&& actions.last() is CreateSession
            &&& actions[0] is CreateSession
            &&& p == payload
            &&& events.len() == 0
            &&& no_finish(actions)
            &&& count_puts(actions) == 0
            &&& count_session_requests(actions) == 1
            &&& count_chunk_requests(actions) == 0
            &&& uploaded_bytes(actions) == Seq::<u8>::empty()
        },
        PhaseView::DecodingSession { payload: p } => {
            &&& !simple
            &&& names_file(w.path)
            &&& actions.last() is DecodeSession
            &&& actions[0] is CreateSession
            &&& p == payload
            &&& events.len() == 1
            &&& events[0] is Response
            &&& session_created(events[0]->Response_status)
            &&& no_finish(actions)
            &&& count_puts(actions) == 0
            &&& count_session_requests(actions) == 1
            &&& count_chunk_requests(actions) == 0
            &&& uploaded_bytes(actions) == Seq::<u8>::empty()
        },
        PhaseView::Uploading { payload: p, session, offset } => {
            &&& !simple
            &&& names_file(w.path)
            &&& actions.last() is UploadChunk
            &&& actions[0] is CreateSession
            &&& p == payload
            &&& events.len() >= 2
            &&& events[0] is Response
            &&& session_created(events[0]->Response_status)
            &&& events[1] == EventView::SessionDecoded(session)
            &&& offset == chunk_start((events.len() - 2) as nat, w.chunk_size_factor)
            &&& no_finish(actions)
            &&& count_puts(actions) == 0
            &&& count_session_requests(actions) == 1
            &&& count_chunk_requests(actions) == events.len() - 1
            &&& uploaded_bytes(actions) == payload.subrange(
                0,
                chunk_limit(offset, payload.len(), w.chunk_size_factor) as int,
            )
        },
    }
}

spec fn trace_inv(w: WriterView, payload: Seq<u8>, events: Seq<EventView>) -> bool {
    let cur = run(w, payload, events).0;
    let actions = run(w, payload, events).1;
    &&& cur.wf()
    &&& cur == w.at(cur.phase)
    &&& actions.len() == events.len() + 1
    &&& phase_fits(w, payload, events)
    &&& requests_bounded(w, payload, actions)
    &&& actions[0] == begin(w, payload).1
    &&& forall|j: int|
        0 <= j < actions.len() && #[trigger] actions[j] is UploadChunk ==> chunk_in_place(
            w,
            payload,
            events,
            actions,
            j,
        )
    &&& forall|k: int, j: int|
        0 <= k < j < actions.len() && #[trigger] actions[k] is Finish ==> #[trigger] actions[j]
            == ActionView::Finish(Err(ErrorView::UnexpectedEvent))
    &&& forall|k: int|
        0 <= k < actions.len() && #[trigger] actions[k] == ActionView::Finish(Ok(()))
            ==> requests_complete(w, payload, actions)
}

proof fn lemma_counts_push(actions: Seq<ActionView>, a: ActionView)
    ensures
        count_puts(actions.push(a)) == count_puts(actions) + if a is Put {
            1nat
        } else {
            0nat
        },
        count_session_requests(actions.push(a)) == count_session_requests(actions)
            + if a is CreateSession {
            1nat
        } else {
            0nat
        },
        count_chunk_requests(actions.push(a)) == count_chunk_requests(actions)
            + if a is UploadChunk {
            1nat
        } else {
            0nat
        },
        uploaded_bytes(actions.push(a)) == uploaded_bytes(actions) + if a is UploadChunk {
            a->UploadChunk_body
        } else {
            Seq::empty()
        },
{
    assert(actions.push(a).drop_last() =~= actions);
}

proof fn lemma_counts_one(a: ActionView)
    ensures
        count_puts(seq![a]) == if a is Put {
            1nat
        } else {
            0nat
        },
        count_session_requests(seq![a]) == if a is CreateSession {
            1nat
        } else {
            0nat
        },
        count_chunk_requests(seq![a]) == if a is UploadChunk {
            1nat
        } else {
            0nat
        },
        uploaded_bytes(seq![a]) == if a is UploadChunk {
            a->UploadChunk_body
        } else {
            Seq::empty()
        },
{
    assert(seq![a] =~= Seq::<ActionView>::empty().push(a));
    lemma_counts_push(Seq::empty(), a);
}

proof fn lemma_trace_inv(w: WriterView, payload: Seq<u8>, events: Seq<EventView>)
    requires
        w.wf(),
        w.phase is Idle,
        payload.len() <= usize::MAX,
    ensures
        trace_inv(w, payload, events),
    decreases events.len(),
{
    let f = w.chunk_size_factor;
    let total = payload.len();
    if events.len() == 0 {
        lemma_counts_one(begin(w, payload).1);
    } else {
        let front = events.drop_last();
        lemma_trace_inv(w, payload, front);
        let before = run(w, payload, front);
        let after = step(before.0, events.last());
        let actions = before.1.push(after.1);
        let last = actions.len() - 1;
        assert(run(w, payload, events) == (after.0, actions));
        lemma_counts_push(before.1, after.1);
        lemma_wf_preserved(before.0, payload, events.last());
        lemma_chunk_count_bounds(total, f);
        assert forall|i: int| 0 <= i < front.len() implies front[i] == events[i] by {}
        if let PhaseView::Uploading { payload: p, session, offset } = before.0.phase {
            lemma_offset_is_chunk_start(offset, total, f);
            let index = (front.len() - 2) as nat;
            assert(offset / f == index) by (nonlinear_arith)
                requires
                    offset == index * f,
                    f > 0,
            ;
            lemma_chunk_range(index, total, f);
            if index + 1 < chunk_count(total, f) {
                lemma_chunk_range(index + 1, total, f);
            }
            let limit = chunk_limit(offset, total, f) as int;
            assert(payload.subrange(0, total as int) =~= payload);
            if limit < total {
                let next = chunk_limit(limit as nat, total, f) as int;
                assert(payload.subrange(0, limit) + payload.subrange(limit, next)
                    =~= payload.subrange(0, next));
            }
        }
        if before.0.phase is DecodingSession {
            assert(chunk_start(0, f) == 0) by (nonlinear_arith);
            assert(Seq::<u8>::empty() + payload.subrange(0, chunk_limit(0, total, f) as int)
                =~= payload.subrange(0, chunk_limit(0, total, f) as int));
        }
        assert(uploaded_bytes(before.1) + Seq::<u8>::empty() =~= uploaded_bytes(before.1));
        assert forall|j: int|
            0 <= j < actions.len() && #[trigger] actions[j] is UploadChunk implies chunk_in_place(
            w,
            payload,
            events,
            actions,
            j,
        ) by {
            if j < last {
                assert(before.1[j] is UploadChunk);
                assert(chunk_in_place(w, payload, front, before.1, j));
            }
        }
        assert forall|k: int, j: int|
            0 <= k < j < actions.len() && #[trigger] actions[k] is Finish implies #[trigger] actions[j]
            == ActionView::Finish(Err(ErrorView::UnexpectedEvent)) by {
            assert(before.1[k] is Finish);
            if j < last {
                assert(before.1[j] == actions[j]);
            }
        }
        assert forall|k: int|
            0 <= k < actions.len() && #[trigger] actions[k] == ActionView::Finish(
                Ok(()),
            ) implies requests_complete(w, payload, actions) by {
            if k < last {
                assert(before.1[k] == ActionView::Finish(Ok(())));
                assert(before.1[k] is Finish);
            }
        }
        assert(no_finish(before.1) && !(after.1 is Finish) ==> no_finish(actions));
    }
}

/// A payload up to the threshold, for a path that names a file, costs
/// exactly one request, the single-shot upload of the whole payload,
/// whatever the backend answers and however long the driver goes on.
pub proof fn lemma_small_payload_one_request(
    w: WriterView,
    payload: Seq<u8>,
    events: Seq<EventView>,
)
    requires
        w.wf(),
        w.phase is Idle,
        names_file(w.path),
        payload.len() <= w.max_simple_size,
    ensures
        count_requests(run(w, payload, events).1) == 1,
        run(w, payload, events).1[0] == (ActionView::Put {
            path: w.path,
            size: payload.len(),
            content_type: w.content_type,
            body: payload,
        }),
    decreases events.len(),
{
    lemma_trace_inv(w, payload, events);
    if events.len() > 0 {
        lemma_small_payload_one_request(w, payload, events.drop_last());
    }
}

/// Where the target path names no file, the write fails at once with a
/// configuration error and no request is ever sent, whatever the size of
/// the payload and whatever events come.
pub proof fn lemma_malformed_path_sends_nothing(
    w: WriterView,
    payload: Seq<u8>,
    events: Seq<EventView>,
)
    requires
        w.wf(),
        w.phase is Idle,
        payload.len() <= usize::MAX,
        !names_file(w.path),
    ensures
        run(w, payload, events).1[0] == ActionView::Finish(Err(ErrorView::MalformedPath)),
        ErrorView::MalformedPath.kind() == ErrorKind::Configuration,
        count_requests(run(w, payload, events).1) == 0,
        forall|j: int|
            0 <= j <= events.len() ==> !(#[trigger] run(w, payload, events).1[j]).is_request(),
{
    lemma_trace_inv(w, payload, events);
    let actions = run(w, payload, events).1;
    assert forall|j: int| 0 <= j <= events.len() implies !(#[trigger] actions[j]).is_request() by {
        assert(actions[0] is Finish);
        if j > 0 {
            assert(actions[j] == ActionView::Finish(Err(ErrorView::UnexpectedEvent)));
        }
    }
}

/// Whatever the backend answers and whether the write succeeds or fails,
/// it sends at most one request that is a single-shot upload or a session
/// request, never both, and no more chunk requests than the payload has
/// chunks.
pub proof fn lemma_requests_bounded(w: WriterView, payload: Seq<u8>, events: Seq<EventView>)
    requires
        w.wf(),
        w.phase is Idle,
        payload.len() <= usize::MAX,
    ensures
        requests_bounded(w, payload, run(w, payload, events).1),
        count_puts(run(w, payload, events).1) + count_session_requests(
            run(w, payload, events).1,
        ) <= 1,
        count_chunk_requests(run(w, payload, events).1) <= chunk_count(
            payload.len(),
            w.chunk_size_factor,
        ),
{
    lemma_trace_inv(w, payload, events);
}

/// A write that ends in success has sent exactly the requests it owes:
/// one upload for a payload up to the threshold; for a larger one, one
/// session request and as many chunk requests as the payload has chunks.
pub proof fn lemma_successful_write_requests(
    w: WriterView,
    payload: Seq<u8>,
    events: Seq<EventView>,
    k: int,
)
    requires
        w.wf(),
        w.phase is Idle,
        payload.len() <= usize::MAX,
        0 <= k <= events.len(),
        run(w, payload, events).1[k] == ActionView::Finish(Ok(())),
    ensures
        requests_complete(w, payload, run(w, payload, events).1),
{
    lemma_trace_inv(w, payload, events);
}

/// Every chunk request stands in its place. It comes after the session
/// was granted and decoded, it goes to that session's endpoint, and the
/// request at action `j` carries chunk `j - 2`: so chunks go out in
/// strictly ascending offset order, each exactly once.
pub proof fn lemma_chunks_in_order(
    w: WriterView,
    payload: Seq<u8>,
    events: Seq<EventView>,
    i: int,
    j: int,
)
    requires
        w.wf(),
        w.phase is Idle,
        payload.len() <= usize::MAX,
        0 <= i <= j <= events.len(),
        run(w, payload, events).1[i] is UploadChunk,
        run(w, payload, events).1[j] is UploadChunk,
    ensures
        chunk_in_place(w, payload, events, run(w, payload, events).1, i),
        chunk_in_place(w, payload, events, run(w, payload, events).1, j),
        run(w, payload, events).1[0] is CreateSession,
        i < j ==> run(w, payload, events).1[i]->UploadChunk_start < run(
            w,
            payload,
            events,
        ).1[j]->UploadChunk_start,
        i < j ==> run(w, payload, events).1[i]->UploadChunk_end < run(
            w,
            payload,
            events,
        ).1[j]->UploadChunk_start,
{
    lemma_trace_inv(w, payload, events);
    lemma_first_action(w, payload, events);
    let f = w.chunk_size_factor;
    let actions = run(w, payload, events).1;
    assert(chunk_in_place(w, payload, events, actions, i));
    assert(chunk_in_place(w, payload, events, actions, j));
    if i < j {
        lemma_chunk_range((i - 2) as nat, payload.len(), f);
        lemma_chunk_range((j - 2) as nat, payload.len(), f);
        let a = i - 2;
        let b = j - 2;
        assert((a + 1) * f <= b * f) by (nonlinear_arith)
            requires
                a + 1 <= b,
                f > 0,
        ;
    }
}

/// Once a write is over, nothing more is sent: whatever events still
/// come, the answer is a protocol error and no request.
pub proof fn lemma_silent_after_finish(
    w: WriterView,
    payload: Seq<u8>,
    events: Seq<EventView>,
    k: int,
    j: int,
)
    requires
        w.wf(),
        w.phase is Idle,
        payload.len() <= usize::MAX,
        0 <= k < j <= events.len(),
        run(w, payload, events).1[k] is Finish,
    ensures
        run(w, payload, events).1[j] == ActionView::Finish(Err(ErrorView::UnexpectedEvent)),
        !run(w, payload, events).1[j].is_request(),
{
    lemma_trace_inv(w, payload, events);
}

/// A status that is no success for the request it answers ends the write
/// at once with a backend error that carries the status and the body.
pub proof fn lemma_rejection_ends_write(w: WriterView, status: u16, body: Seq<u8>)
    requires
        w.wf(),
        match w.phase {
            PhaseView::AwaitingPut => !put_succeeded(status),
            PhaseView::AwaitingSession { .. } => !session_created(status),
            PhaseView::Uploading { .. } => !chunk_accepted(status),
            _ => false,
        },
    ensures
        step(w, EventView::Response { status, body }).1 == ActionView::Finish(
            Err(ErrorView::Backend { status, body }),
        ),
        step(w, EventView::Response { status, body }).0.phase is Idle,
{
}

/// The first action of a write does not depend on what comes later.
pub proof fn lemma_first_action(w: WriterView, payload: Seq<u8>, events: Seq<EventView>)
    ensures
        run(w, payload, events).1.len() == events.len() + 1,
        run(w, payload, events).1[0] == begin(w, payload).1,
    decreases events.len(),
{
    if events.len() > 0 {
        lemma_first_action(w, payload, events.drop_last());
    }
}

/// The events of a write in which every request succeeds: the session is
/// granted, its description decoded, and each chunk accepted.
pub open spec fn accepted_script(
    created: EventView,
    decoded: EventView,
    answers: Seq<EventView>,
) -> Seq<EventView> {
    seq![created, decoded] + answers
}

/// Every one of `answers` is a response that accepts a chunk.
pub open spec fn all_accept(answers: Seq<EventView>) -> bool {
    forall|i: int|
        0 <= i < answers.len() ==> (#[trigger] answers[i]) is Response && chunk_accepted(
            answers[i]->Response_status,
        )
}

proof fn lemma_accepted_progress(
    w: WriterView,
    payload: Seq<u8>,
    created: EventView,
    decoded: EventView,
    answers: Seq<EventView>,
)
    requires
        w.wf(),
        w.phase is Idle,
        w.max_simple_size < payload.len() <= usize::MAX,
        names_file(w.path),
        created is Response,
        session_created(created->Response_status),
        decoded is SessionDecoded,
        all_accept(answers),
        answers.len() <= chunk_count(payload.len(), w.chunk_size_factor),
    ensures
        ({
            let end = run(w, payload, accepted_script(created, decoded, answers));
            if answers.len() < chunk_count(payload.len(), w.chunk_size_factor) {
                end.0.phase is Uploading
            } else {
                end.1.last() == ActionView::Finish(Ok(()))
            }
        }),
    decreases answers.len(),
{
    let f = w.chunk_size_factor;
    let total = payload.len();
    let events = accepted_script(created, decoded, answers);
    lemma_chunk_count_bounds(total, f);
    if answers.len() == 0 {
        let one = seq![created];
        reveal_with_fuel(run, 3);
        assert(events.drop_last() =~= one);
        assert(one.drop_last() =~= Seq::<EventView>::empty());
        assert(events.last() == decoded);
        assert(one.last() == created);
        assert(run(w, payload, one).0.phase is DecodingSession);
    } else {
        let front = answers.drop_last();
        lemma_accepted_progress(w, payload, created, decoded, front);
        let before = accepted_script(created, decoded, front);
        assert(events.drop_last() =~= before);
        assert(events.last() == answers.last());
        lemma_trace_inv(w, payload, before);
        let index = (before.len() - 2) as nat;
        lemma_chunk_range(index, total, f);
        if index + 1 < chunk_count(total, f) {
            lemma_chunk_range(index + 1, total, f);
        }
    }
}

/// Where every request succeeds, a large payload is written in full: the
/// write ends in success after one session request and one request per
/// chunk, and request `i` carries chunk `i` of the payload.
pub proof fn lemma_accepted_write_completes(
    w: WriterView,
    payload: Seq<u8>,
    created: EventView,
    decoded: EventView,
    answers: Seq<EventView>,
)
    requires
        w.wf(),
        w.phase is Idle,
        w.max_simple_size < payload.len() <= usize::MAX,
        names_file(w.path),
        created is Response,
        session_created(created->Response_status),
        decoded is SessionDecoded,
        all_accept(answers),
        answers.len() == chunk_count(payload.len(), w.chunk_size_factor),
    ensures
        ({
            let end = run(w, payload, accepted_script(created, decoded, answers));
            let count = chunk_count(payload.len(), w.chunk_size_factor);
            &&& end.0 == w
            &&& end.1.len() == count + 3
            &&& end.1[0] is CreateSession
            &&& end.1[1] is DecodeSession
            &&& end.1.last() == ActionView::Finish(Ok(()))
            &&& count_session_requests(end.1) == 1
            &&& count_chunk_requests(end.1) == count
            &&& count_requests(end.1) == count + 1
            &&& uploaded_bytes(end.1) == payload
            &&& forall|i: int|
                0 <= i < count ==> #[trigger] end.1[i + 2] == upload_at(
                    payload,
                    decoded->SessionDecoded_0.upload_url,
                    w.chunk_size_factor,
                    chunk_start(i as nat, w.chunk_size_factor),
                )
        }),
{
    let f = w.chunk_size_factor;
    let count = chunk_count(payload.len(), f);
    let events = accepted_script(created, decoded, answers);
    lemma_accepted_progress(w, payload, created, decoded, answers);
    lemma_trace_inv(w, payload, events);
    lemma_first_action(w, payload, events);
    let end = run(w, payload, events);
    let fin = end.1.len() - 1;
    assert(end.1[fin] == ActionView::Finish(Ok(())));
    assert(end.1[fin] is Finish);
    lemma_cut(w, payload, events, 1);
    assert(events.take(1) =~= seq![created]);
    assert(seq![created].drop_last() =~= Seq::<EventView>::empty());
    assert(end.1[1] is DecodeSession) by {
        reveal_with_fuel(run, 3);
        assert(seq![created].last() == created);
        assert(end.1.take(2)[1] == end.1[1]);
    }
    assert forall|i: int| 0 <= i < count implies #[trigger] end.1[i + 2] == upload_at(
        payload,
        decoded->SessionDecoded_0.upload_url,
        f,
        chunk_start(i as nat, f),
    ) by {
        lemma_cut(w, payload, events, i + 2);
        lemma_accepted_cut(created, decoded, answers, i);
        lemma_accepted_progress(w, payload, created, decoded, answers.take(i));
        let part = accepted_script(created, decoded, answers.take(i));
        lemma_trace_inv(w, payload, part);
        let here = run(w, payload, part);
        assert(here.1.last() is UploadChunk) by {
            lemma_upload_is_last(w, payload, part);
        }
        assert(chunk_in_place(w, payload, part, here.1, i + 2));
        assert(part[1] == decoded);
    }
}

proof fn lemma_accepted_cut(
    created: EventView,
    decoded: EventView,
    answers: Seq<EventView>,
    i: int,
)
    requires
        0 <= i <= answers.len(),
        all_accept(answers),
    ensures
        accepted_script(created, decoded, answers).take(i + 2) == accepted_script(
            created,
            decoded,
            answers.take(i),
        ),
        all_accept(answers.take(i)),
{
    assert(accepted_script(created, decoded, answers).take(i + 2) =~= accepted_script(
        created,
        decoded,
        answers.take(i),
    ));
}

/// The actions up to event `k` are those of the write cut off there.
pub proof fn lemma_cut(w: WriterView, payload: Seq<u8>, events: Seq<EventView>, k: int)
    requires
        0 <= k <= events.len(),
    ensures
        run(w, payload, events.take(k)).1 == run(w, payload, events).1.take(k + 1),
        run(w, payload, events).1.len() == events.len() + 1,
    decreases events.len(),
{
    lemma_first_action(w, payload, events);
    if k == events.len() {
        assert(events.take(k) =~= events);
        assert(run(w, payload, events).1.take(k + 1) =~= run(w, payload, events).1);
    } else {
        let front = events.drop_last();
        lemma_cut(w, payload, front, k);
        assert(front.take(k) =~= events.take(k));
        assert(run(w, payload, front).1.take(k + 1) =~= run(w, payload, events).1.take(k + 1));
    }
}

proof fn lemma_upload_is_last(w: WriterView, payload: Seq<u8>, events: Seq<EventView>)
    requires
        w.wf(),
        w.phase is Idle,
        payload.len() <= usize::MAX,
        run(w, payload, events).0.phase is Uploading,
    ensures
        run(w, payload, events).1.last() is UploadChunk,
{
    lemma_trace_inv(w, payload, events);
    if events.len() > 0 {
        lemma_trace_inv(w, payload, events.drop_last());
    }
}

/// Whether `event` answers the request `action` with a status that is no
/// success for it.
pub open spec fn refused(action: ActionView, event: EventView) -> bool {
    event is Response && match action {
        ActionView::Put { .. } => !put_succeeded(event->Response_status),
        ActionView::CreateSession { .. } => !session_created(event->Response_status),
        ActionView::UploadChunk { .. } => !chunk_accepted(event->Response_status),
        _ => false,
    }
}

proof fn lemma_counts_tail(actions: Seq<ActionView>, n: int)
    requires
        0 <= n <= actions.len(),
        forall|k: int| n <= k < actions.len() ==> !(#[trigger] actions[k]).is_request(),
    ensures
        count_puts(actions) == count_puts(actions.take(n)),
        count_session_requests(actions) == count_session_requests(actions.take(n)),
        count_chunk_requests(actions) == count_chunk_requests(actions.take(n)),
    decreases actions.len() - n,
{
    if n == actions.len() {
        assert(actions.take(n) =~= actions);
    } else {
        let front = actions.drop_last();
        assert(!actions[actions.len() - 1].is_request());
        assert forall|k: int| n <= k < front.len() implies !(#[trigger] front[k]).is_request() by {
            assert(front[k] == actions[k]);
        }
        lemma_counts_tail(front, n);
        assert(front.take(n) =~= actions.take(n));
    }
}

/// The first answer that refuses a request ends the write: the next
/// action is the failure, a backend error that carries the status and the
/// body of that answer; no request follows it, neither a later chunk nor
/// the failed request again nor a new session; so the requests of the
/// whole write are those sent up to the refused one.
pub proof fn lemma_refusal_stops_requests(
    w: WriterView,
    payload: Seq<u8>,
    events: Seq<EventView>,
    j: int,
)
    requires
        w.wf(),
        w.phase is Idle,
        payload.len() <= usize::MAX,
        0 <= j < events.len(),
        refused(run(w, payload, events).1[j], events[j]),
    ensures
        run(w, payload, events).1[j + 1] == ActionView::Finish(
            Err(
                ErrorView::Backend {
                    status: events[j]->Response_status,
                    body: events[j]->Response_body,
                },
            ),
        ),
        forall|k: int|
            j < k <= events.len() ==> !(#[trigger] run(w, payload, events).1[k]).is_request(),
        count_puts(run(w, payload, events).1) == count_puts(
            run(w, payload, events).1.take(j + 1),
        ),
        count_session_requests(run(w, payload, events).1) == count_session_requests(
            run(w, payload, events).1.take(j + 1),
        ),
        count_chunk_requests(run(w, payload, events).1) == count_chunk_requests(
            run(w, payload, events).1.take(j + 1),
        ),
{
    let actions = run(w, payload, events).1;
    lemma_trace_inv(w, payload, events);
    let before = events.take(j);
    let upto = events.take(j + 1);
    lemma_cut(w, payload, events, j);
    lemma_cut(w, payload, events, j + 1);
    lemma_trace_inv(w, payload, before);
    assert(upto.drop_last() =~= before);
    assert(upto.last() == events[j]);
    let here = run(w, payload, before);
    assert(here.1.last() == actions.take(j + 1)[j]);
    assert(run(w, payload, upto).1.last() == actions.take(j + 2)[j + 1]);
    assert(actions[j + 1] is Finish);
    assert forall|k: int| j < k <= events.len() implies !(#[trigger] actions[k]).is_request() by {
        if k > j + 1 {
            assert(actions[k] == ActionView::Finish(Err(ErrorView::UnexpectedEvent)));
        }
    }
    lemma_counts_tail(actions, j + 1);
}

/// Where every request succeeds, chunk request `i` is chunk `i` of the
/// payload, sent to the endpoint of the session that was granted. It
/// starts at `i` times the factor, right after the chunk before it ends;
/// it carries the bytes of its range out of the whole length; every chunk
/// but the last is exactly one factor long, and the last one ends with
/// the payload and holds what is left over.
pub proof fn lemma_accepted_write_chunks(
    w: WriterView,
    payload: Seq<u8>,
    created: EventView,
    decoded: EventView,
    answers: Seq<EventView>,
    i: int,
)
    requires
        w.wf(),
        w.phase is Idle,
        w.max_simple_size < payload.len() <= usize::MAX,
        names_file(w.path),
        created is Response,
        session_created(created->Response_status),
        decoded is SessionDecoded,
        all_accept(answers),
        answers.len() == chunk_count(payload.len(), w.chunk_size_factor),
        0 <= i < chunk_count(payload.len(), w.chunk_size_factor),
    ensures
        ({
            let actions = run(w, payload, accepted_script(created, decoded, answers)).1;
            let factor = w.chunk_size_factor;
            let count = chunk_count(payload.len(), factor);
            let chunk = actions[i + 2];
            &&& chunk is UploadChunk
            &&& chunk->UploadChunk_url == decoded->SessionDecoded_0.upload_url
            &&& chunk->UploadChunk_start == i * factor
            &&& chunk->UploadChunk_end == chunk_end(i as nat, payload.len(), factor)
            &&& chunk->UploadChunk_total == payload.len()
            &&& chunk->UploadChunk_body == payload.subrange(
                chunk->UploadChunk_start as int,
                (chunk->UploadChunk_end + 1) as int,
            )
            &&& chunk->UploadChunk_body.len() == chunk->UploadChunk_end - chunk->UploadChunk_start
                + 1
            &&& i + 1 < count ==> chunk->UploadChunk_body.len() == factor && actions[i
                + 3]->UploadChunk_start == chunk->UploadChunk_end + 1
            &&& i + 1 == count ==> chunk->UploadChunk_end == payload.len() - 1
                && chunk->UploadChunk_body.len() == payload.len() - factor * (count - 1)
            &&& 1 <= chunk->UploadChunk_body.len() <= factor
        }),
{
    let factor = w.chunk_size_factor;
    let count = chunk_count(payload.len(), factor);
    lemma_accepted_write_completes(w, payload, created, decoded, answers);
    let actions = run(w, payload, accepted_script(created, decoded, answers)).1;
    assert(actions[i + 2] == upload_at(
        payload,
        decoded->SessionDecoded_0.upload_url,
        factor,
        chunk_start(i as nat, factor),
    ));
    lemma_chunk_range(i as nat, payload.len(), factor);
    lemma_chunk_lengths(i as nat, payload.len(), factor);
    if i + 1 < count {
        assert(actions[(i + 1) + 2] == upload_at(
            payload,
            decoded->SessionDecoded_0.upload_url,
            factor,
            chunk_start((i + 1) as nat, factor),
        ));
    }
}

/// The pushes that an observer around the backend sees in a write whose
/// chunks are all accepted: one per chunk request, of the length of its
/// body.
pub open spec fn accepted_pushes(actions: Seq<ActionView>) -> Seq<PushView>
    decreases actions.len(),
{
    if actions.len() == 0 {
        Seq::empty()
    } else {
        let before = accepted_pushes(actions.drop_last());
        match actions.last() {
            ActionView::UploadChunk { body, .. } => before.push(
                PushView { len: body.len(), accepted: true },
            ),
            _ => before,
        }
    }
}

proof fn lemma_accepted_pushes(actions: Seq<ActionView>, bound: nat)
    requires
        forall|j: int|
            0 <= j < actions.len() && (#[trigger] actions[j]) is UploadChunk
                ==> actions[j]->UploadChunk_body.len() <= bound,
    ensures
        bytes_pushed(accepted_pushes(actions)) == uploaded_bytes(actions).len(),
        pushes_accepted(accepted_pushes(actions)) == count_chunk_requests(actions),
        forall|i: int|
            0 <= i < accepted_pushes(actions).len() ==> (#[trigger] accepted_pushes(
                actions,
            )[i]).len <= bound,
    decreases actions.len(),
{
    if actions.len() > 0 {
        let front = actions.drop_last();
        assert forall|j: int| 0 <= j < front.len() && (#[trigger] front[j]) is UploadChunk implies front[j]->UploadChunk_body.len()
            <= bound by {
            assert(front[j] == actions[j]);
        }
        lemma_accepted_pushes(front, bound);
        let before = accepted_pushes(front);
        if let ActionView::UploadChunk { body, .. } = actions.last() {
            let push = PushView { len: body.len(), accepted: true };
            assert(before.push(push).drop_last() =~= before);
            assert(actions[actions.len() - 1] is UploadChunk);
        }
    }
}

/// Around a write in which every request succeeds, an observer reports
/// exactly the payload: one event per chunk request, and the byte counts
/// of the events add up to the length of the payload.
pub proof fn lemma_observed_write_reports_payload(
    w: WriterView,
    payload: Seq<u8>,
    created: EventView,
    decoded: EventView,
    answers: Seq<EventView>,
)
    requires
        w.wf(),
        w.phase is Idle,
        w.max_simple_size < payload.len() <= usize::MAX,
        names_file(w.path),
        created is Response,
        session_created(created->Response_status),
        decoded is SessionDecoded,
        all_accept(answers),
        answers.len() == chunk_count(payload.len(), w.chunk_size_factor),
    ensures
        ({
            let actions = run(w, payload, accepted_script(created, decoded, answers)).1;
            let events = write_events(accepted_pushes(actions));
            &&& bytes_reported(events) == payload.len()
            &&& events.len() == chunk_count(payload.len(), w.chunk_size_factor)
        }),
{
    let script = accepted_script(created, decoded, answers);
    let actions = run(w, payload, script).1;
    lemma_accepted_write_completes(w, payload, created, decoded, answers);
    lemma_trace_inv(w, payload, script);
    let factor = w.chunk_size_factor;
    assert forall|j: int|
        0 <= j < actions.len() && (#[trigger] actions[j]) is UploadChunk implies actions[j]->UploadChunk_body.len()
        <= payload.len() by {
        assert(chunk_in_place(w, payload, script, actions, j));
        lemma_chunk_range((j - 2) as nat, payload.len(), factor);
    }
    lemma_accepted_pushes(actions, payload.len());
    let pushes = accepted_pushes(actions);
    assert(pushes_fit(pushes));
    lemma_write_events_account(pushes);
}

} // verus!
