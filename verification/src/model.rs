//! The write as a state machine over mathematical values.
//!
//! A write starts with [`begin`], which names the first action. Each
//! outcome of an action is an event; [`step`] takes the event and names
//! the next action. The writer in this crate computes exactly these two
//! functions, so what is proved of them holds of every write.

use crate::chunk::chunk_limit;
use crate::error::ErrorView;
use crate::path::{file_name_of, names_file};
use crate::session::{creation_request, RequestBodyView, SessionView};
use crate::status::{chunk_accepted, put_succeeded, session_created};
use crate::url::session_url;
use vstd::prelude::*;

verus! {

/// Where a write stands.
pub enum PhaseView {
    /// No write is under way.
    Idle,
    /// The single request of a small write is out.
    AwaitingPut,
    /// The session-creation request of a large write is out.
    AwaitingSession { payload: Seq<u8> },
    /// The session was granted; its description is being decoded.
    DecodingSession { payload: Seq<u8> },
    /// The chunk that starts at `offset` is out.
    Uploading { payload: Seq<u8>, session: SessionView, offset: nat },
}

/// Mathematical model of a writer: what it writes to, its two limits, and
/// where its write stands.
pub struct WriterView {
    pub path: Seq<char>,
    pub content_type: Option<Seq<char>>,
    pub size: Option<u64>,
    pub max_simple_size: nat,
    pub chunk_size_factor: nat,
    pub phase: PhaseView,
}

/// What the engine asks its driver to do next.
pub enum ActionView {
    /// Send the whole payload in one request.
    Put { path: Seq<char>, size: nat, content_type: Option<Seq<char>>, body: Seq<u8> },
    /// Ask the backend for an upload session.
    CreateSession { url: Seq<char>, body: RequestBodyView },
    /// Decode the body of the session-creation response.
    DecodeSession { body: Seq<u8> },
    /// Send one chunk: the bytes `start ..= end` out of `total`.
    UploadChunk { url: Seq<char>, start: nat, end: nat, total: nat, body: Seq<u8> },
    /// The write is over, with this result.
    Finish(Result<(), ErrorView>),
}

/// What came of the last action.
pub enum EventView {
    /// The backend answered the request.
    Response { status: u16, body: Seq<u8> },
    /// The session description was decoded.
    SessionDecoded(SessionView),
    /// The action could not be carried out.
    Failed(ErrorView),
}

impl ActionView {
    /// Whether this action sends a request to the backend.
    pub open spec fn is_request(self) -> bool {
        self is Put || self is CreateSession || self is UploadChunk
    }
}

impl WriterView {
    /// The limits make sense and the write under way, if any, fits them.
    pub open spec fn wf(self) -> bool {
        &&& self.chunk_size_factor > 0
        &&& self.max_simple_size <= usize::MAX
        &&& self.chunk_size_factor <= usize::MAX
        &&& match self.phase {
            PhaseView::Idle => true,
            PhaseView::AwaitingPut => true,
            PhaseView::AwaitingSession { payload } => self.max_simple_size < payload.len()
                <= usize::MAX,
            PhaseView::DecodingSession { payload } => self.max_simple_size < payload.len()
                <= usize::MAX,
            PhaseView::Uploading { payload, session, offset } => {
                &&& self.max_simple_size < payload.len() <= usize::MAX
                &&& offset < payload.len()
                &&& offset % self.chunk_size_factor == 0
            },
        }
    }

    /// The same writer in another phase.
    pub open spec fn at(self, phase: PhaseView) -> WriterView {
        WriterView { phase, ..self }
    }

    /// Whether a payload of `len` bytes goes out in one request.
    pub open spec fn is_simple(self, len: nat) -> bool {
        len <= self.max_simple_size
    }
}

/// The action that sends the chunk of `payload` that starts at `offset`.
pub open spec fn upload_at(payload: Seq<u8>, url: Seq<char>, factor: nat, offset: nat) -> ActionView
    recommends
        factor > 0,
        offset < payload.len(),
{
    let limit = chunk_limit(offset, payload.len(), factor);
    ActionView::UploadChunk {
        url,
        start: offset,
        end: (limit - 1) as nat,
        total: payload.len(),
        body: payload.subrange(offset as int, limit as int),
    }
}

/// The write ends here as failed.
pub open spec fn fail(w: WriterView, error: ErrorView) -> (WriterView, ActionView) {
    (w.at(PhaseView::Idle), ActionView::Finish(Err(error)))
}

/// Starts a write of `payload`.
///
/// While another write is under way nothing changes and the new one is
/// refused. Where the path names no file the write fails before any
/// request, whatever the size of the payload. Else a payload up to the
/// threshold goes out in one request, and for a larger one a session is
/// asked for.
pub open spec fn begin(w: WriterView, payload: Seq<u8>) -> (WriterView, ActionView) {
    if !(w.phase is Idle) {
        (w, ActionView::Finish(Err(ErrorView::UnexpectedEvent)))
    } else if !names_file(w.path) {
        fail(w, ErrorView::MalformedPath)
    } else if w.is_simple(payload.len()) {
        (
            w.at(PhaseView::AwaitingPut),
            ActionView::Put {
                path: w.path,
                size: payload.len(),
                content_type: w.content_type,
                body: payload,
            },
        )
    } else {
        (
            w.at(PhaseView::AwaitingSession { payload }),
            ActionView::CreateSession {
                url: session_url(w.path),
                body: creation_request(file_name_of(w.path)),
            },
        )
    }
}

/// Takes the outcome of the last action and names the next one.
///
/// A failure to carry out the action ends the write with that failure. A
/// response with a status that is no success for the request ends it with
/// a backend error. An event that the phase does not expect ends it with
/// a protocol error. Otherwise the write moves on: from the granted
/// session to its decoding, from there to the first chunk, from each
/// accepted chunk to the next, and from the last one to success.
pub open spec fn step(w: WriterView, event: EventView) -> (WriterView, ActionView) {
    match (w.phase, event) {
        (PhaseView::Idle, _) => fail(w, ErrorView::UnexpectedEvent),
        (_, EventView::Failed(error)) => fail(w, error),
        (PhaseView::AwaitingPut, EventView::Response { status, body }) => {
            if put_succeeded(status) {
                (w.at(PhaseView::Idle), ActionView::Finish(Ok(())))
            } else {
                fail(w, ErrorView::Backend { status, body })
            }
        },
        (PhaseView::AwaitingSession { payload }, EventView::Response { status, body }) => {
            if session_created(status) {
                (w.at(PhaseView::DecodingSession { payload }), ActionView::DecodeSession { body })
            } else {
                fail(w, ErrorView::Backend { status, body })
            }
        },
        (PhaseView::DecodingSession { payload }, EventView::SessionDecoded(session)) => (
            w.at(PhaseView::Uploading { payload, session, offset: 0 }),
            upload_at(payload, session.upload_url, w.chunk_size_factor, 0),
        ),
        (PhaseView::Uploading { payload, session, offset }, EventView::Response { status, body }) => {
            let next = chunk_limit(offset, payload.len(), w.chunk_size_factor);
            if !chunk_accepted(status) {
                fail(w, ErrorView::Backend { status, body })
            } else if next == payload.len() {
                (w.at(PhaseView::Idle), ActionView::Finish(Ok(())))
            } else {
                (
                    w.at(PhaseView::Uploading { payload, session, offset: next }),
                    upload_at(payload, session.upload_url, w.chunk_size_factor, next),
                )
            }
        },
        _ => fail(w, ErrorView::UnexpectedEvent),
    }
}

/// Both functions keep a well-formed writer well-formed.
pub proof fn lemma_wf_preserved(w: WriterView, payload: Seq<u8>, event: EventView)
    requires
        w.wf(),
    ensures
        payload.len() <= usize::MAX ==> begin(w, payload).0.wf(),
        step(w, event).0.wf(),
{
    if let PhaseView::Uploading { payload, session, offset } = w.phase {
        let f = w.chunk_size_factor as int;
        let o = offset as int;
        assert((o + f) % f == 0) by (nonlinear_arith)
            requires
                o % f == 0,
                f > 0,
        ;
    }
}

} // verus!
