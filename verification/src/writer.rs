//! The size-adaptive writer.
//!
//! The writer performs no I/O. [`OneDriveWriter::write`] starts a write and
//! returns the first [`Action`]; the driver carries the action out and
//! hands its outcome to [`OneDriveWriter::advance`] as an [`Event`], which
//! returns the next action, until the action is [`Action::Finish`].

use crate::buffer::contents;
use crate::chunk::{chunk_at, Chunk};
use crate::error::{Error, ErrorView};
use crate::model::{
    begin, lemma_wf_preserved, step, upload_at, ActionView, EventView, PhaseView, WriterView,
};
use crate::path::{file_name, file_name_of, has_file_name, names_file};
use crate::session::{
    creation_request, OneDriveUploadSessionCreationRequestBody,
    OneDriveUploadSessionCreationResponseBody,
};
use crate::status::{
    is_chunk_accepted, is_put_success, is_session_created, put_succeeded, session_created,
};
use crate::url::{create_session_url, session_url};
use bytes::Bytes;
use vstd::prelude::*;
use vstd::string::*;

verus! {

/// Largest payload that goes out in a single request, unless the writer
/// is given another limit: 4 MiB.
pub const MAX_SIMPLE_SIZE: usize = 4194304;

/// Length of every chunk but the last, unless the writer is given another
/// one: 320 KiB, the alignment that the session protocol asks for.
pub const CHUNK_SIZE_FACTOR: usize = 327680;

/// The model of an optional text.
pub open spec fn text_view(text: Option<String>) -> Option<Seq<char>> {
    match text {
        Some(s) => Some(s@),
        None => None,
    }
}

/// What is known of a write before it begins, besides its target.
#[derive(Debug, Clone, PartialEq, Eq)]
pub struct OpWrite {
    pub content_type: Option<String>,
    pub size: Option<u64>,
}

impl OpWrite {
    /// Nothing declared.
    pub fn new() -> (op: Self)
        ensures
            op.content_type is None,
            op.size is None,
    {
        OpWrite { content_type: None, size: None }
    }

    /// The same with the content type declared.
    pub fn with_content_type(self, content_type: &str) -> (op: Self)
        ensures
            text_view(op.content_type) == Some(content_type@),
            op.size == self.size,
    {
        OpWrite { content_type: Some(String::from_str(content_type)), size: self.size }
    }

    /// The same with the total size declared.
    pub fn with_size(self, size: u64) -> (op: Self)
        ensures
            op.content_type == self.content_type,
            op.size == Some(size),
    {
        OpWrite { content_type: self.content_type, size: Some(size) }
    }

    /// The declared content type, if any.
    pub fn content_type(&self) -> (r: Option<&str>)
        ensures
            match r {
                Some(s) => text_view(self.content_type) == Some(s@),
                None => self.content_type is None,
            },
    {
        match &self.content_type {
            Some(s) => Some(s.as_str()),
            None => None,
        }
    }
}

/// What the writer asks its driver to do next.
#[derive(Debug, PartialEq, Eq)]
pub enum Action {
    /// Send the whole payload in one request.
    Put { path: String, size: usize, content_type: Option<String>, body: Bytes },
    /// Ask the backend for an upload session.
    CreateSession { url: String, body: OneDriveUploadSessionCreationRequestBody },
    /// Decode the body of the session-creation response.
    DecodeSession { body: Vec<u8> },
    /// Send one chunk to the session.
    UploadChunk { url: String, chunk: Chunk },
    /// The write is over, with this result.
    Finish(Result<(), Error>),
}

/// What came of the last action.
#[derive(Debug, Clone, PartialEq, Eq)]
pub enum Event {
    /// The backend answered the request.
    Response { status: u16, body: Vec<u8> },
    /// The session description was decoded.
    SessionDecoded(OneDriveUploadSessionCreationResponseBody),
    /// The action could not be carried out.
    Failed(Error),
}

impl View for Action {
    type V = ActionView;

    open spec fn view(&self) -> ActionView {
        match *self {
            Action::Put { path, size, content_type, body } => ActionView::Put {
                path: path@,
                size: size as nat,
                content_type: text_view(content_type),
                body: contents(body),
            },
            Action::CreateSession { url, body } => ActionView::CreateSession {
                url: url@,
                body: body@,
            },
            Action::DecodeSession { body } => ActionView::DecodeSession { body: body@ },
            Action::UploadChunk { url, chunk } => ActionView::UploadChunk {
                url: url@,
                start: chunk.start as nat,
                end: chunk.end as nat,
                total: chunk.total as nat,
                body: contents(chunk.payload),
            },
            Action::Finish(Ok(())) => ActionView::Finish(Ok(())),
            Action::Finish(Err(error)) => ActionView::Finish(Err(error@)),
        }
    }
}

impl View for Event {
    type V = EventView;

    open spec fn view(&self) -> EventView {
        match *self {
            Event::Response { status, body } => EventView::Response { status, body: body@ },
            Event::SessionDecoded(session) => EventView::SessionDecoded(session@),
            Event::Failed(error) => EventView::Failed(error@),
        }
    }
}

enum Phase {
    Idle,
    AwaitingPut,
    AwaitingSession { payload: Bytes },
    DecodingSession { payload: Bytes },
    Uploading { payload: Bytes, session: OneDriveUploadSessionCreationResponseBody, offset: usize },
}

impl View for Phase {
    type V = PhaseView;

    closed spec fn view(&self) -> PhaseView {
        match *self {
            Phase::Idle => PhaseView::Idle,
            Phase::AwaitingPut => PhaseView::AwaitingPut,
            Phase::AwaitingSession { payload } => PhaseView::AwaitingSession {
                payload: contents(payload),
            },
            Phase::DecodingSession { payload } => PhaseView::DecodingSession {
                payload: contents(payload),
            },
            Phase::Uploading { payload, session, offset } => PhaseView::Uploading {
                payload: contents(payload),
                session: session@,
                offset: offset as nat,
            },
        }
    }
}

/// Writes payloads to one target path: a small one in a single request, a
/// large one through an upload session, chunk by chunk.
pub struct OneDriveWriter {
    op: OpWrite,
    path: String,
    max_simple_size: usize,
    chunk_size_factor: usize,
    phase: Phase,
}

impl View for OneDriveWriter {
    type V = WriterView;

    closed spec fn view(&self) -> WriterView {
        WriterView {
            path: self.path@,
            content_type: text_view(self.op.content_type),
            size: self.op.size,
            max_simple_size: self.max_simple_size as nat,
            chunk_size_factor: self.chunk_size_factor as nat,
            phase: self.phase@,
        }
    }
}

impl OneDriveWriter {
    /// The writer's limits make sense and its write, if one is under way,
    /// fits them.
    pub open spec fn wf(&self) -> bool {
        self@.wf()
    }

    /// A writer for `path` with the default limits, with no write under
    /// way.
    pub fn new(op: OpWrite, path: String) -> (w: Self)
        ensures
            w.wf(),
            w@ == (WriterView {
                path: path@,
                content_type: text_view(op.content_type),
                size: op.size,
                max_simple_size: MAX_SIMPLE_SIZE as nat,
                chunk_size_factor: CHUNK_SIZE_FACTOR as nat,
                phase: PhaseView::Idle,
            }),
    {
        OneDriveWriter {
            op,
            path,
            max_simple_size: MAX_SIMPLE_SIZE,
            chunk_size_factor: CHUNK_SIZE_FACTOR,
            phase: Phase::Idle,
        }
    }

    /// A writer for `path` with limits of the caller's choice. A chunk-size
    /// factor of zero is refused.
    pub fn with_limits(
        op: OpWrite,
        path: String,
        max_simple_size: usize,
        chunk_size_factor: usize,
    ) -> (r: Result<Self, Error>)
        ensures
            chunk_size_factor == 0 ==> r == Err::<Self, Error>(Error::InvalidChunkSize),
            chunk_size_factor > 0 ==> r is Ok && r->Ok_0.wf() && r->Ok_0@ == (WriterView {
                path: path@,
                content_type: text_view(op.content_type),
                size: op.size,
                max_simple_size: max_simple_size as nat,
                chunk_size_factor: chunk_size_factor as nat,
                phase: PhaseView::Idle,
            }),
    {
        if chunk_size_factor == 0 {
            Err(Error::InvalidChunkSize)
        } else {
            Ok(OneDriveWriter { op, path, max_simple_size, chunk_size_factor, phase: Phase::Idle })
        }
    }

    /// The target path.
    pub fn path(&self) -> (p: &str)
        ensures
            p@ == self@.path,
    {
        self.path.as_str()
    }

    /// Largest payload that goes out in a single request.
    pub fn max_simple_size(&self) -> (n: usize)
        ensures
            n == self@.max_simple_size,
    {
        self.max_simple_size
    }

    /// Length of every chunk but the last.
    pub fn chunk_size_factor(&self) -> (n: usize)
        ensures
            n == self@.chunk_size_factor,
    {
        self.chunk_size_factor
    }

    /// Whether no write is under way.
    pub fn is_idle(&self) -> (idle: bool)
        ensures
            idle == (self@.phase is Idle),
    {
        match self.phase {
            Phase::Idle => true,
            _ => false,
        }
    }

    /// Starts a write of `bs` and returns the first action: the single
    /// request where `bs` is no longer than the threshold, else the request
    /// for a session. Where the target path names no file the write fails
    /// at once, before any request.
    pub fn write(&mut self, bs: Bytes) -> (action: Action)
        requires
            old(self).wf(),
        ensures
            final(self).wf(),
            final(self)@ == begin(old(self)@, contents(bs)).0,
            action@ == begin(old(self)@, contents(bs)).1,
    {
        if !self.is_idle() {
            return Action::Finish(Err(Error::UnexpectedEvent));
        }
        if !has_file_name(self.path.as_str()) {
            return Action::Finish(Err(Error::MalformedPath));
        }
        let size: usize = bs.len();
        if size <= self.max_simple_size {
            self.write_simple(bs)
        } else {
            self.write_chunked(bs)
        }
    }

    /// Takes the outcome of the last action and returns the next action.
    /// Once the action is [`Action::Finish`] the write is over and the
    /// writer is idle again.
    pub fn advance(&mut self, event: Event) -> (action: Action)
        requires
            old(self).wf(),
        ensures
            final(self).wf(),
            final(self)@ == step(old(self)@, event@).0,
            action@ == step(old(self)@, event@).1,
    {
        proof {
            lemma_wf_preserved(self@, Seq::empty(), event@);
        }
        let mut phase = Phase::Idle;
        core::mem::swap(&mut self.phase, &mut phase);
        match event {
            Event::Failed(error) => match phase {
                Phase::Idle => Action::Finish(Err(Error::UnexpectedEvent)),
                _ => Action::Finish(Err(error)),
            },
            Event::Response { status, body } => match phase {
                Phase::AwaitingPut => Self::put_answered(status, body),
                Phase::AwaitingSession { payload } => self.session_answered(payload, status, body),
                Phase::Uploading { payload, session, offset } => self.chunk_answered(
                    payload,
                    session,
                    offset,
                    status,
                    body,
                ),
                _ => Action::Finish(Err(Error::UnexpectedEvent)),
            },
            Event::SessionDecoded(session) => match phase {
                Phase::DecodingSession { payload } => self.upload_from(payload, session, 0),
                _ => Action::Finish(Err(Error::UnexpectedEvent)),
            },
        }
    }

    /// Stops nothing: a write under way goes on, and a session that was
    /// opened stays open on the backend until it expires. Always
    /// succeeds.
    pub fn abort(&mut self) -> (r: Result<(), Error>)
        ensures
            r is Ok,
            *final(self) == *old(self),
    {
        Ok(())
    }

    /// Finishes nothing: a write is complete when its last action is.
    /// Always succeeds.
    pub fn close(&mut self) -> (r: Result<(), Error>)
        ensures
            r is Ok,
            *final(self) == *old(self),
    {
        Ok(())
    }

    fn write_simple(&mut self, bs: Bytes) -> (action: Action)
        requires
            old(self).wf(),
            old(self)@.phase is Idle,
            old(self)@.is_simple(contents(bs).len()),
        ensures
            final(self).wf(),
            final(self)@ == old(self)@.at(PhaseView::AwaitingPut),
            action@ == (ActionView::Put {
                path: old(self)@.path,
                size: contents(bs).len(),
                content_type: old(self)@.content_type,
                body: contents(bs),
            }),
    {
        let size: usize = bs.len();
        let content_type = match self.op.content_type() {
            Some(s) => Some(String::from_str(s)),
            None => None,
        };
        self.phase = Phase::AwaitingPut;
        Action::Put { path: self.path.clone(), size, content_type, body: bs }
    }

    fn write_chunked(&mut self, total_bytes: Bytes) -> (action: Action)
        requires
            old(self).wf(),
            old(self)@.phase is Idle,
            names_file(old(self)@.path),
            !old(self)@.is_simple(contents(total_bytes).len()),
            contents(total_bytes).len() <= usize::MAX,
        ensures
            final(self).wf(),
            final(self)@ == begin(old(self)@, contents(total_bytes)).0,
            action@ == begin(old(self)@, contents(total_bytes)).1,
    {
        let (url, body) = self.create_upload_session();
        self.phase = Phase::AwaitingSession { payload: total_bytes };
        Action::CreateSession { url, body }
    }

    fn create_upload_session(&self) -> (r: (String, OneDriveUploadSessionCreationRequestBody))
        requires
            names_file(self@.path),
        ensures
            r.0@ == session_url(self@.path),
            r.1@ == creation_request(file_name_of(self@.path)),
    {
        let file_name_from_path = file_name(self.path.as_str());
        let url = create_session_url(self.path.as_str());
        let body = OneDriveUploadSessionCreationRequestBody::new(
            String::from_str(file_name_from_path),
        );
        (url, body)
    }

    fn put_answered(status: u16, body: Vec<u8>) -> (action: Action)
        ensures
            action@ == (if put_succeeded(status) {
                ActionView::Finish(Ok(()))
            } else {
                ActionView::Finish(Err(ErrorView::Backend { status, body: body@ }))
            }),
    {
        if is_put_success(status) {
            Action::Finish(Ok(()))
        } else {
            Action::Finish(Err(Error::Backend { status, body }))
        }
    }

    fn session_answered(&mut self, payload: Bytes, status: u16, body: Vec<u8>) -> (action: Action)
        requires
            old(self)@.phase is Idle,
        ensures
            session_created(status) ==> final(self)@ == old(self)@.at(
                PhaseView::DecodingSession { payload: contents(payload) },
            ) && action@ == (ActionView::DecodeSession { body: body@ }),
            !session_created(status) ==> final(self)@ == old(self)@ && action@ == ActionView::Finish(
                Err(ErrorView::Backend { status, body: body@ }),
            ),
    {
        if is_session_created(status) {
            self.phase = Phase::DecodingSession { payload };
            Action::DecodeSession { body }
        } else {
            Action::Finish(Err(Error::Backend { status, body }))
        }
    }

    fn chunk_answered(
        &mut self,
        payload: Bytes,
        session: OneDriveUploadSessionCreationResponseBody,
        offset: usize,
        status: u16,
        body: Vec<u8>,
    ) -> (action: Action)
        requires
            old(self)@.phase is Idle,
            old(self)@.chunk_size_factor > 0,
            offset < contents(payload).len(),
        ensures
            ({
                let before = old(self)@.at(
                    PhaseView::Uploading {
                        payload: contents(payload),
                        session: session@,
                        offset: offset as nat,
                    },
                );
                let event = EventView::Response { status, body: body@ };
                final(self)@ == step(before, event).0 && action@ == step(before, event).1
            }),
    {
        if !is_chunk_accepted(status) {
            return Action::Finish(Err(Error::Backend { status, body }));
        }
        let total: usize = payload.len();
        let next: usize = if total - offset <= self.chunk_size_factor {
            total
        } else {
            offset + self.chunk_size_factor
        };
        if next == total {
            Action::Finish(Ok(()))
        } else {
            self.upload_from(payload, session, next)
        }
    }

    fn upload_from(
        &mut self,
        payload: Bytes,
        session: OneDriveUploadSessionCreationResponseBody,
        offset: usize,
    ) -> (action: Action)
        requires
            old(self)@.phase is Idle,
            old(self)@.chunk_size_factor > 0,
            offset < contents(payload).len(),
        ensures
            final(self)@ == old(self)@.at(
                PhaseView::Uploading {
                    payload: contents(payload),
                    session: session@,
                    offset: offset as nat,
                },
            ),
            action@ == upload_at(
                contents(payload),
                session@.upload_url,
                old(self)@.chunk_size_factor,
                offset as nat,
            ),
    {
        let chunk = chunk_at(&payload, offset, self.chunk_size_factor);
        let url = session.upload_url.clone();
        self.phase = Phase::Uploading { payload, session, offset };
        Action::UploadChunk { url, chunk }
    }
}

} // verus!
