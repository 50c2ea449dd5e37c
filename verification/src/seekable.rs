//! Reading a forward-only source at any offset.
//!
//! The reader keeps the bytes it pulled, so that a seek can go back to
//! them. Retention policy: without a limit every byte pulled is kept.
//! With a limit, after each pull the oldest bytes are dropped until no
//! more than the limit is kept, but never a byte at or after the read
//! position: what was not read yet is never lost. A seek to a byte that
//! was dropped fails; a seek ahead of what was pulled succeeds, and the
//! next read pulls until the position is reached.

use crate::adapter::{ReadStep, ReadStepView};
use crate::error::{Error, ErrorView};
use crate::observe::{pull_view, PullView};
use vstd::prelude::*;
use vstd::slice::{slice_subrange, slice_to_vec};

verus! {

/// Mathematical model of a seekable reader: every byte pulled so far, the
/// offset of the oldest byte still kept, the read position, the retention
/// limit, and whether the source has ended.
pub struct SeekableView {
    pub stream: Seq<u8>,
    pub base: nat,
    pub position: nat,
    pub limit: Option<nat>,
    pub ended: bool,
}

impl SeekableView {
    /// What is kept is part of what was pulled, and the read position is
    /// not among the dropped bytes.
    pub open spec fn wf(self) -> bool {
        &&& self.base <= self.stream.len() <= u64::MAX
        &&& self.base <= self.position <= u64::MAX
    }
}

/// What a seek to `offset` does: it sets the read position, unless the
/// byte at `offset` was dropped.
pub open spec fn seek_to(r: SeekableView, offset: nat) -> Result<SeekableView, ErrorView> {
    if offset < r.base {
        Err(ErrorView::UnsupportedSeek)
    } else {
        Ok(SeekableView { position: offset, ..r })
    }
}

/// What a read of up to `max_len` bytes does. Where the byte at the read
/// position was pulled, the bytes from there on are handed out, as many
/// as asked for or as were pulled, and the position moves past them.
/// Else the read is empty at the end of the data or where nothing was
/// asked for, and asks for a pull otherwise.
pub open spec fn seekable_read(r: SeekableView, max_len: nat) -> (SeekableView, ReadStepView) {
    if max_len == 0 {
        (r, ReadStepView::Ready(Seq::empty()))
    } else if r.position < r.stream.len() {
        let end = if r.stream.len() - r.position <= max_len {
            r.stream.len()
        } else {
            r.position + max_len
        };
        (
            SeekableView { position: end, ..r },
            ReadStepView::Ready(r.stream.subrange(r.position as int, end as int)),
        )
    } else if r.ended {
        (r, ReadStepView::Ready(Seq::empty()))
    } else {
        (r, ReadStepView::Pull)
    }
}

/// Number of the oldest bytes that are dropped when `kept` bytes are kept
/// of which `behind` lie before the read position.
pub open spec fn dropped(limit: Option<nat>, kept: nat, behind: nat) -> nat {
    match limit {
        None => 0,
        Some(limit) => if kept <= limit {
            0
        } else if kept - limit <= behind {
            (kept - limit) as nat
        } else {
            behind
        },
    }
}

/// What the outcome of a pull does: a segment joins the stream, and the
/// oldest bytes are dropped as the retention policy says; the end is
/// noted. A failure changes nothing, nor does a segment that would take
/// the stream beyond what an offset can count.
pub open spec fn seekable_supplied(r: SeekableView, outcome: PullView) -> Result<
    SeekableView,
    ErrorView,
> {
    match outcome {
        PullView::Segment(segment) => if r.stream.len() + segment.len() > u64::MAX {
            Err(ErrorView::OffsetOverflow)
        } else {
            let stream = r.stream + segment;
            let behind = if r.position < stream.len() {
                r.position - r.base
            } else {
                stream.len() - r.base
            };
            Ok(
                SeekableView {
                    stream,
                    base: r.base + dropped(
                        r.limit,
                        (stream.len() - r.base) as nat,
                        behind as nat,
                    ),
                    ..r
                },
            )
        },
        PullView::End => Ok(SeekableView { ended: true, ..r }),
        PullView::Failed(error) => Err(error),
    }
}

/// A reader over a forward-only source that can seek.
pub struct SeekableReader {
    retained: Vec<u8>,
    base: u64,
    position: u64,
    limit: Option<usize>,
    ended: bool,
    stream: Ghost<Seq<u8>>,
}

impl View for SeekableReader {
    type V = SeekableView;

    closed spec fn view(&self) -> SeekableView {
        SeekableView {
            stream: self.stream@,
            base: self.base as nat,
            position: self.position as nat,
            limit: match self.limit {
                Some(limit) => Some(limit as nat),
                None => None,
            },
            ended: self.ended,
        }
    }
}

impl SeekableReader {
    /// The reader keeps what its model says.
    pub closed spec fn wf(&self) -> bool {
        &&& self@.wf()
        &&& self.retained@ == self.stream@.skip(self.base as int)
    }

    /// A reader at offset zero of a source from which nothing was pulled
    /// yet, which keeps at most `limit` bytes behind the read position,
    /// or every byte where `limit` is `None`.
    pub fn new(limit: Option<usize>) -> (r: Self)
        ensures
            r.wf(),
            r@ == (SeekableView {
                stream: Seq::empty(),
                base: 0,
                position: 0,
                limit: match limit {
                    Some(limit) => Some(limit as nat),
                    None => None,
                },
                ended: false,
            }),
    {
        let r = SeekableReader {
            retained: Vec::new(),
            base: 0,
            position: 0,
            limit,
            ended: false,
            stream: Ghost(Seq::empty()),
        };
        assert(r.retained@ =~= r.stream@.skip(0));
        r
    }

    /// The read position.
    pub fn position(&self) -> (offset: u64)
        ensures
            offset == self@.position,
    {
        self.position
    }

    /// Offset of the oldest byte that a seek can still go back to.
    pub fn oldest(&self) -> (offset: u64)
        ensures
            offset == self@.base,
    {
        self.base
    }

    /// Moves the read position to `offset`.
    pub fn seek(&mut self, offset: u64) -> (r: Result<(), Error>)
        requires
            old(self).wf(),
        ensures
            final(self).wf(),
            match seek_to(old(self)@, offset as nat) {
                Ok(after) => r is Ok && final(self)@ == after,
                Err(error) => r is Err && r->Err_0@ == error && final(self)@ == old(self)@,
            },
    {
        if offset < self.base {
            Err(Error::UnsupportedSeek)
        } else {
            self.position = offset;
            Ok(())
        }
    }

    /// Reads up to `max_len` bytes at the read position.
    pub fn read(&mut self, max_len: usize) -> (step: ReadStep)
        requires
            old(self).wf(),
        ensures
            final(self).wf(),
            final(self)@ == seekable_read(old(self)@, max_len as nat).0,
            step@ == seekable_read(old(self)@, max_len as nat).1,
    {
        if max_len == 0 {
            return ReadStep::Ready(Vec::new());
        }
        let kept: usize = self.retained.len();
        let behind: u64 = self.position - self.base;
        if behind < kept as u64 {
            let from: usize = behind as usize;
            let count: usize = if kept - from <= max_len {
                kept - from
            } else {
                max_len
            };
            let bytes = slice_to_vec(slice_subrange(self.retained.as_slice(), from, from + count));
            proof {
                let end = self.position + count;
                assert(bytes@ =~= self.stream@.subrange(self.position as int, end as int));
            }
            self.position = self.position + count as u64;
            ReadStep::Ready(bytes)
        } else if self.ended {
            ReadStep::Ready(Vec::new())
        } else {
            ReadStep::Pull
        }
    }

    /// Takes the outcome of the pull that a read asked for.
    pub fn supply(&mut self, outcome: Result<Option<Vec<u8>>, Error>) -> (r: Result<(), Error>)
        requires
            old(self).wf(),
        ensures
            final(self).wf(),
            match seekable_supplied(old(self)@, pull_view(outcome)) {
                Ok(after) => r is Ok && final(self)@ == after,
                Err(error) => r is Err && r->Err_0@ == error && final(self)@ == old(self)@,
            },
    {
        match outcome {
            Ok(Some(segment)) => {
                let kept: usize = self.retained.len();
                let more: usize = segment.len();
                if more as u64 > u64::MAX - self.base - kept as u64 {
                    return Err(Error::OffsetOverflow);
                }
                self.retained.extend_from_slice(segment.as_slice());
                proof {
                    self.stream@ = self.stream@ + segment@;
                    assert(self.retained@ =~= self.stream@.skip(self.base as int));
                }
                let kept: usize = self.retained.len();
                let behind: u64 = if self.position - self.base < kept as u64 {
                    self.position - self.base
                } else {
                    kept as u64
                };
                let drop: usize = match self.limit {
                    None => 0,
                    Some(limit) => if kept <= limit {
                        0
                    } else if ((kept - limit) as u64) <= behind {
                        kept - limit
                    } else {
                        behind as usize
                    },
                };
                if drop > 0 {
                    let tail = self.retained.split_off(drop);
                    self.retained = tail;
                    self.base = self.base + drop as u64;
                    proof {
                        assert(self.retained@ =~= self.stream@.skip(self.base as int));
                    }
                }
                Ok(())
            },
            Ok(None) => {
                self.ended = true;
                Ok(())
            },
            Err(error) => Err(error),
        }
    }
}

} // verus!
