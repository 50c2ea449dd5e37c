//! The data-transfer kernel of a storage-access layer: how a payload of
//! any size is moved into a remote store whose protocol asks for chunks,
//! alignment and sessions.
//!
//! Nothing in this crate performs I/O. Every component is a state machine
//! that decides: it says what is to be done next (send this request, pull
//! a segment, list this container) and takes what came of it as its next
//! input. The caller performs, in whatever way it does I/O.
//!
//! - [`writer`]: the size-adaptive writer. A payload up to a threshold
//!   goes out in one request; a larger one through an upload session, cut
//!   into aligned chunks ([`chunk`]) that are sent one by one in ascending
//!   offset order. [`model`] holds its transitions as mathematical
//!   functions and [`trace`] what holds of whole writes.
//! - [`adapter`], [`pump`], [`seekable`]: conversions between the shapes in
//!   which bytes move.
//! - [`observe`]: one event per successful transfer.
//! - [`decompress`]: which algorithm a source is encoded with, and how far
//!   its decoding has come.
//! - [`walk`]: walks over a hierarchical key space, parents first or
//!   children first; [`tree`], [`traverse`] and [`order`] show what they
//!   yield on a finite key space.

pub mod adapter;
pub mod buffer;
pub mod chunk;
pub mod decompress;
pub mod error;
pub mod model;
pub mod observe;
pub mod order;
pub mod path;
pub mod pump;
pub mod seekable;
pub mod session;
pub mod status;
pub mod text;
pub mod trace;
pub mod traverse;
pub mod tree;
pub mod url;
pub mod walk;
pub mod writer;
