//! Which response statuses count as success, per kind of request.

use vstd::prelude::*;

verus! {

/// Status 200, OK.
pub const OK: u16 = 200;

/// Status 201, Created.
pub const CREATED: u16 = 201;

/// Status 202, Accepted.
pub const ACCEPTED: u16 = 202;

/// A single-shot upload succeeded: Created or OK.
pub open spec fn put_succeeded(status: u16) -> bool {
    status == CREATED || status == OK
}

/// An upload session was created: OK only.
pub open spec fn session_created(status: u16) -> bool {
    status == OK
}

/// A chunk was taken: Accepted, Created or OK.
pub open spec fn chunk_accepted(status: u16) -> bool {
    status == ACCEPTED || status == CREATED || status == OK
}

/// Whether `status` answers a single-shot upload with success.
pub fn is_put_success(status: u16) -> (r: bool)
    ensures
        r == put_succeeded(status),
{
    status == CREATED || status == OK
}

/// Whether `status` answers a session-creation request with success.
pub fn is_session_created(status: u16) -> (r: bool)
    ensures
        r == session_created(status),
{
    status == OK
}

/// Whether `status` answers a chunk upload with success.
pub fn is_chunk_accepted(status: u16) -> (r: bool)
    ensures
        r == chunk_accepted(status),
{
    status == ACCEPTED || status == CREATED || status == OK
}

} // verus!
