//! Protocol-facing decisions.
//!
//! The line protocol itself — parsing requests, shaping JSON — lives
//! with the server plumbing around the engine; what stands here is
//! every decision the responses rest on: status-code texts, dimension
//! validation, and the code a lookup outcome maps to.

use vstd::prelude::*;

verus! {

use crate::err::VFSError;
use crate::vector::VFSVector;

/// Maps an HTTP-style status code to its response-line text.
pub fn status_code_to_text(status: u16) -> (r: &'static str)
    ensures
        status == 200 ==> r@ == "200 OK"@,
        status == 201 ==> r@ == "201 Created"@,
        status == 204 ==> r@ == "204 No Content"@,
        status == 400 ==> r@ == "400 Bad Request"@,
        status == 404 ==> r@ == "404 Not Found"@,
        status == 500 ==> r@ == "500 Internal Server Error"@,
        status != 200 && status != 201 && status != 204 && status != 400 && status != 404
            && status != 500 ==> r@ == "200 OK"@,
{
    match status {
        200 => "200 OK",
        201 => "201 Created",
        204 => "204 No Content",
        400 => "400 Bad Request",
        404 => "404 Not Found",
        500 => "500 Internal Server Error",
        _ => "200 OK",
    }
}

/// Accepts a vector only when it has the dimension the engine was
/// initialized with; anything else is an invalid-vector error, which
/// the protocol reports as a 400.
pub fn validate_dimension(expected: usize, got: usize) -> (r: Result<(), VFSError>)
    ensures
        expected == got <==> r is Ok,
        expected != got ==> (r matches Err(e) && e is InvalidVector),
{
    if expected == got {
        Ok(())
    } else {
        Err(VFSError::InvalidVector(String::from_str("Vector dimension mismatch")))
    }
}

/// The status a point lookup answers with: found or not found.
pub fn status_for_lookup(found: &Option<VFSVector>) -> (r: u16)
    ensures
        found is Some ==> r == 200,
        found is None ==> r == 404,
{
    match found {
        Some(_) => 200,
        None => 404,
    }
}

/// The status a registration outcome answers with: created, or the
/// error's own code.
pub fn status_for_register(outcome: &Result<u64, VFSError>) -> (r: u16)
    ensures
        outcome is Ok ==> r == 201,
        outcome matches Err(e) ==> r == match e {
            VFSError::InvalidVector(_) => 400u16,
            VFSError::SerializationError(_) => 422u16,
            VFSError::IoError(_) => 500u16,
            VFSError::MemtableError(_) => 500u16,
            VFSError::IdGenerationError(_) => 500u16,
        },
{
    match outcome {
        Ok(_) => 201,
        Err(e) => e.status_code(),
    }
}

} // verus!
