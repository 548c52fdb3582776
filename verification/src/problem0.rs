//! The smoke-test challenge: a service that echoes every request back
//! unchanged.  Only the transform itself lives here; the listening loop
//! that feeds it bytes is outside the library.

use vstd::prelude::*;

verus! {

/// The echo service used as a smoke test.
pub struct SmokeTest;

impl SmokeTest {
    /// The whole behaviour of the smoke test: the response is the request.
    pub fn respond(req: Vec<u8>) -> (resp: Vec<u8>)
        ensures
            resp@ == req@,
    {
        req
    }
}

/// A standalone copy of the echo service kept under its original name.
pub struct TcpEcho;

impl TcpEcho {
    /// The echo transform: the response is the request.
    pub fn respond(req: Vec<u8>) -> (resp: Vec<u8>)
        ensures
            resp@ == req@,
    {
        req
    }
}

} // verus!
