//! What is sent to a deployment, put together before it is sent.
use vstd::prelude::*;
use vstd::string::*;

verus! {

/// A request that posts a body.
#[derive(Debug)]
pub struct Request {
    pub url: String,
    pub content_type: String,
    pub body: String,
}

/// What a deployment answered: whether that was a success, the status as it is
/// written, and the body.
#[derive(Debug)]
pub struct Reply {
    pub success: bool,
    pub status: String,
    pub body: String,
}

/// Why a deployment could not be reached.
pub fn not_reached(address: &str, failed: &str) -> (said: String)
    ensures
        said@ == "could not reach "@ + address@ + ": "@ + failed@,
{
    let mut said = "could not reach ".to_owned();
    said.append(address);
    said.append(": ");
    said.append(failed);
    said
}

} // verus!
