//! How the answers of the machines' services are judged.

use vstd::prelude::*;
use crate::errors::{LinkError, LinkResult};

verus! {

/// Whether an HTTP status reports success (`200..=299`).
pub open spec fn is_success_status(status: u16) -> bool {
    200 <= status <= 299
}

/// Judges the status of an answer: a successful status lets its body be
/// read; any other status is an upstream error with the body the answer
/// came with.
pub fn check_response_status(status: u16, body: String) -> (r: LinkResult<()>)
    ensures
        is_success_status(status) ==> r is Ok,
        !is_success_status(status) ==> (r matches Err(LinkError::UpstreamStatus { status: s, body: b })
            && s == status && b == body),
{
    if 200 <= status && status <= 299 {
        Ok(())
    } else {
        Err(LinkError::UpstreamStatus { status, body })
    }
}

} // verus!
