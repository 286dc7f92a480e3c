use vstd::prelude::*;

verus! {

/// Whether an HTTP status code is in the success class (200 through 299).
pub open spec fn success_status(code: u16) -> bool {
    200 <= code <= 299
}

/// True exactly when `code` is a success status.
pub fn is_success_status(code: u16) -> (r: bool)
    ensures
        r == success_status(code),
{
    200 <= code && code <= 299
}

/// Decides the availability probe from what the status request produced:
/// `None` when the request itself failed (refused, timed out, unresolved),
/// `Some(code)` when a response came back. Only a success status counts as
/// available; a failed request is a plain negative answer, never an error.
pub fn probe_outcome(response: Option<u16>) -> (available: bool)
    ensures
        available == (match response {
            Some(code) => success_status(code),
            None => false,
        }),
{
    match response {
        Some(code) => is_success_status(code),
        None => false,
    }
}

} // verus!
