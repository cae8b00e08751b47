//! What one request comes to.

use vstd::prelude::*;

verus! {

/// The outcome of a request: the elapsed milliseconds if the exchange
/// completed and the clock could be read, else the reason of whichever
/// failed, the exchange first.
pub open spec fn outcome_of(
    response: Result<(), String>,
    elapsed: Result<u128, String>,
) -> Result<u128, String> {
    match (response, elapsed) {
        (Ok(_), Ok(millis)) => Ok(millis),
        (Err(reason), _) => Err(reason),
        (Ok(_), Err(reason)) => Err(reason),
    }
}

/// Turns what the caller saw of one request into its outcome.
///
/// `response` is `Ok` for any response that arrived, whatever its status,
/// and holds the reason where the exchange failed. `elapsed` is the time
/// from just before the request to just after the response, in
/// milliseconds, or the reason why the clock could not be read.
pub fn outcome(
    response: Result<(), String>,
    elapsed: Result<u128, String>,
) -> (outcome: Result<u128, String>)
    ensures
        outcome == outcome_of(response, elapsed),
{
    match response {
        Err(reason) => Err(reason),
        Ok(_) => match elapsed {
            Ok(millis) => Ok(millis),
            Err(reason) => Err(reason),
        },
    }
}

} // verus!
