//! The API token.

use vstd::prelude::*;

verus! {

/// The token is not as it has to be.
#[derive(Clone, Copy, Debug, PartialEq, Eq, Structural)]
pub enum TokenError {
    /// No token of the kind that is asked for is present.
    NotPresent,
}

/// Accepts the empty token and no other.
pub fn validate_api_token(token: &str) -> (checked: Result<(), TokenError>)
    ensures
        checked is Ok <==> token@.len() == 0,
        checked is Err ==> checked == Err::<(), TokenError>(TokenError::NotPresent),
{
    if token.is_empty() {
        Ok(())
    } else {
        Err(TokenError::NotPresent)
    }
}

} // verus!
