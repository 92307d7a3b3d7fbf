//! The per-connection decision: what one decode outcome means for the
//! connection's life.

use vstd::prelude::*;

verus! {

use crate::resp::DecodeError;

/// What the connection loop does next: answer the request, close the
/// socket cleanly, or shut it down on a broken frame.
#[derive(Debug, PartialEq, Eq, Structural, Clone, Copy)]
pub enum HandlerAction {
    Reply,
    CloseClean,
    CloseError,
}

/// A whole frame is answered; a closed stream ends the connection
/// quietly; a malformed frame shuts it down with an error.
pub fn handler_action(outcome: &Result<(crate::resp::Data, usize), DecodeError>) -> (r:
    HandlerAction)
    ensures
        r == (match outcome {
            Ok(_) => HandlerAction::Reply,
            Err(DecodeError::ConnectionClosed) => HandlerAction::CloseClean,
            Err(DecodeError::ProtocolError) => HandlerAction::CloseError,
        }),
{
    match outcome {
        Ok(_) => HandlerAction::Reply,
        Err(DecodeError::ConnectionClosed) => HandlerAction::CloseClean,
        Err(DecodeError::ProtocolError) => HandlerAction::CloseError,
    }
}

} // verus!
