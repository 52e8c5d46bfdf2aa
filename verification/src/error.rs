//! The errors that end a session.

use vstd::prelude::*;

verus! {

/// `wtx::Error`, the error type of the transport library, made known so that
/// it can be carried through. Nothing is stated of what is in it.
#[verifier::external_type_specification]
#[verifier::external_body]
pub struct ExCollaboratorError(wtx::Error);

/// Why a pool operation or a session ended in failure. None of them is
/// retried, and none reaches beyond the session it occurred in.
#[derive(Debug)]
pub enum ChatError {
    /// The pool holds no mailbox for the participant addressed: the partner
    /// has left, or the pair was torn down already.
    ClosedConnection,
    /// The connection handed in something that is neither text nor a close
    /// signal.
    UnexpectedFrame,
    /// No id is left to give to a new participant: the highest one there is
    /// has been issued.
    IdsExhausted,
    /// An error of a collaborator, passed on as it came.
    Collaborator(wtx::Error),
}

} // verus!
