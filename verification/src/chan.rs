//! The signaling channel between the embedder and a running session:
//! tokio's unbounded sender, declared for the verifier, with the one
//! call the engine makes on it.

use vstd::prelude::*;

verus! {

#[verifier::external_type_specification]
#[verifier::external_body]
#[verifier::reject_recursive_types(T)]
pub struct ExUnboundedSender<T>(tokio::sync::mpsc::UnboundedSender<T>);

/// Relies on tokio's `UnboundedSender::send`: it queues the message for
/// the receiver half and returns `Ok`, or hands the message back inside
/// the error when the receiver half has been closed.
#[verifier::external_body]
pub fn send_msg<T>(tx: &tokio::sync::mpsc::UnboundedSender<T>, msg: T) -> (r: Result<(), T>)
    ensures
        r matches Err(m) ==> m == msg,
{
    match tx.send(msg) {
        Ok(()) => Ok(()),
        Err(e) => Err(e.0),
    }
}

} // verus!
