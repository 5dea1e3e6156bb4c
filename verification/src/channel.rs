//! Trusted declarations of the tokio channel endpoints that the leader core
//! holds, and wrappers for the calls it makes on them.
//!
//! The channel values themselves are opaque to verification; nothing is
//! assumed of delivery. The wrappers only hand messages over.

use vstd::prelude::*;

verus! {

#[verifier::external_type_specification]
#[verifier::external_body]
#[verifier::reject_recursive_types(T)]
pub struct ExUnboundedSender<T>(tokio::sync::mpsc::UnboundedSender<T>);

#[verifier::external_type_specification]
#[verifier::external_body]
#[verifier::reject_recursive_types(T)]
pub struct ExOneshotSender<T>(tokio::sync::oneshot::Sender<T>);

#[verifier::external_type_specification]
#[verifier::external_body]
#[verifier::reject_recursive_types(T)]
pub struct ExBroadcastSender<T>(tokio::sync::broadcast::Sender<T>);

#[verifier::external_type_specification]
#[verifier::external_body]
#[verifier::reject_recursive_types(T)]
pub struct ExBroadcastReceiver<T>(tokio::sync::broadcast::Receiver<T>);

#[verifier::external_type_specification]
#[verifier::external_body]
#[verifier::reject_recursive_types(T)]
pub struct ExJoinHandle<T>(tokio::task::JoinHandle<T>);

#[verifier::external_type_specification]
#[verifier::external_body]
pub struct ExJoinError(tokio::task::JoinError);

/// Relies on tokio's `mpsc::UnboundedSender::send`: hands the message to the
/// channel, reporting whether the receiving half was still open.
#[verifier::external_body]
pub(crate) fn unbounded_send<T>(tx: &tokio::sync::mpsc::UnboundedSender<T>, message: T) -> bool {
    tx.send(message).is_ok()
}

/// Relies on tokio's `oneshot::Sender::send`: consumes the sender, so a
/// one-shot completion can be delivered at most once, and reports whether the
/// receiving half was still open.
#[verifier::external_body]
pub(crate) fn oneshot_send<T>(tx: tokio::sync::oneshot::Sender<T>, value: T) -> bool {
    tx.send(value).is_ok()
}

/// Relies on tokio's `broadcast::Sender::subscribe`: hands back a fresh
/// receiver on the same broadcast channel.
#[verifier::external_body]
pub(crate) fn broadcast_subscribe<T: Clone>(tx: &tokio::sync::broadcast::Sender<T>) -> tokio::sync::broadcast::Receiver<T> {
    tx.subscribe()
}

} // verus!
