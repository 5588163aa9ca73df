use vstd::prelude::*;

verus! {

/// crossbeam_channel's sending half of a channel, opaque to verification.
#[verifier::external_type_specification]
#[verifier::external_body]
#[verifier::reject_recursive_types(T)]
pub struct ExSender<T>(crossbeam_channel::Sender<T>);

/// crossbeam_channel's receiving half of a channel, opaque to verification.
#[verifier::external_type_specification]
#[verifier::external_body]
#[verifier::reject_recursive_types(T)]
pub struct ExReceiver<T>(crossbeam_channel::Receiver<T>);

/// Relies on crossbeam_channel::Sender::send: blocks until the channel
/// accepts the message; a disconnected channel hands the message back.
#[verifier::external_body]
pub(crate) fn chan_send<T>(s: &crossbeam_channel::Sender<T>, msg: T) -> (r: Option<T>)
    ensures
        r matches Some(m) ==> m == msg,
{
    match s.send(msg) {
        Ok(()) => None,
        Err(crossbeam_channel::SendError(m)) => Some(m),
    }
}

/// Relies on crossbeam_channel::Sender::try_send: never blocks; a full or
/// disconnected channel hands the message back.
#[verifier::external_body]
pub(crate) fn chan_try_send<T>(s: &crossbeam_channel::Sender<T>, msg: T) -> (r: Option<T>)
    ensures
        r matches Some(m) ==> m == msg,
{
    match s.try_send(msg) {
        Ok(()) => None,
        Err(crossbeam_channel::TrySendError::Full(m)) => Some(m),
        Err(crossbeam_channel::TrySendError::Disconnected(m)) => Some(m),
    }
}

/// Relies on crossbeam_channel::Receiver::recv: blocks until a message
/// arrives; yields nothing once the channel is empty and disconnected.
#[verifier::external_body]
pub(crate) fn chan_recv<T>(r: &crossbeam_channel::Receiver<T>) -> (m: Option<T>) {
    match r.recv() {
        Ok(v) => Some(v),
        Err(_) => None,
    }
}

/// Relies on crossbeam_channel::Receiver::try_recv: never blocks; yields
/// nothing when no message is waiting.
#[verifier::external_body]
pub(crate) fn chan_try_recv<T>(r: &crossbeam_channel::Receiver<T>) -> (m: Option<T>) {
    match r.try_recv() {
        Ok(v) => Some(v),
        Err(_) => None,
    }
}

} // verus!
