//! The trusted boundary around the request and response channels.

use crate::error::Error;
use crate::sql_daemon::{DataCall, DataRet};
use vstd::prelude::*;

verus! {

/// Declares the request channel's sending end.
#[verifier::external_type_specification]
#[verifier::external_body]
#[verifier::reject_recursive_types(T)]
pub struct ExSender<T>(std::sync::mpsc::Sender<T>);

/// Declares the response channel's receiving end.
#[verifier::external_type_specification]
#[verifier::external_body]
#[verifier::reject_recursive_types(T)]
pub struct ExReceiver<T>(std::sync::mpsc::Receiver<T>);

/// Relies on `std::sync::mpsc::Sender::send`: the request is queued for
/// the receiving worker; sending fails only when the receiver is gone.
#[verifier::external_body]
pub(crate) fn chan_send(
    tx: &std::sync::mpsc::Sender<DataCall>,
    call: DataCall,
) -> (r: Result<(), Error>)
    ensures
        r matches Err(e) ==> e is ChannelClosed,
{
    match tx.send(call) {
        Ok(()) => Ok(()),
        Err(_) => Err(Error::ChannelClosed),
    }
}

/// Relies on `std::sync::mpsc::Receiver::recv`: blocks until one response
/// arrives and hands it out; receiving fails only when every sender is
/// gone. Nothing is assumed of the message itself: the callers handle
/// every shard index and every response variant.
#[verifier::external_body]
pub(crate) fn chan_recv(
    rx: &std::sync::mpsc::Receiver<(u32, DataRet)>,
) -> (r: Result<(u32, DataRet), Error>)
    ensures
        r matches Err(e) ==> e is ChannelClosed,
{
    match rx.recv() {
        Ok(v) => Ok(v),
        Err(_) => Err(Error::ChannelClosed),
    }
}

} // verus!
