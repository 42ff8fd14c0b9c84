//! Support for the channel providers the hive can run on. Any unbounded
//! MPMC channel with blocking receive and a three-way non-blocking receive
//! satisfies the contract; the supported providers are adapted to one
//! interface here.

use vstd::prelude::*;

verus! {

/// Possible results of calling `ReceiverExt::try_recv_msg()` on a receiver.
pub enum Message<T> {
    Received(T),
    ChannelDisconnected,
    ChannelEmpty,
}

/// Trait implemented for all channel `Receiver` types that standardizes
/// non-blocking `recv()`. What comes back depends on the peers' timing, so
/// nothing more is promised of the result.
pub trait ReceiverExt<T> {
    fn try_recv_msg(&self) -> Message<T>;
}

/// Trait implemented for channel `Receiver` types that drains the channel:
/// it blocks for each value in turn and ends when all senders are gone.
pub trait ReceiverIter<T>: Sized {
    fn iter(self) -> Vec<T>;
}

#[verifier::external_type_specification]
#[verifier::external_body]
#[verifier::reject_recursive_types(T)]
pub struct ExCrossbeamReceiver<T>(crossbeam_channel::Receiver<T>);

#[verifier::external_type_specification]
#[verifier::external_body]
#[verifier::reject_recursive_types(T)]
pub struct ExFlumeReceiver<T>(flume::Receiver<T>);

#[verifier::external_type_specification]
#[verifier::external_body]
#[verifier::reject_recursive_types(T)]
pub struct ExKanalReceiver<T>(kanal::Receiver<T>);

#[verifier::external_type_specification]
#[verifier::external_body]
#[verifier::reject_recursive_types(T)]
pub struct ExLooleReceiver<T>(loole::Receiver<T>);

/// Relies on `crossbeam_channel::Receiver::try_recv`: maps its three-way
/// result onto `Message`, variant for variant.
#[verifier::external_body]
fn crossbeam_try_recv_msg<T>(receiver: &crossbeam_channel::Receiver<T>) -> Message<T> {
    match receiver.try_recv() {
        Ok(t) => Message::Received(t),
        Err(crossbeam_channel::TryRecvError::Empty) => Message::ChannelEmpty,
        Err(crossbeam_channel::TryRecvError::Disconnected) => Message::ChannelDisconnected,
    }
}

/// Relies on `flume::Receiver::try_recv`: maps its three-way result onto
/// `Message`, variant for variant.
#[verifier::external_body]
fn flume_try_recv_msg<T>(receiver: &flume::Receiver<T>) -> Message<T> {
    match receiver.try_recv() {
        Ok(t) => Message::Received(t),
        Err(flume::TryRecvError::Empty) => Message::ChannelEmpty,
        Err(flume::TryRecvError::Disconnected) => Message::ChannelDisconnected,
    }
}

/// Relies on `kanal::Receiver::try_recv`: `Ok(Some)` carries a value,
/// `Ok(None)` means the channel is empty, and an error means it closed.
#[verifier::external_body]
fn kanal_try_recv_msg<T>(receiver: &kanal::Receiver<T>) -> Message<T> {
    match receiver.try_recv() {
        Ok(Some(t)) => Message::Received(t),
        Ok(None) => Message::ChannelEmpty,
        Err(_) => Message::ChannelDisconnected,
    }
}

/// Relies on `loole::Receiver::try_recv`: maps its three-way result onto
/// `Message`, variant for variant.
#[verifier::external_body]
fn loole_try_recv_msg<T>(receiver: &loole::Receiver<T>) -> Message<T> {
    match receiver.try_recv() {
        Ok(t) => Message::Received(t),
        Err(loole::TryRecvError::Empty) => Message::ChannelEmpty,
        Err(loole::TryRecvError::Disconnected) => Message::ChannelDisconnected,
    }
}

impl<T> ReceiverExt<T> for crossbeam_channel::Receiver<T> {
    fn try_recv_msg(&self) -> Message<T> {
        crossbeam_try_recv_msg(self)
    }
}

impl<T> ReceiverExt<T> for flume::Receiver<T> {
    fn try_recv_msg(&self) -> Message<T> {
        flume_try_recv_msg(self)
    }
}

impl<T> ReceiverExt<T> for kanal::Receiver<T> {
    fn try_recv_msg(&self) -> Message<T> {
        kanal_try_recv_msg(self)
    }
}

impl<T> ReceiverExt<T> for loole::Receiver<T> {
    fn try_recv_msg(&self) -> Message<T> {
        loole_try_recv_msg(self)
    }
}

/// Relies on `crossbeam_channel::Receiver::into_iter`: blocks for each
/// value in turn and ends once all senders are gone and the channel is
/// drained; the values come in arrival order.
#[verifier::external_body]
fn crossbeam_drain<T>(receiver: crossbeam_channel::Receiver<T>) -> Vec<T> {
    receiver.into_iter().collect()
}

impl<T> ReceiverIter<T> for crossbeam_channel::Receiver<T> {
    fn iter(self) -> Vec<T> {
        crossbeam_drain(self)
    }
}

/// Relies on `kanal::Receiver`'s own `Iterator` impl, whose `next` is
/// `recv().ok()`: blocks for each value in turn and ends once the channel
/// closes; the values come in arrival order.
#[verifier::external_body]
fn kanal_drain<T>(receiver: kanal::Receiver<T>) -> Vec<T> {
    receiver.collect()
}

impl<T> ReceiverIter<T> for kanal::Receiver<T> {
    fn iter(self) -> Vec<T> {
        kanal_drain(self)
    }
}

} // verus!
