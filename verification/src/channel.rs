//! Signaling channels: broadcast channels of the `tokio` crate, one per file.

use crate::model::{SignalMsg, SignalView};
use tokio::sync::broadcast::{Receiver, Sender};
use vstd::prelude::*;

verus! {

/// `tokio::sync::broadcast::Sender`.
#[verifier::external_type_specification]
#[verifier::external_body]
#[verifier::reject_recursive_types(T)]
pub struct ExSender<T>(Sender<T>);

/// `tokio::sync::broadcast::Receiver`.
#[verifier::external_type_specification]
#[verifier::external_body]
#[verifier::reject_recursive_types(T)]
pub struct ExReceiver<T>(Receiver<T>);

/// The number of messages that a channel was made to hold.
pub uninterp spec fn channel_capacity(channel: Sender<SignalMsg>) -> nat;

/// Which channel a sender sends on.
pub uninterp spec fn sender_channel(channel: Sender<SignalMsg>) -> int;

/// Which channel a receiver listens to.
pub uninterp spec fn receiver_channel(heard: Receiver<SignalMsg>) -> int;

/// A channel: which one it is, and what it was made to hold.
#[verifier::ext_equal]
pub struct ChannelView {
    pub identity: int,
    pub capacity: nat,
}

/// The channel that a sender sends on.
pub open spec fn channel_of(channel: Sender<SignalMsg>) -> ChannelView {
    ChannelView { identity: sender_channel(channel), capacity: channel_capacity(channel) }
}

/// A message that is to be sent, and the channel that it is to be sent on.
#[derive(Debug)]
pub struct Outgoing {
    /// Sends on the channel.
    pub channel: Sender<SignalMsg>,
    /// The message.
    pub msg: SignalMsg,
}

impl Outgoing {
    /// Whether this is the message `msg`, for the channel `channel`.
    pub open spec fn carries(self, msg: SignalView, channel: ChannelView) -> bool {
        &&& self.msg@ == msg
        &&& channel_of(self.channel) == channel
    }
}

/// `Sender::clone`. The copy is claimed to send on the same channel.
#[verifier::external_body]
pub(crate) fn same_channel(channel: &Sender<SignalMsg>) -> (copy: Sender<SignalMsg>)
    ensures
        sender_channel(copy) == sender_channel(*channel),
        channel_capacity(copy) == channel_capacity(*channel),
{
    channel.clone()
}

/// `Sender::subscribe`. The receiver is claimed to listen to the channel that
/// the sender sends on. What it hears is what is sent there from now on, which
/// is not stated. Tokio takes for granted that a channel has fewer listeners
/// than a quarter of all numbers of the machine's word.
#[verifier::external_body]
pub(crate) fn listener(channel: &Sender<SignalMsg>) -> (heard: Receiver<SignalMsg>)
    ensures
        receiver_channel(heard) == sender_channel(*channel),
{
    channel.subscribe()
}

/// Another sender for the same channel.
pub fn another_sender(channel: &Sender<SignalMsg>) -> (copy: Sender<SignalMsg>)
    ensures
        channel_of(copy) == channel_of(*channel),
{
    same_channel(channel)
}

} // verus!
