//! Single-flight coordination: one caller per fingerprint leads, the
//! others subscribe to the leader's broadcast and wait for its outcome.

use tokio::sync::broadcast::{Receiver, Sender};
use vstd::hash_map::StringHashMap;
use vstd::prelude::*;

verus! {

/// `tokio::sync::broadcast::Sender`, carried through as an opaque value.
#[verifier::external_type_specification]
#[verifier::external_body]
#[verifier::reject_recursive_types(T)]
pub struct ExSender<T>(tokio::sync::broadcast::Sender<T>);

/// `tokio::sync::broadcast::Receiver`, carried through as an opaque value.
#[verifier::external_type_specification]
#[verifier::external_body]
#[verifier::reject_recursive_types(T)]
pub struct ExReceiver<T>(tokio::sync::broadcast::Receiver<T>);

/// How many outcomes a channel buffers. Waiters need only the final one.
pub const CHANNEL_CAPACITY: usize = 16;

/// The fingerprints that have a leader at work, each with the publishing
/// end of the leader's channel.
pub struct InflightRegistry {
    channels: StringHashMap<Sender<Result<String, String>>>,
}

impl View for InflightRegistry {
    type V = Set<Seq<char>>;

    closed spec fn view(&self) -> Set<Seq<char>> {
        self.channels@.dom()
    }
}

impl InflightRegistry {
    /// A registry with nothing in flight.
    pub fn new() -> (r: Self)
        ensures
            r@ == Set::<Seq<char>>::empty(),
    {
        InflightRegistry { channels: StringHashMap::new() }
    }

    /// Tells whether `key` has a leader at work.
    pub fn is_inflight(&self, key: &str) -> (b: bool)
        ensures
            b == self@.contains(key@),
    {
        self.channels.contains_key(key)
    }

    /// Joins the flight of `key`, or starts it.
    ///
    /// Where `key` is in flight, the caller is a follower: it gets a copy of
    /// the leader's publishing end and a new subscription to it. Otherwise
    /// the caller becomes the leader: a new channel is registered under
    /// `key`, and the caller gets its publishing end and no subscription.
    pub fn subscribe_or_create(&mut self, key: &str) -> (ticket: (
        bool,
        Sender<Result<String, String>>,
        Option<Receiver<Result<String, String>>>,
    ))
        ensures
            ticket.0 == !old(self)@.contains(key@),
            ticket.2 is Some == old(self)@.contains(key@),
            final(self)@ == old(self)@.insert(key@),
    {
        match self.channels.get(key) {
            Some(sender) => {
                let ticket = (false, another(sender), Some(subscribe(sender)));
                assert(self@.insert(key@) =~= self@);
                ticket
            },
            None => {
                let sender = open_channel(CHANNEL_CAPACITY);
                self.channels.insert(key.to_owned(), another(&sender));
                (true, sender, None)
            },
        }
    }

    /// Ends the flight of `key`.
    pub fn complete(&mut self, key: &str)
        ensures
            final(self)@ == old(self)@.remove(key@),
    {
        self.channels.remove(key);
    }
}

/// `tokio::sync::broadcast::channel`, whose receiving end is dropped at
/// once: subscribers join later through the sender. The outside function
/// panics on a capacity of zero or above `usize::MAX / 2`, which the
/// precondition excludes. Nothing is claimed of the result.
#[verifier::external_body]
fn open_channel(capacity: usize) -> (sender: Sender<Result<String, String>>)
    requires
        0 < capacity <= usize::MAX / 2,
{
    let (sender, _receiver) = tokio::sync::broadcast::channel(capacity);
    sender
}

/// `Sender::subscribe`: a receiver for what is sent from now on. The
/// outside function panics only on a channel that already has as many
/// receivers as the address space holds. Nothing is claimed of the result.
#[verifier::external_body]
fn subscribe(sender: &Sender<Result<String, String>>) -> (receiver: Receiver<
    Result<String, String>,
>) {
    sender.subscribe()
}

/// `Sender::clone`: another handle to the same channel. Nothing is claimed
/// of the result.
#[verifier::external_body]
fn another(sender: &Sender<Result<String, String>>) -> (copy: Sender<Result<String, String>>) {
    sender.clone()
}

/// `Sender::send`, whose result is dropped: with no subscriber left the
/// outcome goes nowhere, which is no failure here.
#[verifier::external_body]
pub(crate) fn publish(sender: &Sender<Result<String, String>>, outcome: Result<String, String>) {
    let _ = sender.send(outcome);
}

} // verus!
