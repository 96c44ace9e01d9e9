//! Named rooms of publish/subscribe channels, as used by the WebSocket and
//! server-sent-events hubs: a room's channel is opened by its first subscriber, and
//! a message for a room nobody ever joined reaches nobody.

use tokio::sync::broadcast::{Receiver, Sender};
use vstd::prelude::*;
use crate::keyed::KeyedStore;

verus! {

/// The sending half of a `tokio` broadcast channel.
#[verifier::external_type_specification]
#[verifier::external_body]
#[verifier::reject_recursive_types(T)]
pub struct ExSender<T>(Sender<T>);

/// The receiving half of a `tokio` broadcast channel.
#[verifier::external_type_specification]
#[verifier::external_body]
#[verifier::reject_recursive_types(T)]
pub struct ExReceiver<T>(Receiver<T>);

/// The largest capacity a channel can be opened with.
pub open spec fn max_channel_capacity() -> usize {
    (usize::MAX / 2) as usize
}

/// `tokio::sync::broadcast::channel`: a new channel holding up to `capacity`
/// messages, with one receiver. It panics on a capacity of zero or above
/// `usize::MAX / 2`, which `requires` leaves out. Nothing is stated of the halves,
/// which are opaque.
#[verifier::external_body]
fn open_channel<T: Clone>(capacity: usize) -> (Sender<T>, Receiver<T>)
    requires
        0 < capacity <= max_channel_capacity(),
{
    tokio::sync::broadcast::channel(capacity)
}

/// `Sender::subscribe`: a new receiver of the messages sent from now on. (It panics
/// when a channel already has `usize::MAX / 4` receivers, a count no process reaches;
/// that is not stated.)
#[verifier::external_body]
fn subscribe_to<T>(sender: &Sender<T>) -> Receiver<T> {
    sender.subscribe()
}

/// `Sender::send`, with the error shown as text: on success, the number of
/// receivers the message was queued for, at least one; it fails, with the text
/// `channel closed`, when the channel has no receiver.
#[verifier::external_body]
fn send_to<T>(sender: &Sender<T>, msg: T) -> (r: Result<usize, String>)
    ensures
        match r {
            Ok(n) => n >= 1,
            Err(e) => e@ == "channel closed"@,
        },
{
    sender.send(msg).map_err(|e| e.to_string())
}

/// Channels by room name.
#[verifier::reject_recursive_types(T)]
pub struct Rooms<T> {
    senders: KeyedStore<Sender<T>>,
    capacity: usize,
    sent: Ghost<Map<Seq<char>, Seq<T>>>,
}

impl<T> Rooms<T> {
    /// The channel of each room, by its sending half.
    pub closed spec fn channels(&self) -> Map<Seq<char>, Sender<T>> {
        self.senders.view_map()
    }

    /// The rooms that have a channel.
    pub open spec fn names(&self) -> Set<Seq<char>> {
        self.channels().dom()
    }

    /// The capacity each new channel is opened with.
    pub closed spec fn capacity(&self) -> usize {
        self.capacity
    }

    /// The messages handed to each room's channel so far, in order.
    pub closed spec fn sent(&self) -> Map<Seq<char>, Seq<T>> {
        self.sent@
    }

    /// The messages handed to `room`'s channel so far; none for a room never used.
    pub open spec fn sent_to(&self, room: Seq<char>) -> Seq<T> {
        if self.sent().contains_key(room) {
            self.sent()[room]
        } else {
            Seq::empty()
        }
    }

    /// The room table is well formed.
    #[verifier::type_invariant]
    spec fn wf(&self) -> bool {
        self.senders.wf()
    }
}

impl<T: Clone> Rooms<T> {
    /// No rooms yet; channels will hold up to `capacity` messages.
    pub fn new(capacity: usize) -> (rooms: Self)
        ensures
            rooms.names() == Set::<Seq<char>>::empty(),
            rooms.capacity() == capacity,
            rooms.sent() == Map::<Seq<char>, Seq<T>>::empty(),
    {
        let rooms = Rooms { senders: KeyedStore::new(), capacity, sent: Ghost(Map::empty()) };
        assert(rooms.names() =~= Set::<Seq<char>>::empty());
        rooms
    }

    /// A receiver for `room`: a room that has a channel keeps it, so the new receiver
    /// joins its earlier subscribers; a room without one gets a new channel, and no
    /// other room changes.
    pub fn subscribe(&mut self, room: &str) -> (rx: Receiver<T>)
        requires
            0 < old(self).capacity() <= max_channel_capacity(),
        ensures
            final(self).names() == old(self).names().insert(room@),
            old(self).names().contains(room@) ==> final(self).channels() == old(self).channels(),
            final(self).channels().remove(room@) == old(self).channels().remove(room@),
            final(self).sent() == old(self).sent(),
            final(self).capacity() == old(self).capacity(),
    {
        proof {
            use_type_invariant(&*self);
        }
        match self.senders.get_ref(room) {
            Some(sender) => {
                let rx = subscribe_to(sender);
                assert(self.names() =~= old(self).names().insert(room@));
                assert(self.channels().remove(room@) =~= old(self).channels().remove(room@));
                rx
            },
            None => {
                let (sender, rx) = open_channel(self.capacity);
                let mut table = KeyedStore::new();
                std::mem::swap(&mut table, &mut self.senders);
                table.insert(room, sender);
                std::mem::swap(&mut table, &mut self.senders);
                assert(self.names() =~= old(self).names().insert(room@));
                assert(self.channels().remove(room@) =~= old(self).channels().remove(room@));
                rx
            },
        }
    }
}

impl<T> Rooms<T> {
    /// Sends `msg` to the subscribers of `room`, once: a room with a channel has `msg`
    /// appended to the messages handed to it, and the result is the number of
    /// receivers it was queued for, or the channel's error when every receiver of the
    /// room is gone; a room without a channel gets nothing and the result is zero. No
    /// room's channel changes. (`msg` is moved, and the message type need not be
    /// `Clone` here, so it cannot be sent twice.)
    pub fn broadcast(&mut self, room: &str, msg: T) -> (r: Result<usize, String>)
        ensures
            final(self).channels() == old(self).channels(),
            final(self).capacity() == old(self).capacity(),
            !old(self).names().contains(room@) ==> r == Ok::<usize, String>(0) && final(self).sent()
                == old(self).sent(),
            old(self).names().contains(room@) ==> final(self).sent() == old(self).sent().insert(
                room@,
                old(self).sent_to(room@).push(msg),
            ),
            old(self).names().contains(room@) ==> match r {
                Ok(n) => n >= 1,
                Err(e) => e@ == "channel closed"@,
            },
    {
        proof {
            use_type_invariant(&*self);
        }
        let ghost m = msg;
        let ghost before = self.sent@;
        let ghost log = self.sent_to(room@);
        match self.senders.get_ref(room) {
            Some(sender) => {
                let r = send_to(sender, msg);
                self.sent = Ghost(before.insert(room@, log.push(m)));
                r
            },
            None => Ok(0),
        }
    }
}

} // verus!
