//! The distribution hub: the table of peers and the fan-out of messages.
//!
//! The hub is a plain value. Where several threads share it, they do so
//! behind one lock, and every method here is one critical section: none of
//! them waits for a peer.

use crate::channel::offer;
use crate::table::{
    distinct_keys, has_key, lemma_entry, lemma_len, lemma_prefix_step, lemma_push, lemma_remove,
    table,
};
use futures_channel::mpsc::UnboundedSender;
use vstd::prelude::*;

verus! {

/// The identity of a peer: the address of a connection, or a number for a
/// peer that is no connection.
#[derive(Clone, Copy, Debug, PartialEq, Eq, Hash, Structural)]
pub enum PeerId {
    /// An IPv4 socket address: the four octets as one number, and the port.
    V4 { ip4: u32, port4: u16 },
    /// An IPv6 socket address: the sixteen octets as one number, the port,
    /// the flow information and the scope.
    V6 { ip6: u128, port6: u16, flow: u32, scope: u32 },
    /// A peer inside the process, such as the recorder.
    Local(u32),
}

/// One attempt to hand a message to a peer.
#[derive(Clone, Copy, Debug, PartialEq, Eq, Structural)]
pub struct Delivery {
    /// The peer that the message was offered to.
    pub peer: PeerId,
    /// Whether the peer's channel took the message.
    pub accepted: bool,
}

/// The peers whose channel refused a message in one of `deliveries`.
pub open spec fn refused(deliveries: Seq<Delivery>) -> Set<PeerId> {
    Set::new(
        |id: PeerId|
            exists|i: int|
                0 <= i < deliveries.len() && (#[trigger] deliveries[i]).peer == id
                    && !deliveries[i].accepted,
    )
}

/// Every peer of `peers` was offered the message exactly once, and nobody
/// else.
pub open spec fn covers(deliveries: Seq<Delivery>, peers: Set<PeerId>) -> bool {
    &&& forall|id: PeerId| #[trigger]
        peers.contains(id) <==> exists|i: int|
            0 <= i < deliveries.len() && (#[trigger] deliveries[i]).peer == id
    &&& forall|i: int, j: int|
        0 <= i < j < deliveries.len() ==> (#[trigger] deliveries[i]).peer != (
        #[trigger] deliveries[j]).peer
}

/// The table of peers, each with the sending end of its channel.
pub struct DistributionHub {
    peers: Vec<(PeerId, UnboundedSender<String>)>,
}

impl View for DistributionHub {
    type V = Map<PeerId, UnboundedSender<String>>;

    closed spec fn view(&self) -> Map<PeerId, UnboundedSender<String>> {
        table(self.peers@)
    }
}

impl DistributionHub {
    #[verifier::type_invariant]
    spec fn valid(self) -> bool {
        distinct_keys(self.peers@)
    }

    /// A hub without peers.
    pub fn new() -> (hub: DistributionHub)
        ensures
            hub@ == Map::<PeerId, UnboundedSender<String>>::empty(),
    {
        let hub = DistributionHub { peers: Vec::new() };
        proof {
            assert(hub@ =~= Map::<PeerId, UnboundedSender<String>>::empty());
        }
        hub
    }

    fn find(&self, id: PeerId) -> (at: Option<usize>)
        ensures
            at is Some ==> at->0 < self.peers@.len() && self.peers@[at->0 as int].0 == id,
            at is None ==> !has_key(self.peers@, id),
    {
        let mut i: usize = 0;
        while i < self.peers.len()
            invariant
                i <= self.peers.len(),
                !has_key(self.peers@.take(i as int), id),
            decreases self.peers.len() - i,
        {
            if self.peers[i].0 == id {
                return Some(i);
            }
            proof {
                lemma_prefix_step(self.peers@, i as int, id);
            }
            i += 1;
        }
        proof {
            assert(self.peers@.take(i as int) =~= self.peers@);
        }
        None
    }

    /// Adds a peer. Where the identity is registered already, the new channel
    /// takes the place of the old one.
    pub fn register(&mut self, id: PeerId, channel: UnboundedSender<String>)
        ensures
            final(self)@ == old(self)@.insert(id, channel),
    {
        let _ = self.unregister(id);
        proof {
            use_type_invariant(&*self);
            lemma_push(self.peers@, id, channel);
            assert(old(self)@.remove(id).insert(id, channel) =~= old(self)@.insert(id, channel));
        }
        let mut peers: Vec<(PeerId, UnboundedSender<String>)> = Vec::new();
        core::mem::swap(&mut self.peers, &mut peers);
        peers.push((id, channel));
        self.peers = peers;
    }

    /// Removes a peer and says whether it was there. Removing a peer that is
    /// not registered changes nothing.
    pub fn unregister(&mut self, id: PeerId) -> (removed: bool)
        ensures
            removed == old(self)@.contains_key(id),
            final(self)@ == old(self)@.remove(id),
            !final(self)@.contains_key(id),
    {
        proof {
            use_type_invariant(&*self);
        }
        match self.find(id) {
            Some(at) => {
                proof {
                    lemma_entry(self.peers@, at as int);
                    lemma_remove(self.peers@, at as int);
                }
                let mut peers: Vec<(PeerId, UnboundedSender<String>)> = Vec::new();
                core::mem::swap(&mut self.peers, &mut peers);
                let _ = peers.remove(at);
                self.peers = peers;
                true
            },
            None => {
                proof {
                    assert(self@.remove(id) =~= self@);
                }
                false
            },
        }
    }

    /// Whether a peer is registered under `id`.
    pub fn contains(&self, id: PeerId) -> (present: bool)
        ensures
            present == self@.contains_key(id),
    {
        proof {
            use_type_invariant(self);
        }
        match self.find(id) {
            Some(at) => {
                proof {
                    lemma_entry(self.peers@, at as int);
                }
                true
            },
            None => false,
        }
    }

    /// The number of registered peers.
    pub fn len(&self) -> (count: usize)
        ensures
            self@.dom().finite(),
            count == self@.dom().len(),
    {
        proof {
            use_type_invariant(self);
            lemma_len(self.peers@);
        }
        self.peers.len()
    }

    /// Removes every peer whose channel refused a message in one of
    /// `deliveries`, and nobody else.
    pub fn settle(&mut self, deliveries: &[Delivery])
        ensures
            final(self)@ == old(self)@.remove_keys(refused(deliveries@)),
    {
        let mut i: usize = 0;
        proof {
            assert(old(self)@.remove_keys(refused(deliveries@.take(0))) =~= old(self)@);
        }
        while i < deliveries.len()
            invariant
                i <= deliveries.len(),
                self@ == old(self)@.remove_keys(refused(deliveries@.take(i as int))),
            decreases deliveries.len() - i,
        {
            let delivery = deliveries[i];
            let ghost before = refused(deliveries@.take(i as int));
            let ghost upto = refused(deliveries@.take(i + 1));
            proof {
                let short = deliveries@.take(i as int);
                let long = deliveries@.take(i + 1);
                assert(long[i as int] == delivery);
                assert forall|id: PeerId| #[trigger] upto.contains(id) <==> before.contains(id) || (
                id == delivery.peer && !delivery.accepted) by {
                    if before.contains(id) {
                        let k = choose|k: int|
                            0 <= k < short.len() && (#[trigger] short[k]).peer == id
                                && !short[k].accepted;
                        assert(long[k] == short[k]);
                    }
                    if upto.contains(id) {
                        let k = choose|k: int|
                            0 <= k < long.len() && (#[trigger] long[k]).peer == id
                                && !long[k].accepted;
                        if k < i {
                            assert(short[k] == long[k]);
                        }
                    }
                }
            }
            if !delivery.accepted {
                let _ = self.unregister(delivery.peer);
                proof {
                    assert(old(self)@.remove_keys(before).remove(delivery.peer) =~= old(
                        self,
                    )@.remove_keys(upto));
                }
            } else {
                proof {
                    assert(upto =~= before);
                }
            }
            i += 1;
        }
        proof {
            assert(deliveries@.take(i as int) =~= deliveries@);
        }
    }

    /// Offers `message` to every registered peer, without waiting for any of
    /// them, and removes the peers whose channel refused it. Returns one
    /// delivery for each peer that was registered when the call began; which
    /// of them were accepted is up to the peers.
    pub fn publish(&mut self, message: &str) -> (deliveries: Vec<Delivery>)
        ensures
            covers(deliveries@, old(self)@.dom()),
            final(self)@ == old(self)@.remove_keys(refused(deliveries@)),
    {
        proof {
            use_type_invariant(&*self);
        }
        let mut deliveries: Vec<Delivery> = Vec::new();
        let mut i: usize = 0;
        while i < self.peers.len()
            invariant
                i <= self.peers.len(),
                deliveries@.len() == i,
                forall|k: int| 0 <= k < i ==> (#[trigger] deliveries@[k]).peer == self.peers@[k].0,
            decreases self.peers.len() - i,
        {
            let accepted = offer(&self.peers[i].1, message.to_owned());
            deliveries.push(Delivery { peer: self.peers[i].0, accepted });
            i += 1;
        }
        proof {
            let peers = self.peers@;
            assert forall|id: PeerId| self@.dom().contains(id) <==> exists|k: int|
                0 <= k < deliveries@.len() && (#[trigger] deliveries@[k]).peer == id by {
                if self@.dom().contains(id) {
                    let k = choose|k: int| 0 <= k < peers.len() && (#[trigger] peers[k]).0 == id;
                    assert(deliveries@[k].peer == id);
                }
                if exists|k: int| 0 <= k < deliveries@.len() && (#[trigger] deliveries@[k]).peer == id {
                    let k = choose|k: int|
                        0 <= k < deliveries@.len() && (#[trigger] deliveries@[k]).peer == id;
                    assert(peers[k].0 == id);
                }
            }
            assert forall|a: int, b: int| 0 <= a < b < deliveries@.len() implies (
            #[trigger] deliveries@[a]).peer != (#[trigger] deliveries@[b]).peer by {
                assert(peers[a].0 != peers[b].0);
            }
        }
        self.settle(deliveries.as_slice());
        deliveries
    }
}

/// Removal is idempotent: removing a peer a second time changes nothing and
/// finds nothing to remove, and removing a peer that was never registered
/// changes nothing either.
pub proof fn lemma_unregister_idempotent(peers: Map<PeerId, UnboundedSender<String>>, id: PeerId)
    ensures
        !peers.remove(id).contains_key(id),
        peers.remove(id).remove(id) == peers.remove(id),
        !peers.contains_key(id) ==> peers.remove(id) == peers,
{
    assert(peers.remove(id).remove(id) =~= peers.remove(id));
    if !peers.contains_key(id) {
        assert(peers.remove(id) =~= peers);
    }
}

/// Registering is last-wins: of two registrations under one identity only
/// the second is left.
pub proof fn lemma_register_replaces(
    peers: Map<PeerId, UnboundedSender<String>>,
    id: PeerId,
    first: UnboundedSender<String>,
    second: UnboundedSender<String>,
)
    ensures
        peers.insert(id, first).insert(id, second) == peers.insert(id, second),
{
    assert(peers.insert(id, first).insert(id, second) =~= peers.insert(id, second));
}

/// After a message was published, every peer that is still registered was
/// offered the message and took it, and every peer that refused it is gone.
pub proof fn lemma_publish_outcome(
    before: Map<PeerId, UnboundedSender<String>>,
    deliveries: Seq<Delivery>,
    id: PeerId,
)
    requires
        covers(deliveries, before.dom()),
    ensures
        before.remove_keys(refused(deliveries)).contains_key(id) <==> exists|i: int|
            0 <= i < deliveries.len() && (#[trigger] deliveries[i]).peer == id
                && deliveries[i].accepted,
{
    let after = before.remove_keys(refused(deliveries));
    if after.contains_key(id) {
        let i = choose|i: int| 0 <= i < deliveries.len() && (#[trigger] deliveries[i]).peer == id;
        assert(deliveries[i].accepted);
    }
    if exists|i: int|
        0 <= i < deliveries.len() && (#[trigger] deliveries[i]).peer == id && deliveries[i].accepted {
        let i = choose|i: int|
            0 <= i < deliveries.len() && (#[trigger] deliveries[i]).peer == id
                && deliveries[i].accepted;
        if refused(deliveries).contains(id) {
            let j = choose|j: int|
                0 <= j < deliveries.len() && (#[trigger] deliveries[j]).peer == id
                    && !deliveries[j].accepted;
            if i < j {
                assert(deliveries[i].peer != deliveries[j].peer);
            } else if j < i {
                assert(deliveries[j].peer != deliveries[i].peer);
            }
        }
    }
}

} // verus!
