//! The queues of in-flight packets that the quality-of-service handshakes
//! keep, and the operations on them.

use std::collections::VecDeque;
use vstd::prelude::*;

use crate::packet::{publishes_view, PacketIdentifier, Publish, PublishView, QoS};

verus! {

/// The packet identifiers that the publishes of a queue carry, in order.
pub open spec fn pids(queue: Seq<PublishView>) -> Seq<Option<PacketIdentifier>> {
    queue.map_values(|p: PublishView| p.pid)
}

/// Position of the first publish of `queue` that carries `pkid`.
pub open spec fn position_of(queue: Seq<PublishView>, pkid: PacketIdentifier) -> Option<int> {
    pids(queue).index_of_first(Some(pkid))
}

/// The first publish of `queue` that carries `pkid`.
pub open spec fn publish_with(queue: Seq<PublishView>, pkid: PacketIdentifier) -> Option<
    PublishView,
> {
    match position_of(queue, pkid) {
        Some(i) => Some(queue[i]),
        None => None,
    }
}

/// `queue` without the first publish that carries `pkid`.
pub open spec fn without_pid(queue: Seq<PublishView>, pkid: PacketIdentifier) -> Seq<
    PublishView,
> {
    match position_of(queue, pkid) {
        Some(i) => queue.remove(i),
        None => queue,
    }
}

/// `queue` after each identifier of `acks` in turn took out the first
/// publish that carries it.
pub open spec fn ack_all(queue: Seq<PublishView>, acks: Seq<PacketIdentifier>) -> Seq<PublishView>
    decreases acks.len(),
{
    if acks.len() == 0 {
        queue
    } else {
        without_pid(ack_all(queue, acks.drop_last()), acks.last())
    }
}

/// What `position_of` returns: the first matching position, or nothing when
/// no publish of the queue carries the identifier.
pub proof fn lemma_position_of(queue: Seq<PublishView>, pkid: PacketIdentifier)
    ensures
        match position_of(queue, pkid) {
            Some(i) => {
                &&& 0 <= i < queue.len()
                &&& queue[i].pid == Some(pkid)
                &&& forall|j: int| 0 <= j < i ==> (#[trigger] queue[j]).pid != Some(pkid)
            },
            None => forall|j: int| 0 <= j < queue.len() ==> (#[trigger] queue[j]).pid != Some(pkid),
        },
{
    let ps = pids(queue);
    ps.index_of_first_ensures(Some(pkid));
    match position_of(queue, pkid) {
        Some(i) => {
            assert forall|j: int| 0 <= j < i implies (#[trigger] queue[j]).pid != Some(pkid) by {
                assert(ps[j] != Some(pkid));
            }
        },
        None => {
            assert forall|j: int| 0 <= j < queue.len() implies (#[trigger] queue[j]).pid != Some(
                pkid,
            ) by {
                assert(ps[j] == queue[j].pid);
            }
        },
    }
}

/// The first matching position is the only position that matches and has no
/// match before it.
pub proof fn lemma_position_of_is(queue: Seq<PublishView>, pkid: PacketIdentifier, i: int)
    requires
        0 <= i < queue.len(),
        queue[i].pid == Some(pkid),
        forall|j: int| 0 <= j < i ==> (#[trigger] queue[j]).pid != Some(pkid),
    ensures
        position_of(queue, pkid) == Some(i),
{
    lemma_position_of(queue, pkid);
}

/// Mathematical value of a [`BrokerState`].
pub struct BrokerStateView {
    pub incoming_pub: Seq<PublishView>,
    pub incoming_rec: Seq<PublishView>,
    pub incoming_rel: Seq<PacketIdentifier>,
    pub incoming_comp: Seq<PacketIdentifier>,
}

impl BrokerStateView {
    /// The state with nothing in flight.
    pub open spec fn empty() -> BrokerStateView {
        BrokerStateView {
            incoming_pub: Seq::empty(),
            incoming_rec: Seq::empty(),
            incoming_rel: Seq::empty(),
            incoming_comp: Seq::empty(),
        }
    }

    /// `publish` goes to the end of the publish queue.
    pub open spec fn store_publish(self, publish: PublishView) -> BrokerStateView {
        BrokerStateView { incoming_pub: self.incoming_pub.push(publish), ..self }
    }

    /// The first publish under `pkid` leaves the publish queue.
    pub open spec fn remove_publish(self, pkid: PacketIdentifier) -> BrokerStateView {
        BrokerStateView { incoming_pub: without_pid(self.incoming_pub, pkid), ..self }
    }

    /// `publish` goes to the end of the record queue.
    pub open spec fn store_record(self, publish: PublishView) -> BrokerStateView {
        BrokerStateView { incoming_rec: self.incoming_rec.push(publish), ..self }
    }

    /// The first publish under `pkid` leaves the record queue.
    pub open spec fn remove_record(self, pkid: PacketIdentifier) -> BrokerStateView {
        BrokerStateView { incoming_rec: without_pid(self.incoming_rec, pkid), ..self }
    }

    /// The position that `pkid` has in the publish queue, where the record
    /// queue reaches that far.
    pub open spec fn record_at_publish(self, pkid: PacketIdentifier) -> Option<int> {
        match position_of(self.incoming_pub, pkid) {
            Some(i) => if i < self.incoming_rec.len() {
                Some(i)
            } else {
                None
            },
            None => None,
        }
    }

    /// The record at the position that `pkid` has in the publish queue leaves
    /// the record queue.
    pub open spec fn remove_record_at_publish(self, pkid: PacketIdentifier) -> BrokerStateView {
        match self.record_at_publish(pkid) {
            Some(i) => BrokerStateView { incoming_rec: self.incoming_rec.remove(i), ..self },
            None => self,
        }
    }

    /// `pkid` goes to the end of the release queue.
    pub open spec fn store_rel(self, pkid: PacketIdentifier) -> BrokerStateView {
        BrokerStateView { incoming_rel: self.incoming_rel.push(pkid), ..self }
    }

    /// The first entry of `pkid` leaves the release queue.
    pub open spec fn remove_rel(self, pkid: PacketIdentifier) -> BrokerStateView {
        BrokerStateView { incoming_rel: self.incoming_rel.remove_value(pkid), ..self }
    }

    /// `pkid` goes to the end of the completion queue.
    pub open spec fn store_comp(self, pkid: PacketIdentifier) -> BrokerStateView {
        BrokerStateView { incoming_comp: self.incoming_comp.push(pkid), ..self }
    }

    /// The first entry of `pkid` leaves the completion queue.
    pub open spec fn remove_comp(self, pkid: PacketIdentifier) -> BrokerStateView {
        BrokerStateView { incoming_comp: self.incoming_comp.remove_value(pkid), ..self }
    }

    /// Every queue holds only what it is named for: the publish queue holds
    /// publishes at `AtLeastOnce`, the record queue publishes at `ExactlyOnce`,
    /// and each of them carries a packet identifier.
    pub open spec fn well_kept(self) -> bool {
        &&& forall|i: int|
            0 <= i < self.incoming_pub.len() ==> {
                &&& (#[trigger] self.incoming_pub[i]).qos == QoS::AtLeastOnce
                &&& self.incoming_pub[i].pid is Some
            }
        &&& forall|i: int|
            0 <= i < self.incoming_rec.len() ==> {
                &&& (#[trigger] self.incoming_rec[i]).qos == QoS::ExactlyOnce
                &&& self.incoming_rec[i].pid is Some
            }
    }
}

/// In-flight state of the quality-of-service handshakes.
#[derive(Debug)]
pub struct BrokerState {
    /// For QoS 1: publishes that wait for their PUBACK.
    pub incoming_pub: VecDeque<Box<Publish>>,
    /// For QoS 2: publishes that wait for their PUBREC or PUBREL.
    pub incoming_rec: VecDeque<Box<Publish>>,
    /// For QoS 2: identifiers of releases that wait for their PUBCOMP.
    pub incoming_rel: VecDeque<PacketIdentifier>,
    /// For QoS 2: identifiers of completions.
    pub incoming_comp: VecDeque<PacketIdentifier>,
}

impl View for BrokerState {
    type V = BrokerStateView;

    open spec fn view(&self) -> BrokerStateView {
        BrokerStateView {
            incoming_pub: publishes_view(self.incoming_pub@),
            incoming_rec: publishes_view(self.incoming_rec@),
            incoming_rel: self.incoming_rel@,
            incoming_comp: self.incoming_comp@,
        }
    }
}

/// Position of the first publish of `queue` that carries `pkid`.
fn find_publish(queue: &VecDeque<Box<Publish>>, pkid: PacketIdentifier) -> (res: Option<usize>)
    ensures
        match res {
            Some(i) => position_of(publishes_view(queue@), pkid) == Some(i as int),
            None => position_of(publishes_view(queue@), pkid) is None,
        },
{
    let ghost q = publishes_view(queue@);
    let mut i: usize = 0;
    while i < queue.len()
        invariant
            i <= queue.len(),
            q == publishes_view(queue@),
            forall|j: int| 0 <= j < i ==> (#[trigger] q[j]).pid != Some(pkid),
        decreases queue.len() - i,
    {
        let found = match queue[i].pid {
            Some(p) => p == pkid,
            None => false,
        };
        if found {
            proof {
                lemma_position_of_is(q, pkid, i as int);
            }
            return Some(i);
        }
        i += 1;
    }
    proof {
        lemma_position_of(q, pkid);
    }
    None
}

/// Position of the first occurrence of `pkid` in `queue`.
fn find_pkid(queue: &VecDeque<PacketIdentifier>, pkid: PacketIdentifier) -> (res: Option<usize>)
    ensures
        match res {
            Some(i) => queue@.index_of_first(pkid) == Some(i as int),
            None => queue@.index_of_first(pkid) is None,
        },
{
    let mut i: usize = 0;
    while i < queue.len()
        invariant
            i <= queue.len(),
            forall|j: int| 0 <= j < i ==> queue@[j] != pkid,
        decreases queue.len() - i,
    {
        if queue[i] == pkid {
            proof {
                queue@.index_of_first_ensures(pkid);
            }
            return Some(i);
        }
        i += 1;
    }
    proof {
        queue@.index_of_first_ensures(pkid);
    }
    None
}

/// Takes the publish at position `i` out of `queue`, if the queue reaches
/// that far.
fn take_publish(queue: &mut VecDeque<Box<Publish>>, i: usize) -> (res: Option<Box<Publish>>)
    ensures
        match res {
            Some(p) => {
                &&& i < old(queue)@.len()
                &&& p@ == publishes_view(old(queue)@)[i as int]
                &&& publishes_view(final(queue)@) == publishes_view(old(queue)@).remove(i as int)
            },
            None => {
                &&& old(queue)@.len() <= i
                &&& final(queue)@ == old(queue)@
            },
        },
{
    let res = queue.remove(i);
    proof {
        if res is Some {
            assert(publishes_view(queue@) =~= publishes_view(old(queue)@).remove(i as int));
        }
    }
    res
}

impl BrokerState {
    /// A state with nothing in flight.
    pub fn new() -> (res: Self)
        ensures
            res@ == BrokerStateView::empty(),
    {
        let res = BrokerState {
            incoming_pub: VecDeque::new(),
            incoming_rec: VecDeque::new(),
            incoming_rel: VecDeque::new(),
            incoming_comp: VecDeque::new(),
        };
        assert(res@.incoming_pub =~= Seq::empty());
        assert(res@.incoming_rec =~= Seq::empty());
        res
    }

    /// Appends a publish to the publish queue.
    pub fn store_publish(&mut self, publish: Box<Publish>)
        ensures
            final(self)@ == old(self)@.store_publish(publish@),
    {
        self.incoming_pub.push_back(publish);
        assert(self@.incoming_pub =~= old(self)@.incoming_pub.push(publish@));
    }

    /// Takes the first publish that carries `pkid` out of the publish queue.
    /// Without such a publish nothing changes.
    pub fn remove_publish(&mut self, pkid: PacketIdentifier) -> (res: Option<Box<Publish>>)
        ensures
            final(self)@ == old(self)@.remove_publish(pkid),
            match res {
                Some(p) => publish_with(old(self)@.incoming_pub, pkid) == Some(p@) && p@.pid
                    == Some(pkid),
                None => publish_with(old(self)@.incoming_pub, pkid) is None,
            },
            !pids(old(self)@.incoming_pub).contains(Some(pkid)) ==> res is None && final(self)@
                == old(self)@,
    {
        proof {
            lemma_position_of(self@.incoming_pub, pkid);
            pids(self@.incoming_pub).index_of_first_ensures(Some(pkid));
        }
        match find_publish(&self.incoming_pub, pkid) {
            Some(i) => take_publish(&mut self.incoming_pub, i),
            None => None,
        }
    }

    /// Appends a publish to the record queue.
    pub fn store_record(&mut self, publish: Box<Publish>)
        ensures
            final(self)@ == old(self)@.store_record(publish@),
    {
        self.incoming_rec.push_back(publish);
        assert(self@.incoming_rec =~= old(self)@.incoming_rec.push(publish@));
    }

    /// Takes the first publish that carries `pkid` out of the record queue.
    /// Without such a publish nothing changes.
    pub fn remove_record(&mut self, pkid: PacketIdentifier) -> (res: Option<Box<Publish>>)
        ensures
            final(self)@ == old(self)@.remove_record(pkid),
            match res {
                Some(p) => publish_with(old(self)@.incoming_rec, pkid) == Some(p@) && p@.pid
                    == Some(pkid),
                None => publish_with(old(self)@.incoming_rec, pkid) is None,
            },
            !pids(old(self)@.incoming_rec).contains(Some(pkid)) ==> res is None && final(self)@
                == old(self)@,
    {
        proof {
            lemma_position_of(self@.incoming_rec, pkid);
            pids(self@.incoming_rec).index_of_first_ensures(Some(pkid));
        }
        match find_publish(&self.incoming_rec, pkid) {
            Some(i) => take_publish(&mut self.incoming_rec, i),
            None => None,
        }
    }

    /// Takes out of the record queue the publish that stands at the position
    /// which `pkid` has in the publish queue. Nothing changes when no publish
    /// of the publish queue carries `pkid`, or when the record queue is too
    /// short to have that position.
    pub fn remove_record_at_publish(&mut self, pkid: PacketIdentifier) -> (res: Option<
        Box<Publish>,
    >)
        ensures
            final(self)@ == old(self)@.remove_record_at_publish(pkid),
            match res {
                Some(p) => old(self)@.record_at_publish(pkid) is Some && p@ == old(self)@.incoming_rec[old(self)@.record_at_publish(pkid)->0],
                None => old(self)@.record_at_publish(pkid) is None,
            },
            !pids(old(self)@.incoming_pub).contains(Some(pkid)) ==> res is None && final(self)@
                == old(self)@,
    {
        proof {
            pids(self@.incoming_pub).index_of_first_ensures(Some(pkid));
        }
        match find_publish(&self.incoming_pub, pkid) {
            Some(i) => take_publish(&mut self.incoming_rec, i),
            None => None,
        }
    }

    /// Appends an identifier to the release queue.
    pub fn store_rel(&mut self, pkid: PacketIdentifier)
        ensures
            final(self)@ == old(self)@.store_rel(pkid),
    {
        self.incoming_rel.push_back(pkid);
    }

    /// Removes the first occurrence of `pkid` from the release queue.
    /// Without one nothing changes.
    pub fn remove_rel(&mut self, pkid: PacketIdentifier)
        ensures
            final(self)@ == old(self)@.remove_rel(pkid),
            !old(self)@.incoming_rel.contains(pkid) ==> final(self)@ == old(self)@,
    {
        proof {
            self@.incoming_rel.index_of_first_ensures(pkid);
        }
        match find_pkid(&self.incoming_rel, pkid) {
            Some(i) => {
                self.incoming_rel.remove(i);
            },
            None => {},
        }
    }

    /// Appends an identifier to the completion queue.
    pub fn store_comp(&mut self, pkid: PacketIdentifier)
        ensures
            final(self)@ == old(self)@.store_comp(pkid),
    {
        self.incoming_comp.push_back(pkid);
    }

    /// Removes the first occurrence of `pkid` from the completion queue.
    /// Without one nothing changes.
    pub fn remove_comp(&mut self, pkid: PacketIdentifier)
        ensures
            final(self)@ == old(self)@.remove_comp(pkid),
            !old(self)@.incoming_comp.contains(pkid) ==> final(self)@ == old(self)@,
    {
        proof {
            self@.incoming_comp.index_of_first_ensures(pkid);
        }
        match find_pkid(&self.incoming_comp, pkid) {
            Some(i) => {
                self.incoming_comp.remove(i);
            },
            None => {},
        }
    }
}

} // verus!
