//! One client session: its identity, the packets waiting to be written to
//! its connection, and its in-flight state.

use vstd::prelude::*;

use crate::packet::{
    packets_view, Packet, PacketIdentifier, PacketView, Publish, PublishView, QoS, Suback,
    SubackView, SubscribeReturnCodes,
};
use crate::state::{pids, publish_with, BrokerState, BrokerStateView};

verus! {

/// The identifier that a session hands out after `last`: the next number,
/// going from 65535 back to 1. Zero is never handed out.
pub open spec fn next_pkid(last: PacketIdentifier) -> PacketIdentifier {
    if last.0 == 65535 {
        PacketIdentifier(1)
    } else {
        PacketIdentifier((last.0 + 1) as u16)
    }
}

/// The identifier that a session hands out `n` identifiers after `last`.
pub open spec fn pkid_after(last: PacketIdentifier, n: nat) -> PacketIdentifier
    decreases n,
{
    if n == 0 {
        last
    } else {
        next_pkid(pkid_after(last, (n - 1) as nat))
    }
}

/// Mathematical value of a [`Client`].
pub struct ClientView {
    pub id: Seq<char>,
    pub addr: Seq<char>,
    pub outgoing: Seq<PacketView>,
    pub state: BrokerStateView,
    pub last_pkid: PacketIdentifier,
}

impl ClientView {
    /// A session that has sent nothing, holds nothing in flight and has
    /// handed out no packet identifier.
    pub open spec fn fresh(id: Seq<char>, addr: Seq<char>) -> ClientView {
        ClientView {
            id,
            addr,
            outgoing: Seq::empty(),
            state: BrokerStateView::empty(),
            last_pkid: PacketIdentifier(0),
        }
    }

    /// The session after `packet` was put at the end of its outbound queue.
    pub open spec fn send(self, packet: PacketView) -> ClientView {
        ClientView { outgoing: self.outgoing.push(packet), ..self }
    }

    /// The identifier that the next publish above `AtMostOnce` carries.
    pub open spec fn pid_for(self, qos: QoS) -> Option<PacketIdentifier> {
        if qos == QoS::AtMostOnce {
            None
        } else {
            Some(next_pkid(self.last_pkid))
        }
    }

    /// The publish that `publish_packet` builds.
    pub open spec fn publish_packet(
        self,
        topic: Seq<char>,
        qos: QoS,
        payload: Seq<u8>,
        retain: bool,
        dup: bool,
    ) -> PublishView {
        PublishView { dup, qos, retain, topic_name: topic, pid: self.pid_for(qos), payload }
    }

    /// The session after `publish_packet`: above `AtMostOnce` one more
    /// identifier is used up.
    pub open spec fn after_publish_packet(self, qos: QoS) -> ClientView {
        if qos == QoS::AtMostOnce {
            self
        } else {
            ClientView { last_pkid: next_pkid(self.last_pkid), ..self }
        }
    }

    /// The session with `state` as its in-flight state.
    pub open spec fn with_state(self, state: BrokerStateView) -> ClientView {
        ClientView { state, ..self }
    }

    /// The session after one message was forwarded to it at `qos`: a publish
    /// is built, kept in the queue of its quality of service, and sent.
    pub open spec fn deliver(self, topic: Seq<char>, qos: QoS, payload: Seq<u8>) -> ClientView {
        let publish = self.publish_packet(topic, qos, payload, false, false);
        let allocated = self.after_publish_packet(qos);
        let stored = match qos {
            QoS::AtMostOnce => allocated,
            QoS::AtLeastOnce => allocated.with_state(allocated.state.store_publish(publish)),
            QoS::ExactlyOnce => allocated.with_state(allocated.state.store_record(publish)),
        };
        stored.send(PacketView::Publish(publish))
    }

    /// The session after `n` messages with the same topic and payload were
    /// forwarded to it at `qos`, one after the other.
    pub open spec fn deliver_times(
        self,
        n: nat,
        topic: Seq<char>,
        qos: QoS,
        payload: Seq<u8>,
    ) -> ClientView
        decreases n,
    {
        if n == 0 {
            self
        } else {
            self.deliver_times((n - 1) as nat, topic, qos, payload).deliver(topic, qos, payload)
        }
    }

    /// The publishes that `deliver_times` sends, in order: above
    /// `AtMostOnce` they carry the next `n` packet identifiers of the
    /// session.
    pub open spec fn forwarded(
        self,
        n: nat,
        topic: Seq<char>,
        qos: QoS,
        payload: Seq<u8>,
    ) -> Seq<PublishView> {
        Seq::new(
            n,
            |k: int|
                PublishView {
                    dup: false,
                    qos,
                    retain: false,
                    topic_name: topic,
                    pid: if qos == QoS::AtMostOnce {
                        None
                    } else {
                        Some(pkid_after(self.last_pkid, (k + 1) as nat))
                    },
                    payload,
                },
        )
    }
}

/// A list of publishes as the packets that carry them.
pub open spec fn publish_packets(publishes: Seq<PublishView>) -> Seq<PacketView> {
    publishes.map_values(|p: PublishView| PacketView::Publish(p))
}

/// A client session.
#[derive(Debug)]
pub struct Client {
    /// Identity of the client, unique among the sessions of a broker.
    pub id: String,
    /// Remote address of the connection, as text.
    pub addr: String,
    /// Packets for the client in the order in which they were sent; the
    /// connection layer takes them from the front.
    pub outgoing: Vec<Packet>,
    /// What the session holds in flight.
    pub state: BrokerState,
    /// The packet identifier that was handed out last, zero before the first.
    pub last_pkid: PacketIdentifier,
}

impl View for Client {
    type V = ClientView;

    open spec fn view(&self) -> ClientView {
        ClientView {
            id: self.id@,
            addr: self.addr@,
            outgoing: packets_view(self.outgoing@),
            state: self.state@,
            last_pkid: self.last_pkid,
        }
    }
}

impl Client {
    /// A session for the client `id` that connected from `addr`.
    pub fn new(id: &str, addr: &str) -> (res: Self)
        ensures
            res@ == ClientView::fresh(id@, addr@),
    {
        let res = Client {
            id: id.to_owned(),
            addr: addr.to_owned(),
            outgoing: Vec::new(),
            state: BrokerState::new(),
            last_pkid: PacketIdentifier(0),
        };
        assert(res@.outgoing =~= Seq::empty());
        res
    }

    /// Puts a packet at the end of the outbound queue.
    pub fn send(&mut self, packet: Packet)
        ensures
            final(self)@ == old(self)@.send(packet@),
    {
        self.outgoing.push(packet);
        assert(self@.outgoing =~= old(self)@.outgoing.push(packet@));
    }

    /// Takes the packets that wait in the outbound queue, oldest first, and
    /// leaves the queue empty.
    pub fn take_outgoing(&mut self) -> (res: Vec<Packet>)
        ensures
            packets_view(res@) == old(self)@.outgoing,
            final(self)@ == (ClientView { outgoing: Seq::empty(), ..old(self)@ }),
    {
        let mut res: Vec<Packet> = Vec::new();
        std::mem::swap(&mut res, &mut self.outgoing);
        assert(self@.outgoing =~= Seq::empty());
        res
    }

    /// Hands out the next packet identifier of the session.
    pub fn next_pkid(&mut self) -> (res: PacketIdentifier)
        ensures
            res == next_pkid(old(self).last_pkid),
            res.0 != 0,
            final(self)@ == (ClientView { last_pkid: res, ..old(self)@ }),
    {
        let PacketIdentifier(last) = self.last_pkid;
        let next: u16 = if last == u16::MAX {
            1
        } else {
            last + 1
        };
        self.last_pkid = PacketIdentifier(next);
        self.last_pkid
    }

    /// Builds a publish for this client. Above `AtMostOnce` it carries a
    /// packet identifier that the session hands out for it; at `AtMostOnce`
    /// it carries none and the session is left as it was.
    pub fn publish_packet(
        &mut self,
        topic: &str,
        qos: QoS,
        payload: Vec<u8>,
        retain: bool,
        dup: bool,
    ) -> (res: Box<Publish>)
        ensures
            res@ == old(self)@.publish_packet(topic@, qos, payload@, retain, dup),
            final(self)@ == old(self)@.after_publish_packet(qos),
            res@.qos == qos,
            qos != QoS::AtMostOnce ==> res@.pid == Some(final(self).last_pkid) && final(self).last_pkid.0 != 0,
    {
        let pid = match qos {
            QoS::AtMostOnce => None,
            _ => Some(self.next_pkid()),
        };
        Box::new(Publish { dup, qos, retain, topic_name: topic.to_owned(), pid, payload })
    }

    /// Builds the acknowledgement of a subscribe.
    pub fn suback_packet(&self, pkid: PacketIdentifier, return_codes: Vec<SubscribeReturnCodes>) -> (res:
        Box<Suback>)
        ensures
            res@ == (SubackView { pid: pkid, return_codes: return_codes@ }),
    {
        Box::new(Suback { pid: pkid, return_codes })
    }

    /// Appends a publish to the publish queue of the session.
    pub fn store_publish(&mut self, publish: Box<Publish>)
        ensures
            final(self)@ == old(self)@.with_state(old(self)@.state.store_publish(publish@)),
    {
        self.state.store_publish(publish);
    }

    /// Takes the first publish that carries `pkid` out of the publish queue
    /// of the session. Without such a publish nothing changes.
    pub fn remove_publish(&mut self, pkid: PacketIdentifier) -> (res: Option<Box<Publish>>)
        ensures
            final(self)@ == old(self)@.with_state(old(self)@.state.remove_publish(pkid)),
            match res {
                Some(p) => publish_with(old(self)@.state.incoming_pub, pkid) == Some(p@)
                    && p@.pid == Some(pkid),
                None => publish_with(old(self)@.state.incoming_pub, pkid) is None,
            },
            !pids(old(self)@.state.incoming_pub).contains(Some(pkid)) ==> res is None && final(self)@ == old(self)@,
    {
        self.state.remove_publish(pkid)
    }

    /// Appends a publish to the record queue of the session.
    pub fn store_record(&mut self, publish: Box<Publish>)
        ensures
            final(self)@ == old(self)@.with_state(old(self)@.state.store_record(publish@)),
    {
        self.state.store_record(publish);
    }

    /// Takes the first publish that carries `pkid` out of the record queue of
    /// the session. Without such a publish nothing changes.
    pub fn remove_record(&mut self, pkid: PacketIdentifier) -> (res: Option<Box<Publish>>)
        ensures
            final(self)@ == old(self)@.with_state(old(self)@.state.remove_record(pkid)),
            match res {
                Some(p) => publish_with(old(self)@.state.incoming_rec, pkid) == Some(p@)
                    && p@.pid == Some(pkid),
                None => publish_with(old(self)@.state.incoming_rec, pkid) is None,
            },
            !pids(old(self)@.state.incoming_rec).contains(Some(pkid)) ==> res is None && final(self)@ == old(self)@,
    {
        self.state.remove_record(pkid)
    }

    /// Appends an identifier to the release queue of the session.
    pub fn store_rel(&mut self, pkid: PacketIdentifier)
        ensures
            final(self)@ == old(self)@.with_state(old(self)@.state.store_rel(pkid)),
    {
        self.state.store_rel(pkid);
    }

    /// Removes the first occurrence of `pkid` from the release queue of the
    /// session. Without one nothing changes.
    pub fn remove_rel(&mut self, pkid: PacketIdentifier)
        ensures
            final(self)@ == old(self)@.with_state(old(self)@.state.remove_rel(pkid)),
            !old(self)@.state.incoming_rel.contains(pkid) ==> final(self)@ == old(self)@,
    {
        self.state.remove_rel(pkid);
    }

    /// Appends an identifier to the completion queue of the session.
    pub fn store_comp(&mut self, pkid: PacketIdentifier)
        ensures
            final(self)@ == old(self)@.with_state(old(self)@.state.store_comp(pkid)),
    {
        self.state.store_comp(pkid);
    }

    /// Removes the first occurrence of `pkid` from the completion queue of
    /// the session. Without one nothing changes.
    pub fn remove_comp(&mut self, pkid: PacketIdentifier)
        ensures
            final(self)@ == old(self)@.with_state(old(self)@.state.remove_comp(pkid)),
            !old(self)@.state.incoming_comp.contains(pkid) ==> final(self)@ == old(self)@,
    {
        self.state.remove_comp(pkid);
    }

    /// Forwards one message to this client at `qos`: builds the publish,
    /// keeps it in the queue of its quality of service, and sends it.
    pub fn deliver(&mut self, topic: &str, qos: QoS, payload: Vec<u8>)
        ensures
            final(self)@ == old(self)@.deliver(topic@, qos, payload@),
    {
        let publish = self.publish_packet(topic, qos, payload, false, false);
        let packet = Packet::Publish(publish.clone());
        match qos {
            QoS::AtLeastOnce => self.store_publish(publish),
            QoS::ExactlyOnce => self.store_record(publish),
            QoS::AtMostOnce => {},
        }
        self.send(packet);
    }
}

} // verus!
