//! The broker as a mathematical value, and what each of its operations
//! does to that value.

use vstd::prelude::*;

use crate::client::ClientView;
use crate::packet::{
    PacketIdentifier, PacketView, PublishView, QoS, SubackView, SubscribeReturnCodes,
    SubscribeTopicView, SubscribeView,
};
use crate::state::{publish_with, BrokerStateView};

verus! {

/// A list of subscribers after `id` subscribed: where the list already holds
/// `id`, a further entry goes in front of the first one; otherwise `id`
/// goes to the end.
pub open spec fn with_subscriber(list: Seq<Seq<char>>, id: Seq<char>) -> Seq<Seq<char>> {
    match list.index_of_first(id) {
        Some(i) => list.insert(i, id),
        None => list.push(id),
    }
}

/// A list of subscribers without the entries of `id`. The other entries
/// keep their order.
pub open spec fn without_client(list: Seq<Seq<char>>, id: Seq<char>) -> Seq<Seq<char>> {
    list.filter(|entry: Seq<char>| entry != id)
}

/// How often `id` stands in `ids`.
pub open spec fn occurrences(ids: Seq<Seq<char>>, id: Seq<char>) -> nat
    decreases ids.len(),
{
    if ids.len() == 0 {
        0
    } else {
        occurrences(ids.drop_last(), id) + if ids.last() == id {
            1nat
        } else {
            0nat
        }
    }
}

/// The return codes of a SUBACK: success, at the requested quality of
/// service, for each requested key.
pub open spec fn return_codes_for(topics: Seq<SubscribeTopicView>) -> Seq<SubscribeReturnCodes> {
    topics.map_values(|t: SubscribeTopicView| SubscribeReturnCodes::Success(t.qos))
}

/// Mathematical value of a broker.
pub struct BrokerView {
    /// The session table: each connected client under its identity.
    pub clients: Map<Seq<char>, ClientView>,
    /// The subscription index: under each key the identities of the
    /// subscribers, in the order in which they subscribed.
    pub subscriptions: Map<SubscribeTopicView, Seq<Seq<char>>>,
    /// In-flight state of the broker itself.
    pub state: BrokerStateView,
}

impl BrokerView {
    /// A broker without sessions, subscriptions or in-flight state.
    pub open spec fn empty() -> BrokerView {
        BrokerView {
            clients: Map::empty(),
            subscriptions: Map::empty(),
            state: BrokerStateView::empty(),
        }
    }

    /// Every session stands in the table under its own identity.
    pub open spec fn wf(self) -> bool {
        forall|id: Seq<char>| self.clients.contains_key(id) ==> (#[trigger] self.clients[id]).id == id
    }

    /// In every session, and in the broker's own state, each queue holds
    /// only what it is named for.
    pub open spec fn well_kept(self) -> bool {
        &&& self.state.well_kept()
        &&& forall|id: Seq<char>|
            self.clients.contains_key(id) ==> (#[trigger] self.clients[id]).state.well_kept()
    }

    /// The broker with `state` as its own in-flight state.
    pub open spec fn with_state(self, state: BrokerStateView) -> BrokerView {
        BrokerView { state, ..self }
    }

    /// The session enters the table under its identity, in place of the
    /// session that was there.
    pub open spec fn add_client(self, client: ClientView) -> BrokerView {
        BrokerView { clients: self.clients.insert(client.id, client), ..self }
    }

    /// The session of `id` leaves the table, and every list of subscribers
    /// loses all its entries of `id`.
    pub open spec fn remove_client(self, id: Seq<char>) -> BrokerView {
        BrokerView {
            clients: self.clients.remove(id),
            subscriptions: self.subscriptions.map_values(
                |list: Seq<Seq<char>>| without_client(list, id),
            ),
            ..self
        }
    }

    /// The subscribers of `key`, in order; none where the index has no
    /// entry for the key.
    pub open spec fn subscribers(self, key: SubscribeTopicView) -> Seq<Seq<char>> {
        if self.subscriptions.contains_key(key) {
            self.subscriptions[key]
        } else {
            Seq::empty()
        }
    }

    /// `id` is added to the subscribers of `key`.
    pub open spec fn add_subscription_client(
        self,
        key: SubscribeTopicView,
        id: Seq<char>,
    ) -> BrokerView {
        BrokerView {
            subscriptions: self.subscriptions.insert(
                key,
                with_subscriber(self.subscribers(key), id),
            ),
            ..self
        }
    }

    /// The subscribers of `key` lose their first entry of `id`. A key
    /// without an entry in the index gets none.
    pub open spec fn remove_subscription_client(
        self,
        key: SubscribeTopicView,
        id: Seq<char>,
    ) -> BrokerView {
        if self.subscriptions.contains_key(key) {
            BrokerView {
                subscriptions: self.subscriptions.insert(
                    key,
                    self.subscriptions[key].remove_value(id),
                ),
                ..self
            }
        } else {
            self
        }
    }

    /// The broker with `client` in place of the session of `id`.
    pub open spec fn with_session(self, id: Seq<char>, client: ClientView) -> BrokerView {
        BrokerView { clients: self.clients.insert(id, client), ..self }
    }

    /// `packet` is sent to the session of `id`. Without such a session
    /// nothing happens.
    pub open spec fn send(self, id: Seq<char>, packet: PacketView) -> BrokerView {
        if self.clients.contains_key(id) {
            self.with_session(id, self.clients[id].send(packet))
        } else {
            self
        }
    }

    /// One message is forwarded to the session of `id` at `qos`. Without
    /// such a session nothing happens.
    pub open spec fn deliver_to(
        self,
        id: Seq<char>,
        topic: Seq<char>,
        qos: QoS,
        payload: Seq<u8>,
    ) -> BrokerView {
        if self.clients.contains_key(id) {
            self.with_session(id, self.clients[id].deliver(topic, qos, payload))
        } else {
            self
        }
    }

    /// One message is forwarded at `qos` to each of `ids` in turn.
    pub open spec fn deliver_all(
        self,
        ids: Seq<Seq<char>>,
        topic: Seq<char>,
        qos: QoS,
        payload: Seq<u8>,
    ) -> BrokerView
        decreases ids.len(),
    {
        if ids.len() == 0 {
            self
        } else {
            self.deliver_all(ids.drop_last(), topic, qos, payload).deliver_to(
                ids.last(),
                topic,
                qos,
                payload,
            )
        }
    }

    /// One message is forwarded to the subscribers of `topic` at `qos`.
    pub open spec fn forward_at(self, topic: Seq<char>, qos: QoS, payload: Seq<u8>) -> BrokerView {
        self.deliver_all(
            self.subscribers(SubscribeTopicView { topic_path: topic, qos }),
            topic,
            qos,
            payload,
        )
    }

    /// The fan-out of one message: to the subscribers of its topic at
    /// `AtMostOnce`, then to those at `AtLeastOnce`, then to those at
    /// `ExactlyOnce`, each at the quality of service of the subscription.
    pub open spec fn forward_to_subscribers(self, topic: Seq<char>, payload: Seq<u8>) -> BrokerView {
        self.forward_at(topic, QoS::AtMostOnce, payload).forward_at(
            topic,
            QoS::AtLeastOnce,
            payload,
        ).forward_at(topic, QoS::ExactlyOnce, payload)
    }

    /// The session of `id` after the fan-out of one message: the message
    /// is forwarded to it once for each entry that it has among the
    /// subscribers of the topic, first for its entries at `AtMostOnce`,
    /// then for those at `AtLeastOnce`, then for those at `ExactlyOnce`,
    /// each time at the quality of service of the subscription.
    pub open spec fn fanned_out(self, id: Seq<char>, topic: Seq<char>, payload: Seq<u8>) -> ClientView {
        self.clients[id].deliver_times(
            occurrences(
                self.subscribers(SubscribeTopicView { topic_path: topic, qos: QoS::AtMostOnce }),
                id,
            ),
            topic,
            QoS::AtMostOnce,
            payload,
        ).deliver_times(
            occurrences(
                self.subscribers(SubscribeTopicView { topic_path: topic, qos: QoS::AtLeastOnce }),
                id,
            ),
            topic,
            QoS::AtLeastOnce,
            payload,
        ).deliver_times(
            occurrences(
                self.subscribers(SubscribeTopicView { topic_path: topic, qos: QoS::ExactlyOnce }),
                id,
            ),
            topic,
            QoS::ExactlyOnce,
            payload,
        )
    }

    /// The index after `id` subscribed to each of `topics` in turn.
    pub open spec fn subscribe_all(self, topics: Seq<SubscribeTopicView>, id: Seq<char>) -> BrokerView
        decreases topics.len(),
    {
        if topics.len() == 0 {
            self
        } else {
            self.subscribe_all(topics.drop_last(), id).add_subscription_client(topics.last(), id)
        }
    }

    /// SUBSCRIBE: `source` is added to the subscribers of each requested
    /// key and is sent the SUBACK.
    pub open spec fn handle_subscribe(self, subscribe: SubscribeView, source: Seq<char>) -> BrokerView {
        self.subscribe_all(subscribe.topics, source).send(
            source,
            PacketView::Suback(
                SubackView {
                    pid: subscribe.pid,
                    return_codes: return_codes_for(subscribe.topics),
                },
            ),
        )
    }

    /// The record of an inbound `ExactlyOnce` publish is kept in the session
    /// of its source. Without such a session nothing happens.
    pub open spec fn keep_record(self, source: Seq<char>, publish: PublishView) -> BrokerView {
        if self.clients.contains_key(source) {
            let client = self.clients[source];
            self.with_session(source, client.with_state(client.state.store_record(publish)))
        } else {
            self
        }
    }

    /// PUBLISH: forwarded at once at `AtMostOnce`; acknowledged, then
    /// forwarded, at `AtLeastOnce`; kept as a record and answered with a
    /// PUBREC at `ExactlyOnce`; dropped above `AtMostOnce` when it carries no
    /// packet identifier.
    pub open spec fn handle_publish(self, publish: PublishView, source: Seq<char>) -> BrokerView {
        match publish.qos {
            QoS::AtMostOnce => self.forward_to_subscribers(publish.topic_name, publish.payload),
            QoS::AtLeastOnce => match publish.pid {
                Some(pkid) => self.send(source, PacketView::Puback(pkid)).forward_to_subscribers(
                    publish.topic_name,
                    publish.payload,
                ),
                None => self,
            },
            QoS::ExactlyOnce => match publish.pid {
                Some(pkid) => self.keep_record(source, publish).send(
                    source,
                    PacketView::Pubrec(pkid),
                ),
                None => self,
            },
        }
    }

    /// PUBACK: the first publish under `pkid` leaves the publish queue of
    /// `source`.
    pub open spec fn handle_puback(self, pkid: PacketIdentifier, source: Seq<char>) -> BrokerView {
        if self.clients.contains_key(source) {
            let client = self.clients[source];
            self.with_session(source, client.with_state(client.state.remove_publish(pkid)))
        } else {
            self
        }
    }

    /// The broker after the client `source` acknowledged each identifier
    /// of `acks` in turn with a PUBACK.
    pub open spec fn handle_pubacks(self, acks: Seq<PacketIdentifier>, source: Seq<char>) -> BrokerView
        decreases acks.len(),
    {
        if acks.len() == 0 {
            self
        } else {
            self.handle_pubacks(acks.drop_last(), source).handle_puback(acks.last(), source)
        }
    }

    /// The broker after it handled each of `publishes` in turn, each given
    /// with the client that it came from.
    pub open spec fn handle_publishes(self, publishes: Seq<(PublishView, Seq<char>)>) -> BrokerView
        decreases publishes.len(),
    {
        if publishes.len() == 0 {
            self
        } else {
            self.handle_publishes(publishes.drop_last()).handle_publish(
                publishes.last().0,
                publishes.last().1,
            )
        }
    }

    /// PUBREC: if the record queue of `source` holds a publish under `pkid`,
    /// the first such publish leaves it, `pkid` enters the release queue, and
    /// `source` is sent a PUBREL. Otherwise nothing happens.
    pub open spec fn handle_pubrec(self, pkid: PacketIdentifier, source: Seq<char>) -> BrokerView {
        if self.clients.contains_key(source) && publish_with(
            self.clients[source].state.incoming_rec,
            pkid,
        ) is Some {
            let client = self.clients[source];
            self.with_session(
                source,
                client.with_state(client.state.remove_record(pkid).store_rel(pkid)).send(
                    PacketView::Pubrel(pkid),
                ),
            )
        } else {
            self
        }
    }

    /// PUBREL: `source` is sent a PUBCOMP; then, if its record queue holds a
    /// publish under `pkid`, the first such publish leaves it and is
    /// forwarded to the subscribers of its topic.
    pub open spec fn handle_pubrel(self, pkid: PacketIdentifier, source: Seq<char>) -> BrokerView {
        if self.clients.contains_key(source) {
            let client = self.clients[source].send(PacketView::Pubcomp(pkid));
            let released = self.with_session(
                source,
                client.with_state(client.state.remove_record(pkid)),
            );
            match publish_with(client.state.incoming_rec, pkid) {
                Some(record) => released.forward_to_subscribers(
                    record.topic_name,
                    record.payload,
                ),
                None => released,
            }
        } else {
            self
        }
    }

    /// PUBCOMP: the first entry of `pkid` leaves the release queue of
    /// `source`.
    pub open spec fn handle_pubcomp(self, pkid: PacketIdentifier, source: Seq<char>) -> BrokerView {
        if self.clients.contains_key(source) {
            let client = self.clients[source];
            self.with_session(source, client.with_state(client.state.remove_rel(pkid)))
        } else {
            self
        }
    }

    /// PINGREQ: `source` is sent a PINGRESP.
    pub open spec fn handle_pingreq(self, source: Seq<char>) -> BrokerView {
        self.send(source, PacketView::Pingresp)
    }

    /// What the broker does with an inbound packet of `source`: each kind
    /// goes to its handler, a DISCONNECT removes the session, and the kinds
    /// that only a broker sends are ignored.
    pub open spec fn dispatch(self, packet: PacketView, source: Seq<char>) -> BrokerView {
        match packet {
            PacketView::Publish(publish) => self.handle_publish(publish, source),
            PacketView::Puback(pkid) => self.handle_puback(pkid, source),
            PacketView::Pubrec(pkid) => self.handle_pubrec(pkid, source),
            PacketView::Pubrel(pkid) => self.handle_pubrel(pkid, source),
            PacketView::Pubcomp(pkid) => self.handle_pubcomp(pkid, source),
            PacketView::Subscribe(subscribe) => self.handle_subscribe(subscribe, source),
            PacketView::Pingreq => self.handle_pingreq(source),
            PacketView::Disconnect => self.remove_client(source),
            PacketView::Suback(_) => self,
            PacketView::Pingresp => self,
        }
    }
}

} // verus!
