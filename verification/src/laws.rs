//! What holds of the broker across its operations.

use vstd::prelude::*;

use crate::client::{next_pkid, pkid_after, publish_packets, ClientView};
use crate::model::{occurrences, with_subscriber, without_client, BrokerView};
use crate::packet::{
    PacketIdentifier, PacketView, PublishView, QoS, SubscribeTopicView, SubscribeView,
};
use crate::state::{
    ack_all, lemma_position_of, lemma_position_of_is, pids, position_of, without_pid,
    BrokerStateView,
};

verus! {

/// A list of subscribers holds `id` once `id` subscribed.
pub proof fn lemma_with_subscriber_contains(list: Seq<Seq<char>>, id: Seq<char>)
    ensures
        with_subscriber(list, id).contains(id),
        forall|other: Seq<char>| list.contains(other) ==> with_subscriber(list, id).contains(other),
{
    list.index_of_first_ensures(id);
    let after = with_subscriber(list, id);
    match list.index_of_first(id) {
        Some(i) => {
            assert(after[i] == id);
            assert forall|other: Seq<char>| list.contains(other) implies after.contains(other) by {
                let j = choose|j: int| 0 <= j < list.len() && list[j] == other;
                if j < i {
                    assert(after[j] == other);
                } else {
                    assert(after[j + 1] == other);
                }
            }
        },
        None => {
            assert(after[list.len() as int] == id);
            assert forall|other: Seq<char>| list.contains(other) implies after.contains(other) by {
                let j = choose|j: int| 0 <= j < list.len() && list[j] == other;
                assert(after[j] == other);
            }
        },
    }
}

/// Subscribing to a list of keys never takes a subscriber away, and puts
/// the client among the subscribers of each key of the list.
pub proof fn lemma_subscribe_all(
    broker: BrokerView,
    topics: Seq<SubscribeTopicView>,
    id: Seq<char>,
)
    ensures
        broker.subscribe_all(topics, id).clients == broker.clients,
        broker.subscribe_all(topics, id).state == broker.state,
        forall|key: SubscribeTopicView, other: Seq<char>|
            broker.subscribers(key).contains(other) ==> #[trigger] broker.subscribe_all(
                topics,
                id,
            ).subscribers(key).contains(other),
        forall|k: int|
            0 <= k < topics.len() ==> broker.subscribe_all(topics, id).subscribers(
                #[trigger] topics[k],
            ).contains(id),
    decreases topics.len(),
{
    if topics.len() > 0 {
        let before = broker.subscribe_all(topics.drop_last(), id);
        let after = broker.subscribe_all(topics, id);
        let last = topics.last();
        lemma_subscribe_all(broker, topics.drop_last(), id);
        lemma_with_subscriber_contains(before.subscribers(last), id);
        assert(after == before.add_subscription_client(last, id));
        assert forall|key: SubscribeTopicView, other: Seq<char>|
            broker.subscribers(key).contains(other) implies #[trigger] after.subscribers(
            key,
        ).contains(other) by {
            assert(before.subscribers(key).contains(other));
            if key == last {
            } else {
                assert(after.subscribers(key) == before.subscribers(key));
            }
        }
        assert forall|k: int| 0 <= k < topics.len() implies after.subscribers(
            #[trigger] topics[k],
        ).contains(id) by {
            if k < topics.len() - 1 {
                assert(topics.drop_last()[k] == topics[k]);
                assert(before.subscribers(topics[k]).contains(id));
                if topics[k] != last {
                    assert(after.subscribers(topics[k]) == before.subscribers(topics[k]));
                }
            }
        }
    }
}

/// After a SUBSCRIBE of a client, the client is among the subscribers of
/// every key that the SUBSCRIBE named.
pub proof fn lemma_subscribed_after_subscribe(
    broker: BrokerView,
    subscribe: SubscribeView,
    id: Seq<char>,
)
    ensures
        forall|k: int|
            0 <= k < subscribe.topics.len() ==> broker.handle_subscribe(subscribe, id).subscribers(
                #[trigger] subscribe.topics[k],
            ).contains(id),
{
    lemma_subscribe_all(broker, subscribe.topics, id);
}

/// A list without the entries of `id` holds every other identity that the
/// list held, and no other.
pub proof fn lemma_without_client_keeps(list: Seq<Seq<char>>, id: Seq<char>, other: Seq<char>)
    requires
        other != id,
    ensures
        without_client(list, id).contains(other) <==> list.contains(other),
    decreases list.len(),
{
    reveal(Seq::filter);
    let after = without_client(list, id);
    if list.len() > 0 {
        let shorter = list.drop_last();
        let earlier = without_client(shorter, id);
        lemma_without_client_keeps(shorter, id, other);
        if after.contains(other) {
            let j = choose|j: int| 0 <= j < after.len() && after[j] == other;
            if j < earlier.len() {
                assert(earlier[j] == other);
                assert(shorter.contains(other));
                let k = choose|k: int| 0 <= k < shorter.len() && shorter[k] == other;
                assert(list[k] == other);
            } else {
                assert(list[list.len() - 1] == other);
            }
        }
        if list.contains(other) {
            let k = choose|k: int| 0 <= k < list.len() && list[k] == other;
            if k < list.len() - 1 {
                assert(shorter[k] == other);
                assert(earlier.contains(other));
                let j = choose|j: int| 0 <= j < earlier.len() && earlier[j] == other;
                assert(after[j] == other);
            } else {
                assert(after[after.len() - 1] == other);
            }
        }
    }
}

/// A list without the entries of `id` does not hold `id`, and a list that
/// does not hold `id` is left as it is.
pub proof fn lemma_without_client(list: Seq<Seq<char>>, id: Seq<char>)
    ensures
        !without_client(list, id).contains(id),
        !list.contains(id) ==> without_client(list, id) == list,
    decreases list.len(),
{
    reveal(Seq::filter);
    let after = without_client(list, id);
    if list.len() > 0 {
        let shorter = list.drop_last();
        let earlier = without_client(shorter, id);
        lemma_without_client(shorter, id);
        assert forall|j: int| 0 <= j < after.len() implies after[j] != id by {
            if j < earlier.len() {
                assert(earlier[j] == after[j]);
            }
        }
        if !list.contains(id) {
            assert(list[list.len() - 1] != id);
            assert forall|k: int| 0 <= k < shorter.len() implies shorter[k] != id by {
                assert(list[k] == shorter[k]);
            }
            assert(after =~= list);
        }
    }
}

/// Removing a client takes its session out of the table and every entry of
/// its identity out of the index; the other sessions and the other entries
/// stay as they are, in their order. Where the client has neither a session
/// nor an entry, nothing changes.
pub proof fn lemma_remove_client(broker: BrokerView, id: Seq<char>)
    ensures
        !broker.remove_client(id).clients.contains_key(id),
        forall|key: SubscribeTopicView|
            !(#[trigger] broker.remove_client(id).subscribers(key)).contains(id),
        forall|key: SubscribeTopicView|
            #[trigger] broker.remove_client(id).subscribers(key) == without_client(
                broker.subscribers(key),
                id,
            ),
        forall|other: Seq<char>|
            other != id && broker.clients.contains_key(other) ==> broker.remove_client(
                id,
            ).clients.contains_key(other) && #[trigger] broker.remove_client(id).clients[other]
                == broker.clients[other],
        !broker.clients.contains_key(id) && (forall|key: SubscribeTopicView|
            !(#[trigger] broker.subscribers(key)).contains(id)) ==> broker.remove_client(id)
            == broker,
{
    reveal(Seq::filter);
    let after = broker.remove_client(id);
    assert forall|key: SubscribeTopicView| #[trigger] after.subscribers(key) == without_client(
        broker.subscribers(key),
        id,
    ) by {
        if !broker.subscriptions.contains_key(key) {
            assert(without_client(Seq::<Seq<char>>::empty(), id) =~= Seq::<Seq<char>>::empty());
        }
    }
    assert forall|key: SubscribeTopicView| !(#[trigger] after.subscribers(key)).contains(id) by {
        lemma_without_client(broker.subscribers(key), id);
    }
    if !broker.clients.contains_key(id) && (forall|key: SubscribeTopicView|
        !(#[trigger] broker.subscribers(key)).contains(id)) {
        assert(after.clients =~= broker.clients);
        assert forall|key: SubscribeTopicView|
            broker.subscriptions.contains_key(key) implies #[trigger] after.subscriptions[key]
            == broker.subscriptions[key] by {
            assert(!broker.subscribers(key).contains(id));
            lemma_without_client(broker.subscriptions[key], id);
        }
        assert(after.subscriptions =~= broker.subscriptions);
    }
}

/// After a client was added and then removed, the session table does not
/// hold it, and no list of subscribers holds its identity.
pub proof fn lemma_removed_client_is_gone(broker: BrokerView, client: ClientView)
    ensures
        !broker.add_client(client).remove_client(client.id).clients.contains_key(client.id),
        forall|key: SubscribeTopicView|
            !(#[trigger] broker.add_client(client).remove_client(client.id).subscribers(
                key,
            )).contains(client.id),
{
    lemma_remove_client(broker.add_client(client), client.id);
}

/// The identifier handed out `n` identifiers after `last`, in closed form:
/// the identifiers run through 1 to 65535 in a circle.
pub proof fn lemma_pkid_after(last: PacketIdentifier, n: nat)
    requires
        n >= 1,
    ensures
        pkid_after(last, n).0 == (last.0 + n - 1) % 65535 + 1,
    decreases n,
{
    if n == 1 {
        assert(pkid_after(last, 0) == last);
        assert(pkid_after(last, 1) == next_pkid(last));
    } else {
        lemma_pkid_after(last, (n - 1) as nat);
        assert(pkid_after(last, n) == next_pkid(pkid_after(last, (n - 1) as nat)));
    }
}

/// The packet identifiers that a session hands out are fresh: none is
/// zero, and none comes again before 65535 others were handed out.
pub proof fn lemma_pkids_fresh(last: PacketIdentifier, i: nat, j: nat)
    requires
        1 <= i < j < i + 65535,
    ensures
        pkid_after(last, i).0 != 0,
        pkid_after(last, j).0 != 0,
        pkid_after(last, i) != pkid_after(last, j),
{
    lemma_pkid_after(last, i);
    lemma_pkid_after(last, j);
}

/// A message forwarded to a session at a quality of service is sent to it
/// as a publish at that quality of service. Above `AtMostOnce` the publish
/// carries the next packet identifier of the session, which is not zero and
/// is not the one handed out before, and waits in the queue of its quality of
/// service; at `AtMostOnce` it carries none and nothing is kept.
pub proof fn lemma_deliver(client: ClientView, topic: Seq<char>, qos: QoS, payload: Seq<u8>)
    ensures
        ({
            let after = client.deliver(topic, qos, payload);
            let publish = PublishView {
                dup: false,
                qos,
                retain: false,
                topic_name: topic,
                pid: client.pid_for(qos),
                payload,
            };
            &&& after.outgoing == client.outgoing.push(PacketView::Publish(publish))
            &&& after.id == client.id
            &&& after.addr == client.addr
            &&& after.state.incoming_rel == client.state.incoming_rel
            &&& after.state.incoming_comp == client.state.incoming_comp
            &&& match qos {
                QoS::AtMostOnce => {
                    &&& publish.pid is None
                    &&& after.last_pkid == client.last_pkid
                    &&& after.state == client.state
                },
                QoS::AtLeastOnce => {
                    &&& publish.pid == Some(after.last_pkid)
                    &&& after.last_pkid == pkid_after(client.last_pkid, 1)
                    &&& after.last_pkid.0 != 0
                    &&& after.last_pkid != client.last_pkid
                    &&& after.state.incoming_pub == client.state.incoming_pub.push(publish)
                    &&& after.state.incoming_rec == client.state.incoming_rec
                },
                QoS::ExactlyOnce => {
                    &&& publish.pid == Some(after.last_pkid)
                    &&& after.last_pkid == pkid_after(client.last_pkid, 1)
                    &&& after.last_pkid.0 != 0
                    &&& after.last_pkid != client.last_pkid
                    &&& after.state.incoming_rec == client.state.incoming_rec.push(publish)
                    &&& after.state.incoming_pub == client.state.incoming_pub
                },
            }
        }),
{
    assert(pkid_after(client.last_pkid, 0) == client.last_pkid);
    assert(pkid_after(client.last_pkid, 1) == next_pkid(client.last_pkid));
}

/// What a session has after `n` messages were forwarded to it at one
/// quality of service: it was sent the `n` publishes, in order, after what
/// it was sent before; above `AtMostOnce` the publishes wait, in order, at
/// the end of the queue of their quality of service, and `n` packet
/// identifiers are used up.
pub proof fn lemma_deliver_times(
    client: ClientView,
    n: nat,
    topic: Seq<char>,
    qos: QoS,
    payload: Seq<u8>,
)
    ensures
        ({
            let after = client.deliver_times(n, topic, qos, payload);
            let sent = client.forwarded(n, topic, qos, payload);
            &&& after.id == client.id
            &&& after.addr == client.addr
            &&& after.outgoing == client.outgoing + publish_packets(sent)
            &&& after.last_pkid == if qos == QoS::AtMostOnce {
                client.last_pkid
            } else {
                pkid_after(client.last_pkid, n)
            }
            &&& after.state.incoming_pub == if qos == QoS::AtLeastOnce {
                client.state.incoming_pub + sent
            } else {
                client.state.incoming_pub
            }
            &&& after.state.incoming_rec == if qos == QoS::ExactlyOnce {
                client.state.incoming_rec + sent
            } else {
                client.state.incoming_rec
            }
            &&& after.state.incoming_rel == client.state.incoming_rel
            &&& after.state.incoming_comp == client.state.incoming_comp
        }),
    decreases n,
{
    let after = client.deliver_times(n, topic, qos, payload);
    let sent = client.forwarded(n, topic, qos, payload);
    if n == 0 {
        assert(sent =~= Seq::<PublishView>::empty());
        assert(client.outgoing + publish_packets(sent) =~= client.outgoing);
        assert(client.state.incoming_pub + sent =~= client.state.incoming_pub);
        assert(client.state.incoming_rec + sent =~= client.state.incoming_rec);
        assert(pkid_after(client.last_pkid, 0) == client.last_pkid);
    } else {
        let m = (n - 1) as nat;
        let before = client.deliver_times(m, topic, qos, payload);
        let sent_before = client.forwarded(m, topic, qos, payload);
        lemma_deliver_times(client, m, topic, qos, payload);
        lemma_deliver(before, topic, qos, payload);
        let publish = sent[n - 1];
        assert(pkid_after(client.last_pkid, n) == next_pkid(pkid_after(client.last_pkid, m)));
        assert(publish.pid == before.pid_for(qos));
        assert(sent =~= sent_before.push(publish));
        assert(publish_packets(sent) =~= publish_packets(sent_before).push(
            PacketView::Publish(publish),
        ));
        assert(after.outgoing =~= client.outgoing + publish_packets(sent));
        assert((client.state.incoming_pub + sent_before).push(publish)
            =~= client.state.incoming_pub + sent);
        assert((client.state.incoming_rec + sent_before).push(publish)
            =~= client.state.incoming_rec + sent);
    }
}

/// Forwarding a message to a list of clients changes nothing but the
/// sessions, and to each session the message is forwarded as often as its
/// identity stands in the list.
pub proof fn lemma_deliver_all(
    broker: BrokerView,
    ids: Seq<Seq<char>>,
    topic: Seq<char>,
    qos: QoS,
    payload: Seq<u8>,
)
    ensures
        ({
            let after = broker.deliver_all(ids, topic, qos, payload);
            &&& after.subscriptions == broker.subscriptions
            &&& after.state == broker.state
            &&& after.clients.dom() == broker.clients.dom()
            &&& forall|id: Seq<char>|
                broker.clients.contains_key(id) ==> #[trigger] after.clients[id]
                    == broker.clients[id].deliver_times(occurrences(ids, id), topic, qos, payload)
        }),
    decreases ids.len(),
{
    let after = broker.deliver_all(ids, topic, qos, payload);
    if ids.len() > 0 {
        let before = broker.deliver_all(ids.drop_last(), topic, qos, payload);
        lemma_deliver_all(broker, ids.drop_last(), topic, qos, payload);
        assert(after == before.deliver_to(ids.last(), topic, qos, payload));
        assert(after.clients.dom() =~= broker.clients.dom());
    }
}

/// The fan-out of a message changes nothing but the sessions, and each
/// session as `fanned_out` says: the message is forwarded to it once for
/// each entry that it has among the subscribers of the topic.
pub proof fn lemma_forward_to_subscribers(broker: BrokerView, topic: Seq<char>, payload: Seq<u8>)
    ensures
        ({
            let after = broker.forward_to_subscribers(topic, payload);
            &&& after.subscriptions == broker.subscriptions
            &&& after.state == broker.state
            &&& after.clients.dom() == broker.clients.dom()
            &&& forall|id: Seq<char>|
                broker.clients.contains_key(id) ==> #[trigger] after.clients[id]
                    == broker.fanned_out(id, topic, payload)
        }),
{
    let key0 = SubscribeTopicView { topic_path: topic, qos: QoS::AtMostOnce };
    let key1 = SubscribeTopicView { topic_path: topic, qos: QoS::AtLeastOnce };
    let key2 = SubscribeTopicView { topic_path: topic, qos: QoS::ExactlyOnce };
    let b0 = broker.forward_at(topic, QoS::AtMostOnce, payload);
    let b1 = b0.forward_at(topic, QoS::AtLeastOnce, payload);
    lemma_deliver_all(broker, broker.subscribers(key0), topic, QoS::AtMostOnce, payload);
    lemma_deliver_all(b0, b0.subscribers(key1), topic, QoS::AtLeastOnce, payload);
    lemma_deliver_all(b1, b1.subscribers(key2), topic, QoS::ExactlyOnce, payload);
}

/// A publish at `ExactlyOnce` is not forwarded when it comes in: its source
/// gets a PUBREC and nothing else happens. When the source releases it, the
/// source gets a PUBCOMP, the record is gone, and the message is forwarded
/// to every session once for each entry that the session has among the
/// subscribers of the topic, at the quality of service of that entry. This
/// is stated of a source that is in the session table and whose record queue
/// holds no publish under the same identifier: the release takes the first
/// record that carries the identifier.
pub proof fn lemma_release_forwards_once(
    broker: BrokerView,
    publish: PublishView,
    pkid: PacketIdentifier,
    source: Seq<char>,
)
    requires
        broker.clients.contains_key(source),
        publish.qos == QoS::ExactlyOnce,
        publish.pid == Some(pkid),
        !pids(broker.clients[source].state.incoming_rec).contains(Some(pkid)),
    ensures
        ({
            let held = broker.handle_publish(publish, source);
            let released = held.handle_pubrel(pkid, source);
            let acknowledged = broker.send(source, PacketView::Pubrec(pkid)).send(
                source,
                PacketView::Pubcomp(pkid),
            );
            &&& held == broker.keep_record(source, publish).send(source, PacketView::Pubrec(pkid))
            &&& forall|id: Seq<char>|
                broker.clients.contains_key(id) && id != source ==> #[trigger] held.clients[id]
                    == broker.clients[id]
            &&& released == acknowledged.forward_to_subscribers(
                publish.topic_name,
                publish.payload,
            )
            &&& released.clients.dom() == broker.clients.dom()
            &&& forall|id: Seq<char>|
                broker.clients.contains_key(id) ==> #[trigger] released.clients[id]
                    == acknowledged.fanned_out(id, publish.topic_name, publish.payload)
        }),
{
    let held = broker.handle_publish(publish, source);
    let acknowledged = broker.send(source, PacketView::Pubrec(pkid)).send(
        source,
        PacketView::Pubcomp(pkid),
    );
    let old_records = broker.clients[source].state.incoming_rec;
    let records = old_records.push(publish);
    let client = held.clients[source].send(PacketView::Pubcomp(pkid));
    assert(client.state.incoming_rec == records);
    assert forall|j: int| 0 <= j < old_records.len() implies (#[trigger] records[j]).pid != Some(
        pkid,
    ) by {
        assert(pids(old_records)[j] == old_records[j].pid);
    }
    lemma_position_of_is(records, pkid, old_records.len() as int);
    assert(records.remove(old_records.len() as int) =~= old_records);
    let base = held.with_session(source, client.with_state(client.state.remove_record(pkid)));
    assert(base.clients =~= acknowledged.clients);
    lemma_forward_to_subscribers(acknowledged, publish.topic_name, publish.payload);
    assert(acknowledged.clients.dom() =~= broker.clients.dom());
}

/// The identifiers of `acks` as they stand in publishes.
pub open spec fn as_pids(acks: Seq<PacketIdentifier>) -> Seq<Option<PacketIdentifier>> {
    acks.map_values(|a: PacketIdentifier| Some(a))
}

/// What acknowledgements leave of a queue: under each identifier as many
/// publishes fewer as there are acknowledgements of it, and none where
/// there are at least as many acknowledgements as publishes.
pub proof fn lemma_ack_all(queue: Seq<PublishView>, acks: Seq<PacketIdentifier>)
    ensures
        pids(ack_all(queue, acks)).to_multiset() == pids(queue).to_multiset().sub(
            as_pids(acks).to_multiset(),
        ),
    decreases acks.len(),
{
    broadcast use vstd::seq_lib::group_to_multiset_ensures;

    let all = pids(queue).to_multiset();
    if acks.len() == 0 {
        assert(as_pids(acks) =~= Seq::<Option<PacketIdentifier>>::empty());
        assert(as_pids(acks).to_multiset().len() == 0);
        assert(all.sub(as_pids(acks).to_multiset()) =~= all);
    } else {
        let earlier = acks.drop_last();
        let last = acks.last();
        assert(as_pids(acks) =~= as_pids(earlier).push(Some(last)));
        let taken = as_pids(earlier).to_multiset();
        assert(as_pids(acks).to_multiset() =~= taken.insert(Some(last)));
        lemma_ack_all(queue, earlier);
        let rest = ack_all(queue, earlier);
        pids(rest).index_of_first_ensures(Some(last));
        lemma_position_of(rest, last);
        if pids(rest).contains(Some(last)) {
            let i = position_of(rest, last)->0;
            assert(pids(rest.remove(i)) =~= pids(rest).remove(i));
            assert(pids(rest).remove(i).to_multiset() == pids(rest).to_multiset().remove(
                pids(rest)[i],
            ));
            assert(all.sub(taken).count(Some(last)) > 0);
            assert(all.sub(taken).remove(Some(last)) =~= all.sub(taken.insert(Some(last))));
        } else {
            assert(all.sub(taken).count(Some(last)) == 0);
            assert(all.sub(taken) =~= all.sub(taken.insert(Some(last))));
        }
    }
}

/// Once each publish of a queue was acknowledged, in whatever order and
/// whatever else was acknowledged beside, the queue is empty.
pub proof fn lemma_acks_empty_queue(queue: Seq<PublishView>, acks: Seq<PacketIdentifier>)
    requires
        pids(queue).to_multiset().subset_of(as_pids(acks).to_multiset()),
    ensures
        ack_all(queue, acks) == Seq::<PublishView>::empty(),
{
    broadcast use vstd::seq_lib::group_to_multiset_ensures;

    lemma_ack_all(queue, acks);
    let left = ack_all(queue, acks);
    let all = pids(queue).to_multiset();
    assert(all.sub(as_pids(acks).to_multiset())
        =~= vstd::multiset::Multiset::<Option<PacketIdentifier>>::empty());
    assert(pids(left).to_multiset().len() == 0);
    assert(pids(left).len() == 0);
    assert(left =~= Seq::<PublishView>::empty());
}

/// PUBACKs of a client change nothing but the publish queue of its
/// session, from which each of them takes the first publish that carries
/// its identifier.
pub proof fn lemma_handle_pubacks(
    broker: BrokerView,
    acks: Seq<PacketIdentifier>,
    source: Seq<char>,
)
    requires
        broker.clients.contains_key(source),
    ensures
        broker.handle_pubacks(acks, source) == broker.with_session(
            source,
            broker.clients[source].with_state(
                (BrokerStateView {
                    incoming_pub: ack_all(broker.clients[source].state.incoming_pub, acks),
                    ..broker.clients[source].state
                }),
            ),
        ),
    decreases acks.len(),
{
    let client = broker.clients[source];
    let goal = broker.with_session(
        source,
        client.with_state(
            BrokerStateView { incoming_pub: ack_all(client.state.incoming_pub, acks), ..client.state },
        ),
    );
    if acks.len() == 0 {
        assert(goal.clients =~= broker.clients);
    } else {
        lemma_handle_pubacks(broker, acks.drop_last(), source);
        let before = broker.handle_pubacks(acks.drop_last(), source);
        assert(before.handle_puback(acks.last(), source).clients =~= goal.clients);
    }
}

/// After any sequence of inbound publishes, once a subscribed client has
/// acknowledged each publish that waits in its publish queue, in whatever
/// order, that queue is empty again.
pub proof fn lemma_acknowledged_publishes_leave(
    broker: BrokerView,
    publishes: Seq<(PublishView, Seq<char>)>,
    id: Seq<char>,
    acks: Seq<PacketIdentifier>,
)
    requires
        broker.handle_publishes(publishes).clients.contains_key(id),
        pids(
            broker.handle_publishes(publishes).clients[id].state.incoming_pub,
        ).to_multiset().subset_of(as_pids(acks).to_multiset()),
    ensures
        broker.handle_publishes(publishes).handle_pubacks(acks, id).clients.contains_key(id),
        broker.handle_publishes(publishes).handle_pubacks(
            acks,
            id,
        ).clients[id].state.incoming_pub == Seq::<PublishView>::empty(),
{
    let delivered = broker.handle_publishes(publishes);
    lemma_handle_pubacks(delivered, acks, id);
    lemma_acks_empty_queue(delivered.clients[id].state.incoming_pub, acks);
}

/// Taking a publish out of a queue leaves only publishes that the queue
/// held.
pub proof fn lemma_without_pid_within(queue: Seq<PublishView>, pkid: PacketIdentifier)
    ensures
        forall|j: int|
            0 <= j < without_pid(queue, pkid).len() ==> queue.contains(
                #[trigger] without_pid(queue, pkid)[j],
            ),
{
    lemma_position_of(queue, pkid);
    match position_of(queue, pkid) {
        Some(i) => {
            let after = queue.remove(i);
            assert forall|j: int| 0 <= j < after.len() implies queue.contains(
                #[trigger] after[j],
            ) by {
                if j < i {
                    assert(queue[j] == after[j]);
                } else {
                    assert(queue[j + 1] == after[j]);
                }
            }
        },
        None => {
            assert forall|j: int| 0 <= j < queue.len() implies queue.contains(
                #[trigger] queue[j],
            ) by {}
        },
    }
}

/// Removing from the queues of a state whose queues hold only what they
/// are named for leaves such a state.
pub proof fn lemma_removals_keep_queues(state: BrokerStateView, pkid: PacketIdentifier)
    requires
        state.well_kept(),
    ensures
        state.remove_publish(pkid).well_kept(),
        state.remove_record(pkid).well_kept(),
        state.remove_rel(pkid).well_kept(),
        state.remove_comp(pkid).well_kept(),
        state.store_rel(pkid).well_kept(),
        state.store_comp(pkid).well_kept(),
{
    lemma_without_pid_within(state.incoming_pub, pkid);
    lemma_without_pid_within(state.incoming_rec, pkid);
    let publishes = without_pid(state.incoming_pub, pkid);
    assert forall|j: int| 0 <= j < publishes.len() implies (#[trigger] publishes[j]).qos
        == QoS::AtLeastOnce && publishes[j].pid is Some by {
        assert(state.incoming_pub.contains(publishes[j]));
    }
    let records = without_pid(state.incoming_rec, pkid);
    assert forall|j: int| 0 <= j < records.len() implies (#[trigger] records[j]).qos
        == QoS::ExactlyOnce && records[j].pid is Some by {
        assert(state.incoming_rec.contains(records[j]));
    }
}

/// Forwarding messages to a session whose queues hold only what they are
/// named for leaves such a session.
pub proof fn lemma_deliver_times_keeps_queues(
    client: ClientView,
    n: nat,
    topic: Seq<char>,
    qos: QoS,
    payload: Seq<u8>,
)
    requires
        client.state.well_kept(),
    ensures
        client.deliver_times(n, topic, qos, payload).state.well_kept(),
    decreases n,
{
    if n > 0 {
        let before = client.deliver_times((n - 1) as nat, topic, qos, payload);
        lemma_deliver_times_keeps_queues(client, (n - 1) as nat, topic, qos, payload);
        lemma_deliver(before, topic, qos, payload);
    }
}

/// The fan-out of a message keeps every queue to what it is named for.
pub proof fn lemma_forward_keeps_queues(broker: BrokerView, topic: Seq<char>, payload: Seq<u8>)
    requires
        broker.well_kept(),
    ensures
        broker.forward_to_subscribers(topic, payload).well_kept(),
{
    let after = broker.forward_to_subscribers(topic, payload);
    lemma_forward_to_subscribers(broker, topic, payload);
    assert forall|id: Seq<char>| after.clients.contains_key(id) implies (
    #[trigger] after.clients[id]).state.well_kept() by {
        assert(broker.clients.contains_key(id));
        let key0 = SubscribeTopicView { topic_path: topic, qos: QoS::AtMostOnce };
        let key1 = SubscribeTopicView { topic_path: topic, qos: QoS::AtLeastOnce };
        let key2 = SubscribeTopicView { topic_path: topic, qos: QoS::ExactlyOnce };
        let c0 = broker.clients[id].deliver_times(
            occurrences(broker.subscribers(key0), id),
            topic,
            QoS::AtMostOnce,
            payload,
        );
        let c1 = c0.deliver_times(
            occurrences(broker.subscribers(key1), id),
            topic,
            QoS::AtLeastOnce,
            payload,
        );
        lemma_deliver_times_keeps_queues(
            broker.clients[id],
            occurrences(broker.subscribers(key0), id),
            topic,
            QoS::AtMostOnce,
            payload,
        );
        lemma_deliver_times_keeps_queues(
            c0,
            occurrences(broker.subscribers(key1), id),
            topic,
            QoS::AtLeastOnce,
            payload,
        );
        lemma_deliver_times_keeps_queues(
            c1,
            occurrences(broker.subscribers(key2), id),
            topic,
            QoS::ExactlyOnce,
            payload,
        );
    }
}

/// Whatever packet the broker handles, every queue goes on holding only
/// what it is named for: publishes at `AtLeastOnce` in the publish queues,
/// publishes at `ExactlyOnce` in the record queues, each with its packet
/// identifier.
pub proof fn lemma_dispatch_keeps_queues(broker: BrokerView, packet: PacketView, source: Seq<char>)
    requires
        broker.well_kept(),
    ensures
        broker.dispatch(packet, source).well_kept(),
{
    match packet {
        PacketView::Publish(publish) => {
            match publish.qos {
                QoS::AtMostOnce => {
                    lemma_forward_keeps_queues(broker, publish.topic_name, publish.payload);
                },
                QoS::AtLeastOnce => {
                    if let Some(pkid) = publish.pid {
                        lemma_forward_keeps_queues(
                            broker.send(source, PacketView::Puback(pkid)),
                            publish.topic_name,
                            publish.payload,
                        );
                    }
                },
                QoS::ExactlyOnce => {},
            }
        },
        PacketView::Puback(pkid) => {
            if broker.clients.contains_key(source) {
                lemma_removals_keep_queues(broker.clients[source].state, pkid);
            }
        },
        PacketView::Pubrec(pkid) => {
            if broker.clients.contains_key(source) {
                lemma_removals_keep_queues(broker.clients[source].state, pkid);
                lemma_removals_keep_queues(broker.clients[source].state.remove_record(pkid), pkid);
            }
        },
        PacketView::Pubrel(pkid) => {
            if broker.clients.contains_key(source) {
                let client = broker.clients[source].send(PacketView::Pubcomp(pkid));
                lemma_removals_keep_queues(client.state, pkid);
                let released = broker.with_session(
                    source,
                    client.with_state(client.state.remove_record(pkid)),
                );
                assert(released.well_kept());
                match crate::state::publish_with(client.state.incoming_rec, pkid) {
                    Some(record) => {
                        lemma_forward_keeps_queues(released, record.topic_name, record.payload);
                    },
                    None => {},
                }
            }
        },
        PacketView::Pubcomp(pkid) => {
            if broker.clients.contains_key(source) {
                lemma_removals_keep_queues(broker.clients[source].state, pkid);
            }
        },
        PacketView::Subscribe(subscribe) => {
            lemma_subscribe_all(broker, subscribe.topics, source);
        },
        PacketView::Pingreq => {},
        PacketView::Disconnect => {},
        PacketView::Suback(_) => {},
        PacketView::Pingresp => {},
    }
}

/// While no client subscribes to a key that it is subscribed to already,
/// no list of subscribers comes to hold an identity twice; a removal never
/// makes it do so.
pub proof fn lemma_subscribers_stay_distinct(list: Seq<Seq<char>>, id: Seq<char>)
    requires
        list.no_duplicates(),
    ensures
        !list.contains(id) ==> with_subscriber(list, id).no_duplicates(),
        list.remove_value(id).no_duplicates(),
{
    list.index_of_first_ensures(id);
    match list.index_of_first(id) {
        Some(i) => {
            let after = list.remove(i);
            assert forall|a: int, b: int| 0 <= a < after.len() && 0 <= b < after.len() && a
                != b implies after[a] != after[b] by {
                let a0 = if a < i { a } else { a + 1 };
                let b0 = if b < i { b } else { b + 1 };
                assert(after[a] == list[a0]);
                assert(after[b] == list[b0]);
            }
        },
        None => {
            let after = list.push(id);
            assert forall|a: int, b: int| 0 <= a < after.len() && 0 <= b < after.len() && a
                != b implies after[a] != after[b] by {
                if a < list.len() {
                    assert(after[a] == list[a]);
                }
                if b < list.len() {
                    assert(after[b] == list[b]);
                }
            }
        },
    }
}

/// The publishes at `AtLeastOnce` among `packets`, in order: those that
/// their receiver has to acknowledge with a PUBACK.
pub open spec fn publishes_to_acknowledge(packets: Seq<PacketView>) -> Seq<PublishView>
    decreases packets.len(),
{
    if packets.len() == 0 {
        Seq::empty()
    } else {
        let earlier = publishes_to_acknowledge(packets.drop_last());
        match packets.last() {
            PacketView::Publish(publish) => if publish.qos == QoS::AtLeastOnce {
                earlier.push(publish)
            } else {
                earlier
            },
            _ => earlier,
        }
    }
}

/// Since the session had been sent `sent` packets and held `waiting` in its
/// publish queue, the queue has grown by the publishes at `AtLeastOnce`
/// that the session was sent, in the order in which it was sent them.
pub open spec fn awaits_what_was_sent_since(
    sent: nat,
    waiting: Seq<PublishView>,
    client: ClientView,
) -> bool {
    &&& sent <= client.outgoing.len()
    &&& client.state.incoming_pub == waiting + publishes_to_acknowledge(
        client.outgoing.skip(sent as int),
    )
}

/// `now` has the sessions of `start`, and each of them has since added to
/// its publish queue the publishes at `AtLeastOnce` that it was sent.
pub open spec fn all_await_what_was_sent_since(start: BrokerView, now: BrokerView) -> bool {
    &&& now.clients.dom() == start.clients.dom()
    &&& forall|id: Seq<char>|
        start.clients.contains_key(id) ==> awaits_what_was_sent_since(
            start.clients[id].outgoing.len(),
            start.clients[id].state.incoming_pub,
            #[trigger] now.clients[id],
        )
}

/// A packet that is no publish at `AtLeastOnce` asks for no PUBACK.
proof fn lemma_send_keeps_awaiting(
    sent: nat,
    waiting: Seq<PublishView>,
    client: ClientView,
    packet: PacketView,
)
    requires
        awaits_what_was_sent_since(sent, waiting, client),
        !(packet matches PacketView::Publish(publish) && publish.qos == QoS::AtLeastOnce),
    ensures
        awaits_what_was_sent_since(sent, waiting, client.send(packet)),
{
    let after = client.outgoing.push(packet).skip(sent as int);
    assert(after.drop_last() =~= client.outgoing.skip(sent as int));
}

/// Each message forwarded at `AtLeastOnce` waits for its PUBACK; the
/// others do not.
proof fn lemma_deliver_times_keeps_awaiting(
    sent: nat,
    waiting: Seq<PublishView>,
    client: ClientView,
    n: nat,
    topic: Seq<char>,
    qos: QoS,
    payload: Seq<u8>,
)
    requires
        awaits_what_was_sent_since(sent, waiting, client),
    ensures
        awaits_what_was_sent_since(sent, waiting, client.deliver_times(n, topic, qos, payload)),
    decreases n,
{
    if n > 0 {
        let before = client.deliver_times((n - 1) as nat, topic, qos, payload);
        lemma_deliver_times_keeps_awaiting(sent, waiting, client, (n - 1) as nat, topic, qos, payload);
        lemma_deliver(before, topic, qos, payload);
        let after = before.deliver(topic, qos, payload);
        let since = after.outgoing.skip(sent as int);
        assert(since.drop_last() =~= before.outgoing.skip(sent as int));
        assert(since.last() == after.outgoing[after.outgoing.len() - 1]);
        let earlier = publishes_to_acknowledge(before.outgoing.skip(sent as int));
        if qos == QoS::AtLeastOnce {
            assert(after.state.incoming_pub =~= waiting + earlier.push(
                before.publish_packet(topic, qos, payload, false, false),
            ));
        }
    }
}

/// The fan-out of a message adds to each publish queue what it sends at
/// `AtLeastOnce`.
proof fn lemma_forward_keeps_awaiting(
    start: BrokerView,
    broker: BrokerView,
    topic: Seq<char>,
    payload: Seq<u8>,
)
    requires
        all_await_what_was_sent_since(start, broker),
    ensures
        all_await_what_was_sent_since(start, broker.forward_to_subscribers(topic, payload)),
{
    let after = broker.forward_to_subscribers(topic, payload);
    lemma_forward_to_subscribers(broker, topic, payload);
    assert forall|id: Seq<char>| start.clients.contains_key(id) implies awaits_what_was_sent_since(
        start.clients[id].outgoing.len(),
        start.clients[id].state.incoming_pub,
        #[trigger] after.clients[id],
    ) by {
        assert(broker.clients.contains_key(id));
        let sent = start.clients[id].outgoing.len();
        let waiting = start.clients[id].state.incoming_pub;
        let key0 = SubscribeTopicView { topic_path: topic, qos: QoS::AtMostOnce };
        let key1 = SubscribeTopicView { topic_path: topic, qos: QoS::AtLeastOnce };
        let key2 = SubscribeTopicView { topic_path: topic, qos: QoS::ExactlyOnce };
        let n0 = occurrences(broker.subscribers(key0), id);
        let n1 = occurrences(broker.subscribers(key1), id);
        let n2 = occurrences(broker.subscribers(key2), id);
        let c0 = broker.clients[id].deliver_times(n0, topic, QoS::AtMostOnce, payload);
        let c1 = c0.deliver_times(n1, topic, QoS::AtLeastOnce, payload);
        lemma_deliver_times_keeps_awaiting(
            sent,
            waiting,
            broker.clients[id],
            n0,
            topic,
            QoS::AtMostOnce,
            payload,
        );
        lemma_deliver_times_keeps_awaiting(sent, waiting, c0, n1, topic, QoS::AtLeastOnce, payload);
        lemma_deliver_times_keeps_awaiting(sent, waiting, c1, n2, topic, QoS::ExactlyOnce, payload);
    }
}

/// Sending a packet that asks for no PUBACK to one session keeps every
/// publish queue in step with what was sent.
proof fn lemma_broker_send_keeps_awaiting(
    start: BrokerView,
    broker: BrokerView,
    source: Seq<char>,
    packet: PacketView,
)
    requires
        all_await_what_was_sent_since(start, broker),
        !(packet matches PacketView::Publish(publish) && publish.qos == QoS::AtLeastOnce),
    ensures
        all_await_what_was_sent_since(start, broker.send(source, packet)),
{
    let after = broker.send(source, packet);
    if broker.clients.contains_key(source) {
        lemma_send_keeps_awaiting(
            start.clients[source].outgoing.len(),
            start.clients[source].state.incoming_pub,
            broker.clients[source],
            packet,
        );
        assert(after.clients.dom() =~= start.clients.dom());
    }
}

/// Handling inbound publishes keeps the sessions of the broker, and adds to
/// the publish queue of each session the publishes at `AtLeastOnce` that the
/// session is sent.
pub proof fn lemma_publishes_keep_awaiting(
    broker: BrokerView,
    publishes: Seq<(PublishView, Seq<char>)>,
)
    ensures
        all_await_what_was_sent_since(broker, broker.handle_publishes(publishes)),
    decreases publishes.len(),
{
    if publishes.len() == 0 {
        assert forall|id: Seq<char>| broker.clients.contains_key(id) implies awaits_what_was_sent_since(
            broker.clients[id].outgoing.len(),
            broker.clients[id].state.incoming_pub,
            #[trigger] broker.clients[id],
        ) by {
            let client = broker.clients[id];
            assert(client.outgoing.skip(client.outgoing.len() as int) =~= Seq::<
                PacketView,
            >::empty());
            assert(client.state.incoming_pub + Seq::<PublishView>::empty()
                =~= client.state.incoming_pub);
        }
    } else {
        lemma_publishes_keep_awaiting(broker, publishes.drop_last());
        let before = broker.handle_publishes(publishes.drop_last());
        let publish = publishes.last().0;
        let source = publishes.last().1;
        match publish.qos {
            QoS::AtMostOnce => {
                lemma_forward_keeps_awaiting(broker, before, publish.topic_name, publish.payload);
            },
            QoS::AtLeastOnce => {
                if let Some(pkid) = publish.pid {
                    lemma_broker_send_keeps_awaiting(
                        broker,
                        before,
                        source,
                        PacketView::Puback(pkid),
                    );
                    lemma_forward_keeps_awaiting(
                        broker,
                        before.send(source, PacketView::Puback(pkid)),
                        publish.topic_name,
                        publish.payload,
                    );
                }
            },
            QoS::ExactlyOnce => {
                if let Some(pkid) = publish.pid {
                    let kept = before.keep_record(source, publish);
                    if before.clients.contains_key(source) {
                        assert(kept.clients.dom() =~= broker.clients.dom());
                    }
                    assert(all_await_what_was_sent_since(broker, kept));
                    lemma_broker_send_keeps_awaiting(
                        broker,
                        kept,
                        source,
                        PacketView::Pubrec(pkid),
                    );
                }
            },
        }
    }
}

/// After any sequence of inbound publishes, once a client whose publish
/// queue was empty before them has acknowledged each publish at
/// `AtLeastOnce` that it was sent since, in whatever order, its publish
/// queue is empty again. Acknowledgements of other identifiers beside
/// them change nothing of that.
pub proof fn lemma_delivered_and_acknowledged(
    broker: BrokerView,
    publishes: Seq<(PublishView, Seq<char>)>,
    id: Seq<char>,
    acks: Seq<PacketIdentifier>,
)
    requires
        broker.clients.contains_key(id),
        broker.clients[id].state.incoming_pub.len() == 0,
        pids(
            publishes_to_acknowledge(
                broker.handle_publishes(publishes).clients[id].outgoing.skip(
                    broker.clients[id].outgoing.len() as int,
                ),
            ),
        ).to_multiset().subset_of(as_pids(acks).to_multiset()),
    ensures
        broker.handle_publishes(publishes).handle_pubacks(acks, id).clients.contains_key(id),
        broker.handle_publishes(publishes).handle_pubacks(
            acks,
            id,
        ).clients[id].state.incoming_pub == Seq::<PublishView>::empty(),
{
    lemma_publishes_keep_awaiting(broker, publishes);
    let delivered = broker.handle_publishes(publishes);
    assert(delivered.clients.contains_key(id));
    let sent = publishes_to_acknowledge(
        delivered.clients[id].outgoing.skip(broker.clients[id].outgoing.len() as int),
    );
    assert(delivered.clients[id].state.incoming_pub =~= sent);
    lemma_acknowledged_publishes_leave(broker, publishes, id, acks);
}

} // verus!
