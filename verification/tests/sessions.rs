use mqtt_broker::broker::Broker;
use mqtt_broker::client::Client;
use mqtt_broker::packet::{
    Packet, PacketIdentifier, Publish, QoS, Suback, SubscribeReturnCodes, SubscribeTopic,
};
use mqtt_broker::state::BrokerState;

fn stored(qos: QoS, pid: Option<u16>, payload: &str) -> Box<Publish> {
    Box::new(Publish {
        dup: false,
        qos,
        retain: false,
        topic_name: "a/b".to_owned(),
        pid: pid.map(PacketIdentifier),
        payload: payload.as_bytes().to_vec(),
    })
}

fn sub_key(path: &str, qos: QoS) -> SubscribeTopic {
    SubscribeTopic { topic_path: path.to_owned(), qos }
}

#[test]
fn new_state_has_empty_queues() {
    let state = BrokerState::new();
    assert!(state.incoming_pub.is_empty());
    assert!(state.incoming_rec.is_empty());
    assert!(state.incoming_rel.is_empty());
    assert!(state.incoming_comp.is_empty());
}

#[test]
fn remove_publish_takes_the_first_match_wherever_it_stands() {
    let mut state = BrokerState::new();
    state.store_publish(stored(QoS::AtLeastOnce, Some(1), "one"));
    state.store_publish(stored(QoS::AtLeastOnce, Some(2), "two"));
    state.store_publish(stored(QoS::AtLeastOnce, Some(3), "three"));
    state.store_publish(stored(QoS::AtLeastOnce, Some(2), "two again"));

    let taken = state.remove_publish(PacketIdentifier(2));
    assert_eq!(taken, Some(stored(QoS::AtLeastOnce, Some(2), "two")));
    assert_eq!(state.incoming_pub.len(), 3);
    assert_eq!(state.incoming_pub[0], stored(QoS::AtLeastOnce, Some(1), "one"));
    assert_eq!(state.incoming_pub[1], stored(QoS::AtLeastOnce, Some(3), "three"));
    assert_eq!(state.incoming_pub[2], stored(QoS::AtLeastOnce, Some(2), "two again"));

    let taken = state.remove_publish(PacketIdentifier(2));
    assert_eq!(taken, Some(stored(QoS::AtLeastOnce, Some(2), "two again")));
    assert_eq!(state.remove_publish(PacketIdentifier(2)), None);
    assert_eq!(state.incoming_pub.len(), 2);
}

#[test]
fn remove_on_empty_or_unmatched_queue_is_a_no_op() {
    let mut state = BrokerState::new();
    assert_eq!(state.remove_publish(PacketIdentifier(1)), None);
    assert_eq!(state.remove_record(PacketIdentifier(1)), None);
    state.remove_rel(PacketIdentifier(1));
    state.remove_comp(PacketIdentifier(1));
    assert!(state.incoming_pub.is_empty());
    assert!(state.incoming_rec.is_empty());
    assert!(state.incoming_rel.is_empty());
    assert!(state.incoming_comp.is_empty());

    state.store_publish(stored(QoS::AtLeastOnce, Some(5), "p"));
    state.store_publish(stored(QoS::AtMostOnce, None, "no pid"));
    state.store_record(stored(QoS::ExactlyOnce, Some(6), "r"));
    state.store_rel(PacketIdentifier(7));
    state.store_comp(PacketIdentifier(8));

    assert_eq!(state.remove_publish(PacketIdentifier(6)), None);
    assert_eq!(state.remove_record(PacketIdentifier(5)), None);
    state.remove_rel(PacketIdentifier(8));
    state.remove_comp(PacketIdentifier(7));
    assert_eq!(state.incoming_pub.len(), 2);
    assert_eq!(state.incoming_rec.len(), 1);
    assert_eq!(state.incoming_rel.len(), 1);
    assert_eq!(state.incoming_comp.len(), 1);
}

#[test]
fn remove_record_takes_from_the_record_queue() {
    let mut state = BrokerState::new();
    state.store_record(stored(QoS::ExactlyOnce, Some(4), "first"));
    state.store_record(stored(QoS::ExactlyOnce, Some(9), "second"));
    // the publish queue plays no part
    state.store_publish(stored(QoS::AtLeastOnce, Some(9), "elsewhere"));

    assert_eq!(
        state.remove_record(PacketIdentifier(9)),
        Some(stored(QoS::ExactlyOnce, Some(9), "second"))
    );
    assert_eq!(state.incoming_rec.len(), 1);
    assert_eq!(state.incoming_rec[0], stored(QoS::ExactlyOnce, Some(4), "first"));
    assert_eq!(state.incoming_pub.len(), 1);
}

#[test]
fn rel_and_comp_queues_remove_first_occurrence() {
    let mut state = BrokerState::new();
    for pid in [3u16, 4, 3, 5] {
        state.store_rel(PacketIdentifier(pid));
        state.store_comp(PacketIdentifier(pid));
    }
    state.remove_rel(PacketIdentifier(3));
    assert_eq!(
        state.incoming_rel.iter().map(|p| p.0).collect::<Vec<u16>>(),
        vec![4, 3, 5]
    );
    state.remove_comp(PacketIdentifier(5));
    assert_eq!(
        state.incoming_comp.iter().map(|p| p.0).collect::<Vec<u16>>(),
        vec![3, 4, 3]
    );
}

#[test]
fn broker_record_queue_is_read_at_the_position_in_the_publish_queue() {
    let mut broker = Broker::new();
    broker.store_record(stored(QoS::ExactlyOnce, Some(1), "r0"));
    broker.store_record(stored(QoS::ExactlyOnce, Some(2), "r1"));

    // no publish carries 2: nothing is found, though a record carries it
    assert_eq!(broker.remove_record(PacketIdentifier(2)), None);
    assert_eq!(broker.state.incoming_rec.len(), 2);

    broker.store_publish(stored(QoS::AtLeastOnce, Some(7), "seven"));
    broker.store_publish(stored(QoS::AtLeastOnce, Some(8), "eight"));
    broker.store_publish(stored(QoS::AtLeastOnce, Some(9), "nine"));

    // 9 stands at position 2 of the publish queue; the record queue ends before
    assert_eq!(broker.remove_record(PacketIdentifier(9)), None);
    assert_eq!(broker.state.incoming_rec.len(), 2);

    // 8 stands at position 1: the record at position 1 goes
    assert_eq!(
        broker.remove_record(PacketIdentifier(8)),
        Some(stored(QoS::ExactlyOnce, Some(2), "r1"))
    );
    assert_eq!(broker.state.incoming_rec.len(), 1);
    assert_eq!(broker.state.incoming_pub.len(), 3);
}

#[test]
fn broker_queues_store_and_remove() {
    let mut broker = Broker::new();
    broker.store_publish(stored(QoS::AtLeastOnce, Some(1), "a"));
    broker.store_publish(stored(QoS::AtLeastOnce, Some(2), "b"));
    assert_eq!(
        broker.remove_publish(PacketIdentifier(2)),
        Some(stored(QoS::AtLeastOnce, Some(2), "b"))
    );
    assert_eq!(broker.remove_publish(PacketIdentifier(2)), None);
    assert_eq!(broker.state.incoming_pub.len(), 1);

    broker.store_rel(PacketIdentifier(5));
    broker.store_rel(PacketIdentifier(6));
    broker.remove_rel(PacketIdentifier(5));
    broker.remove_rel(PacketIdentifier(50));
    assert_eq!(broker.state.incoming_rel.len(), 1);
    assert_eq!(broker.state.incoming_rel[0], PacketIdentifier(6));

    broker.store_comp(PacketIdentifier(5));
    broker.store_comp(PacketIdentifier(6));
    broker.remove_comp(PacketIdentifier(6));
    broker.remove_comp(PacketIdentifier(60));
    assert_eq!(broker.state.incoming_comp.len(), 1);
    assert_eq!(broker.state.incoming_comp[0], PacketIdentifier(5));
}

#[test]
fn new_client_is_fresh() {
    let client = Client::new("c1", "10.0.0.1:5000");
    assert_eq!(client.id, "c1");
    assert_eq!(client.addr, "10.0.0.1:5000");
    assert!(client.outgoing.is_empty());
    assert!(client.state.incoming_pub.is_empty());
    assert_eq!(client.last_pkid, PacketIdentifier(0));
}

#[test]
fn publish_packet_allocates_identifiers_above_qos0_only() {
    let mut client = Client::new("c1", "10.0.0.1:5000");

    let plain = client.publish_packet("a/b", QoS::AtMostOnce, b"zero".to_vec(), false, false);
    assert_eq!(plain.pid, None);
    assert_eq!(plain.qos, QoS::AtMostOnce);
    assert_eq!(client.last_pkid, PacketIdentifier(0));

    let first = client.publish_packet("a/b", QoS::AtLeastOnce, b"one".to_vec(), true, false);
    assert_eq!(
        *first,
        Publish {
            dup: false,
            qos: QoS::AtLeastOnce,
            retain: true,
            topic_name: "a/b".to_owned(),
            pid: Some(PacketIdentifier(1)),
            payload: b"one".to_vec(),
        }
    );

    let second = client.publish_packet("c", QoS::ExactlyOnce, vec![], false, true);
    assert_eq!(second.pid, Some(PacketIdentifier(2)));
    assert_eq!(second.qos, QoS::ExactlyOnce);
    assert_eq!(second.topic_name, "c");
    assert!(second.dup);
    assert!(!second.retain);
    assert!(second.payload.is_empty());
    assert_eq!(client.last_pkid, PacketIdentifier(2));
    // building a publish sends and stores nothing
    assert!(client.outgoing.is_empty());
    assert!(client.state.incoming_pub.is_empty());
    assert!(client.state.incoming_rec.is_empty());
}

#[test]
fn packet_identifiers_wrap_past_zero() {
    let mut client = Client::new("c1", "10.0.0.1:5000");
    client.last_pkid = PacketIdentifier(65534);
    assert_eq!(client.next_pkid(), PacketIdentifier(65535));
    assert_eq!(client.next_pkid(), PacketIdentifier(1));
    assert_eq!(client.next_pkid(), PacketIdentifier(2));
}

#[test]
fn packet_identifiers_do_not_repeat_within_a_round() {
    let mut client = Client::new("c1", "10.0.0.1:5000");
    client.last_pkid = PacketIdentifier(65000);
    let mut seen = vec![false; 65536];
    for _ in 0..65535u32 {
        let pid = client.next_pkid();
        assert_ne!(pid.0, 0);
        assert!(!seen[pid.0 as usize]);
        seen[pid.0 as usize] = true;
    }
    // after a full round the first identifier comes again
    assert_eq!(client.next_pkid(), PacketIdentifier(65001));
}

#[test]
fn suback_packet_packages_its_arguments() {
    let client = Client::new("c1", "10.0.0.1:5000");
    let suback = client.suback_packet(
        PacketIdentifier(12),
        vec![SubscribeReturnCodes::Success(QoS::ExactlyOnce), SubscribeReturnCodes::Failure],
    );
    assert_eq!(
        *suback,
        Suback {
            pid: PacketIdentifier(12),
            return_codes: vec![
                SubscribeReturnCodes::Success(QoS::ExactlyOnce),
                SubscribeReturnCodes::Failure
            ],
        }
    );
}

#[test]
fn send_keeps_order_and_take_outgoing_drains() {
    let mut client = Client::new("c1", "10.0.0.1:5000");
    client.send(Packet::Pingresp);
    client.send(Packet::Puback(PacketIdentifier(3)));
    client.send(Packet::Pubcomp(PacketIdentifier(4)));
    assert_eq!(
        client.take_outgoing(),
        vec![
            Packet::Pingresp,
            Packet::Puback(PacketIdentifier(3)),
            Packet::Pubcomp(PacketIdentifier(4))
        ]
    );
    assert!(client.outgoing.is_empty());
    assert!(client.take_outgoing().is_empty());
}

#[test]
fn client_queues_store_and_remove() {
    let mut client = Client::new("c1", "10.0.0.1:5000");
    client.store_publish(stored(QoS::AtLeastOnce, Some(1), "a"));
    client.store_record(stored(QoS::ExactlyOnce, Some(1), "b"));
    client.store_rel(PacketIdentifier(1));
    client.store_comp(PacketIdentifier(1));

    assert_eq!(
        client.remove_record(PacketIdentifier(1)),
        Some(stored(QoS::ExactlyOnce, Some(1), "b"))
    );
    assert_eq!(
        client.remove_publish(PacketIdentifier(1)),
        Some(stored(QoS::AtLeastOnce, Some(1), "a"))
    );
    client.remove_rel(PacketIdentifier(1));
    client.remove_comp(PacketIdentifier(1));
    assert!(client.state.incoming_pub.is_empty());
    assert!(client.state.incoming_rec.is_empty());
    assert!(client.state.incoming_rel.is_empty());
    assert!(client.state.incoming_comp.is_empty());
    assert_eq!(client.remove_publish(PacketIdentifier(1)), None);
    assert_eq!(client.remove_record(PacketIdentifier(1)), None);
}

#[test]
fn deliver_builds_stores_and_sends() {
    let mut client = Client::new("c1", "10.0.0.1:5000");
    client.deliver("a/b", QoS::AtMostOnce, b"m".to_vec());
    client.deliver("a/b", QoS::AtLeastOnce, b"m".to_vec());
    client.deliver("a/b", QoS::ExactlyOnce, b"m".to_vec());

    assert_eq!(
        client.outgoing,
        vec![
            Packet::Publish(stored(QoS::AtMostOnce, None, "m")),
            Packet::Publish(stored(QoS::AtLeastOnce, Some(1), "m")),
            Packet::Publish(stored(QoS::ExactlyOnce, Some(2), "m")),
        ]
    );
    assert_eq!(client.state.incoming_pub.len(), 1);
    assert_eq!(client.state.incoming_pub[0], stored(QoS::AtLeastOnce, Some(1), "m"));
    assert_eq!(client.state.incoming_rec.len(), 1);
    assert_eq!(client.state.incoming_rec[0], stored(QoS::ExactlyOnce, Some(2), "m"));
}

#[test]
fn add_client_overwrites_the_session_of_the_same_id() {
    let mut broker = Broker::new();
    let mut first = Client::new("A", "10.0.0.1:1");
    first.send(Packet::Pingresp);
    broker.add_client(first);
    broker.add_client(Client::new("B", "10.0.0.2:1"));
    broker.add_client(Client::new("A", "10.0.0.3:1"));

    assert!(broker.has_client("A"));
    assert!(broker.has_client("B"));
    let a = broker.client("A").unwrap();
    assert_eq!(a.addr, "10.0.0.3:1");
    assert!(a.outgoing.is_empty());
    assert!(broker.client("C").is_none());
}

#[test]
fn remove_client_of_unknown_id_changes_nothing() {
    let mut broker = Broker::new();
    broker.add_client(Client::new("A", "10.0.0.1:1"));
    broker.add_subscription_client(sub_key("t", QoS::AtMostOnce), "A");
    broker.remove_client("B");
    assert!(broker.has_client("A"));
    assert_eq!(broker.get_subscribed_clients(sub_key("t", QoS::AtMostOnce)), vec!["A"]);
}

#[test]
fn added_then_removed_client_is_in_no_subscription() {
    let mut broker = Broker::new();
    broker.add_client(Client::new("A", "10.0.0.1:1"));
    broker.add_client(Client::new("B", "10.0.0.2:1"));
    let keys = [
        sub_key("t", QoS::AtMostOnce),
        sub_key("t", QoS::AtLeastOnce),
        sub_key("u", QoS::ExactlyOnce),
    ];
    for k in keys.iter() {
        broker.add_subscription_client(k.clone(), "B");
        broker.add_subscription_client(k.clone(), "A");
    }
    broker.remove_client("A");

    assert!(!broker.has_client("A"));
    for k in keys.iter() {
        assert_eq!(broker.get_subscribed_clients(k.clone()), vec!["B"]);
    }
}

#[test]
fn subscribing_again_adds_an_entry_in_front_of_the_first() {
    let mut broker = Broker::new();
    let k = sub_key("t", QoS::AtMostOnce);
    broker.add_subscription_client(k.clone(), "A");
    broker.add_subscription_client(k.clone(), "B");
    broker.add_subscription_client(k.clone(), "C");
    broker.add_subscription_client(k.clone(), "B");
    assert_eq!(broker.get_subscribed_clients(k.clone()), vec!["A", "B", "B", "C"]);

    // a removal takes one entry only
    broker.remove_subscription_client(k.clone(), "B");
    assert_eq!(broker.get_subscribed_clients(k.clone()), vec!["A", "B", "C"]);
    broker.remove_client("B");
    assert_eq!(broker.get_subscribed_clients(k.clone()), vec!["A", "C"]);
}

#[test]
fn client_with_two_entries_gets_the_message_twice() {
    let mut broker = Broker::new();
    broker.add_client(Client::new("A", "10.0.0.1:1"));
    let k = sub_key("a/b", QoS::AtLeastOnce);
    broker.add_subscription_client(k.clone(), "A");
    broker.add_subscription_client(k.clone(), "A");

    // another topic reaches nobody
    let mut elsewhere = stored(QoS::AtMostOnce, None, "m");
    elsewhere.topic_name = "a/c".to_owned();
    broker.forward_to_subscribers(elsewhere);
    assert!(broker.take_outgoing("A").is_empty());

    broker.forward_to_subscribers(stored(QoS::AtMostOnce, None, "m"));
    assert_eq!(
        broker.take_outgoing("A"),
        vec![
            Packet::Publish(stored(QoS::AtLeastOnce, Some(1), "m")),
            Packet::Publish(stored(QoS::AtLeastOnce, Some(2), "m")),
        ]
    );
    assert_eq!(broker.client("A").unwrap().state.incoming_pub.len(), 2);
}

#[test]
fn remove_subscription_of_unknown_key_or_client_changes_nothing() {
    let mut broker = Broker::new();
    let k = sub_key("t", QoS::AtMostOnce);
    broker.remove_subscription_client(k.clone(), "A");
    assert!(broker.get_subscribed_clients(k.clone()).is_empty());

    broker.add_subscription_client(k.clone(), "A");
    broker.remove_subscription_client(k.clone(), "B");
    broker.remove_subscription_client(sub_key("t", QoS::AtLeastOnce), "A");
    broker.remove_subscription_client(sub_key("T", QoS::AtMostOnce), "A");
    assert_eq!(broker.get_subscribed_clients(k.clone()), vec!["A"]);

    // the last subscriber gone, the key has no subscribers and can get new ones
    broker.remove_subscription_client(k.clone(), "A");
    assert!(broker.get_subscribed_clients(k.clone()).is_empty());
    broker.add_subscription_client(k.clone(), "C");
    assert_eq!(broker.get_subscribed_clients(k.clone()), vec!["C"]);
}

#[test]
fn take_outgoing_of_unknown_client_is_empty() {
    let mut broker = Broker::new();
    assert!(broker.take_outgoing("A").is_empty());
    assert!(!broker.has_client("A"));
}

#[test]
fn same_key_compares_path_and_qos() {
    let k = sub_key("t", QoS::AtMostOnce);
    assert!(k.same_key(&sub_key("t", QoS::AtMostOnce)));
    assert!(!k.same_key(&sub_key("t", QoS::AtLeastOnce)));
    assert!(!k.same_key(&sub_key("t/", QoS::AtMostOnce)));
    assert_eq!(k.clone(), k);
}

#[test]
fn remove_client_takes_every_entry_of_the_client() {
    let mut broker = Broker::new();
    broker.add_client(Client::new("A", "10.0.0.1:1"));
    broker.add_client(Client::new("B", "10.0.0.2:1"));
    let k = sub_key("t", QoS::AtMostOnce);
    let other = sub_key("u", QoS::ExactlyOnce);
    for id in ["A", "B", "C", "B", "B"] {
        broker.add_subscription_client(k.clone(), id);
    }
    broker.add_subscription_client(other.clone(), "B");
    broker.add_subscription_client(other.clone(), "B");
    assert_eq!(broker.get_subscribed_clients(k.clone()), vec!["A", "B", "B", "B", "C"]);
    assert_eq!(broker.get_subscribed_clients(other.clone()), vec!["B", "B"]);

    broker.remove_client("B");

    assert!(!broker.has_client("B"));
    assert!(broker.has_client("A"));
    // the others stay, in their order
    assert_eq!(broker.get_subscribed_clients(k.clone()), vec!["A", "C"]);
    assert!(broker.get_subscribed_clients(other.clone()).is_empty());
}

#[test]
fn client_that_connects_again_starts_without_subscriptions() {
    let mut broker = Broker::new();
    broker.add_client(Client::new("A", "10.0.0.1:1"));
    let k = sub_key("a/b", QoS::AtLeastOnce);
    broker.add_subscription_client(k.clone(), "A");
    broker.add_subscription_client(k.clone(), "A");
    broker.remove_client("A");

    broker.add_client(Client::new("A", "10.0.0.9:1"));
    broker.forward_to_subscribers(stored(QoS::AtMostOnce, None, "m"));

    assert!(broker.get_subscribed_clients(k).is_empty());
    assert!(broker.take_outgoing("A").is_empty());
    assert!(broker.client("A").unwrap().state.incoming_pub.is_empty());
}

#[test]
fn remove_client_without_session_still_clears_the_index() {
    let mut broker = Broker::new();
    let k = sub_key("t", QoS::AtMostOnce);
    broker.add_subscription_client(k.clone(), "Z");
    broker.add_subscription_client(k.clone(), "A");
    broker.add_subscription_client(k.clone(), "Z");
    broker.remove_client("Z");
    assert_eq!(broker.get_subscribed_clients(k), vec!["A"]);
}

#[test]
fn lacks_pid_tells_the_publishes_that_are_dropped() {
    assert!(!stored(QoS::AtMostOnce, None, "m").lacks_pid());
    assert!(!stored(QoS::AtMostOnce, Some(1), "m").lacks_pid());
    assert!(stored(QoS::AtLeastOnce, None, "m").lacks_pid());
    assert!(!stored(QoS::AtLeastOnce, Some(1), "m").lacks_pid());
    assert!(stored(QoS::ExactlyOnce, None, "m").lacks_pid());
    assert!(!stored(QoS::ExactlyOnce, Some(1), "m").lacks_pid());
}

#[test]
fn state_gives_the_broker_queues() {
    let mut broker = Broker::new();
    assert!(broker.state().incoming_pub.is_empty());
    broker.store_publish(stored(QoS::AtLeastOnce, Some(3), "m"));
    broker.store_comp(PacketIdentifier(4));
    assert_eq!(broker.state().incoming_pub.len(), 1);
    assert_eq!(broker.state().incoming_pub[0], stored(QoS::AtLeastOnce, Some(3), "m"));
    assert_eq!(broker.state().incoming_comp[0], PacketIdentifier(4));
    assert!(broker.state().incoming_rec.is_empty());
}
