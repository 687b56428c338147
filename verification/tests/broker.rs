use mqtt_broker::broker::Broker;
use mqtt_broker::client::Client;
use mqtt_broker::packet::{QoS, SubscribeTopic};

fn mock_client(id: &str) -> Client {
    Client::new(id, "127.0.0.1:80")
}

fn topic(path: &str, qos: QoS) -> SubscribeTopic {
    SubscribeTopic { topic_path: path.to_owned(), qos }
}

#[test]
fn add_and_remove_clients_to_the_broker() {
    let c1 = mock_client("mock-client-1");
    let c2 = mock_client("mock-client-2");
    let c3 = mock_client("mock-client-3");

    let mut broker = Broker::new();
    broker.add_client(c1);
    broker.add_client(c2);
    broker.add_client(c3);

    assert_eq!(broker.has_client("mock-client-1"), true);
    assert_eq!(broker.has_client("mock-client-2"), true);
    assert_eq!(broker.has_client("mock-client-3"), true);

    broker.remove_client("mock-client-2");

    assert_eq!(broker.has_client("mock-client-1"), true);
    assert_eq!(broker.has_client("mock-client-2"), false);
    assert_eq!(broker.has_client("mock-client-3"), true);
}

#[test]
fn add_and_remove_subscriptions_to_the_broker() {
    let c1 = mock_client("mock-client-1");
    let c2 = mock_client("mock-client-2");

    let s1 = topic("hello/mqtt", QoS::AtMostOnce);
    let s2 = topic("hello/mqtt", QoS::AtLeastOnce);
    let s3 = topic("hello/mqtt", QoS::ExactlyOnce);
    let s4 = topic("hello/rumqttd", QoS::AtLeastOnce);
    let s5 = topic("hello/rumqttd", QoS::ExactlyOnce);

    let mut broker = Broker::new();

    // add c1 to to s1, s2, s3 & s4
    broker.add_subscription_client(s1.clone(), &c1.id);
    broker.add_subscription_client(s2.clone(), &c1.id);
    broker.add_subscription_client(s3.clone(), &c1.id);
    broker.add_subscription_client(s4.clone(), &c1.id);

    // add c2 to s2 & s5
    broker.add_subscription_client(s2.clone(), &c2.id);
    broker.add_subscription_client(s5.clone(), &c2.id);

    // verify clients in s1
    let clients = broker.get_subscribed_clients(s1.clone());
    assert_eq!(clients.len(), 1);
    assert_eq!(clients.get(0).unwrap(), "mock-client-1");

    // verify clients in s2
    let clients = broker.get_subscribed_clients(s2.clone());
    assert_eq!(clients.len(), 2);
    assert_eq!(clients.get(0).unwrap(), "mock-client-1");
    assert_eq!(clients.get(1).unwrap(), "mock-client-2");

    // verify clients in s5
    let clients = broker.get_subscribed_clients(s5.clone());
    assert_eq!(clients.len(), 1);
    assert_eq!(clients.get(0).unwrap(), "mock-client-2");

    // remove c1 from s2 and verify clients
    broker.remove_subscription_client(s2.clone(), &c1.id);
    let clients = broker.get_subscribed_clients(s2.clone());
    assert_eq!(clients.len(), 1);
    assert_eq!(clients.get(0).unwrap(), "mock-client-2");

    // remove c1 & c2 from all subscriptions and verify clients
    broker.remove_client(&c1.id);
    broker.remove_client(&c2.id);

    for s in [s1, s2, s3, s4, s5].iter() {
        let clients = broker.get_subscribed_clients(s.clone());
        assert_eq!(clients.len(), 0);
    }
}
