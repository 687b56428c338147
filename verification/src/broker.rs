//! The broker: session table, subscription index and packet handlers.

use vstd::prelude::*;

use crate::client::{Client, ClientView};
use crate::model::{with_subscriber, without_client, BrokerView};
use crate::packet::{
    Packet, PacketIdentifier, Publish, QoS, SubscribeReturnCodes, SubscribeTopic,
    SubscribeTopicView, Subscribe,
};
use crate::state::{pids, publish_with, BrokerState};
use crate::table::{
    as_map, has_key, keys_unique, lemma_as_map_absent, lemma_as_map_at, lemma_as_map_push,
    lemma_as_map_remove, lemma_as_map_update, lemma_as_map_values,
};

verus! {

/// Views of a list of client identities, in order.
pub open spec fn ids_view(ids: Seq<String>) -> Seq<Seq<char>> {
    ids.map_values(|s: String| s@)
}

/// One entry of the subscription index: a key and its subscribers.
#[derive(Debug)]
struct Subscription {
    topic: SubscribeTopic,
    clients: Vec<String>,
}

/// The routing and session core of a broker.
#[derive(Debug)]
pub struct Broker {
    /// All the active clients; no two have the same identity.
    clients: Vec<Client>,
    /// Subscriptions with their interested clients; no two have the same key.
    subscriptions: Vec<Subscription>,
    /// In-flight state of the broker itself.
    pub state: BrokerState,
}

impl View for Broker {
    type V = BrokerView;

    closed spec fn view(&self) -> BrokerView {
        BrokerView {
            clients: as_map(self.client_entries()),
            subscriptions: as_map(self.subscription_entries()),
            state: self.state@,
        }
    }
}

/// Position of the first occurrence of `id` in `ids`.
fn find_id(ids: &Vec<String>, id: &String) -> (res: Option<usize>)
    ensures
        match res {
            Some(i) => ids_view(ids@).index_of_first(id@) == Some(i as int) && i < ids.len(),
            None => ids_view(ids@).index_of_first(id@) is None,
        },
{
    let ghost list = ids_view(ids@);
    let mut i: usize = 0;
    while i < ids.len()
        invariant
            i <= ids.len(),
            list == ids_view(ids@),
            forall|j: int| 0 <= j < i ==> list[j] != id@,
        decreases ids.len() - i,
    {
        if ids[i] == *id {
            proof {
                assert(list[i as int] == id@);
                list.index_of_first_ensures(id@);
            }
            return Some(i);
        }
        i += 1;
    }
    proof {
        list.index_of_first_ensures(id@);
    }
    None
}

/// The entries of `ids` other than `id`, in their order.
fn without_id(ids: &Vec<String>, id: &String) -> (res: Vec<String>)
    ensures
        ids_view(res@) == without_client(ids_view(ids@), id@),
{
    let ghost list = ids_view(ids@);
    let mut kept: Vec<String> = Vec::new();
    let mut i: usize = 0;
    proof {
        reveal(Seq::filter);
        assert(ids_view(kept@) =~= without_client(list.take(0), id@));
    }
    while i < ids.len()
        invariant
            i <= ids.len(),
            list == ids_view(ids@),
            ids_view(kept@) == without_client(list.take(i as int), id@),
        decreases ids.len() - i,
    {
        proof {
            reveal(Seq::filter);
            let next = list.take(i + 1);
            assert(next.drop_last() =~= list.take(i as int));
            assert(next.last() == list[i as int]);
        }
        let ghost before = ids_view(kept@);
        if !(ids[i] == *id) {
            kept.push(ids[i].clone());
            assert(ids_view(kept@) =~= before.push(list[i as int]));
        }
        i += 1;
    }
    assert(list.take(ids.len() as int) =~= list);
    kept
}

impl Broker {
    /// The session table as a list of identities and sessions.
    pub closed spec fn client_entries(&self) -> Seq<(Seq<char>, ClientView)> {
        self.clients@.map_values(|c: Client| (c.id@, c@))
    }

    /// The subscription index as a list of keys and subscriber lists.
    pub closed spec fn subscription_entries(&self) -> Seq<(SubscribeTopicView, Seq<Seq<char>>)> {
        self.subscriptions@.map_values(|s: Subscription| (s.topic@, ids_view(s.clients@)))
    }

    /// No identity stands twice in the session table, and no key twice in
    /// the subscription index.
    pub closed spec fn wf(&self) -> bool {
        &&& keys_unique(self.client_entries())
        &&& keys_unique(self.subscription_entries())
    }

    /// In a well-formed broker every session stands under its own identity.
    pub proof fn lemma_view_wf(&self)
        requires
            self.wf(),
        ensures
            self@.wf(),
    {
        let entries = self.client_entries();
        assert forall|id: Seq<char>| self@.clients.contains_key(id) implies (
        #[trigger] self@.clients[id]).id == id by {
            let i = crate::table::index_of_key(entries, id);
            lemma_as_map_at(entries, i);
        }
    }

    /// The in-flight state of the broker itself.
    pub fn state(&self) -> (res: &BrokerState)
        ensures
            res@ == self@.state,
    {
        &self.state
    }

    /// A broker without clients and without subscriptions.
    pub fn new() -> (res: Self)
        ensures
            res.wf(),
            res@ == BrokerView::empty(),
    {
        let res = Broker {
            clients: Vec::new(),
            subscriptions: Vec::new(),
            state: BrokerState::new(),
        };
        assert(res@.clients =~= Map::empty());
        assert(res@.subscriptions =~= Map::empty());
        res
    }

    /// Position of the session of `id` in the table.
    fn client_index(&self, id: &String) -> (res: Option<usize>)
        requires
            self.wf(),
        ensures
            match res {
                Some(i) => {
                    &&& i < self.clients.len()
                    &&& self.clients[i as int].id@ == id@
                    &&& self@.clients.contains_key(id@)
                    &&& self@.clients[id@] == self.clients[i as int]@
                },
                None => !self@.clients.contains_key(id@),
            },
    {
        let ghost entries = self.client_entries();
        let mut i: usize = 0;
        while i < self.clients.len()
            invariant
                self.wf(),
                i <= self.clients.len(),
                entries == self.client_entries(),
                forall|j: int| 0 <= j < i ==> (#[trigger] entries[j]).0 != id@,
            decreases self.clients.len() - i,
        {
            if self.clients[i].id == *id {
                proof {
                    lemma_as_map_at(entries, i as int);
                }
                return Some(i);
            }
            i += 1;
        }
        proof {
            lemma_as_map_absent(entries, id@);
        }
        None
    }

    /// Whether a session of `id` is in the table.
    pub fn has_client(&self, id: &str) -> (res: bool)
        requires
            self.wf(),
        ensures
            res == self@.clients.contains_key(id@),
    {
        let id = id.to_owned();
        self.client_index(&id).is_some()
    }

    /// Adds a client to the broker. A session that is in the table under the
    /// same identity is replaced.
    pub fn add_client(&mut self, client: Client)
        requires
            old(self).wf(),
        ensures
            final(self).wf(),
            final(self)@ == old(self)@.add_client(client@),
    {
        let ghost entries = self.client_entries();
        match self.client_index(&client.id) {
            Some(i) => {
                proof {
                    lemma_as_map_update(entries, i as int, client@);
                }
                self.clients[i] = client;
                assert(self.client_entries() =~= entries.update(i as int, (client@.id, client@)));
            },
            None => {
                proof {
                    lemma_as_map_push(entries, client@.id, client@);
                }
                self.clients.push(client);
                assert(self.client_entries() =~= entries.push((client@.id, client@)));
            },
        }
    }

    /// Position of the entry of `topic` in the subscription index.
    fn subscription_index(&self, topic: &SubscribeTopic) -> (res: Option<usize>)
        requires
            self.wf(),
        ensures
            match res {
                Some(i) => {
                    &&& i < self.subscriptions.len()
                    &&& self.subscriptions[i as int].topic@ == topic@
                    &&& self@.subscriptions.contains_key(topic@)
                    &&& self@.subscriptions[topic@] == ids_view(
                        self.subscriptions[i as int].clients@,
                    )
                },
                None => !self@.subscriptions.contains_key(topic@) && !has_key(
                    self.subscription_entries(),
                    topic@,
                ),
            },
    {
        let ghost entries = self.subscription_entries();
        let mut i: usize = 0;
        while i < self.subscriptions.len()
            invariant
                self.wf(),
                i <= self.subscriptions.len(),
                entries == self.subscription_entries(),
                forall|j: int| 0 <= j < i ==> (#[trigger] entries[j]).0 != topic@,
            decreases self.subscriptions.len() - i,
        {
            if self.subscriptions[i].topic.same_key(topic) {
                proof {
                    lemma_as_map_at(entries, i as int);
                }
                return Some(i);
            }
            i += 1;
        }
        proof {
            lemma_as_map_absent(entries, topic@);
        }
        None
    }

    /// Adds a client to a subscription. If the subscription doesn't exist,
    /// it is created with the client as its only subscriber. A client that
    /// is already among the subscribers gets one more entry, in front of
    /// its first one.
    pub fn add_subscription_client(&mut self, topic: SubscribeTopic, client: &str)
        requires
            old(self).wf(),
        ensures
            final(self).wf(),
            final(self)@ == old(self)@.add_subscription_client(topic@, client@),
            final(self)@.subscribers(topic@).contains(client@),
    {
        let id = client.to_owned();
        let ghost entries = self.subscription_entries();
        let ghost list = self@.subscribers(topic@);
        proof {
            list.index_of_first_ensures(id@);
        }
        match self.subscription_index(&topic) {
            Some(i) => {
                match find_id(&self.subscriptions[i].clients, &id) {
                    Some(p) => {
                        self.subscriptions[i].clients.insert(p, id);
                        assert(ids_view(self.subscriptions[i as int].clients@) =~= list.insert(
                            p as int,
                            id@,
                        ));
                        assert(list.insert(p as int, id@)[p as int] == id@);
                    },
                    None => {
                        self.subscriptions[i].clients.push(id);
                        assert(ids_view(self.subscriptions[i as int].clients@) =~= list.push(id@));
                        assert(list.push(id@)[list.len() as int] == id@);
                    },
                }
                proof {
                    let new_list = with_subscriber(list, id@);
                    lemma_as_map_update(entries, i as int, new_list);
                    assert(self.subscription_entries() =~= entries.update(
                        i as int,
                        (topic@, new_list),
                    ));
                }
            },
            None => {
                let mut clients: Vec<String> = Vec::new();
                clients.push(id);
                proof {
                    assert(list =~= Seq::<Seq<char>>::empty());
                    assert(ids_view(clients@) =~= list.push(id@));
                    assert(list.push(id@)[0] == id@);
                    lemma_as_map_push(entries, topic@, list.push(id@));
                }
                self.subscriptions.push(Subscription { topic, clients });
                assert(self.subscription_entries() =~= entries.push((topic@, list.push(id@))));
            },
        }
    }

    /// Removes a client from a subscription: the first entry of the client
    /// among the subscribers of `topic` goes. Without the subscription, or
    /// without the client in it, nothing changes.
    pub fn remove_subscription_client(&mut self, topic: SubscribeTopic, id: &str)
        requires
            old(self).wf(),
        ensures
            final(self).wf(),
            final(self)@ == old(self)@.remove_subscription_client(topic@, id@),
            !old(self)@.subscribers(topic@).contains(id@) ==> final(self)@ == old(self)@,
    {
        let id = id.to_owned();
        let ghost entries = self.subscription_entries();
        let ghost list = self@.subscribers(topic@);
        proof {
            list.index_of_first_ensures(id@);
        }
        match self.subscription_index(&topic) {
            Some(i) => {
                match find_id(&self.subscriptions[i].clients, &id) {
                    Some(p) => {
                        self.subscriptions[i].clients.remove(p);
                        proof {
                            assert(ids_view(self.subscriptions[i as int].clients@) =~= list.remove(
                                p as int,
                            ));
                            lemma_as_map_update(entries, i as int, list.remove(p as int));
                            assert(self.subscription_entries() =~= entries.update(
                                i as int,
                                (topic@, list.remove(p as int)),
                            ));
                        }
                    },
                    None => {
                        assert(self@.subscriptions =~= old(self)@.subscriptions.insert(
                            topic@,
                            list,
                        ));
                    },
                }
            },
            None => {},
        }
    }

    /// Get the list of clients for a given subscription, in the order in
    /// which they subscribed; empty when nobody subscribed to `topic`.
    pub fn get_subscribed_clients(&self, topic: SubscribeTopic) -> (res: Vec<String>)
        requires
            self.wf(),
        ensures
            ids_view(res@) == self@.subscribers(topic@),
    {
        match self.subscription_index(&topic) {
            Some(i) => {
                let res = self.subscriptions[i].clients.clone();
                assert(ids_view(res@) =~= ids_view(self.subscriptions[i as int].clients@));
                res
            },
            None => {
                let res: Vec<String> = Vec::new();
                assert(ids_view(res@) =~= Seq::<Seq<char>>::empty());
                res
            },
        }
    }

    /// Remove the client from the broker: its session leaves the table,
    /// and every subscription loses all the entries of the client, so that a
    /// client that connects again under the same identity starts without
    /// subscriptions. The entries of other clients keep their order. Without
    /// a session and without entries of `id` nothing changes.
    pub fn remove_client(&mut self, id: &str)
        requires
            old(self).wf(),
        ensures
            final(self).wf(),
            final(self)@ == old(self)@.remove_client(id@),
            !final(self)@.clients.contains_key(id@),
            forall|key: SubscribeTopicView| !(#[trigger] final(self)@.subscribers(key)).contains(id@),
            forall|key: SubscribeTopicView|
                #[trigger] final(self)@.subscribers(key) == without_client(
                    old(self)@.subscribers(key),
                    id@,
                ),
            !old(self)@.clients.contains_key(id@) && (forall|key: SubscribeTopicView|
                !(#[trigger] old(self)@.subscribers(key)).contains(id@)) ==> final(self)@ == old(self)@,
    {
        let id = id.to_owned();
        let ghost clients0 = self.client_entries();
        match self.client_index(&id) {
            Some(i) => {
                self.clients.remove(i);
                proof {
                    lemma_as_map_remove(clients0, i as int);
                    assert(self.client_entries() =~= clients0.remove(i as int));
                }
            },
            None => {
                assert(self@.clients =~= old(self)@.clients.remove(id@));
            },
        }
        let ghost clients1 = self.client_entries();
        let ghost subs0 = self.subscription_entries();
        let ghost state0 = self.state@;
        let mut k: usize = 0;
        while k < self.subscriptions.len()
            invariant
                k <= self.subscriptions.len(),
                self.client_entries() == clients1,
                self.state@ == state0,
                self.subscription_entries().len() == subs0.len(),
                forall|j: int|
                    0 <= j < k ==> (#[trigger] self.subscription_entries()[j]) == (
                        subs0[j].0,
                        without_client(subs0[j].1, id@),
                    ),
                forall|j: int|
                    k <= j < subs0.len() ==> (#[trigger] self.subscription_entries()[j])
                        == subs0[j],
            decreases self.subscriptions.len() - k,
        {
            let ghost before = self.subscription_entries();
            assert(before[k as int] == subs0[k as int]);
            let kept = without_id(&self.subscriptions[k].clients, &id);
            self.subscriptions[k].clients = kept;
            proof {
                let after = self.subscription_entries();
                assert(after.len() == before.len());
                assert forall|j: int| 0 <= j < after.len() && j != k implies #[trigger] after[j]
                    == before[j] by {}
                assert(after[k as int] == (subs0[k as int].0, without_client(subs0[k as int].1, id@)));
            }
            k += 1;
        }
        proof {
            lemma_as_map_values(
                subs0,
                self.subscription_entries(),
                |list: Seq<Seq<char>>| without_client(list, id@),
            );
            assert(self@.subscriptions =~= old(self)@.subscriptions.map_values(
                |list: Seq<Seq<char>>| without_client(list, id@),
            ));
            crate::laws::lemma_remove_client(old(self)@, id@);
        }
    }

    /// Sends `packet` to the session of `id`, if there is one.
    fn send_to(&mut self, id: &String, packet: Packet)
        requires
            old(self).wf(),
        ensures
            final(self).wf(),
            final(self)@ == old(self)@.send(id@, packet@),
    {
        let ghost entries = self.client_entries();
        match self.client_index(id) {
            Some(i) => {
                self.clients[i].send(packet);
                proof {
                    lemma_as_map_update(entries, i as int, self.clients[i as int]@);
                    assert(self.client_entries() =~= entries.update(
                        i as int,
                        (id@, self.clients[i as int]@),
                    ));
                }
            },
            None => {},
        }
    }

    /// Changing the session at one position of the table, and nothing
    /// else, puts the changed session under the same identity.
    proof fn lemma_session_changed(before: Broker, after: Broker, i: int)
        requires
            before.wf(),
            0 <= i < before.clients.len(),
            after.clients.len() == before.clients.len(),
            forall|j: int|
                0 <= j < before.clients.len() && j != i ==> after.clients[j] == before.clients[j],
            after.clients[i].id@ == before.clients[i].id@,
            after.subscriptions == before.subscriptions,
            after.state == before.state,
        ensures
            after.wf(),
            after@ == before@.with_session(before.clients[i].id@, after.clients[i]@),
    {
        let entries = before.client_entries();
        lemma_as_map_update(entries, i, after.clients[i]@);
        assert(after.client_entries() =~= entries.update(
            i,
            (before.clients[i].id@, after.clients[i]@),
        ));
    }

    /// The session of `id`, if there is one.
    pub fn client(&self, id: &str) -> (res: Option<&Client>)
        requires
            self.wf(),
        ensures
            match res {
                Some(c) => self@.clients.contains_key(id@) && self@.clients[id@] == c@,
                None => !self@.clients.contains_key(id@),
            },
    {
        let id = id.to_owned();
        match self.client_index(&id) {
            Some(i) => Some(&self.clients[i]),
            None => None,
        }
    }

    /// Takes the packets that wait for the client `id`, oldest first, and
    /// leaves its outbound queue empty. Without a session of `id` there are
    /// none.
    pub fn take_outgoing(&mut self, id: &str) -> (res: Vec<Packet>)
        requires
            old(self).wf(),
        ensures
            final(self).wf(),
            old(self)@.clients.contains_key(id@) ==> {
                &&& crate::packet::packets_view(res@) == old(self)@.clients[id@].outgoing
                &&& final(self)@ == old(self)@.with_session(
                    id@,
                    (ClientView { outgoing: Seq::empty(), ..old(self)@.clients[id@] }),
                )
            },
            !old(self)@.clients.contains_key(id@) ==> res@.len() == 0 && final(self)@ == old(self)@,
    {
        let id = id.to_owned();
        match self.client_index(&id) {
            Some(i) => {
                let res = self.clients[i].take_outgoing();
                proof {
                    Self::lemma_session_changed(*old(self), *self, i as int);
                }
                res
            },
            None => Vec::new(),
        }
    }

    /// Appends a publish to the broker's own publish queue.
    pub fn store_publish(&mut self, publish: Box<Publish>)
        requires
            old(self).wf(),
        ensures
            final(self).wf(),
            final(self)@ == old(self)@.with_state(old(self)@.state.store_publish(publish@)),
    {
        self.state.store_publish(publish);
    }

    /// Takes the first publish that carries `pkid` out of the broker's own
    /// publish queue. Without such a publish nothing changes.
    pub fn remove_publish(&mut self, pkid: PacketIdentifier) -> (res: Option<Box<Publish>>)
        requires
            old(self).wf(),
        ensures
            final(self).wf(),
            final(self)@ == old(self)@.with_state(old(self)@.state.remove_publish(pkid)),
            match res {
                Some(p) => publish_with(old(self)@.state.incoming_pub, pkid) == Some(p@)
                    && p@.pid == Some(pkid),
                None => publish_with(old(self)@.state.incoming_pub, pkid) is None,
            },
            !pids(old(self)@.state.incoming_pub).contains(Some(pkid)) ==> res is None && final(self)@ == old(self)@,
    {
        self.state.remove_publish(pkid)
    }

    /// Appends a publish to the broker's own record queue.
    pub fn store_record(&mut self, publish: Box<Publish>)
        requires
            old(self).wf(),
        ensures
            final(self).wf(),
            final(self)@ == old(self)@.with_state(old(self)@.state.store_record(publish@)),
    {
        self.state.store_record(publish);
    }

    /// Takes a publish out of the broker's own record queue: the one at the
    /// position that `pkid` has in the broker's publish queue. Nothing
    /// changes when no publish of the publish queue carries `pkid`, or when
    /// the record queue is too short to have that position.
    pub fn remove_record(&mut self, pkid: PacketIdentifier) -> (res: Option<Box<Publish>>)
        requires
            old(self).wf(),
        ensures
            final(self).wf(),
            final(self)@ == old(self)@.with_state(
                old(self)@.state.remove_record_at_publish(pkid),
            ),
            match res {
                Some(p) => old(self)@.state.record_at_publish(pkid) is Some && p@ == old(self)@.state.incoming_rec[old(self)@.state.record_at_publish(pkid)->0],
                None => old(self)@.state.record_at_publish(pkid) is None,
            },
            !pids(old(self)@.state.incoming_pub).contains(Some(pkid)) ==> res is None && final(self)@ == old(self)@,
    {
        self.state.remove_record_at_publish(pkid)
    }

    /// Appends an identifier to the broker's own release queue.
    pub fn store_rel(&mut self, pkid: PacketIdentifier)
        requires
            old(self).wf(),
        ensures
            final(self).wf(),
            final(self)@ == old(self)@.with_state(old(self)@.state.store_rel(pkid)),
    {
        self.state.store_rel(pkid);
    }

    /// Removes the first occurrence of `pkid` from the broker's own release
    /// queue. Without one nothing changes.
    pub fn remove_rel(&mut self, pkid: PacketIdentifier)
        requires
            old(self).wf(),
        ensures
            final(self).wf(),
            final(self)@ == old(self)@.with_state(old(self)@.state.remove_rel(pkid)),
            !old(self)@.state.incoming_rel.contains(pkid) ==> final(self)@ == old(self)@,
    {
        self.state.remove_rel(pkid);
    }

    /// Appends an identifier to the broker's own completion queue.
    pub fn store_comp(&mut self, pkid: PacketIdentifier)
        requires
            old(self).wf(),
        ensures
            final(self).wf(),
            final(self)@ == old(self)@.with_state(old(self)@.state.store_comp(pkid)),
    {
        self.state.store_comp(pkid);
    }

    /// Removes the first occurrence of `pkid` from the broker's own
    /// completion queue. Without one nothing changes.
    pub fn remove_comp(&mut self, pkid: PacketIdentifier)
        requires
            old(self).wf(),
        ensures
            final(self).wf(),
            final(self)@ == old(self)@.with_state(old(self)@.state.remove_comp(pkid)),
            !old(self)@.state.incoming_comp.contains(pkid) ==> final(self)@ == old(self)@,
    {
        self.state.remove_comp(pkid);
    }

    /// Forwards one message to the session of `id` at `qos`, if there is
    /// such a session.
    fn deliver_to(&mut self, id: &String, topic: &str, qos: QoS, payload: Vec<u8>)
        requires
            old(self).wf(),
        ensures
            final(self).wf(),
            final(self)@ == old(self)@.deliver_to(id@, topic@, qos, payload@),
    {
        match self.client_index(id) {
            Some(i) => {
                self.clients[i].deliver(topic, qos, payload);
                proof {
                    Self::lemma_session_changed(*old(self), *self, i as int);
                }
            },
            None => {},
        }
    }

    /// Forwards one message to the subscribers of `topic` at `qos`.
    fn forward_at(&mut self, topic: &String, qos: QoS, payload: &Vec<u8>)
        requires
            old(self).wf(),
        ensures
            final(self).wf(),
            final(self)@ == old(self)@.forward_at(topic@, qos, payload@),
    {
        let key = SubscribeTopic { topic_path: topic.clone(), qos };
        let ids = self.get_subscribed_clients(key);
        let ghost start = self@;
        let ghost list = ids_view(ids@);
        let mut k: usize = 0;
        while k < ids.len()
            invariant
                self.wf(),
                k <= ids.len(),
                list == ids_view(ids@),
                self@ == start.deliver_all(list.take(k as int), topic@, qos, payload@),
            decreases ids.len() - k,
        {
            let copy = payload.clone();
            assert(copy@ =~= payload@);
            self.deliver_to(&ids[k], topic.as_str(), qos, copy);
            proof {
                let next = list.take(k + 1);
                assert(next.drop_last() =~= list.take(k as int));
                assert(next.last() == list[k as int]);
            }
            k += 1;
        }
        assert(list.take(ids.len() as int) =~= list);
    }

    /// Forwards a message to all the subscribers of its topic, whatever the
    /// quality of service of their subscription: each of them gets a publish
    /// at the quality of service that it subscribed with. A subscriber without
    /// a session in the table is passed over.
    pub fn forward_to_subscribers(&mut self, publish: Box<Publish>)
        requires
            old(self).wf(),
        ensures
            final(self).wf(),
            final(self)@ == old(self)@.forward_to_subscribers(
                publish@.topic_name,
                publish@.payload,
            ),
            final(self)@.subscriptions == old(self)@.subscriptions,
            final(self)@.state == old(self)@.state,
            final(self)@.clients.dom() == old(self)@.clients.dom(),
            forall|id: Seq<char>|
                old(self)@.clients.contains_key(id) ==> #[trigger] final(self)@.clients[id] == old(self)@.fanned_out(id, publish@.topic_name, publish@.payload),
    {
        proof {
            crate::laws::lemma_forward_to_subscribers(
                self@,
                publish@.topic_name,
                publish@.payload,
            );
        }
        self.forward_at(&publish.topic_name, QoS::AtMostOnce, &publish.payload);
        self.forward_at(&publish.topic_name, QoS::AtLeastOnce, &publish.payload);
        self.forward_at(&publish.topic_name, QoS::ExactlyOnce, &publish.payload);
    }

    /// Keeps the record of an inbound publish in the session of `id`, if
    /// there is such a session.
    fn keep_record(&mut self, id: &String, publish: Box<Publish>)
        requires
            old(self).wf(),
        ensures
            final(self).wf(),
            final(self)@ == old(self)@.keep_record(id@, publish@),
    {
        match self.client_index(id) {
            Some(i) => {
                self.clients[i].store_record(publish);
                proof {
                    Self::lemma_session_changed(*old(self), *self, i as int);
                }
            },
            None => {},
        }
    }

    /// SUBSCRIBE: the client is added to the subscription of each requested
    /// key, in the order of the request, and gets a SUBACK that reports
    /// success at the requested quality of service for each of them. A client
    /// without a session in the table is added to the subscriptions all the
    /// same, and no SUBACK is sent.
    pub fn handle_subscribe(&mut self, subscribe: Box<Subscribe>, client: &str)
        requires
            old(self).wf(),
        ensures
            final(self).wf(),
            final(self)@ == old(self)@.handle_subscribe(subscribe@, client@),
            forall|k: int|
                0 <= k < subscribe@.topics.len() ==> final(self)@.subscribers(
                    #[trigger] subscribe@.topics[k],
                ).contains(client@),
    {
        let pkid = subscribe.pid;
        let ghost topics = subscribe@.topics;
        let mut return_codes: Vec<SubscribeReturnCodes> = Vec::new();
        let mut k: usize = 0;
        while k < subscribe.topics.len()
            invariant
                self.wf(),
                k <= subscribe.topics.len(),
                topics == subscribe@.topics,
                self@ == old(self)@.subscribe_all(topics.take(k as int), client@),
                return_codes@ == crate::model::return_codes_for(topics.take(k as int)),
            decreases subscribe.topics.len() - k,
        {
            let topic = subscribe.topics[k].clone();
            let qos = topic.qos;
            self.add_subscription_client(topic, client);
            return_codes.push(SubscribeReturnCodes::Success(qos));
            proof {
                let next = topics.take(k + 1);
                assert(next.drop_last() =~= topics.take(k as int));
                assert(next.last() == topics[k as int]);
                assert(return_codes@ =~= crate::model::return_codes_for(next));
            }
            k += 1;
        }
        proof {
            assert(topics.take(subscribe.topics.len() as int) =~= topics);
            crate::laws::lemma_subscribed_after_subscribe(old(self)@, subscribe@, client@);
        }
        let id = client.to_owned();
        let ghost subscribed = *self;
        match self.client_index(&id) {
            Some(i) => {
                let suback = self.clients[i].suback_packet(pkid, return_codes);
                self.clients[i].send(Packet::Suback(suback));
                proof {
                    Self::lemma_session_changed(subscribed, *self, i as int);
                }
            },
            None => {},
        }
    }

    /// PUBLISH from a client. At `AtMostOnce` the message is forwarded to
    /// the subscribers at once. At `AtLeastOnce` the client gets its PUBACK
    /// first, then the message is forwarded. At `ExactlyOnce` the publish is
    /// kept in the record queue of the client, which gets a PUBREC; the
    /// message is forwarded when the client releases it. A publish above
    /// `AtMostOnce` that carries no packet identifier is dropped. For a client
    /// without a session in the table no PUBACK or PUBREC is sent and no record
    /// is kept: at `AtMostOnce` and `AtLeastOnce` the message is forwarded all
    /// the same, at `ExactlyOnce` nothing happens. A subscriber without a
    /// session is passed over.
    pub fn handle_publish(&mut self, publish: Box<Publish>, client: &str)
        requires
            old(self).wf(),
        ensures
            final(self).wf(),
            final(self)@ == old(self)@.handle_publish(publish@, client@),
            publish@.lacks_pid() ==> final(self)@ == old(self)@,
    {
        let id = client.to_owned();
        match publish.qos {
            QoS::AtMostOnce => self.forward_to_subscribers(publish),
            QoS::AtLeastOnce => {
                if let Some(pkid) = publish.pid {
                    self.send_to(&id, Packet::Puback(pkid));
                    self.forward_to_subscribers(publish);
                }
            },
            QoS::ExactlyOnce => {
                if let Some(pkid) = publish.pid {
                    self.keep_record(&id, publish);
                    self.send_to(&id, Packet::Pubrec(pkid));
                }
            },
        }
    }

    /// PUBACK from a client: the publish that waited for it leaves the
    /// publish queue of the client. An unknown identifier changes nothing,
    /// and so does a client without a session in the table.
    pub fn handle_puback(&mut self, pkid: PacketIdentifier, client: &str)
        requires
            old(self).wf(),
        ensures
            final(self).wf(),
            final(self)@ == old(self)@.handle_puback(pkid, client@),
    {
        let id = client.to_owned();
        match self.client_index(&id) {
            Some(i) => {
                self.clients[i].remove_publish(pkid);
                proof {
                    Self::lemma_session_changed(*old(self), *self, i as int);
                }
            },
            None => {},
        }
    }

    /// PUBREC from a client: the publish that waited for it leaves the
    /// record queue of the client, its identifier enters the release queue,
    /// and the client gets a PUBREL. An unknown identifier changes nothing,
    /// and so does a client without a session in the table.
    pub fn handle_pubrec(&mut self, pkid: PacketIdentifier, client: &str)
        requires
            old(self).wf(),
        ensures
            final(self).wf(),
            final(self)@ == old(self)@.handle_pubrec(pkid, client@),
    {
        let id = client.to_owned();
        match self.client_index(&id) {
            Some(i) => {
                match self.clients[i].remove_record(pkid) {
                    Some(record) => {
                        self.clients[i].store_rel(record.pid.unwrap());
                        self.clients[i].send(Packet::Pubrel(pkid));
                        proof {
                            Self::lemma_session_changed(*old(self), *self, i as int);
                        }
                    },
                    None => {
                        proof {
                            Self::lemma_session_changed(*old(self), *self, i as int);
                            assert(self@.clients =~= old(self)@.clients);
                        }
                    },
                }
            },
            None => {},
        }
    }

    /// PUBREL from a client: the client gets its PUBCOMP, whether or not
    /// the identifier is known. If the record queue of the client holds a
    /// publish under the identifier, that publish leaves the queue and its
    /// message is forwarded to the subscribers. For a client without a session
    /// in the table nothing happens: there is nobody to send the PUBCOMP to
    /// and no record to release.
    pub fn handle_pubrel(&mut self, pkid: PacketIdentifier, client: &str)
        requires
            old(self).wf(),
        ensures
            final(self).wf(),
            final(self)@ == old(self)@.handle_pubrel(pkid, client@),
    {
        let id = client.to_owned();
        match self.client_index(&id) {
            Some(i) => {
                self.clients[i].send(Packet::Pubcomp(pkid));
                let released = self.clients[i].remove_record(pkid);
                proof {
                    Self::lemma_session_changed(*old(self), *self, i as int);
                }
                match released {
                    Some(record) => self.forward_to_subscribers(record),
                    None => {},
                }
            },
            None => {},
        }
    }

    /// PUBCOMP from a client: the identifier leaves the release queue of
    /// the client. An unknown identifier changes nothing, and so does a client
    /// without a session in the table.
    pub fn handle_pubcomp(&mut self, pkid: PacketIdentifier, client: &str)
        requires
            old(self).wf(),
        ensures
            final(self).wf(),
            final(self)@ == old(self)@.handle_pubcomp(pkid, client@),
    {
        let id = client.to_owned();
        match self.client_index(&id) {
            Some(i) => {
                self.clients[i].remove_rel(pkid);
                proof {
                    Self::lemma_session_changed(*old(self), *self, i as int);
                }
            },
            None => {},
        }
    }

    /// PINGREQ from a client: the client gets a PINGRESP. For a client
    /// without a session in the table nothing happens.
    pub fn handle_pingreq(&mut self, client: &str)
        requires
            old(self).wf(),
        ensures
            final(self).wf(),
            final(self)@ == old(self)@.handle_pingreq(client@),
    {
        let id = client.to_owned();
        self.send_to(&id, Packet::Pingresp);
    }

    /// Hands an inbound packet of `client` to the handler of its kind. A
    /// DISCONNECT removes the client; a packet of a kind that only a broker
    /// sends is ignored. What a handler does for a client without a session in
    /// the table is said at the handler.
    pub fn dispatch(&mut self, packet: Packet, client: &str)
        requires
            old(self).wf(),
        ensures
            final(self).wf(),
            final(self)@ == old(self)@.dispatch(packet@, client@),
            old(self)@.well_kept() ==> final(self)@.well_kept(),
    {
        proof {
            if self@.well_kept() {
                crate::laws::lemma_dispatch_keeps_queues(self@, packet@, client@);
            }
        }
        match packet {
            Packet::Publish(publish) => self.handle_publish(publish, client),
            Packet::Puback(pkid) => self.handle_puback(pkid, client),
            Packet::Pubrec(pkid) => self.handle_pubrec(pkid, client),
            Packet::Pubrel(pkid) => self.handle_pubrel(pkid, client),
            Packet::Pubcomp(pkid) => self.handle_pubcomp(pkid, client),
            Packet::Subscribe(subscribe) => self.handle_subscribe(subscribe, client),
            Packet::Pingreq => self.handle_pingreq(client),
            Packet::Disconnect => self.remove_client(client),
            Packet::Suback(_) => {},
            Packet::Pingresp => {},
        }
    }
}

} // verus!
