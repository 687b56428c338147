//! The decoded MQTT packets that the broker consumes and produces.

use vstd::prelude::*;

verus! {

/// Quality of service of a publish or of a subscription.
#[derive(Clone, Copy, Debug, PartialEq, Eq, Structural, Hash)]
pub enum QoS {
    AtMostOnce,
    AtLeastOnce,
    ExactlyOnce,
}

/// Sixteen-bit token that correlates the packets of one exchange.
#[derive(Clone, Copy, Debug, PartialEq, Eq, Structural, Hash)]
pub struct PacketIdentifier(pub u16);

/// An application message on its way to or from a client.
#[derive(Debug, PartialEq, Eq)]
pub struct Publish {
    pub dup: bool,
    pub qos: QoS,
    pub retain: bool,
    pub topic_name: String,
    pub pid: Option<PacketIdentifier>,
    pub payload: Vec<u8>,
}

/// Mathematical value of a [`Publish`].
pub struct PublishView {
    pub dup: bool,
    pub qos: QoS,
    pub retain: bool,
    pub topic_name: Seq<char>,
    pub pid: Option<PacketIdentifier>,
    pub payload: Seq<u8>,
}

impl View for Publish {
    type V = PublishView;

    open spec fn view(&self) -> PublishView {
        PublishView {
            dup: self.dup,
            qos: self.qos,
            retain: self.retain,
            topic_name: self.topic_name@,
            pid: self.pid,
            payload: self.payload@,
        }
    }
}

impl PublishView {
    /// The publish is above `AtMostOnce` and carries no packet identifier.
    /// A broker drops such a publish.
    pub open spec fn lacks_pid(self) -> bool {
        self.qos != QoS::AtMostOnce && self.pid is None
    }
}

impl Publish {
    /// Whether the publish is above `AtMostOnce` and carries no packet
    /// identifier. A broker drops such a publish.
    pub fn lacks_pid(&self) -> (res: bool)
        ensures
            res == self@.lacks_pid(),
    {
        match self.qos {
            QoS::AtMostOnce => false,
            _ => self.pid.is_none(),
        }
    }
}

impl Clone for Publish {
    fn clone(&self) -> (res: Self)
        ensures
            res@ == self@,
    {
        let payload = self.payload.clone();
        assert(payload@ =~= self.payload@);
        Publish {
            dup: self.dup,
            qos: self.qos,
            retain: self.retain,
            topic_name: self.topic_name.clone(),
            pid: self.pid,
            payload,
        }
    }
}

/// Key of the subscription index: a topic path together with a quality of
/// service. Two keys are the same only if both parts are.
#[derive(Debug, PartialEq, Eq, Hash)]
pub struct SubscribeTopic {
    pub topic_path: String,
    pub qos: QoS,
}

/// Mathematical value of a [`SubscribeTopic`].
pub struct SubscribeTopicView {
    pub topic_path: Seq<char>,
    pub qos: QoS,
}

impl View for SubscribeTopic {
    type V = SubscribeTopicView;

    open spec fn view(&self) -> SubscribeTopicView {
        SubscribeTopicView { topic_path: self.topic_path@, qos: self.qos }
    }
}

impl Clone for SubscribeTopic {
    fn clone(&self) -> (res: Self)
        ensures
            res@ == self@,
    {
        SubscribeTopic { topic_path: self.topic_path.clone(), qos: self.qos }
    }
}

impl SubscribeTopic {
    /// Whether two keys name the same path at the same quality of service.
    pub fn same_key(&self, other: &SubscribeTopic) -> (res: bool)
        ensures
            res == (self@ == other@),
    {
        self.qos == other.qos && self.topic_path == other.topic_path
    }
}

/// Views of a list of subscription keys, in order.
pub open spec fn topics_view(topics: Seq<SubscribeTopic>) -> Seq<SubscribeTopicView> {
    topics.map_values(|t: SubscribeTopic| t@)
}

/// A request to subscribe to a list of keys.
#[derive(Debug, PartialEq, Eq)]
pub struct Subscribe {
    pub pid: PacketIdentifier,
    pub topics: Vec<SubscribeTopic>,
}

/// Mathematical value of a [`Subscribe`].
pub struct SubscribeView {
    pub pid: PacketIdentifier,
    pub topics: Seq<SubscribeTopicView>,
}

impl View for Subscribe {
    type V = SubscribeView;

    open spec fn view(&self) -> SubscribeView {
        SubscribeView { pid: self.pid, topics: topics_view(self.topics@) }
    }
}

/// Outcome of one requested subscription, as reported in a SUBACK.
#[derive(Clone, Copy, Debug, PartialEq, Eq, Structural)]
pub enum SubscribeReturnCodes {
    Success(QoS),
    Failure,
}

/// Acknowledgement of a [`Subscribe`], one return code per requested key.
#[derive(Debug, PartialEq, Eq)]
pub struct Suback {
    pub pid: PacketIdentifier,
    pub return_codes: Vec<SubscribeReturnCodes>,
}

/// Mathematical value of a [`Suback`].
pub struct SubackView {
    pub pid: PacketIdentifier,
    pub return_codes: Seq<SubscribeReturnCodes>,
}

impl View for Suback {
    type V = SubackView;

    open spec fn view(&self) -> SubackView {
        SubackView { pid: self.pid, return_codes: self.return_codes@ }
    }
}

/// The packets that pass between the broker and the connection layer.
#[derive(Debug, PartialEq, Eq)]
pub enum Packet {
    Publish(Box<Publish>),
    Puback(PacketIdentifier),
    Pubrec(PacketIdentifier),
    Pubrel(PacketIdentifier),
    Pubcomp(PacketIdentifier),
    Subscribe(Box<Subscribe>),
    Suback(Box<Suback>),
    Pingreq,
    Pingresp,
    Disconnect,
}

/// Mathematical value of a [`Packet`].
pub enum PacketView {
    Publish(PublishView),
    Puback(PacketIdentifier),
    Pubrec(PacketIdentifier),
    Pubrel(PacketIdentifier),
    Pubcomp(PacketIdentifier),
    Subscribe(SubscribeView),
    Suback(SubackView),
    Pingreq,
    Pingresp,
    Disconnect,
}

impl View for Packet {
    type V = PacketView;

    open spec fn view(&self) -> PacketView {
        match self {
            Packet::Publish(p) => PacketView::Publish(p@),
            Packet::Puback(pid) => PacketView::Puback(*pid),
            Packet::Pubrec(pid) => PacketView::Pubrec(*pid),
            Packet::Pubrel(pid) => PacketView::Pubrel(*pid),
            Packet::Pubcomp(pid) => PacketView::Pubcomp(*pid),
            Packet::Subscribe(s) => PacketView::Subscribe(s@),
            Packet::Suback(s) => PacketView::Suback(s@),
            Packet::Pingreq => PacketView::Pingreq,
            Packet::Pingresp => PacketView::Pingresp,
            Packet::Disconnect => PacketView::Disconnect,
        }
    }
}

/// Views of a list of packets, in order.
pub open spec fn packets_view(packets: Seq<Packet>) -> Seq<PacketView> {
    packets.map_values(|p: Packet| p@)
}

/// Views of a list of publishes, in order.
pub open spec fn publishes_view(publishes: Seq<Box<Publish>>) -> Seq<PublishView> {
    publishes.map_values(|p: Box<Publish>| p@)
}

} // verus!
