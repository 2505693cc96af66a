//! Signaling message types and the decision table of the signaling
//! driver.

use vstd::prelude::*;
use vstd::string::StringExecFns;

verus! {

/// RTCP feedback forwarded to a publisher.
#[derive(Debug)]
pub enum RTCPToPublisher {
    PLI,
}

/// A message on a peer's publisher-feedback queue.
#[derive(Debug)]
pub enum MessageToPublisher {
    RTCP(RTCPToPublisher),
}

/// The signaling message types of the wire protocol.
#[derive(Copy, Clone, PartialEq, Eq, Structural, Debug)]
pub enum SubscriberMessageType {
    Prepare,
    Start,
    Offer,
    Answer,
    IceCandidate,
    Ping,
    Pong,
}

/// One signaling frame: a type and a payload string.
pub struct SubscriberMessage {
    pub msg_type: SubscriberMessageType,
    pub message: String,
}

impl SubscriberMessage {
    /// A copy carrying the same message type and text.
    pub fn duplicate(&self) -> (r: SubscriberMessage)
        ensures
            r.msg_type == self.msg_type,
            r.message@ == self.message@,
    {
        SubscriberMessage { msg_type: self.msg_type, message: self.message.clone() }
    }
}

/// One relayed data-channel item: the sending peer and the text.
pub struct ToSubscriberDataChannelMessage {
    pub from: u128,
    pub message: String,
}

impl ToSubscriberDataChannelMessage {
    /// Wrap a relayed text as coming from the given peer.
    pub fn wrap(from: u128, message: &String) -> (r: ToSubscriberDataChannelMessage)
        ensures
            r.from == from,
            r.message@ == message@,
    {
        ToSubscriberDataChannelMessage { from, message: message.clone() }
    }
}

/// An ICE candidate as carried on the wire; every field is optional.
pub struct ClientIceCandidate {
    pub candidate: Option<String>,
    pub sdp_mid: Option<String>,
    pub sdp_mline_index: Option<u16>,
    pub username_fragment: Option<String>,
}

/// An ICE candidate with defaults filled in, ready for the WebRTC stack.
pub struct IceCandidateInit {
    pub candidate: String,
    pub sdp_mid: String,
    pub sdp_mline_index: u16,
    pub username_fragment: String,
}

impl ClientIceCandidate {
    /// Fill in the defaults: empty strings and m-line index 0.
    pub fn to_candidate_init(self) -> (r: IceCandidateInit)
        ensures
            self.candidate matches Some(c) ==> r.candidate == c,
            self.candidate is None ==> r.candidate@ == Seq::<char>::empty(),
            self.sdp_mid matches Some(m) ==> r.sdp_mid == m,
            self.sdp_mid is None ==> r.sdp_mid@ == Seq::<char>::empty(),
            self.sdp_mline_index matches Some(i) ==> r.sdp_mline_index == i,
            self.sdp_mline_index is None ==> r.sdp_mline_index == 0,
            self.username_fragment matches Some(u) ==> r.username_fragment == u,
            self.username_fragment is None ==> r.username_fragment@ == Seq::<char>::empty(),
    {
        let candidate = match self.candidate {
            Some(c) => c,
            None => String::new(),
        };
        let sdp_mid = match self.sdp_mid {
            Some(m) => m,
            None => String::new(),
        };
        let sdp_mline_index = match self.sdp_mline_index {
            Some(i) => i,
            None => 0u16,
        };
        let username_fragment = match self.username_fragment {
            Some(u) => u,
            None => String::new(),
        };
        IceCandidateInit { candidate, sdp_mid, sdp_mline_index, username_fragment }
    }

    /// Wrap a filled-in candidate back into the wire shape.
    pub fn from(another: IceCandidateInit) -> (r: ClientIceCandidate)
        ensures
            r.candidate matches Some(c) && c == another.candidate,
            r.sdp_mid matches Some(m) && m == another.sdp_mid,
            r.sdp_mline_index matches Some(i) && i == another.sdp_mline_index,
            r.username_fragment matches Some(u) && u == another.username_fragment,
    {
        ClientIceCandidate {
            candidate: Some(another.candidate),
            sdp_mid: Some(another.sdp_mid),
            sdp_mline_index: Some(another.sdp_mline_index),
            username_fragment: Some(another.username_fragment),
        }
    }
}

/// What the signaling driver does with one inbound frame.
pub enum SignalAction {
    /// Create and send a fresh offer.
    SendOffer,
    /// Apply the carried session description as the remote answer.
    ApplyAnswer(String),
    /// Parse and apply the carried ICE candidate.
    ApplyCandidate(String),
    /// An end-of-candidates marker: nothing to apply.
    SkipCandidate,
    /// Reconcile subscriptions with the current co-room publisher tracks.
    Reconcile,
    /// Answer a ping.
    ReplyPong,
    /// Offers from peers are not accepted: drop the frame.
    DropOffer,
    /// Nothing to do.
    Ignore,
}

/// The decision table of the signaling driver, one row per message type.
/// The unit is always the offerer, so inbound offers are dropped; an ICE
/// candidate of `"null"` marks end-of-candidates and is skipped.
pub fn plan_subscriber_message(msg: SubscriberMessage) -> (a: SignalAction)
    ensures
        msg.msg_type == SubscriberMessageType::Prepare ==> a is SendOffer,
        msg.msg_type == SubscriberMessageType::Start ==> a is Reconcile,
        msg.msg_type == SubscriberMessageType::Offer ==> a is DropOffer,
        msg.msg_type == SubscriberMessageType::Answer ==> (a matches SignalAction::ApplyAnswer(m)
            && m == msg.message),
        (msg.msg_type == SubscriberMessageType::IceCandidate && msg.message@ == "null"@) ==> a
            is SkipCandidate,
        (msg.msg_type == SubscriberMessageType::IceCandidate && msg.message@ != "null"@) ==> (a
            matches SignalAction::ApplyCandidate(m) && m == msg.message),
        msg.msg_type == SubscriberMessageType::Ping ==> a is ReplyPong,
        msg.msg_type == SubscriberMessageType::Pong ==> a is Ignore,
{
    match msg.msg_type {
        SubscriberMessageType::Prepare => SignalAction::SendOffer,
        SubscriberMessageType::Start => SignalAction::Reconcile,
        SubscriberMessageType::Offer => SignalAction::DropOffer,
        SubscriberMessageType::Answer => SignalAction::ApplyAnswer(msg.message),
        SubscriberMessageType::IceCandidate => {
            let null_lit = String::from_str("null");
            if msg.message == null_lit {
                SignalAction::SkipCandidate
            } else {
                SignalAction::ApplyCandidate(msg.message)
            }
        },
        SubscriberMessageType::Ping => SignalAction::ReplyPong,
        SubscriberMessageType::Pong => SignalAction::Ignore,
    }
}

/// Deliver a relayed data item on this peer's channel only when it did
/// not originate here: no echo to self.
pub fn should_deliver_data(msg: &ToSubscriberDataChannelMessage, peer_id: u128) -> (r: bool)
    ensures
        r == (msg.from != peer_id),
{
    msg.from != peer_id
}

/// The reply to a ping: a frame whose JSON holds only the message type.
pub fn pong_text() -> (r: String)
    ensures
        r@ == "{ \"msg_type\": \"Pong\" }"@,
{
    String::from_str("{ \"msg_type\": \"Pong\" }")
}

} // verus!
