use sfu_core::manager::{PeerManager, RoomMember, TrackInfo, TrackKind};
use sfu_core::start::plan_start_reconcile;
use sfu_core::messages::{
    MessageToPublisher, RTCPToPublisher, SubscriberMessage, SubscriberMessageType,
    ToSubscriberDataChannelMessage,
};
use tokio::sync::mpsc::{unbounded_channel, UnboundedReceiver};

struct TestPeer {
    id: u128,
    rx_pub: UnboundedReceiver<MessageToPublisher>,
    rx_sub: UnboundedReceiver<SubscriberMessage>,
    rx_data: UnboundedReceiver<ToSubscriberDataChannelMessage>,
}

fn join(pm: &mut PeerManager, id: u128, member_id: i64, room_id: i64, name: &str) -> TestPeer {
    let (tx_pub, rx_pub) = unbounded_channel();
    let (tx_sub, rx_sub) = unbounded_channel();
    let (tx_data, rx_data) = unbounded_channel();
    let member = RoomMember {
        member_id,
        room_id,
        room_name: format!("room-{}", room_id),
        member_name: name.to_string(),
    };
    pm.add_peer(id, member, tx_pub, tx_sub, tx_data);
    TestPeer { id, rx_pub, rx_sub, rx_data }
}

fn track(kind: TrackKind, id: &str, stream: &str) -> TrackInfo {
    TrackInfo { id: id.to_string(), kind, stream_id: stream.to_string() }
}

#[test]
fn names_are_looked_up_by_peer_id() {
    let mut pm = PeerManager::new();
    let p1 = join(&mut pm, 1, 10, 100, "alice");
    assert_eq!(pm.get_name_by_peer_id(p1.id), Some("alice".to_string()));
    assert_eq!(pm.get_name_by_peer_id(999), None);
}

#[test]
fn fanout_reaches_only_the_same_room_and_not_the_sender() {
    let mut pm = PeerManager::new();
    let p1 = join(&mut pm, 1, 10, 100, "alice");
    let mut p2 = join(&mut pm, 2, 11, 100, "bob");
    let mut p3 = join(&mut pm, 3, 12, 200, "carol");
    let msg = SubscriberMessage {
        msg_type: SubscriberMessageType::Start,
        message: String::new(),
    };
    let sent = pm.send_to_subscribers(p1.id, msg);
    assert_eq!(sent, vec![2u128]);
    let got = p2.rx_sub.try_recv().unwrap();
    assert!(matches!(got.msg_type, SubscriberMessageType::Start));
    assert!(p3.rx_sub.try_recv().is_err());
    let mut p1 = p1;
    assert!(p1.rx_sub.try_recv().is_err());
}

#[test]
fn fanout_from_unknown_sender_reaches_nobody() {
    let mut pm = PeerManager::new();
    let mut p1 = join(&mut pm, 1, 10, 100, "alice");
    let msg = SubscriberMessage {
        msg_type: SubscriberMessageType::Prepare,
        message: String::new(),
    };
    let sent = pm.send_to_subscribers(42, msg);
    assert!(sent.is_empty());
    assert!(p1.rx_sub.try_recv().is_err());
}

#[test]
fn publishing_both_kinds_prompts_the_room() {
    let mut pm = PeerManager::new();
    let p1 = join(&mut pm, 1, 10, 100, "alice");
    let mut p2 = join(&mut pm, 2, 11, 100, "bob");
    let first = pm.register_track(p1.id, track(TrackKind::Audio, "sfu-track-audio-a", "s1"));
    assert!(first.is_none());
    assert!(!pm.has_both_audio_and_video(p1.id));
    assert!(p2.rx_sub.try_recv().is_err());
    let second = pm.register_track(p1.id, track(TrackKind::Video, "sfu-track-video-b", "s1"));
    assert_eq!(second, Some(vec![2u128]));
    assert!(pm.has_both_audio_and_video(p1.id));
    let got = p2.rx_sub.try_recv().unwrap();
    assert!(matches!(got.msg_type, SubscriberMessageType::Start));
    assert_eq!(got.message, "");
}

#[test]
fn publisher_tracks_are_listed_for_room_mates_only() {
    let mut pm = PeerManager::new();
    let p1 = join(&mut pm, 1, 10, 100, "alice");
    let p2 = join(&mut pm, 2, 11, 100, "bob");
    let p3 = join(&mut pm, 3, 12, 200, "carol");
    pm.add_track(p1.id, track(TrackKind::Audio, "sfu-track-audio-a", "s1"));
    pm.add_track(p1.id, track(TrackKind::Video, "sfu-track-video-b", "s1"));
    let (ids, pairs) = pm.publisher_tracks_info(p2.id);
    assert_eq!(ids, vec!["sfu-track-audio-a".to_string(), "sfu-track-video-b".to_string()]);
    assert_eq!(pairs.len(), 2);
    assert!(pairs.iter().all(|(publisher, t)| *publisher == p1.id
        && t.id.starts_with("sfu-track-")));
    let (ids3, pairs3) = pm.publisher_tracks_info(p3.id);
    assert!(ids3.is_empty());
    assert!(pairs3.is_empty());
    let (ids1, pairs1) = pm.publisher_tracks_info(p1.id);
    assert!(ids1.is_empty());
    assert!(pairs1.is_empty());
}

#[test]
fn disconnect_removes_the_peer_and_prompts_the_room() {
    let mut pm = PeerManager::new();
    let p1 = join(&mut pm, 1, 10, 100, "alice");
    let mut p2 = join(&mut pm, 2, 11, 100, "bob");
    let mut p3 = join(&mut pm, 3, 12, 200, "carol");
    pm.add_track(p1.id, track(TrackKind::Audio, "sfu-track-audio-a", "s1"));
    let sent = pm.handle_disconnect(p1.id);
    assert_eq!(sent, vec![2u128]);
    let got = p2.rx_sub.try_recv().unwrap();
    assert!(matches!(got.msg_type, SubscriberMessageType::Start));
    assert_eq!(got.message, "");
    assert!(p3.rx_sub.try_recv().is_err());
    assert_eq!(pm.get_name_by_peer_id(p1.id), None);
    let (ids, pairs) = pm.publisher_tracks_info(p2.id);
    assert!(ids.is_empty());
    assert!(pairs.is_empty());
}

#[test]
fn disconnect_of_unknown_peer_is_quiet() {
    let mut pm = PeerManager::new();
    let mut p1 = join(&mut pm, 1, 10, 100, "alice");
    let sent = pm.handle_disconnect(999);
    assert!(sent.is_empty());
    assert!(p1.rx_sub.try_recv().is_err());
}

#[test]
fn data_relay_skips_sender_and_other_rooms() {
    let mut pm = PeerManager::new();
    let mut p1 = join(&mut pm, 1, 10, 100, "alice");
    let mut p2 = join(&mut pm, 2, 11, 100, "bob");
    let mut p3 = join(&mut pm, 3, 12, 200, "carol");
    let sent = pm.send_data_to_subscribers(p1.id, "hi".to_string());
    assert_eq!(sent, vec![2u128]);
    let got = p2.rx_data.try_recv().unwrap();
    assert_eq!(got.from, p1.id);
    assert_eq!(got.message, "hi");
    assert!(p1.rx_data.try_recv().is_err());
    assert!(p3.rx_data.try_recv().is_err());
}

#[test]
fn publisher_feedback_reaches_the_publisher_queue() {
    let mut pm = PeerManager::new();
    let mut p1 = join(&mut pm, 1, 10, 100, "alice");
    let ok = pm.send_to_publisher(p1.id, MessageToPublisher::RTCP(RTCPToPublisher::PLI));
    assert!(ok);
    let got = p1.rx_pub.try_recv().unwrap();
    assert!(matches!(got, MessageToPublisher::RTCP(RTCPToPublisher::PLI)));
    assert!(!pm.send_to_publisher(999, MessageToPublisher::RTCP(RTCPToPublisher::PLI)));
}

#[test]
fn subscription_flow_for_two_peers() {
    // P1 publishes audio and video; P2 is prompted, asks for the listing,
    // attaches both tracks, and a second prompt attaches nothing more.
    let mut pm = PeerManager::new();
    let p1 = join(&mut pm, 1, 10, 100, "alice");
    let mut p2 = join(&mut pm, 2, 11, 100, "bob");
    pm.register_track(p1.id, track(TrackKind::Audio, "sfu-track-audio-a", "s1"));
    pm.register_track(p1.id, track(TrackKind::Video, "sfu-track-video-b", "s1"));
    let prompt = p2.rx_sub.try_recv().unwrap();
    assert!(matches!(prompt.msg_type, SubscriberMessageType::Start));

    let (ids, pairs) = pm.publisher_tracks_info(p2.id);
    let no_senders: Vec<Option<String>> = vec![];
    let plan = plan_start_reconcile(&no_senders, &ids, &pairs);
    assert_eq!(plan.add_mask, vec![true, true]);
    assert!(plan.offer);

    // after attaching, the senders carry exactly the listed tracks, and a
    // second prompt has nothing to attach, remove or offer
    let senders: Vec<Option<String>> = ids.iter().map(|i| Some(i.clone())).collect();
    let again = plan_start_reconcile(&senders, &ids, &pairs);
    assert_eq!(again.add_mask, vec![false, false]);
    assert_eq!(again.remove_mask, vec![false, false]);
    assert!(!again.offer);
}

#[test]
fn fanout_order_follows_registration_order() {
    let mut pm = PeerManager::new();
    let p1 = join(&mut pm, 1, 10, 100, "a");
    let _p2 = join(&mut pm, 2, 11, 100, "b");
    let _p3 = join(&mut pm, 3, 12, 100, "c");
    let msg = SubscriberMessage {
        msg_type: SubscriberMessageType::Start,
        message: String::new(),
    };
    let sent = pm.send_to_subscribers(p1.id, msg);
    assert_eq!(sent, vec![2u128, 3u128]);
}
