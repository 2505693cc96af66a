use sfu_core::manager::{TrackInfo, TrackKind};
use sfu_core::messages::{
    plan_subscriber_message, pong_text, should_deliver_data, ClientIceCandidate, IceCandidateInit,
    SignalAction, SubscriberMessage, SubscriberMessageType, ToSubscriberDataChannelMessage,
};
use sfu_core::start::{plan_start_reconcile, StartPlan};

fn msg(t: SubscriberMessageType, body: &str) -> SubscriberMessage {
    SubscriberMessage { msg_type: t, message: body.to_string() }
}

fn track(kind: TrackKind, id: &str) -> (u128, TrackInfo) {
    (7, TrackInfo { id: id.to_string(), kind, stream_id: "sfu-stream-x".to_string() })
}

#[test]
fn decision_table_matches_the_protocol() {
    assert!(matches!(
        plan_subscriber_message(msg(SubscriberMessageType::Prepare, "")),
        SignalAction::SendOffer
    ));
    assert!(matches!(
        plan_subscriber_message(msg(SubscriberMessageType::Start, "")),
        SignalAction::Reconcile
    ));
    assert!(matches!(
        plan_subscriber_message(msg(SubscriberMessageType::Offer, "sdp")),
        SignalAction::DropOffer
    ));
    assert!(matches!(
        plan_subscriber_message(msg(SubscriberMessageType::Pong, "")),
        SignalAction::Ignore
    ));
    match plan_subscriber_message(msg(SubscriberMessageType::Answer, "the-sdp")) {
        SignalAction::ApplyAnswer(m) => assert_eq!(m, "the-sdp"),
        other => panic!("expected an answer action, got a different one: {}", describe(&other)),
    }
}

fn describe(a: &SignalAction) -> &'static str {
    match a {
        SignalAction::SendOffer => "SendOffer",
        SignalAction::ApplyAnswer(_) => "ApplyAnswer",
        SignalAction::ApplyCandidate(_) => "ApplyCandidate",
        SignalAction::SkipCandidate => "SkipCandidate",
        SignalAction::Reconcile => "Reconcile",
        SignalAction::ReplyPong => "ReplyPong",
        SignalAction::DropOffer => "DropOffer",
        SignalAction::Ignore => "Ignore",
    }
}

#[test]
fn null_candidate_is_skipped() {
    assert!(matches!(
        plan_subscriber_message(msg(SubscriberMessageType::IceCandidate, "null")),
        SignalAction::SkipCandidate
    ));
    match plan_subscriber_message(msg(SubscriberMessageType::IceCandidate, "{\"candidate\":\"c\"}")) {
        SignalAction::ApplyCandidate(m) => assert_eq!(m, "{\"candidate\":\"c\"}"),
        other => panic!("expected a candidate action, got {}", describe(&other)),
    }
}

#[test]
fn ping_gets_a_pong_frame() {
    assert!(matches!(
        plan_subscriber_message(msg(SubscriberMessageType::Ping, "")),
        SignalAction::ReplyPong
    ));
    let body = pong_text();
    let v: serde_json::Value = serde_json::from_str(&body).unwrap();
    assert_eq!(v.get("msg_type").and_then(|x| x.as_str()), Some("Pong"));
}

#[test]
fn candidate_defaults_are_filled_in() {
    let c = ClientIceCandidate {
        candidate: None,
        sdp_mid: None,
        sdp_mline_index: None,
        username_fragment: None,
    };
    let init = c.to_candidate_init();
    assert_eq!(init.candidate, "");
    assert_eq!(init.sdp_mid, "");
    assert_eq!(init.sdp_mline_index, 0);
    assert_eq!(init.username_fragment, "");
}

#[test]
fn candidate_round_trip_keeps_fields() {
    let init = IceCandidateInit {
        candidate: "cand".to_string(),
        sdp_mid: "0".to_string(),
        sdp_mline_index: 1,
        username_fragment: "uf".to_string(),
    };
    let c = ClientIceCandidate::from(init);
    assert_eq!(c.candidate.as_deref(), Some("cand"));
    assert_eq!(c.sdp_mid.as_deref(), Some("0"));
    assert_eq!(c.sdp_mline_index, Some(1));
    assert_eq!(c.username_fragment.as_deref(), Some("uf"));
    let back = c.to_candidate_init();
    assert_eq!(back.candidate, "cand");
    assert_eq!(back.sdp_mline_index, 1);
}

#[test]
fn echo_suppression_skips_own_messages() {
    let own = ToSubscriberDataChannelMessage { from: 5, message: "hi".to_string() };
    assert!(!should_deliver_data(&own, 5));
    assert!(should_deliver_data(&own, 6));
}

#[test]
fn reconcile_adds_missing_and_removes_stale_tracks() {
    let senders = vec![
        Some("sfu-track-video-kept".to_string()),
        Some("sfu-track-video-stale".to_string()),
        Some("unrelated".to_string()),
        None,
    ];
    let local_ids = vec![
        "sfu-track-video-kept".to_string(),
        "sfu-track-audio-fresh".to_string(),
    ];
    let tracks = vec![
        track(TrackKind::Video, "sfu-track-video-kept"),
        track(TrackKind::Audio, "sfu-track-audio-fresh"),
    ];
    let plan = plan_start_reconcile(&senders, &local_ids, &tracks);
    assert_eq!(plan.remove_mask, vec![false, true, false, false]);
    assert_eq!(plan.add_mask, vec![false, true]);
    assert!(plan.offer);
}

#[test]
fn reconcile_with_no_publishers_makes_no_offer() {
    let senders = vec![Some("sfu-track-video-old".to_string())];
    let local_ids: Vec<String> = vec![];
    let tracks: Vec<(u128, TrackInfo)> = vec![];
    let plan = plan_start_reconcile(&senders, &local_ids, &tracks);
    assert_eq!(plan.remove_mask, vec![true]);
    assert!(plan.add_mask.is_empty());
    assert!(!plan.offer);
}

#[test]
fn reconcile_twice_changes_nothing_more() {
    let senders: Vec<Option<String>> = vec![];
    let local_ids = vec![
        "sfu-track-video-a".to_string(),
        "sfu-track-audio-b".to_string(),
    ];
    let tracks = vec![
        track(TrackKind::Video, "sfu-track-video-a"),
        track(TrackKind::Audio, "sfu-track-audio-b"),
    ];
    let first: StartPlan = plan_start_reconcile(&senders, &local_ids, &tracks);
    assert_eq!(first.add_mask, vec![true, true]);
    assert!(first.offer);
    let after: Vec<Option<String>> = vec![
        Some("sfu-track-video-a".to_string()),
        Some("sfu-track-audio-b".to_string()),
    ];
    let second = plan_start_reconcile(&after, &local_ids, &tracks);
    assert_eq!(second.add_mask, vec![false, false]);
    assert_eq!(second.remove_mask, vec![false, false]);
    // unchanged, fully attached publisher state: no renegotiation
    assert!(!second.offer);
}
