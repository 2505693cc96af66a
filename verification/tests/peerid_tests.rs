use sfu_core::errors::{invalid_id_message, invalid_token_message};
use sfu_core::manager::{PeerManager, RoomMember, TrackKind};
use sfu_core::peerid::{
    data_channel_name, hex32, make_forwardable_track, member_name_for, member_name_response,
    uuid_hyphenated, MemberNameOutcome,
};
use sfu_core::rtcp::rtcp_has_pli;
use tokio::sync::mpsc::unbounded_channel;

fn register(pm: &mut PeerManager, id: u128, room_id: i64, name: &str) {
    let (tx_pub, _rx_pub) = unbounded_channel();
    let (tx_sub, _rx_sub) = unbounded_channel();
    let (tx_data, _rx_data) = unbounded_channel();
    let member = RoomMember {
        member_id: 1,
        room_id,
        room_name: "r".to_string(),
        member_name: name.to_string(),
    };
    pm.add_peer(id, member, tx_pub, tx_sub, tx_data);
}

#[test]
fn hyphenated_form_matches_the_uuid_crate() {
    let samples: [u128; 4] = [
        0,
        1,
        0x0123_4567_89ab_cdef_0123_4567_89ab_cdef,
        u128::MAX,
    ];
    for x in samples {
        let ours = uuid_hyphenated(x);
        let theirs = uuid::Uuid::from_u128(x).hyphenated().to_string();
        assert_eq!(ours, theirs);
    }
}

#[test]
fn hex32_is_fixed_width_lower_case() {
    assert_eq!(hex32(0), "00000000000000000000000000000000");
    assert_eq!(hex32(0xdeadbeef), "000000000000000000000000deadbeef");
}

#[test]
fn member_name_endpoint_finds_registered_names() {
    let mut pm = PeerManager::new();
    let id: u128 = 0xabcd_0000_1111_2222_3333_4444_5555_6666;
    register(&mut pm, id, 100, "alice");
    let path = uuid_hyphenated(id);
    match member_name_response(&pm, &path) {
        MemberNameOutcome::Name(n) => assert_eq!(n, "alice"),
        MemberNameOutcome::InvalidId => panic!("canonical id form was rejected"),
    }
}

#[test]
fn member_name_endpoint_defaults_to_dash() {
    let pm = PeerManager::new();
    let path = uuid_hyphenated(42);
    match member_name_response(&pm, &path) {
        MemberNameOutcome::Name(n) => assert_eq!(n, "-"),
        MemberNameOutcome::InvalidId => panic!("canonical id form was rejected"),
    }
}

#[test]
fn member_name_endpoint_rejects_garbage() {
    let pm = PeerManager::new();
    assert!(matches!(member_name_response(&pm, "not-a-uuid"), MemberNameOutcome::InvalidId));
    assert!(matches!(member_name_for(&pm, None), MemberNameOutcome::InvalidId));
}

#[test]
fn forwardable_tracks_are_named_with_the_prefix() {
    let t = make_forwardable_track(TrackKind::Video, 7, 9);
    assert!(t.id.starts_with("sfu-track-video-"));
    assert_eq!(t.id, format!("sfu-track-video-{}", uuid_hyphenated(7)));
    assert_eq!(t.stream_id, format!("sfu-stream-{}", uuid_hyphenated(9)));
    let a = make_forwardable_track(TrackKind::Audio, 7, 9);
    assert!(a.id.starts_with("sfu-track-audio-"));
}

#[test]
fn data_channel_names_carry_the_peer_id() {
    assert_eq!(data_channel_name(3), format!("sfu-data-ch-{}", uuid_hyphenated(3)));
}

#[test]
fn error_bodies_have_the_documented_shape() {
    let t = invalid_token_message();
    assert_eq!(t.code, 401);
    assert_eq!(t.message, "Invalid token");
    let i = invalid_id_message();
    assert_eq!(i.code, 400);
    assert_eq!(i.message, "Invalid id format");
}

#[test]
fn pli_is_detected_in_a_single_packet() {
    // version 2, fmt 1, packet type 206, length 2 words: a PLI header
    let pli: [u8; 12] = [0x81, 206, 0, 2, 0, 0, 0, 0, 0, 0, 0, 1];
    assert!(rtcp_has_pli(&pli));
}

#[test]
fn pli_is_detected_behind_a_receiver_report() {
    // receiver report (pt 201, length 1 word) followed by a PLI
    let mut compound: Vec<u8> = vec![0x80, 201, 0, 1, 0, 0, 0, 9];
    compound.extend_from_slice(&[0x81, 206, 0, 2, 0, 0, 0, 0, 0, 0, 0, 1]);
    assert!(rtcp_has_pli(&compound));
}

#[test]
fn non_pli_packets_are_not_reported() {
    let rr: [u8; 8] = [0x80, 201, 0, 1, 0, 0, 0, 9];
    assert!(!rtcp_has_pli(&rr));
    // packet type 206 but feedback format 2 (FIR), not a PLI
    let fir: [u8; 12] = [0x82, 206, 0, 2, 0, 0, 0, 0, 0, 0, 0, 1];
    assert!(!rtcp_has_pli(&fir));
}

#[test]
fn malformed_rtcp_is_not_reported() {
    assert!(!rtcp_has_pli(&[]));
    assert!(!rtcp_has_pli(&[0x81, 206, 0]));
    // declared length runs past the buffer
    assert!(!rtcp_has_pli(&[0x81, 206, 0, 9, 0, 0, 0, 0]));
    // wrong version bits
    assert!(!rtcp_has_pli(&[0x41, 206, 0, 1, 0, 0, 0, 0]));
}
