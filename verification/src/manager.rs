//! The process-wide peer registry: which peer sits in which room, which
//! forwardable tracks it publishes, and the three outbound queues of each
//! peer.  All fan-out is restricted to the sender's room and never
//! reaches the sender itself.

use crate::bridge::channel_send;
use crate::messages::{
    MessageToPublisher, SubscriberMessage, SubscriberMessageType, ToSubscriberDataChannelMessage,
};
use vstd::prelude::*;

verus! {

/// A member of a room, as the lookup service reports it.
pub struct RoomMember {
    pub member_id: i64,
    pub room_id: i64,
    pub room_name: String,
    pub member_name: String,
}

/// The media kind of a forwardable track.
#[derive(Copy, Clone, PartialEq, Eq, Structural, Debug)]
pub enum TrackKind {
    Audio,
    Video,
}

/// What the core knows of one forwardable track: its wire ids and kind.
pub struct TrackInfo {
    pub id: String,
    pub kind: TrackKind,
    pub stream_id: String,
}

/// The mathematical image of a [`TrackInfo`].
#[verifier::ext_equal]
pub struct TrackInfoV {
    pub id: Seq<char>,
    pub kind: TrackKind,
    pub stream_id: Seq<char>,
}

impl View for TrackInfo {
    type V = TrackInfoV;

    open spec fn view(&self) -> TrackInfoV {
        TrackInfoV { id: self.id@, kind: self.kind, stream_id: self.stream_id@ }
    }
}

impl TrackInfo {
    /// A copy with the same ids and kind.
    pub fn duplicate(&self) -> (r: TrackInfo)
        ensures
            r@ == self@,
    {
        TrackInfo { id: self.id.clone(), kind: self.kind, stream_id: self.stream_id.clone() }
    }
}

/// The views of a list of tracks.
pub open spec fn tracks_view(l: Seq<TrackInfo>) -> Seq<TrackInfoV> {
    l.map_values(|t: TrackInfo| t@)
}

/// What `tracks_view` holds, element by element.
pub proof fn lemma_tracks_view(l: Seq<TrackInfo>)
    ensures
        tracks_view(l).len() == l.len(),
        forall|i: int| 0 <= i < l.len() ==> tracks_view(l)[i] == (#[trigger] l[i])@,
{
}

/// The views of a list of (publisher, track) pairs.
pub open spec fn pairs_view(s: Seq<(u128, TrackInfo)>) -> Seq<(u128, TrackInfoV)> {
    s.map_values(|pr: (u128, TrackInfo)| (pr.0, pr.1@))
}

/// What `pairs_view` holds, element by element.
pub proof fn lemma_pairs_view(s: Seq<(u128, TrackInfo)>)
    ensures
        pairs_view(s).len() == s.len(),
        forall|i: int|
            0 <= i < s.len() ==> pairs_view(s)[i] == ((#[trigger] s[i]).0, s[i].1@),
{
}

/// A list of track views, each tagged with its publisher.
pub open spec fn tagged_tracks(p: u128, l: Seq<TrackInfo>) -> Seq<(u128, TrackInfoV)> {
    l.map_values(|t: TrackInfo| (p, t@))
}

/// What `tagged_tracks` holds, element by element.
pub proof fn lemma_tagged_tracks(p: u128, l: Seq<TrackInfo>)
    ensures
        tagged_tracks(p, l).len() == l.len(),
        forall|i: int| 0 <= i < l.len() ==> tagged_tracks(p, l)[i] == (p, (#[trigger] l[i])@),
{
}

/// Queue handle carrying RTCP feedback to a publisher.
pub type ToPublisherChannel = tokio::sync::mpsc::UnboundedSender<MessageToPublisher>;

/// Queue handle carrying signaling frames to a subscriber.
pub type ToSubscriberChannel = tokio::sync::mpsc::UnboundedSender<SubscriberMessage>;

/// Queue handle carrying relayed data-channel items to a subscriber.
pub type ToSubscriberDataChannel = tokio::sync::mpsc::UnboundedSender<
    ToSubscriberDataChannelMessage,
>;

/// One registered peer: its room membership and its three outbound
/// queues.
pub struct PeerEntry {
    pub peer_id: u128,
    pub member: RoomMember,
    pub to_publisher: ToPublisherChannel,
    pub to_subscriber: ToSubscriberChannel,
    pub to_subscriber_data: ToSubscriberDataChannel,
}

/// The forwardable tracks of one publishing peer.
pub struct TrackEntry {
    pub peer_id: u128,
    pub tracks: Vec<TrackInfo>,
}

/// The registry itself.  One instance per process, behind a lock owned by
/// the surrounding program.
pub struct PeerManager {
    pub peers: Vec<PeerEntry>,
    pub tracks: Vec<TrackEntry>,
}

/// Index of the first registry entry of a peer, or the length if absent.
pub open spec fn peer_index(s: Seq<PeerEntry>, p: u128) -> int
    decreases s.len(),
{
    if s.len() == 0 {
        0
    } else if s[0].peer_id == p {
        0
    } else {
        1 + peer_index(s.drop_first(), p)
    }
}

/// The peer is registered.
pub open spec fn spec_has_peer(s: Seq<PeerEntry>, p: u128) -> bool {
    peer_index(s, p) < s.len()
}

/// The room a registered peer belongs to.
pub open spec fn spec_room_of(s: Seq<PeerEntry>, p: u128) -> Option<i64> {
    if spec_has_peer(s, p) {
        Some(s[peer_index(s, p)].member.room_id)
    } else {
        None
    }
}

/// The member name of a registered peer.
pub open spec fn spec_name_of(s: Seq<PeerEntry>, p: u128) -> Option<Seq<char>> {
    if spec_has_peer(s, p) {
        Some(s[peer_index(s, p)].member.member_name@)
    } else {
        None
    }
}

/// What `peer_index` finds: the first entry of the peer.
pub proof fn lemma_peer_index(s: Seq<PeerEntry>, p: u128)
    ensures
        0 <= peer_index(s, p) <= s.len(),
        peer_index(s, p) < s.len() ==> s[peer_index(s, p)].peer_id == p,
        forall|j: int| 0 <= j < peer_index(s, p) ==> s[j].peer_id != p,
    decreases s.len(),
{
    if s.len() > 0 && s[0].peer_id != p {
        lemma_peer_index(s.drop_first(), p);
        assert(forall|j: int|
            1 <= j < peer_index(s, p) ==> s[j] == s.drop_first()[j - 1] && s[j].peer_id != p);
    }
}

/// With unique ids, any entry of the peer is the one that lookups see.
pub proof fn lemma_peer_lookup_unique(s: Seq<PeerEntry>, i: int, p: u128)
    requires
        unique_peer_ids(s),
        0 <= i < s.len(),
        s[i].peer_id == p,
    ensures
        peer_index(s, p) == i,
        spec_room_of(s, p) == Some(s[i].member.room_id),
        spec_name_of(s, p) == Some(s[i].member.member_name@),
{
    lemma_peer_index(s, p);
    if peer_index(s, p) < i {
        assert(s[peer_index(s, p)].peer_id == p);
    }
    if peer_index(s, p) > i {
        assert(s[i].peer_id != p);
    }
}

/// A peer that no entry names is absent.
pub proof fn lemma_peer_absent(s: Seq<PeerEntry>, p: u128)
    requires
        forall|j: int| 0 <= j < s.len() ==> s[j].peer_id != p,
    ensures
        !spec_has_peer(s, p),
        spec_room_of(s, p) is None,
        spec_name_of(s, p) is None,
{
    lemma_peer_index(s, p);
    if peer_index(s, p) < s.len() {
        assert(s[peer_index(s, p)].peer_id == p);
    }
}

/// Every peer has at most one registry entry.
pub open spec fn unique_peer_ids(s: Seq<PeerEntry>) -> bool {
    forall|i: int, j: int|
        0 <= i < j < s.len() ==> (#[trigger] s[i].peer_id) != (#[trigger] s[j].peer_id)
}

/// Index of the first track entry of a peer, or the length if absent.
pub open spec fn track_index(ts: Seq<TrackEntry>, p: u128) -> int
    decreases ts.len(),
{
    if ts.len() == 0 {
        0
    } else if ts[0].peer_id == p {
        0
    } else {
        1 + track_index(ts.drop_first(), p)
    }
}

/// The forwardable tracks a peer has published, if any.
pub open spec fn spec_tracks_of(ts: Seq<TrackEntry>, p: u128) -> Option<Seq<TrackInfoV>> {
    if track_index(ts, p) < ts.len() {
        Some(tracks_view(ts[track_index(ts, p)].tracks@))
    } else {
        None
    }
}

/// What `track_index` finds: the first track entry of the peer.
pub proof fn lemma_track_index(ts: Seq<TrackEntry>, p: u128)
    ensures
        0 <= track_index(ts, p) <= ts.len(),
        track_index(ts, p) < ts.len() ==> ts[track_index(ts, p)].peer_id == p,
        forall|j: int| 0 <= j < track_index(ts, p) ==> ts[j].peer_id != p,
    decreases ts.len(),
{
    if ts.len() > 0 && ts[0].peer_id != p {
        lemma_track_index(ts.drop_first(), p);
        assert(forall|j: int|
            1 <= j < track_index(ts, p) ==> ts[j] == ts.drop_first()[j - 1] && ts[j].peer_id != p);
    }
}

/// With unique ids, any track entry of the peer is the one lookups see.
pub proof fn lemma_track_lookup_unique(ts: Seq<TrackEntry>, i: int, p: u128)
    requires
        unique_track_peers(ts),
        0 <= i < ts.len(),
        ts[i].peer_id == p,
    ensures
        track_index(ts, p) == i,
        spec_tracks_of(ts, p) == Some(tracks_view(ts[i].tracks@)),
{
    lemma_track_index(ts, p);
    if track_index(ts, p) < i {
        assert(ts[track_index(ts, p)].peer_id == p);
    }
    if track_index(ts, p) > i {
        assert(ts[i].peer_id != p);
    }
}

/// A peer that no track entry names has published nothing.
pub proof fn lemma_track_absent(ts: Seq<TrackEntry>, p: u128)
    requires
        forall|j: int| 0 <= j < ts.len() ==> ts[j].peer_id != p,
    ensures
        spec_tracks_of(ts, p) is None,
{
    lemma_track_index(ts, p);
    if track_index(ts, p) < ts.len() {
        assert(ts[track_index(ts, p)].peer_id == p);
    }
}

/// Every publishing peer has at most one track entry.
pub open spec fn unique_track_peers(ts: Seq<TrackEntry>) -> bool {
    forall|i: int, j: int|
        0 <= i < j < ts.len() ==> (#[trigger] ts[i].peer_id) != (#[trigger] ts[j].peer_id)
}

/// The id prefix of every forwardable track.
pub open spec fn spec_track_prefix() -> Seq<char> {
    "sfu-track-"@
}

/// The id starts with the forwardable-track prefix.
pub open spec fn has_track_prefix(id: Seq<char>) -> bool {
    id.len() >= spec_track_prefix().len() && id.take(spec_track_prefix().len() as int)
        == spec_track_prefix()
}

/// A well-formed track list: at most one track per media kind, every id
/// prefixed.
pub open spec fn track_list_wf(l: Seq<TrackInfoV>) -> bool {
    &&& l.len() <= 2
    &&& l.len() == 2 ==> l[0].kind != l[1].kind
    &&& forall|i: int| 0 <= i < l.len() ==> has_track_prefix(#[trigger] l[i].id)
}

impl PeerManager {
    /// The registry invariant: unique entries, every publisher
    /// registered, every track list well formed.
    pub open spec fn wf(self) -> bool {
        &&& unique_peer_ids(self.peers@)
        &&& unique_track_peers(self.tracks@)
        &&& forall|i: int|
            0 <= i < self.tracks@.len() ==> spec_has_peer(
                self.peers@,
                #[trigger] self.tracks@[i].peer_id,
            )
        &&& forall|i: int|
            0 <= i < self.tracks@.len() ==> track_list_wf(
                tracks_view((#[trigger] self.tracks@[i].tracks)@),
            )
    }

    /// An empty registry.
    pub fn new() -> (r: PeerManager)
        ensures
            r.peers@.len() == 0,
            r.tracks@.len() == 0,
            r.wf(),
    {
        PeerManager { peers: Vec::new(), tracks: Vec::new() }
    }

    /// Whether a peer is registered.
    pub fn has_peer(&self, peer_id: u128) -> (r: bool)
        ensures
            r == spec_has_peer(self.peers@, peer_id),
    {
        let n = self.peers.len();
        let mut i: usize = 0;
        while i < n
            invariant
                n == self.peers@.len(),
                0 <= i <= n,
                forall|j: int| 0 <= j < i ==> self.peers@[j].peer_id != peer_id,
            decreases n - i,
        {
            if self.peers[i].peer_id == peer_id {
                proof {
                    lemma_peer_index(self.peers@, peer_id);
                    if peer_index(self.peers@, peer_id) == self.peers@.len() {
                        assert(self.peers@[i as int].peer_id != peer_id);
                    }
                }
                return true;
            }
            i = i + 1;
        }
        proof {
            lemma_peer_absent(self.peers@, peer_id);
        }
        false
    }

    /// Register a peer: its room membership and its three queues.  The
    /// caller guarantees freshness of the id.
    pub fn add_peer(
        &mut self,
        peer_id: u128,
        room_member: RoomMember,
        to_pub_ch: ToPublisherChannel,
        to_sub_ch: ToSubscriberChannel,
        to_sub_data_ch: ToSubscriberDataChannel,
    )
        requires
            old(self).wf(),
            !spec_has_peer(old(self).peers@, peer_id),
        ensures
            final(self).wf(),
            final(self).tracks == old(self).tracks,
            final(self).peers@.len() == old(self).peers@.len() + 1,
            spec_has_peer(final(self).peers@, peer_id),
            spec_room_of(final(self).peers@, peer_id) == Some(room_member.room_id),
            spec_name_of(final(self).peers@, peer_id) == Some(room_member.member_name@),
            final(self).peers@[old(self).peers@.len() as int] == (PeerEntry {
                peer_id,
                member: room_member,
                to_publisher: to_pub_ch,
                to_subscriber: to_sub_ch,
                to_subscriber_data: to_sub_data_ch,
            }),
            forall|i: int|
                0 <= i < old(self).peers@.len() ==> final(self).peers@[i] == old(self).peers@[i],
            forall|q: u128|
                q != peer_id ==> #[trigger] spec_room_of(final(self).peers@, q) == spec_room_of(
                    old(self).peers@,
                    q,
                ) && spec_name_of(final(self).peers@, q) == spec_name_of(old(self).peers@, q)
                    && spec_has_peer(final(self).peers@, q) == spec_has_peer(old(self).peers@, q),
    {
        let ghost s = self.peers@;
        proof {
            lemma_peer_index(s, peer_id);
        }
        self.peers.push(
            PeerEntry {
                peer_id,
                member: room_member,
                to_publisher: to_pub_ch,
                to_subscriber: to_sub_ch,
                to_subscriber_data: to_sub_data_ch,
            },
        );
        proof {
            let t = self.peers@;
            assert(forall|j: int| 0 <= j < s.len() ==> s[j].peer_id != peer_id);
            assert(unique_peer_ids(t)) by {
                assert(forall|j: int| 0 <= j < s.len() ==> t[j] == s[j]);
            }
            lemma_peer_lookup_unique(t, s.len() as int, peer_id);
            assert forall|q: u128| q != peer_id implies #[trigger] spec_room_of(t, q)
                == spec_room_of(s, q) && spec_name_of(t, q) == spec_name_of(s, q) && spec_has_peer(
                t,
                q,
            ) == spec_has_peer(s, q) by {
                lemma_peer_index(s, q);
                if peer_index(s, q) < s.len() {
                    lemma_peer_lookup_unique(t, peer_index(s, q), q);
                    lemma_peer_lookup_unique(s, peer_index(s, q), q);
                } else {
                    lemma_peer_absent(s, q);
                    lemma_peer_absent(t, q);
                }
            }
            assert forall|i: int| 0 <= i < self.tracks@.len() implies spec_has_peer(
                t,
                #[trigger] self.tracks@[i].peer_id,
            ) by {
                assert(spec_has_peer(s, self.tracks@[i].peer_id));
                let q = self.tracks@[i].peer_id;
                if q != peer_id {
                    assert(spec_room_of(t, q) == spec_room_of(s, q));
                    assert(spec_has_peer(t, q) == spec_has_peer(s, q));
                }
            }
        }
    }

    /// Drop a peer from the registry: its room membership, its tracks,
    /// and its queues all leave together.
    pub fn remove_peer(&mut self, peer_id: u128)
        requires
            old(self).wf(),
        ensures
            final(self).wf(),
            !spec_has_peer(final(self).peers@, peer_id),
            spec_room_of(final(self).peers@, peer_id) is None,
            spec_tracks_of(final(self).tracks@, peer_id) is None,
            forall|q: u128|
                q != peer_id ==> #[trigger] spec_room_of(final(self).peers@, q) == spec_room_of(
                    old(self).peers@,
                    q,
                ) && spec_name_of(final(self).peers@, q) == spec_name_of(old(self).peers@, q)
                    && spec_has_peer(final(self).peers@, q) == spec_has_peer(old(self).peers@, q),
            forall|q: u128|
                q != peer_id ==> #[trigger] spec_tracks_of(final(self).tracks@, q)
                    == spec_tracks_of(old(self).tracks@, q),
    {
        let ghost s0 = self.peers@;
        let ghost ts0 = self.tracks@;
        let n = self.peers.len();
        let mut i: usize = 0;
        let mut removed = false;
        while i < n && !removed
            invariant
                old(self).wf(),
                self.tracks == old(self).tracks,
                !removed ==> self.peers@ == s0 && 0 <= i <= n && n == s0.len() && forall|j: int|
                    0 <= j < i ==> s0[j].peer_id != peer_id,
                removed ==> self.peers@ == s0.remove(i as int) && 0 <= i < n && n == s0.len()
                    && s0[i as int].peer_id == peer_id && forall|j: int|
                    0 <= j < i ==> s0[j].peer_id != peer_id,
                s0 == old(self).peers@,
                ts0 == old(self).tracks@,
            decreases n - i + if removed { 0int } else { 1int },
        {
            if self.peers[i].peer_id == peer_id {
                self.peers.remove(i);
                removed = true;
            } else {
                i = i + 1;
            }
        }
        let m = self.tracks.len();
        let mut h: usize = 0;
        let mut tremoved = false;
        while h < m && !tremoved
            invariant
                unique_peer_ids(s0),
                unique_track_peers(ts0),
                removed ==> self.peers@ == s0.remove(i as int) && 0 <= i < s0.len() && s0[i as int].peer_id
                    == peer_id && forall|j: int| 0 <= j < i ==> s0[j].peer_id != peer_id,
                !removed ==> self.peers@ == s0 && forall|j: int|
                    0 <= j < s0.len() ==> s0[j].peer_id != peer_id,
                !tremoved ==> self.tracks@ == ts0 && 0 <= h <= m && m == ts0.len() && forall|
                    j: int,
                |
                    0 <= j < h ==> ts0[j].peer_id != peer_id,
                tremoved ==> self.tracks@ == ts0.remove(h as int) && 0 <= h < m && m == ts0.len()
                    && ts0[h as int].peer_id == peer_id && forall|j: int|
                    0 <= j < h ==> ts0[j].peer_id != peer_id,
            decreases m - h + if tremoved { 0int } else { 1int },
        {
            if self.tracks[h].peer_id == peer_id {
                self.tracks.remove(h);
                tremoved = true;
            } else {
                h = h + 1;
            }
        }
        proof {
            let t = self.peers@;
            let tt = self.tracks@;
            if removed {
                let k = i as int;
                assert(forall|j: int| 0 <= j < k ==> t[j] == s0[j]);
                assert(forall|j: int| k <= j < t.len() ==> t[j] == s0[j + 1]);
                assert(unique_peer_ids(t));
                assert(forall|j: int| 0 <= j < t.len() ==> t[j].peer_id != peer_id);
                lemma_peer_absent(t, peer_id);
                assert forall|q: u128| q != peer_id implies #[trigger] spec_room_of(t, q)
                    == spec_room_of(s0, q) && spec_name_of(t, q) == spec_name_of(s0, q)
                    && spec_has_peer(t, q) == spec_has_peer(s0, q) by {
                    lemma_peer_index(s0, q);
                    if peer_index(s0, q) < s0.len() {
                        let iq = peer_index(s0, q);
                        assert(s0[iq].peer_id == q);
                        if iq < k {
                            lemma_peer_lookup_unique(t, iq, q);
                            lemma_peer_lookup_unique(s0, iq, q);
                        } else {
                            assert(iq != k);
                            assert(t[iq - 1] == s0[iq]);
                            lemma_peer_lookup_unique(t, iq - 1, q);
                            lemma_peer_lookup_unique(s0, iq, q);
                        }
                    } else {
                        lemma_peer_absent(s0, q);
                        assert(forall|j: int| 0 <= j < t.len() ==> t[j].peer_id != q);
                        lemma_peer_absent(t, q);
                    }
                }
            } else {
                assert(t == s0);
                lemma_peer_absent(s0, peer_id);
            }
            if tremoved {
                let k = h as int;
                assert(forall|j: int| 0 <= j < k ==> tt[j] == ts0[j]);
                assert(forall|j: int| k <= j < tt.len() ==> tt[j] == ts0[j + 1]);
                assert(unique_track_peers(tt));
                assert(forall|j: int| 0 <= j < tt.len() ==> tt[j].peer_id != peer_id);
                lemma_track_absent(tt, peer_id);
                assert forall|q: u128| q != peer_id implies #[trigger] spec_tracks_of(tt, q)
                    == spec_tracks_of(ts0, q) by {
                    lemma_track_index(ts0, q);
                    if track_index(ts0, q) < ts0.len() {
                        let iq = track_index(ts0, q);
                        if iq < k {
                            lemma_track_lookup_unique(tt, iq, q);
                            lemma_track_lookup_unique(ts0, iq, q);
                        } else {
                            assert(iq != k);
                            assert(tt[iq - 1] == ts0[iq]);
                            lemma_track_lookup_unique(tt, iq - 1, q);
                            lemma_track_lookup_unique(ts0, iq, q);
                        }
                    } else {
                        lemma_track_absent(ts0, q);
                        assert(forall|j: int| 0 <= j < tt.len() ==> tt[j].peer_id != q);
                        lemma_track_absent(tt, q);
                    }
                }
            } else {
                assert(tt == ts0);
                assert(forall|j: int| 0 <= j < ts0.len() ==> ts0[j].peer_id != peer_id);
                lemma_track_absent(ts0, peer_id);
            }
            assert forall|i: int| 0 <= i < tt.len() implies spec_has_peer(
                t,
                #[trigger] tt[i].peer_id,
            ) by {
                let q = tt[i].peer_id;
                assert(q != peer_id);
                if tremoved {
                    if i < h as int {
                        assert(tt[i] == ts0[i]);
                    } else {
                        assert(tt[i] == ts0[i + 1]);
                    }
                } else {
                }
                assert(spec_has_peer(s0, q));
                assert(spec_room_of(t, q) == spec_room_of(s0, q));
                assert(spec_has_peer(t, q) == spec_has_peer(s0, q));
            }
            assert forall|i: int| 0 <= i < tt.len() implies track_list_wf(
                tracks_view((#[trigger] tt[i].tracks)@),
            ) by {
                if tremoved && i >= h as int {
                    assert(tt[i] == ts0[i + 1]);
                }
            }
        }
    }
}

/// The peers a fan-out from `p` in `room` reaches: every registered peer
/// of the same room except `p` itself, in registry order.
pub open spec fn spec_subscriber_targets(s: Seq<PeerEntry>, room: i64, p: u128) -> Seq<u128>
    decreases s.len(),
{
    if s.len() == 0 {
        Seq::empty()
    } else {
        let rest = spec_subscriber_targets(s.drop_first(), room, p);
        if s[0].peer_id != p && s[0].member.room_id == room {
            seq![s[0].peer_id] + rest
        } else {
            rest
        }
    }
}

/// Appending an entry appends its contribution to the fan-out targets.
pub proof fn lemma_targets_push(s: Seq<PeerEntry>, e: PeerEntry, room: i64, p: u128)
    ensures
        spec_subscriber_targets(s.push(e), room, p) == spec_subscriber_targets(s, room, p) + (
        if e.peer_id != p && e.member.room_id == room {
            seq![e.peer_id]
        } else {
            Seq::<u128>::empty()
        }),
    decreases s.len(),
{
    if s.len() == 0 {
        assert(s.push(e)[0] == e);
        assert(s.push(e).drop_first() =~= Seq::<PeerEntry>::empty());
        assert(spec_subscriber_targets(Seq::empty(), room, p) =~= Seq::<u128>::empty());
        if e.peer_id != p && e.member.room_id == room {
            assert(spec_subscriber_targets(s.push(e), room, p) =~= seq![e.peer_id]);
            assert(spec_subscriber_targets(s, room, p) + seq![e.peer_id] =~= seq![e.peer_id]);
        } else {
            assert(spec_subscriber_targets(s, room, p) + Seq::<u128>::empty() =~= Seq::<
                u128,
            >::empty());
        }
    } else {
        assert(s.push(e).drop_first() =~= s.drop_first().push(e));
        assert(s.push(e)[0] == s[0]);
        lemma_targets_push(s.drop_first(), e, room, p);
        if s[0].peer_id != p && s[0].member.room_id == room {
            assert(seq![s[0].peer_id] + (spec_subscriber_targets(s.drop_first(), room, p) + (
            if e.peer_id != p && e.member.room_id == room {
                seq![e.peer_id]
            } else {
                Seq::<u128>::empty()
            })) =~= (seq![s[0].peer_id] + spec_subscriber_targets(s.drop_first(), room, p)) + (
            if e.peer_id != p && e.member.room_id == room {
                seq![e.peer_id]
            } else {
                Seq::<u128>::empty()
            }));
        }
    }
}

/// Membership in the fan-out targets: exactly the other peers whose
/// entry names the room.
pub proof fn lemma_targets_membership(s: Seq<PeerEntry>, room: i64, p: u128, q: u128)
    ensures
        spec_subscriber_targets(s, room, p).contains(q) <==> (q != p && exists|j: int|
            0 <= j < s.len() && (#[trigger] s[j].peer_id) == q && s[j].member.room_id == room),
    decreases s.len(),
{
    if s.len() > 0 {
        lemma_targets_membership(s.drop_first(), room, p, q);
        let rest = spec_subscriber_targets(s.drop_first(), room, p);
        let whole = spec_subscriber_targets(s, room, p);
        assert(forall|j: int|
            0 <= j < s.drop_first().len() ==> #[trigger] s.drop_first()[j] == s[j + 1]);
        if s[0].peer_id != p && s[0].member.room_id == room {
            assert(whole == seq![s[0].peer_id] + rest);
            if whole.contains(q) {
                let k = choose|k: int| 0 <= k < whole.len() && whole[k] == q;
                if k == 0 {
                    assert(s[0].peer_id == q);
                } else {
                    assert(rest[k - 1] == q);
                    assert(rest.contains(q));
                }
            }
            if q != p && exists|j: int|
                0 <= j < s.len() && (#[trigger] s[j].peer_id) == q && s[j].member.room_id
                    == room {
                let j = choose|j: int|
                    0 <= j < s.len() && (#[trigger] s[j].peer_id) == q && s[j].member.room_id
                        == room;
                if j == 0 {
                    assert(whole[0] == q);
                } else {
                    assert(s.drop_first()[j - 1].peer_id == q);
                    assert(rest.contains(q));
                    let k = choose|k: int| 0 <= k < rest.len() && rest[k] == q;
                    assert(whole[k + 1] == q);
                }
                assert(whole.contains(q));
            }
        } else {
            assert(whole == rest);
            if q != p && exists|j: int|
                0 <= j < s.len() && (#[trigger] s[j].peer_id) == q && s[j].member.room_id
                    == room {
                let j = choose|j: int|
                    0 <= j < s.len() && (#[trigger] s[j].peer_id) == q && s[j].member.room_id
                        == room;
                assert(j != 0);
                assert(s.drop_first()[j - 1].peer_id == q);
            }
        }
    }
}

/// Law: fan-out never targets the sending peer itself.
pub proof fn lemma_no_self_fanout(s: Seq<PeerEntry>, room: i64, p: u128)
    ensures
        !spec_subscriber_targets(s, room, p).contains(p),
{
    lemma_targets_membership(s, room, p, p);
}

/// The co-room publisher tracks offered to `p`: for every other peer of
/// the same room that has published, its tracks, tagged with its id.
pub open spec fn spec_publisher_tracks(ts: Seq<TrackEntry>, peers: Seq<PeerEntry>, p: u128) -> Seq<
    (u128, TrackInfoV),
>
    decreases ts.len(),
{
    if ts.len() == 0 {
        Seq::empty()
    } else {
        let rest = spec_publisher_tracks(ts.drop_first(), peers, p);
        if ts[0].peer_id != p && spec_room_of(peers, p) is Some && spec_room_of(
            peers,
            ts[0].peer_id,
        ) == spec_room_of(peers, p) {
            tagged_tracks(ts[0].peer_id, ts[0].tracks@) + rest
        } else {
            rest
        }
    }
}

/// Appending a track entry appends its contribution to the listing.
pub proof fn lemma_publisher_tracks_push(
    ts: Seq<TrackEntry>,
    e: TrackEntry,
    peers: Seq<PeerEntry>,
    p: u128,
)
    ensures
        spec_publisher_tracks(ts.push(e), peers, p) == spec_publisher_tracks(ts, peers, p) + (
        if e.peer_id != p && spec_room_of(peers, p) is Some && spec_room_of(peers, e.peer_id)
            == spec_room_of(peers, p) {
            tagged_tracks(e.peer_id, e.tracks@)
        } else {
            Seq::<(u128, TrackInfoV)>::empty()
        }),
    decreases ts.len(),
{
    let added_part = if e.peer_id != p && spec_room_of(peers, p) is Some && spec_room_of(
        peers,
        e.peer_id,
    ) == spec_room_of(peers, p) {
        tagged_tracks(e.peer_id, e.tracks@)
    } else {
        Seq::<(u128, TrackInfoV)>::empty()
    };
    if ts.len() == 0 {
        assert(ts.push(e)[0] == e);
        assert(ts.push(e).drop_first() =~= Seq::<TrackEntry>::empty());
        assert(spec_publisher_tracks(Seq::<TrackEntry>::empty(), peers, p) == Seq::<(
            u128,
            TrackInfoV,
        )>::empty());
        assert(spec_publisher_tracks(ts.push(e), peers, p) =~~= spec_publisher_tracks(
            ts,
            peers,
            p,
        ) + added_part);
    } else {
        assert(ts.push(e).drop_first() =~= ts.drop_first().push(e));
        assert(ts.push(e)[0] == ts[0]);
        lemma_publisher_tracks_push(ts.drop_first(), e, peers, p);
        assert(spec_publisher_tracks(ts.push(e), peers, p) =~~= spec_publisher_tracks(
            ts,
            peers,
            p,
        ) + added_part);
    }
}

/// Every listed pair names a co-room peer other than the asker.
pub proof fn lemma_publisher_tracks_rooms(ts: Seq<TrackEntry>, peers: Seq<PeerEntry>, p: u128)
    ensures
        forall|k: int|
            0 <= k < spec_publisher_tracks(ts, peers, p).len() ==> ((
            #[trigger] spec_publisher_tracks(ts, peers, p)[k]).0 != p && spec_room_of(
                peers,
                spec_publisher_tracks(ts, peers, p)[k].0,
            ) == spec_room_of(peers, p) && spec_room_of(peers, p) is Some),
    decreases ts.len(),
{
    if ts.len() > 0 {
        lemma_publisher_tracks_rooms(ts.drop_first(), peers, p);
        let rest = spec_publisher_tracks(ts.drop_first(), peers, p);
        let whole = spec_publisher_tracks(ts, peers, p);
        if ts[0].peer_id != p && spec_room_of(peers, p) is Some && spec_room_of(
            peers,
            ts[0].peer_id,
        ) == spec_room_of(peers, p) {
            let head = tagged_tracks(ts[0].peer_id, ts[0].tracks@);
            assert(forall|k: int| 0 <= k < head.len() ==> (#[trigger] whole[k]) == head[k]);
            assert(forall|k: int|
                head.len() <= k < whole.len() ==> (#[trigger] whole[k]) == rest[k - head.len()]);
        }
    }
}

/// Every track in the listing bears the forwardable-track id prefix,
/// because every published track does.
pub proof fn lemma_publisher_tracks_prefixed(ts: Seq<TrackEntry>, peers: Seq<PeerEntry>, p: u128)
    requires
        forall|i: int|
            0 <= i < ts.len() ==> track_list_wf(tracks_view((#[trigger] ts[i].tracks)@)),
    ensures
        forall|k: int|
            0 <= k < spec_publisher_tracks(ts, peers, p).len() ==> has_track_prefix(
                (#[trigger] spec_publisher_tracks(ts, peers, p)[k]).1.id,
            ),
    decreases ts.len(),
{
    if ts.len() > 0 {
        assert(forall|i: int|
            0 <= i < ts.drop_first().len() ==> #[trigger] ts.drop_first()[i] == ts[i + 1]);
        lemma_publisher_tracks_prefixed(ts.drop_first(), peers, p);
        let rest = spec_publisher_tracks(ts.drop_first(), peers, p);
        let whole = spec_publisher_tracks(ts, peers, p);
        if ts[0].peer_id != p && spec_room_of(peers, p) is Some && spec_room_of(
            peers,
            ts[0].peer_id,
        ) == spec_room_of(peers, p) {
            let head = tagged_tracks(ts[0].peer_id, ts[0].tracks@);
            lemma_tagged_tracks(ts[0].peer_id, ts[0].tracks@);
            lemma_tracks_view(ts[0].tracks@);
            assert(track_list_wf(tracks_view(ts[0].tracks@)));
            assert forall|k: int| 0 <= k < whole.len() implies has_track_prefix(
                (#[trigger] whole[k]).1.id,
            ) by {
                if k < head.len() {
                    assert(whole[k] == head[k]);
                    assert(head[k].1 == ts[0].tracks@[k]@);
                    assert(tracks_view(ts[0].tracks@)[k] == ts[0].tracks@[k]@);
                } else {
                    assert(whole[k] == rest[k - head.len()]);
                }
            }
        }
    }
}

/// Law: room isolation.  A fan-out from `p` never reaches a peer of
/// another room, and the publisher-track listing offered to `p` never
/// names one.
pub proof fn lemma_room_isolation(m: PeerManager, p: u128, q: u128, room: i64)
    requires
        m.wf(),
        spec_room_of(m.peers@, p) == Some(room),
        spec_room_of(m.peers@, q) != Some(room),
    ensures
        !spec_subscriber_targets(m.peers@, room, p).contains(q),
        forall|k: int|
            0 <= k < spec_publisher_tracks(m.tracks@, m.peers@, p).len() ==> (
            #[trigger] spec_publisher_tracks(m.tracks@, m.peers@, p)[k]).0 != q,
{
    lemma_targets_membership(m.peers@, room, p, q);
    if spec_subscriber_targets(m.peers@, room, p).contains(q) {
        let j = choose|j: int|
            0 <= j < m.peers@.len() && (#[trigger] m.peers@[j].peer_id) == q
                && m.peers@[j].member.room_id == room;
        lemma_peer_lookup_unique(m.peers@, j, q);
    }
    lemma_publisher_tracks_rooms(m.tracks@, m.peers@, p);
}

impl PeerManager {
    /// The room id of a registered peer.
    pub fn room_id_of(&self, peer_id: u128) -> (r: Option<i64>)
        ensures
            r == spec_room_of(self.peers@, peer_id),
    {
        let n = self.peers.len();
        let mut i: usize = 0;
        while i < n
            invariant
                n == self.peers@.len(),
                0 <= i <= n,
                forall|j: int| 0 <= j < i ==> self.peers@[j].peer_id != peer_id,
            decreases n - i,
        {
            if self.peers[i].peer_id == peer_id {
                proof {
                    lemma_peer_index(self.peers@, peer_id);
                    if peer_index(self.peers@, peer_id) > i {
                        assert(self.peers@[i as int].peer_id != peer_id);
                    }
                    assert(peer_index(self.peers@, peer_id) == i);
                }
                return Some(self.peers[i].member.room_id);
            }
            i = i + 1;
        }
        proof {
            lemma_peer_absent(self.peers@, peer_id);
        }
        None
    }

    /// The member name behind a peer id, if the peer is registered.
    pub fn get_name_by_peer_id(&self, peer_id: u128) -> (r: Option<String>)
        ensures
            r is Some <==> spec_name_of(self.peers@, peer_id) is Some,
            r matches Some(n) ==> Some(n@) == spec_name_of(self.peers@, peer_id),
    {
        let n = self.peers.len();
        let mut i: usize = 0;
        while i < n
            invariant
                n == self.peers@.len(),
                0 <= i <= n,
                forall|j: int| 0 <= j < i ==> self.peers@[j].peer_id != peer_id,
            decreases n - i,
        {
            if self.peers[i].peer_id == peer_id {
                proof {
                    lemma_peer_index(self.peers@, peer_id);
                    if peer_index(self.peers@, peer_id) > i {
                        assert(self.peers@[i as int].peer_id != peer_id);
                    }
                    assert(peer_index(self.peers@, peer_id) == i);
                }
                return Some(self.peers[i].member.member_name.clone());
            }
            i = i + 1;
        }
        proof {
            lemma_peer_absent(self.peers@, peer_id);
        }
        None
    }

    /// Record one more forwardable track of a publishing peer.  The peer
    /// is registered and has not yet published a track of this kind.
    pub fn add_track(&mut self, peer_id: u128, track: TrackInfo)
        requires
            old(self).wf(),
            spec_has_peer(old(self).peers@, peer_id),
            has_track_prefix(track@.id),
            match spec_tracks_of(old(self).tracks@, peer_id) {
                Option::None => true,
                Option::Some(l) => l.len() < 2 && (forall|i: int|
                    0 <= i < l.len() ==> (#[trigger] l[i]).kind != track@.kind),
            },
        ensures
            final(self).wf(),
            final(self).peers == old(self).peers,
            spec_tracks_of(final(self).tracks@, peer_id) == match spec_tracks_of(
                old(self).tracks@,
                peer_id,
            ) {
                Option::None => Some(seq![track@]),
                Option::Some(l) => Some(l.push(track@)),
            },
            forall|q: u128|
                q != peer_id ==> #[trigger] spec_tracks_of(final(self).tracks@, q)
                    == spec_tracks_of(old(self).tracks@, q),
    {
        let ghost ts0 = self.tracks@;
        let ghost tv = track@;
        let m = self.tracks.len();
        let mut h: usize = 0;
        while h < m
            invariant
                old(self).wf(),
                self == old(self),
                m == ts0.len(),
                ts0 == old(self).tracks@,
                tv == track@,
                has_track_prefix(tv.id),
                spec_has_peer(old(self).peers@, peer_id),
                match spec_tracks_of(ts0, peer_id) {
                    Option::None => true,
                    Option::Some(l) => l.len() < 2 && (forall|i: int|
                        0 <= i < l.len() ==> (#[trigger] l[i]).kind != tv.kind),
                },
                0 <= h <= m,
                forall|j: int| 0 <= j < h ==> ts0[j].peer_id != peer_id,
            decreases m - h,
        {
            if self.tracks[h].peer_id == peer_id {
                proof {
                    lemma_track_lookup_unique(ts0, h as int, peer_id);
                }
                let mut entry = self.tracks.remove(h);
                entry.tracks.push(track);
                let ghost entry2 = entry;
                self.tracks.insert(h, entry);
                proof {
                    let tt = self.tracks@;
                    assert(tt =~= ts0.update(h as int, entry2));
                    assert(entry2.peer_id == peer_id);
                    assert(entry2.tracks@ == ts0[h as int].tracks@.push(track));
                    assert(forall|j: int| 0 <= j < tt.len() ==> tt[j].peer_id == ts0[j].peer_id);
                    assert(unique_track_peers(tt));
                    lemma_track_lookup_unique(tt, h as int, peer_id);
                    lemma_tracks_view(entry2.tracks@);
                    lemma_tracks_view(ts0[h as int].tracks@);
                    assert(tracks_view(entry2.tracks@) =~~= tracks_view(ts0[h as int].tracks@).push(tv));
                    assert forall|q: u128| q != peer_id implies #[trigger] spec_tracks_of(tt, q)
                        == spec_tracks_of(ts0, q) by {
                        lemma_track_index(ts0, q);
                        if track_index(ts0, q) < ts0.len() {
                            let iq = track_index(ts0, q);
                            assert(iq != h as int);
                            assert(tt[iq] == ts0[iq]);
                            lemma_track_lookup_unique(tt, iq, q);
                            lemma_track_lookup_unique(ts0, iq, q);
                        } else {
                            lemma_track_absent(ts0, q);
                            assert(forall|j: int| 0 <= j < tt.len() ==> tt[j].peer_id != q);
                            lemma_track_absent(tt, q);
                        }
                    }
                    assert forall|i: int| 0 <= i < tt.len() implies spec_has_peer(
                        self.peers@,
                        #[trigger] tt[i].peer_id,
                    ) by {
                        assert(tt[i].peer_id == ts0[i].peer_id);
                    }
                    assert forall|i: int| 0 <= i < tt.len() implies track_list_wf(
                        tracks_view((#[trigger] tt[i].tracks)@),
                    ) by {
                        if i == h as int {
                            let old_l = tracks_view(ts0[h as int].tracks@);
                            let new_l = tracks_view(entry2.tracks@);
                            assert(track_list_wf(old_l));
                            assert(new_l =~~= old_l.push(tv));
                            assert(new_l.len() == old_l.len() + 1);
                            assert(old_l.len() < 2);
                            if new_l.len() == 2 {
                                assert(old_l.len() == 1);
                                assert(new_l[0] == old_l[0]);
                                assert(new_l[1] == tv);
                                assert(old_l[0].kind != tv.kind);
                            }
                            assert forall|kk: int|
                                0 <= kk < new_l.len() implies has_track_prefix(
                                (#[trigger] new_l[kk]).id,
                            ) by {
                                if kk < new_l.len() - 1 {
                                    assert(new_l[kk] == old_l[kk]);
                                    assert(has_track_prefix(old_l[kk].id));
                                } else {
                                    assert(new_l[kk] == tv);
                                }
                            }
                            assert(track_list_wf(new_l));
                            assert(tt[i].tracks == entry2.tracks);
                        } else {
                            assert(tt[i] == ts0[i]);
                        }
                    }
                }
                return ;
            }
            h = h + 1;
        }
        proof {
            lemma_track_absent(ts0, peer_id);
        }
        let mut tl: Vec<TrackInfo> = Vec::new();
        tl.push(track);
        self.tracks.push(TrackEntry { peer_id, tracks: tl });
        proof {
            let tt = self.tracks@;
            assert(forall|j: int| 0 <= j < ts0.len() ==> tt[j] == ts0[j]);
            assert(tt[ts0.len() as int].peer_id == peer_id);
            assert(unique_track_peers(tt));
            lemma_track_lookup_unique(tt, ts0.len() as int, peer_id);
            lemma_tracks_view(tt[ts0.len() as int].tracks@);
            assert(tracks_view(tt[ts0.len() as int].tracks@) =~~= seq![tv]);
            assert forall|q: u128| q != peer_id implies #[trigger] spec_tracks_of(tt, q)
                == spec_tracks_of(ts0, q) by {
                lemma_track_index(ts0, q);
                if track_index(ts0, q) < ts0.len() {
                    let iq = track_index(ts0, q);
                    lemma_track_lookup_unique(tt, iq, q);
                    lemma_track_lookup_unique(ts0, iq, q);
                } else {
                    lemma_track_absent(ts0, q);
                    assert(forall|j: int| 0 <= j < tt.len() ==> tt[j].peer_id != q);
                    lemma_track_absent(tt, q);
                }
            }
            assert forall|i: int| 0 <= i < tt.len() implies spec_has_peer(
                self.peers@,
                #[trigger] tt[i].peer_id,
            ) by {
                if i < ts0.len() {
                    assert(tt[i].peer_id == ts0[i].peer_id);
                }
            }
            assert forall|i: int| 0 <= i < tt.len() implies track_list_wf(
                tracks_view((#[trigger] tt[i].tracks)@),
            ) by {
                if i < ts0.len() {
                    assert(tt[i] == ts0[i]);
                } else {
                    lemma_tracks_view(tt[i].tracks@);
                    assert(tracks_view(tt[i].tracks@) =~~= seq![tv]);
                }
            }
        }
    }

    /// Whether the peer has published exactly its audio and video pair.
    pub fn has_both_audio_and_video(&self, peer_id: u128) -> (r: bool)
        ensures
            r == (spec_tracks_of(self.tracks@, peer_id) matches Some(l) && l.len() == 2),
    {
        let m = self.tracks.len();
        let mut h: usize = 0;
        while h < m
            invariant
                m == self.tracks@.len(),
                0 <= h <= m,
                forall|j: int| 0 <= j < h ==> self.tracks@[j].peer_id != peer_id,
            decreases m - h,
        {
            if self.tracks[h].peer_id == peer_id {
                proof {
                    lemma_track_index(self.tracks@, peer_id);
                    if track_index(self.tracks@, peer_id) > h {
                        assert(self.tracks@[h as int].peer_id != peer_id);
                    }
                    assert(track_index(self.tracks@, peer_id) == h);
                }
                return self.tracks[h].tracks.len() == 2;
            }
            h = h + 1;
        }
        proof {
            lemma_track_absent(self.tracks@, peer_id);
        }
        false
    }

    /// Push a copy of the message onto the signaling queue of every peer
    /// of the room except `exclude`; failures to enqueue are skipped.
    fn fan_out(&self, room: i64, exclude: u128, message: &SubscriberMessage) -> (sent: Vec<u128>)
        ensures
            sent@ == spec_subscriber_targets(self.peers@, room, exclude),
    {
        let n = self.peers.len();
        let mut sent: Vec<u128> = Vec::new();
        let mut i: usize = 0;
        while i < n
            invariant
                n == self.peers@.len(),
                0 <= i <= n,
                sent@ == spec_subscriber_targets(self.peers@.take(i as int), room, exclude),
            decreases n - i,
        {
            proof {
                lemma_targets_push(
                    self.peers@.take(i as int),
                    self.peers@[i as int],
                    room,
                    exclude,
                );
                assert(self.peers@.take(i as int + 1) =~= self.peers@.take(i as int).push(
                    self.peers@[i as int],
                ));
            }
            if self.peers[i].peer_id != exclude && self.peers[i].member.room_id == room {
                let copy = message.duplicate();
                let _ok = channel_send(&self.peers[i].to_subscriber, copy);
                sent.push(self.peers[i].peer_id);
            }
            i = i + 1;
        }
        proof {
            assert(self.peers@.take(n as int) =~= self.peers@);
        }
        sent
    }

    /// Push the relayed data item onto the data queue of every peer of
    /// the room except `exclude`; failures to enqueue are skipped.
    fn fan_out_data(&self, room: i64, exclude: u128, message: &String) -> (sent: Vec<u128>)
        ensures
            sent@ == spec_subscriber_targets(self.peers@, room, exclude),
    {
        let n = self.peers.len();
        let mut sent: Vec<u128> = Vec::new();
        let mut i: usize = 0;
        while i < n
            invariant
                n == self.peers@.len(),
                0 <= i <= n,
                sent@ == spec_subscriber_targets(self.peers@.take(i as int), room, exclude),
            decreases n - i,
        {
            proof {
                lemma_targets_push(
                    self.peers@.take(i as int),
                    self.peers@[i as int],
                    room,
                    exclude,
                );
                assert(self.peers@.take(i as int + 1) =~= self.peers@.take(i as int).push(
                    self.peers@[i as int],
                ));
            }
            if self.peers[i].peer_id != exclude && self.peers[i].member.room_id == room {
                let item = ToSubscriberDataChannelMessage::wrap(exclude, message);
                let _ok = channel_send(&self.peers[i].to_subscriber_data, item);
                sent.push(self.peers[i].peer_id);
            }
            i = i + 1;
        }
        proof {
            assert(self.peers@.take(n as int) =~= self.peers@);
        }
        sent
    }

    /// Push the message onto the signaling queue of every other peer of
    /// the sender's room, and say which peers were reached.  A sender
    /// that is not registered reaches nobody.
    pub fn send_to_subscribers(&self, peer_id: u128, message: SubscriberMessage) -> (sent: Vec<
        u128,
    >)
        ensures
            spec_room_of(self.peers@, peer_id) is None ==> sent@.len() == 0,
            spec_room_of(self.peers@, peer_id) matches Some(room) ==> sent@
                == spec_subscriber_targets(self.peers@, room, peer_id),
    {
        match self.room_id_of(peer_id) {
            None => Vec::new(),
            Some(room) => self.fan_out(room, peer_id, &message),
        }
    }

    /// Wrap the text as a data item from this peer and push it onto the
    /// data queue of every other peer of the sender's room.
    pub fn send_data_to_subscribers(&self, peer_id: u128, message: String) -> (sent: Vec<u128>)
        ensures
            spec_room_of(self.peers@, peer_id) is None ==> sent@.len() == 0,
            spec_room_of(self.peers@, peer_id) matches Some(room) ==> sent@
                == spec_subscriber_targets(self.peers@, room, peer_id),
    {
        match self.room_id_of(peer_id) {
            None => Vec::new(),
            Some(room) => self.fan_out_data(room, peer_id, &message),
        }
    }

    /// Push RTCP feedback onto the publisher-feedback queue of the peer;
    /// best effort, and nothing is sent for an unknown peer.
    pub fn send_to_publisher(&self, pc_id: u128, message: MessageToPublisher) -> (r: bool)
        ensures
            !spec_has_peer(self.peers@, pc_id) ==> r == false,
            r == true ==> spec_has_peer(self.peers@, pc_id),
    {
        let n = self.peers.len();
        let mut i: usize = 0;
        let mut idx: usize = n;
        while i < n && idx == n
            invariant
                n == self.peers@.len(),
                0 <= i <= n,
                idx == n || (idx < n && self.peers@[idx as int].peer_id == pc_id),
                idx == n ==> forall|j: int| 0 <= j < i ==> self.peers@[j].peer_id != pc_id,
            decreases n - i + if idx == n { 1int } else { 0int },
        {
            if self.peers[i].peer_id == pc_id {
                idx = i;
            } else {
                i = i + 1;
            }
        }
        if idx < n {
            proof {
                lemma_peer_index(self.peers@, pc_id);
                if peer_index(self.peers@, pc_id) > idx {
                    assert(self.peers@[idx as int].peer_id != pc_id);
                }
                assert(spec_has_peer(self.peers@, pc_id));
            }
            channel_send(&self.peers[idx].to_publisher, message)
        } else {
            proof {
                lemma_peer_absent(self.peers@, pc_id);
            }
            false
        }
    }

    /// For every other peer of the asker's room, list the published
    /// tracks: the flat list of (publisher, track) pairs, and the set of
    /// their track ids.
    pub fn publisher_tracks_info(&self, peer_id: u128) -> (r: (Vec<String>, Vec<(u128, TrackInfo)>))
        ensures
            pairs_view(r.1@) == spec_publisher_tracks(self.tracks@, self.peers@, peer_id),
            r.0@.len() == r.1@.len(),
            forall|k: int| 0 <= k < r.0@.len() ==> (#[trigger] r.0@[k])@ == r.1@[k].1@.id,
    {
        let my_room = self.room_id_of(peer_id);
        let mut ids: Vec<String> = Vec::new();
        let mut pairs: Vec<(u128, TrackInfo)> = Vec::new();
        let m = self.tracks.len();
        let mut h: usize = 0;
        while h < m
            invariant
                m == self.tracks@.len(),
                0 <= h <= m,
                my_room == spec_room_of(self.peers@, peer_id),
                pairs_view(pairs@) =~~= spec_publisher_tracks(
                    self.tracks@.take(h as int),
                    self.peers@,
                    peer_id,
                ),
                ids@.len() == pairs@.len(),
                forall|k: int| 0 <= k < ids@.len() ==> (#[trigger] ids@[k])@ == pairs@[k].1@.id,
            decreases m - h,
        {
            let entry_peer = self.tracks[h].peer_id;
            let mut in_room = false;
            if entry_peer != peer_id {
                if let Some(mr) = my_room {
                    match self.room_id_of(entry_peer) {
                        Some(pr) => {
                            if pr == mr {
                                in_room = true;
                            }
                        },
                        None => {},
                    }
                }
            }
            let ghost added_part = tagged_tracks(entry_peer, self.tracks@[h as int].tracks@);
            let ghost pairs0 = pairs@;
            proof {
                lemma_publisher_tracks_push(
                    self.tracks@.take(h as int),
                    self.tracks@[h as int],
                    self.peers@,
                    peer_id,
                );
                assert(self.tracks@.take(h as int + 1) =~= self.tracks@.take(h as int).push(
                    self.tracks@[h as int],
                ));
                if in_room {
                    assert(spec_publisher_tracks(
                        self.tracks@.take(h as int + 1),
                        self.peers@,
                        peer_id,
                    ) =~~= spec_publisher_tracks(self.tracks@.take(h as int), self.peers@, peer_id)
                        + added_part);
                } else {
                    assert(spec_publisher_tracks(
                        self.tracks@.take(h as int + 1),
                        self.peers@,
                        peer_id,
                    ) =~~= spec_publisher_tracks(
                        self.tracks@.take(h as int),
                        self.peers@,
                        peer_id,
                    ));
                }
            }
            if in_room {
                let tn = self.tracks[h].tracks.len();
                let mut k: usize = 0;
                while k < tn
                    invariant
                        0 <= k <= tn,
                        h < self.tracks@.len(),
                        tn == self.tracks@[h as int].tracks@.len(),
                        entry_peer == self.tracks@[h as int].peer_id,
                        added_part == tagged_tracks(entry_peer, self.tracks@[h as int].tracks@),
                        pairs_view(pairs@) =~~= pairs_view(pairs0) + added_part.take(k as int),
                        ids@.len() == pairs@.len(),
                        forall|j: int| 0 <= j < ids@.len() ==> (#[trigger] ids@[j])@ == pairs@[j].1@.id,
                    decreases tn - k,
                {
                    let t = self.tracks[h].tracks[k].duplicate();
                    let ghost pairs_before = pairs@;
                    ids.push(t.id.clone());
                    pairs.push((entry_peer, t));
                    proof {
                        assert(t@ == self.tracks@[h as int].tracks@[k as int]@);
                        assert(added_part[k as int] == (
                            entry_peer,
                            self.tracks@[h as int].tracks@[k as int]@,
                        ));
                        assert(pairs@ == pairs_before.push((entry_peer, t)));
                        assert(added_part.take(k as int + 1) =~~= added_part.take(k as int).push(
                            added_part[k as int],
                        ));
                        lemma_pairs_view(pairs@);
                        lemma_pairs_view(pairs_before);
                        lemma_pairs_view(pairs0);
                        lemma_tagged_tracks(entry_peer, self.tracks@[h as int].tracks@);
                        assert(pairs_view(pairs@) =~~= pairs_view(pairs0) + added_part.take(
                            k as int + 1,
                        ));
                    }
                    k = k + 1;
                }
                proof {
                    assert(added_part.take(tn as int) =~~= added_part);
                    assert(pairs_view(pairs@) =~~= spec_publisher_tracks(
                        self.tracks@.take(h as int + 1),
                        self.peers@,
                        peer_id,
                    ));
                }
            } else {
                proof {
                    assert(pairs_view(pairs@) =~~= spec_publisher_tracks(
                        self.tracks@.take(h as int + 1),
                        self.peers@,
                        peer_id,
                    ));
                }
            }
            h = h + 1;
        }
        proof {
            assert(self.tracks@.take(m as int) =~= self.tracks@);
        }
        (ids, pairs)
    }

    /// Record a freshly received forwardable track; when it completes the
    /// publisher's audio-and-video pair, prompt every co-room peer to
    /// re-evaluate its subscriptions, and say which peers were prompted.
    pub fn register_track(&mut self, peer_id: u128, track: TrackInfo) -> (r: Option<Vec<u128>>)
        requires
            old(self).wf(),
            spec_has_peer(old(self).peers@, peer_id),
            has_track_prefix(track@.id),
            match spec_tracks_of(old(self).tracks@, peer_id) {
                Option::None => true,
                Option::Some(l) => l.len() < 2 && (forall|i: int|
                    0 <= i < l.len() ==> (#[trigger] l[i]).kind != track@.kind),
            },
        ensures
            final(self).wf(),
            final(self).peers == old(self).peers,
            spec_tracks_of(final(self).tracks@, peer_id) == match spec_tracks_of(
                old(self).tracks@,
                peer_id,
            ) {
                Option::None => Some(seq![track@]),
                Option::Some(l) => Some(l.push(track@)),
            },
            forall|q: u128|
                q != peer_id ==> #[trigger] spec_tracks_of(final(self).tracks@, q)
                    == spec_tracks_of(old(self).tracks@, q),
            r is Some <==> (spec_tracks_of(final(self).tracks@, peer_id) matches Some(l) && l.len()
                == 2),
            r matches Some(sent) ==> (spec_room_of(old(self).peers@, peer_id) matches Some(room)
                && sent@ == spec_subscriber_targets(old(self).peers@, room, peer_id)),
    {
        self.add_track(peer_id, track);
        if self.has_both_audio_and_video(peer_id) {
            let msg = SubscriberMessage {
                msg_type: SubscriberMessageType::Start,
                message: String::new(),
            };
            Some(self.send_to_subscribers(peer_id, msg))
        } else {
            None
        }
    }

    /// A peer's connection is gone: drop the peer from the registry and
    /// prompt every remaining peer of its room, with an empty Start, to
    /// re-evaluate its subscriptions.
    pub fn handle_disconnect(&mut self, peer_id: u128) -> (sent: Vec<u128>)
        requires
            old(self).wf(),
        ensures
            final(self).wf(),
            !spec_has_peer(final(self).peers@, peer_id),
            spec_tracks_of(final(self).tracks@, peer_id) is None,
            forall|q: u128|
                q != peer_id ==> #[trigger] spec_room_of(final(self).peers@, q) == spec_room_of(
                    old(self).peers@,
                    q,
                ) && spec_name_of(final(self).peers@, q) == spec_name_of(old(self).peers@, q)
                    && spec_has_peer(final(self).peers@, q) == spec_has_peer(old(self).peers@, q),
            forall|q: u128|
                q != peer_id ==> #[trigger] spec_tracks_of(final(self).tracks@, q)
                    == spec_tracks_of(old(self).tracks@, q),
            spec_room_of(old(self).peers@, peer_id) is None ==> sent@.len() == 0,
            spec_room_of(old(self).peers@, peer_id) matches Some(room) ==> sent@
                == spec_subscriber_targets(final(self).peers@, room, peer_id),
    {
        let room = self.room_id_of(peer_id);
        self.remove_peer(peer_id);
        match room {
            None => Vec::new(),
            Some(room) => {
                let msg = SubscriberMessage {
                    msg_type: SubscriberMessageType::Start,
                    message: String::new(),
                };
                self.fan_out(room, peer_id, &msg)
            },
        }
    }
}

} // verus!

