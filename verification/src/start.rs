//! Handling a Start message: reconcile the tracks attached to a peer's
//! connection with the current co-room publisher tracks.

use crate::manager::{has_track_prefix, TrackInfo};
use vstd::prelude::*;
use vstd::string::StrSliceExecFns;

verus! {

/// One of the ids lists exactly this id.
pub open spec fn contains_id(ids: Seq<String>, id: Seq<char>) -> bool {
    exists|i: int| 0 <= i < ids.len() && (#[trigger] ids[i])@ == id
}

/// A sender's track is stale: it bears the forwardable prefix but no
/// co-room publisher offers it any more.
pub open spec fn removable(o: Option<String>, local_ids: Seq<String>) -> bool {
    match o {
        Some(s) => has_track_prefix(s@) && !contains_id(local_ids, s@),
        None => false,
    }
}

/// The id is already attached: some sender carries it, it bears the
/// forwardable prefix, and a co-room publisher still offers it.
pub open spec fn spec_attached(
    sender_ids: Seq<Option<String>>,
    local_ids: Seq<String>,
    id: Seq<char>,
) -> bool {
    &&& exists|j: int|
        0 <= j < sender_ids.len() && ((#[trigger] sender_ids[j]) matches Some(s) && s@ == id)
    &&& has_track_prefix(id)
    &&& contains_id(local_ids, id)
}

/// The track at index `k` of the listing is to be attached.
pub open spec fn spec_should_add(
    sender_ids: Seq<Option<String>>,
    local_ids: Seq<String>,
    tracks: Seq<(u128, TrackInfo)>,
    k: int,
) -> bool {
    !spec_attached(sender_ids, local_ids, tracks[k].1@.id)
}

/// What one reconciliation decides: which senders to drop, which listed
/// tracks to attach, and whether to renegotiate.
pub struct StartPlan {
    pub remove_mask: Vec<bool>,
    pub add_mask: Vec<bool>,
    pub offer: bool,
}

/// Whether the id starts with the forwardable-track prefix.
pub fn has_prefix_track(id: &String) -> (r: bool)
    ensures
        r == has_track_prefix(id@),
{
    let lit = "sfu-track-";
    proof {
        reveal_strlit("sfu-track-");
    }
    let n = id.as_str().unicode_len();
    if n < 10 {
        return false;
    }
    let mut i: usize = 0;
    while i < 10
        invariant
            n == id@.len(),
            n >= 10,
            0 <= i <= 10,
            lit@ == "sfu-track-"@,
            lit@.len() == 10,
            forall|j: int| 0 <= j < i ==> id@[j] == lit@[j],
        decreases 10 - i,
    {
        if id.as_str().get_char(i) != lit.get_char(i) {
            proof {
                reveal_strlit("sfu-track-");
                assert(id@.take(10)[i as int] != "sfu-track-"@[i as int]);
            }
            return false;
        }
        i = i + 1;
    }
    proof {
        reveal_strlit("sfu-track-");
        assert(id@.take(10) =~= "sfu-track-"@);
    }
    true
}

/// Whether some element of `ids` is exactly this id.
pub fn contains_str(ids: &Vec<String>, id: &String) -> (r: bool)
    ensures
        r == contains_id(ids@, id@),
{
    let n = ids.len();
    let mut i: usize = 0;
    while i < n
        invariant
            n == ids@.len(),
            0 <= i <= n,
            forall|j: int| 0 <= j < i ==> (#[trigger] ids@[j])@ != id@,
        decreases n - i,
    {
        if id.eq(&ids[i]) {
            return true;
        }
        i = i + 1;
    }
    false
}

/// Whether this id is already attached to one of the senders.
pub fn is_attached(
    sender_track_ids: &Vec<Option<String>>,
    local_ids: &Vec<String>,
    id: &String,
) -> (r: bool)
    ensures
        r == spec_attached(sender_track_ids@, local_ids@, id@),
{
    let n = sender_track_ids.len();
    let mut carried = false;
    let mut i: usize = 0;
    while i < n
        invariant
            n == sender_track_ids@.len(),
            0 <= i <= n,
            carried == exists|j: int|
                0 <= j < i && ((#[trigger] sender_track_ids@[j]) matches Some(s) && s@ == id@),
        decreases n - i,
    {
        match &sender_track_ids[i] {
            Some(s) => {
                if s.eq(id) {
                    proof {
                        assert(sender_track_ids@[i as int] matches Some(s2) && s2@ == id@);
                    }
                    carried = true;
                }
            },
            None => {},
        }
        i = i + 1;
    }
    if !carried {
        return false;
    }
    has_prefix_track(id) && contains_str(local_ids, id)
}

/// Decide one Start reconciliation.
///
/// A sender is dropped when its track bears the forwardable prefix but is
/// no longer offered; a listed track is attached when no sender carries
/// it yet; an offer follows exactly when some listed track is to be
/// attached, so a reconciliation that changes no subscriptions
/// renegotiates nothing.
pub fn plan_start_reconcile(
    sender_track_ids: &Vec<Option<String>>,
    local_ids: &Vec<String>,
    local_tracks: &Vec<(u128, TrackInfo)>,
) -> (r: StartPlan)
    ensures
        r.remove_mask@.len() == sender_track_ids@.len(),
        forall|j: int|
            0 <= j < sender_track_ids@.len() ==> r.remove_mask@[j] == removable(
                #[trigger] sender_track_ids@[j],
                local_ids@,
            ),
        r.add_mask@.len() == local_tracks@.len(),
        forall|k: int|
            0 <= k < local_tracks@.len() ==> r.add_mask@[k] == spec_should_add(
                sender_track_ids@,
                local_ids@,
                local_tracks@,
                k,
            ),
        r.offer == (exists|k: int|
            0 <= k < local_tracks@.len() && #[trigger] spec_should_add(
                sender_track_ids@,
                local_ids@,
                local_tracks@,
                k,
            )),
{
    let n = sender_track_ids.len();
    let mut remove_mask: Vec<bool> = Vec::new();
    let mut j: usize = 0;
    while j < n
        invariant
            n == sender_track_ids@.len(),
            0 <= j <= n,
            remove_mask@.len() == j,
            forall|x: int|
                0 <= x < j ==> remove_mask@[x] == removable(
                    #[trigger] sender_track_ids@[x],
                    local_ids@,
                ),
        decreases n - j,
    {
        let stale = match &sender_track_ids[j] {
            Some(id) => has_prefix_track(id) && !contains_str(local_ids, id),
            None => false,
        };
        remove_mask.push(stale);
        j = j + 1;
    }
    let m = local_tracks.len();
    let mut add_mask: Vec<bool> = Vec::new();
    let mut any_fresh = false;
    let mut k: usize = 0;
    while k < m
        invariant
            m == local_tracks@.len(),
            0 <= k <= m,
            add_mask@.len() == k,
            forall|x: int|
                0 <= x < k ==> add_mask@[x] == spec_should_add(
                    sender_track_ids@,
                    local_ids@,
                    local_tracks@,
                    x,
                ),
            any_fresh == (exists|x: int|
                0 <= x < k && #[trigger] spec_should_add(
                    sender_track_ids@,
                    local_ids@,
                    local_tracks@,
                    x,
                )),
        decreases m - k,
    {
        let fresh = !is_attached(sender_track_ids, local_ids, &local_tracks[k].1.id);
        proof {
            assert(fresh == spec_should_add(
                sender_track_ids@,
                local_ids@,
                local_tracks@,
                k as int,
            ));
        }
        if fresh {
            any_fresh = true;
        }
        add_mask.push(fresh);
        k = k + 1;
    }
    StartPlan { remove_mask, add_mask, offer: any_fresh }
}

/// Law: forwarded track-id discipline.  Every sender the plan removes
/// carries an id with the forwardable prefix, and every track the plan
/// attaches bears the prefix too, provided the listing does (the
/// registry's invariant prefixes every published track).
pub proof fn lemma_track_id_discipline(
    sender_ids: Seq<Option<String>>,
    local_ids: Seq<String>,
    tracks: Seq<(u128, TrackInfo)>,
)
    requires
        forall|k: int| 0 <= k < tracks.len() ==> has_track_prefix((#[trigger] tracks[k]).1@.id),
    ensures
        forall|j: int|
            0 <= j < sender_ids.len() && removable(#[trigger] sender_ids[j], local_ids) ==> (
            sender_ids[j] matches Some(s) && has_track_prefix(s@)),
        forall|k: int|
            0 <= k < tracks.len() && spec_should_add(sender_ids, local_ids, tracks, k)
                ==> has_track_prefix((#[trigger] tracks[k]).1@.id),
{
}

/// The sender tracks kept by a reconciliation: the stale ones are gone.
pub open spec fn spec_kept_senders(
    sender_ids: Seq<Option<String>>,
    local_ids: Seq<String>,
) -> Seq<Option<String>>
    decreases sender_ids.len(),
{
    if sender_ids.len() == 0 {
        Seq::empty()
    } else {
        let rest = spec_kept_senders(sender_ids.drop_first(), local_ids);
        if removable(sender_ids[0], local_ids) {
            rest
        } else {
            seq![sender_ids[0]] + rest
        }
    }
}

/// The tracks a reconciliation attaches, as new sender entries.
pub open spec fn spec_added_senders(
    sender_ids: Seq<Option<String>>,
    local_ids: Seq<String>,
    tracks: Seq<(u128, TrackInfo)>,
) -> Seq<Option<String>>
    decreases tracks.len(),
{
    if tracks.len() == 0 {
        Seq::empty()
    } else {
        let rest = spec_added_senders(sender_ids, local_ids, tracks.drop_first());
        if spec_attached(sender_ids, local_ids, tracks[0].1@.id) {
            rest
        } else {
            seq![Some(tracks[0].1.id)] + rest
        }
    }
}

/// The sender tracks after one reconciliation has been carried out.
pub open spec fn spec_senders_after(
    sender_ids: Seq<Option<String>>,
    local_ids: Seq<String>,
    tracks: Seq<(u128, TrackInfo)>,
) -> Seq<Option<String>> {
    spec_kept_senders(sender_ids, local_ids) + spec_added_senders(sender_ids, local_ids, tracks)
}

/// No kept sender is stale, and kept senders keep their entries.
proof fn lemma_kept_senders(sender_ids: Seq<Option<String>>, local_ids: Seq<String>)
    ensures
        forall|j: int|
            0 <= j < spec_kept_senders(sender_ids, local_ids).len() ==> !removable(
                #[trigger] spec_kept_senders(sender_ids, local_ids)[j],
                local_ids,
            ),
        forall|j: int|
            0 <= j < sender_ids.len() && !removable(#[trigger] sender_ids[j], local_ids)
                ==> spec_kept_senders(sender_ids, local_ids).contains(sender_ids[j]),
    decreases sender_ids.len(),
{
    if sender_ids.len() > 0 {
        lemma_kept_senders(sender_ids.drop_first(), local_ids);
        let rest = spec_kept_senders(sender_ids.drop_first(), local_ids);
        let whole = spec_kept_senders(sender_ids, local_ids);
        assert(forall|j: int|
            0 <= j < sender_ids.drop_first().len() ==> #[trigger] sender_ids.drop_first()[j]
                == sender_ids[j + 1]);
        if removable(sender_ids[0], local_ids) {
            assert(whole == rest);
        } else {
            assert(whole == seq![sender_ids[0]] + rest);
            assert(whole[0] == sender_ids[0]);
            assert(forall|j: int| 0 <= j < rest.len() ==> #[trigger] whole[j + 1] == rest[j]);
        }
        assert forall|j: int|
            0 <= j < sender_ids.len() && !removable(#[trigger] sender_ids[j], local_ids) implies whole
            .contains(sender_ids[j]) by {
            if j == 0 {
                assert(whole[0] == sender_ids[0]);
            } else {
                assert(rest.contains(sender_ids.drop_first()[j - 1]));
                let x = choose|x: int|
                    0 <= x < rest.len() && rest[x] == sender_ids.drop_first()[j - 1];
                if removable(sender_ids[0], local_ids) {
                    assert(whole[x] == sender_ids[j]);
                } else {
                    assert(whole[x + 1] == sender_ids[j]);
                }
            }
        }
    }
}

/// Every added entry is a fresh listed track, and every listed track is
/// attached afterwards: its entry sits among the kept or added senders.
proof fn lemma_added_senders(
    sender_ids: Seq<Option<String>>,
    local_ids: Seq<String>,
    tracks: Seq<(u128, TrackInfo)>,
)
    requires
        forall|k: int|
            0 <= k < tracks.len() ==> contains_id(local_ids, (#[trigger] tracks[k]).1@.id)
                && has_track_prefix(tracks[k].1@.id),
    ensures
        forall|j: int|
            0 <= j < spec_added_senders(sender_ids, local_ids, tracks).len() ==> !removable(
                #[trigger] spec_added_senders(sender_ids, local_ids, tracks)[j],
                local_ids,
            ),
        forall|k: int|
            0 <= k < tracks.len() && !spec_attached(sender_ids, local_ids, (
            #[trigger] tracks[k]).1@.id) ==> spec_added_senders(
                sender_ids,
                local_ids,
                tracks,
            ).contains(Some(tracks[k].1.id)),
    decreases tracks.len(),
{
    if tracks.len() > 0 {
        assert(forall|k: int|
            0 <= k < tracks.drop_first().len() ==> #[trigger] tracks.drop_first()[k]
                == tracks[k + 1]);
        lemma_added_senders(sender_ids, local_ids, tracks.drop_first());
        let rest = spec_added_senders(sender_ids, local_ids, tracks.drop_first());
        let whole = spec_added_senders(sender_ids, local_ids, tracks);
        if !spec_attached(sender_ids, local_ids, tracks[0].1@.id) {
            assert(whole == seq![Some(tracks[0].1.id)] + rest);
            assert(whole[0] == Some(tracks[0].1.id));
            assert(forall|j: int| 0 <= j < rest.len() ==> #[trigger] whole[j + 1] == rest[j]);
        } else {
            assert(whole == rest);
        }
        assert forall|k: int|
            0 <= k < tracks.len() && !spec_attached(sender_ids, local_ids, (
            #[trigger] tracks[k]).1@.id) implies whole.contains(Some(tracks[k].1.id)) by {
            if k == 0 {
                assert(whole[0] == Some(tracks[0].1.id));
            } else {
                assert(rest.contains(Some(tracks.drop_first()[k - 1].1.id)));
                let x = choose|x: int|
                    0 <= x < rest.len() && rest[x] == Some(tracks.drop_first()[k - 1].1.id);
                if spec_attached(sender_ids, local_ids, tracks[0].1@.id) {
                    assert(whole[x] == Some(tracks[k].1.id));
                } else {
                    assert(whole[x + 1] == Some(tracks[k].1.id));
                }
            }
        }
    }
}

/// Law: Start is idempotent.  Once a reconciliation has been carried out
/// and the publisher listing is unchanged, a second reconciliation
/// attaches nothing, removes nothing, and has nothing left to offer.
pub proof fn lemma_start_idempotent(
    sender_ids: Seq<Option<String>>,
    local_ids: Seq<String>,
    tracks: Seq<(u128, TrackInfo)>,
)
    requires
        forall|k: int|
            0 <= k < tracks.len() ==> contains_id(local_ids, (#[trigger] tracks[k]).1@.id)
                && has_track_prefix(tracks[k].1@.id),
    ensures
        ({
            let after = spec_senders_after(sender_ids, local_ids, tracks);
            &&& forall|k: int|
                0 <= k < tracks.len() ==> !spec_should_add(after, local_ids, tracks, k)
            &&& forall|j: int| 0 <= j < after.len() ==> !removable(#[trigger] after[j], local_ids)
            &&& !(exists|k: int|
                0 <= k < tracks.len() && #[trigger] spec_should_add(after, local_ids, tracks, k))
        }),
{
    let kept = spec_kept_senders(sender_ids, local_ids);
    let added = spec_added_senders(sender_ids, local_ids, tracks);
    let after = spec_senders_after(sender_ids, local_ids, tracks);
    lemma_kept_senders(sender_ids, local_ids);
    lemma_added_senders(sender_ids, local_ids, tracks);
    assert(forall|j: int| 0 <= j < kept.len() ==> #[trigger] after[j] == kept[j]);
    assert(forall|j: int|
        0 <= j < added.len() ==> #[trigger] after[j + kept.len()] == added[j]);
    assert forall|k: int| 0 <= k < tracks.len() implies !spec_should_add(
        after,
        local_ids,
        tracks,
        k,
    ) by {
        let id = tracks[k].1@.id;
        if spec_attached(sender_ids, local_ids, id) {
            let j = choose|j: int|
                0 <= j < sender_ids.len() && ((#[trigger] sender_ids[j]) matches Some(s) && s@
                    == id);
            assert(!removable(sender_ids[j], local_ids));
            assert(kept.contains(sender_ids[j]));
            let x = choose|x: int| 0 <= x < kept.len() && kept[x] == sender_ids[j];
            assert(after[x] == sender_ids[j]);
            assert(spec_attached(after, local_ids, id));
        } else {
            assert(added.contains(Some(tracks[k].1.id)));
            let x = choose|x: int| 0 <= x < added.len() && added[x] == Some(tracks[k].1.id);
            assert(after[x + kept.len()] == Some(tracks[k].1.id));
            assert(spec_attached(after, local_ids, id));
        }
    }
    assert forall|j: int| 0 <= j < after.len() implies !removable(
        #[trigger] after[j],
        local_ids,
    ) by {
        if j < kept.len() {
            assert(after[j] == kept[j]);
        } else {
            assert(after[j] == added[j - kept.len()]);
        }
    }
}

} // verus!
