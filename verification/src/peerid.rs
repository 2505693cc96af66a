//! Peer ids on the wire: the canonical hyphenated hex form of a 128-bit
//! id, the names derived from it, and the member-name lookup endpoint.

use crate::manager::{
    has_track_prefix, spec_name_of, spec_track_prefix, PeerManager, TrackInfo, TrackKind,
};
use vstd::prelude::*;
use vstd::string::StrSliceExecFns;
use vstd::string::StringExecFns;

verus! {

/// The character for one hex digit value, lower case.
pub open spec fn hex_digit_char(d: int) -> char {
    if d == 0 {
        '0'
    } else if d == 1 {
        '1'
    } else if d == 2 {
        '2'
    } else if d == 3 {
        '3'
    } else if d == 4 {
        '4'
    } else if d == 5 {
        '5'
    } else if d == 6 {
        '6'
    } else if d == 7 {
        '7'
    } else if d == 8 {
        '8'
    } else if d == 9 {
        '9'
    } else if d == 10 {
        'a'
    } else if d == 11 {
        'b'
    } else if d == 12 {
        'c'
    } else if d == 13 {
        'd'
    } else if d == 14 {
        'e'
    } else {
        'f'
    }
}

/// The lowest `count` nibbles of `x` in hex, fixed width.
pub open spec fn spec_hex(x: nat, count: nat) -> Seq<char>
    decreases count,
{
    if count == 0 {
        Seq::empty()
    } else {
        spec_hex(x / 16, (count - 1) as nat) + seq![hex_digit_char((x % 16) as int)]
    }
}

/// Fixed-width hex has exactly the asked-for width.
pub proof fn lemma_spec_hex_len(x: nat, count: nat)
    ensures
        spec_hex(x, count).len() == count,
    decreases count,
{
    if count > 0 {
        lemma_spec_hex_len(x / 16, (count - 1) as nat);
    }
}

/// The canonical hyphenated form of a 128-bit id: 32 lower-case hex
/// digits in groups of 8, 4, 4, 4 and 12.
pub open spec fn spec_uuid_chars(x: u128) -> Seq<char> {
    let h = spec_hex(x as nat, 32);
    h.take(8) + seq!['-'] + h.subrange(8, 12) + seq!['-'] + h.subrange(12, 16) + seq!['-']
        + h.subrange(16, 20) + seq!['-'] + h.skip(20)
}

/// The 32 hex digits of a 128-bit value, fixed width, lower case.
pub fn hex32(x: u128) -> (r: String)
    ensures
        r@ == spec_hex(x as nat, 32),
{
    let digits_lit = "0123456789abcdef";
    proof {
        reveal_strlit("0123456789abcdef");
    }
    assert(digits_lit.is_ascii());
    let mut out = String::new();
    let mut m: u128 = x;
    let mut c: usize = 0;
    while c < 32
        invariant
            digits_lit@ =~= "0123456789abcdef"@,
            0 <= c <= 32,
            out@.len() == c,
            spec_hex(x as nat, 32) =~= spec_hex(m as nat, (32 - c) as nat) + out@,
        decreases 32 - c,
    {
        let d = (m % 16) as usize;
        proof {
            reveal_strlit("0123456789abcdef");
        }
        let dstr = digits_lit.substring_ascii(d, d + 1);
        assert(dstr@ =~= seq![hex_digit_char(d as int)]);
        let ghost prev = out@;
        out = String::from_str(dstr).concat(out.as_str());
        let ghost m0 = m as nat;
        m = m / 16;
        c = c + 1;
        proof {
            assert(spec_hex(m0, (32 - (c - 1)) as nat) =~= spec_hex(m as nat, (32 - c) as nat)
                + seq![hex_digit_char((m0 % 16) as int)]);
            assert(out@ =~= seq![hex_digit_char((m0 % 16) as int)] + prev);
            assert(spec_hex(x as nat, 32) =~= spec_hex(m as nat, (32 - c) as nat) + out@);
        }
    }
    proof {
        assert(spec_hex(m as nat, 0) =~= Seq::<char>::empty());
        assert(spec_hex(x as nat, 32) =~= out@);
    }
    out
}

/// The canonical hyphenated form of a 128-bit id.
pub fn uuid_hyphenated(x: u128) -> (r: String)
    ensures
        r@ == spec_uuid_chars(x),
{
    let h = hex32(x);
    proof {
        lemma_spec_hex_len(x as nat, 32);
    }
    let hs = h.as_str();
    let mut out = String::from_str(hs.substring_char(0, 8));
    out.append("-");
    out.append(hs.substring_char(8, 12));
    out.append("-");
    out.append(hs.substring_char(12, 16));
    out.append("-");
    out.append(hs.substring_char(16, 20));
    out.append("-");
    out.append(hs.substring_char(20, 32));
    proof {
        reveal_strlit("-");
        assert(h@.subrange(20, 32) =~= h@.skip(20));
        assert(h@.subrange(0, 8) =~= h@.take(8));
        assert(out@ =~= spec_uuid_chars(x));
    }
    out
}

/// What one forwardable track is named: its wire id carries the media
/// kind and a fresh random id; its stream id carries the publisher.
pub open spec fn spec_kind_chars(kind: TrackKind) -> Seq<char> {
    match kind {
        TrackKind::Audio => "audio"@,
        TrackKind::Video => "video"@,
    }
}

/// Name a freshly received remote track for forwarding.  `track_rand` is
/// a fresh 128-bit random value supplied by the caller.
pub fn make_forwardable_track(kind: TrackKind, track_rand: u128, publisher: u128) -> (t: TrackInfo)
    ensures
        t@.kind == kind,
        t@.id == spec_track_prefix() + spec_kind_chars(kind) + seq!['-'] + spec_uuid_chars(
            track_rand,
        ),
        t@.stream_id == "sfu-stream-"@ + spec_uuid_chars(publisher),
        has_track_prefix(t@.id),
{
    let mut id = String::from_str("sfu-track-");
    match kind {
        TrackKind::Audio => id.append("audio"),
        TrackKind::Video => id.append("video"),
    }
    id.append("-");
    let rand_part = uuid_hyphenated(track_rand);
    id.append(rand_part.as_str());
    let mut stream_id = String::from_str("sfu-stream-");
    let pub_part = uuid_hyphenated(publisher);
    stream_id.append(pub_part.as_str());
    proof {
        reveal_strlit("-");
        assert(id@.take(spec_track_prefix().len() as int) =~= spec_track_prefix());
    }
    TrackInfo { id, kind, stream_id }
}

/// The name of a peer's bidirectional data channel.
pub fn data_channel_name(peer_id: u128) -> (r: String)
    ensures
        r@ == "sfu-data-ch-"@ + spec_uuid_chars(peer_id),
{
    let mut out = String::from_str("sfu-data-ch-");
    let id_part = uuid_hyphenated(peer_id);
    out.append(id_part.as_str());
    out
}

/// Relies on uuid's Uuid::parse_str together with Uuid::as_u128: the
/// canonical hyphenated form of an id parses back to exactly that id.
#[verifier::external_body]
fn parse_uuid_str(s: &str) -> (r: Option<u128>)
    ensures
        forall|x: u128| s@ == spec_uuid_chars(x) ==> r == Some(x),
{
    match uuid::Uuid::parse_str(s) {
        Ok(u) => Some(u.as_u128()),
        Err(_) => None,
    }
}

/// What the member-name endpoint answers once the caller is authorized.
pub enum MemberNameOutcome {
    /// The path parameter is not a well-formed peer id: a bad request.
    InvalidId,
    /// The member name behind the peer id, or "-" for an unknown peer.
    Name(String),
}

/// The member name for an already-parsed peer id: the registered name,
/// or "-" when the peer is unknown.
pub fn member_name_for(pm: &PeerManager, parsed: Option<u128>) -> (r: MemberNameOutcome)
    ensures
        parsed is None ==> r is InvalidId,
        parsed matches Some(x) ==> (r matches MemberNameOutcome::Name(n) && (
        match spec_name_of(pm.peers@, x) {
            Some(nm) => n@ == nm,
            None => n@ == "-"@,
        })),
{
    match parsed {
        None => MemberNameOutcome::InvalidId,
        Some(x) => match pm.get_name_by_peer_id(x) {
            Some(n) => MemberNameOutcome::Name(n),
            None => MemberNameOutcome::Name(String::from_str("-")),
        },
    }
}

/// The member-name endpoint, after authorization: parse the peer id and
/// look the name up.  A path parameter in canonical hyphenated form is
/// always accepted.
pub fn member_name_response(pm: &PeerManager, peer_id_str: &str) -> (r: MemberNameOutcome)
    ensures
        forall|x: u128|
            peer_id_str@ == spec_uuid_chars(x) ==> (r matches MemberNameOutcome::Name(n) && (
            match spec_name_of(pm.peers@, x) {
                Some(nm) => n@ == nm,
                None => n@ == "-"@,
            })),
{
    let parsed = parse_uuid_str(peer_id_str);
    member_name_for(pm, parsed)
}

} // verus!
