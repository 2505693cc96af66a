//! The member token: `base64url(memberId ":" secret)`.

use crate::bridge::{b64url_chars, b64url_decode, b64url_encode, string_from_utf8};
use crate::digits::{
    all_dec_digits, dec_val, is_dec_digit, lemma_dec_val_spec_dec_nat, lemma_spec_dec_nat_digits,
    parse_i64, spec_dec_int, spec_dec_nat, spec_parse_i64,
};
use crate::errors::ApplicationError;
use vstd::prelude::*;
use vstd::string::StrSliceExecFns;
use vstd::string::StringExecFns;
use vstd::utf8::{decode_utf8, encode_utf8, encode_utf8_decode_utf8, encode_utf8_valid_utf8, valid_utf8};

verus! {

/// A decoded member token: the member id and the member's secret.
#[derive(Debug)]
pub struct MemberToken {
    pub member_id: i64,
    pub secret_token: String,
}

/// Index of the first occurrence of `c` in `s`, or `s.len()` if absent.
pub open spec fn find_char(s: Seq<char>, c: char) -> int
    decreases s.len(),
{
    if s.len() == 0 {
        0
    } else if s[0] == c {
        0
    } else {
        1 + find_char(s.drop_first(), c)
    }
}

/// What `find_char` finds: the first occurrence.
pub proof fn lemma_find_char(s: Seq<char>, c: char)
    ensures
        0 <= find_char(s, c) <= s.len(),
        find_char(s, c) < s.len() ==> s[find_char(s, c)] == c,
        forall|j: int| 0 <= j < find_char(s, c) ==> s[j] != c,
    decreases s.len(),
{
    if s.len() > 0 && s[0] != c {
        lemma_find_char(s.drop_first(), c);
        assert(forall|j: int|
            1 <= j < find_char(s, c) ==> s[j] == s.drop_first()[j - 1] && s[j] != c);
    }
}

/// The text splits into exactly two fields on ':'.
pub open spec fn splits_in_two(t: Seq<char>) -> bool {
    find_char(t, ':') < t.len() && !t.skip(find_char(t, ':') + 1).contains(':')
}

/// The plain text behind a member token: the id in decimal, a colon, the
/// secret.
pub open spec fn spec_member_token_text(id: int, secret: Seq<char>) -> Seq<char> {
    spec_dec_int(id) + seq![':'] + secret
}

/// Split a decoded token text on ':' and parse the leading member id.
///
/// The text must hold exactly one ':'; the first field must parse as a
/// signed 64-bit integer; any deviation is an invalid token.
pub fn member_token_of_text(text: &str) -> (r: Result<MemberToken, ApplicationError>)
    ensures
        !splits_in_two(text@) ==> (r matches Err(e) && e matches ApplicationError::Message(m)
            && m@ == "Invalid member token format."@),
        (splits_in_two(text@) && spec_parse_i64(text@.take(find_char(text@, ':'))) is None) ==> (
        r matches Err(e) && e matches ApplicationError::Message(m)
            && m@ == "Invalid member token id."@),
        (splits_in_two(text@) && spec_parse_i64(text@.take(find_char(text@, ':'))) is Some) ==> (
        r matches Ok(mt) && Some(mt.member_id) == spec_parse_i64(text@.take(find_char(text@, ':')))
            && mt.secret_token@ == text@.skip(find_char(text@, ':') + 1)),
{
    let n = text.unicode_len();
    let mut ci: usize = 0;
    let mut found = false;
    while ci < n && !found
        invariant
            n == text@.len(),
            0 <= ci <= n,
            !found ==> forall|j: int| 0 <= j < ci ==> text@[j] != ':',
            found ==> ci < n && text@[ci as int] == ':' && forall|j: int|
                0 <= j < ci ==> text@[j] != ':',
        decreases n - ci + if found { 0int } else { 1int },
    {
        if text.get_char(ci) == ':' {
            found = true;
        } else {
            ci = ci + 1;
        }
    }
    proof {
        lemma_find_char(text@, ':');
    }
    if !found {
        assert(find_char(text@, ':') == n) by {
            if find_char(text@, ':') < n {
                assert(text@[find_char(text@, ':')] == ':');
            }
        }
        assert(!splits_in_two(text@));
        return Err(ApplicationError::Message(String::from_str("Invalid member token format.")));
    }
    assert(find_char(text@, ':') == ci) by {
        if find_char(text@, ':') < ci {
            assert(text@[find_char(text@, ':')] == ':');
        }
        if find_char(text@, ':') > ci {
            assert(text@[ci as int] != ':');
        }
    }
    let mut sj: usize = ci + 1;
    while sj < n
        invariant
            n == text@.len(),
            ci < sj <= n,
            find_char(text@, ':') == ci,
            forall|j: int| ci < j < sj ==> text@[j] != ':',
        decreases n - sj,
    {
        if text.get_char(sj) == ':' {
            assert(text@.skip(ci + 1)[sj - ci - 1] == ':');
            assert(text@.skip(ci + 1).contains(':'));
            assert(!splits_in_two(text@));
            return Err(ApplicationError::Message(
                String::from_str("Invalid member token format."),
            ));
        }
        sj = sj + 1;
    }
    assert(!text@.skip(ci + 1).contains(':')) by {
        if text@.skip(ci + 1).contains(':') {
            let k = choose|k: int|
                0 <= k < text@.skip(ci + 1).len() && #[trigger] text@.skip(ci + 1)[k] == ':';
            assert(text@[k + ci + 1] == ':');
        }
    }
    assert(splits_in_two(text@));
    let id_str = text.substring_char(0, ci);
    match parse_i64(id_str) {
        None => Err(ApplicationError::Message(String::from_str("Invalid member token id."))),
        Some(id) => {
            let secret = text.substring_char(ci + 1, n);
            assert(secret@ =~= text@.skip(ci + 1));
            Ok(MemberToken { member_id: id, secret_token: String::from_str(secret) })
        },
    }
}

/// Parsing the decimal notation of a signed 64-bit value gives it back.
pub proof fn lemma_parse_spec_dec_i64(v: i64)
    ensures
        spec_parse_i64(spec_dec_int(v as int)) == Some(v),
{
    let s = spec_dec_int(v as int);
    if v >= 0 {
        lemma_spec_dec_nat_digits(v as nat);
        lemma_dec_val_spec_dec_nat(v as nat);
        assert(is_dec_digit(s[0]));
        assert(s[0] != '-' && s[0] != '+');
    } else {
        lemma_spec_dec_nat_digits((-(v as int)) as nat);
        lemma_dec_val_spec_dec_nat((-(v as int)) as nat);
        assert(s[0] == '-');
        assert(s.drop_first() =~= spec_dec_nat((-(v as int)) as nat));
        assert(dec_val(s.drop_first()) == -(v as int));
    }
}

/// The token text of an id and a colon-free secret splits back into them.
pub proof fn lemma_token_text_parse(id: i64, secret: Seq<char>)
    requires
        !secret.contains(':'),
    ensures
        ({
            let t = spec_member_token_text(id as int, secret);
            let d = spec_dec_int(id as int);
            &&& find_char(t, ':') == d.len()
            &&& splits_in_two(t)
            &&& t.take(d.len() as int) == d
            &&& t.skip(d.len() as int + 1) == secret
            &&& spec_parse_i64(t.take(find_char(t, ':'))) == Some(id)
        }),
{
    let t = spec_member_token_text(id as int, secret);
    let d = spec_dec_int(id as int);
    assert(forall|j: int| 0 <= j < d.len() ==> t[j] == d[j]);
    assert(t[d.len() as int] == ':');
    assert(forall|j: int| 0 <= j < secret.len() ==> t[d.len() + 1 + j] == secret[j]);
    if id >= 0 {
        lemma_spec_dec_nat_digits(id as nat);
    } else {
        lemma_spec_dec_nat_digits((-(id as int)) as nat);
        assert(d[0] == '-');
        assert(forall|j: int| 1 <= j < d.len() ==> d[j] == spec_dec_nat((-(id as int)) as nat)[j - 1]);
    }
    assert(forall|j: int| 0 <= j < d.len() ==> d[j] != ':') by {
        assert forall|j: int| 0 <= j < d.len() implies d[j] != ':' by {
            if id >= 0 {
                assert(is_dec_digit(d[j]));
            } else {
                if j >= 1 {
                    assert(is_dec_digit(d[j]));
                }
            }
        }
    }
    lemma_find_char(t, ':');
    assert(find_char(t, ':') == d.len()) by {
        if find_char(t, ':') < d.len() {
            assert(t[find_char(t, ':')] == ':');
        }
        if find_char(t, ':') > d.len() {
            assert(t[d.len() as int] != ':');
        }
    }
    assert(t.skip(d.len() as int + 1) =~= secret);
    assert(t.take(d.len() as int) =~= d);
    lemma_parse_spec_dec_i64(id);
}

/// Encode a member token: the id in decimal, a colon, the secret, all
/// base64url-encoded as UTF-8 bytes.
pub fn encode_member_token(member_id: i64, secret_token: &str) -> (r: String)
    ensures
        r@ == b64url_chars(encode_utf8(spec_member_token_text(member_id as int, secret_token@))),
{
    let mut text = crate::digits::i64_to_dec(member_id);
    text.append(":");
    text.append(secret_token);
    proof {
        reveal_strlit(":");
        assert(text@ =~= spec_member_token_text(member_id as int, secret_token@));
    }
    b64url_encode(text.as_str().as_bytes())
}

impl MemberToken {
    /// Decode a member token: base64url-decode it to UTF-8 text, split the
    /// text on exactly one ':', and parse the first field as the member id.
    ///
    /// Any token that encodes `<id> ":" <secret>` with a colon-free secret
    /// decodes to exactly that id and secret.
    pub fn decode(token_str: &String) -> (r: Result<MemberToken, ApplicationError>)
        ensures
            forall|id: i64, secret: Seq<char>|
                (!secret.contains(':') && token_str@ == b64url_chars(
                    encode_utf8(spec_member_token_text(id as int, secret)),
                )) ==> (r matches Ok(mt) && mt.member_id == id && mt.secret_token@ == secret),
    {
        let decoded = match b64url_decode(token_str.as_str()) {
            Ok(b) => b,
            Err(_) => {
                proof {
                    assert forall|id: i64, secret: Seq<char>|
                        !secret.contains(':') && token_str@ == b64url_chars(
                            encode_utf8(spec_member_token_text(id as int, secret)),
                        ) implies false by {}
                }
                return Err(ApplicationError::Base64(String::from_str("Invalid base64 token.")));
            },
        };
        let text = match string_from_utf8(decoded) {
            Ok(t) => t,
            Err(_) => {
                proof {
                    assert forall|id: i64, secret: Seq<char>|
                        !secret.contains(':') && token_str@ == b64url_chars(
                            encode_utf8(spec_member_token_text(id as int, secret)),
                        ) implies false by {
                        encode_utf8_valid_utf8(spec_member_token_text(id as int, secret));
                    }
                }
                return Err(ApplicationError::Decode(String::from_str("Invalid UTF-8 token.")));
            },
        };
        let r = member_token_of_text(text.as_str());
        proof {
            assert forall|id: i64, secret: Seq<char>|
                !secret.contains(':') && token_str@ == b64url_chars(
                    encode_utf8(spec_member_token_text(id as int, secret)),
                ) implies (r matches Ok(mt) && mt.member_id == id && mt.secret_token@ == secret) by {
                let t = spec_member_token_text(id as int, secret);
                encode_utf8_valid_utf8(t);
                encode_utf8_decode_utf8(t);
                assert(text@ == t);
                lemma_token_text_parse(id, secret);
            }
        }
        r
    }
}

/// Law: decoding an encoded member token yields the original id and
/// secret, for every id and every secret without a colon.
pub fn member_token_round_trip(member_id: i64, secret_token: &str) -> (mt: MemberToken)
    requires
        !secret_token@.contains(':'),
    ensures
        mt.member_id == member_id,
        mt.secret_token@ == secret_token@,
{
    let tok = encode_member_token(member_id, secret_token);
    match MemberToken::decode(&tok) {
        Ok(mt) => mt,
        Err(_) => vstd::pervasive::unreached(),
    }
}

} // verus!
