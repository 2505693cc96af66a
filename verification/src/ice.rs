//! ICE server configuration: a STUN entry always, a TURN entry with
//! time-limited coturn credentials when a TURN server is configured.

use crate::bridge::{b64_chars, b64_encode, hmac_sha1, hmac_sha1_bytes, unix_now_secs};
use crate::digits::{
    lemma_dec_val_spec_dec_nat, lemma_spec_dec_nat_digits, is_dec_digit, spec_dec_nat,
    spec_parse_u64, u64_to_dec,
};
use crate::token::{find_char, lemma_find_char, splits_in_two};
use vstd::prelude::*;
use vstd::string::StrSliceExecFns;
use vstd::string::StringExecFns;
use vstd::utf8::encode_utf8;

verus! {

/// The TURN credential lifetime used when none is configured, in hours.
pub const TURN_AUTH_EXPIRATION_HOURS_DEFAULT: u64 = 3;

/// The configured TURN credential lifetime in hours: the parsed value,
/// or the default when unset or unparsable.
pub fn expiration_hours_of(v: Option<String>) -> (r: u64)
    ensures
        v is None ==> r == TURN_AUTH_EXPIRATION_HOURS_DEFAULT,
        v matches Some(s) ==> r == (match spec_parse_u64(s@) {
            Some(h) => h,
            None => TURN_AUTH_EXPIRATION_HOURS_DEFAULT,
        }),
{
    match v {
        None => TURN_AUTH_EXPIRATION_HOURS_DEFAULT,
        Some(s) => match crate::digits::parse_u64(s.as_str()) {
            Some(h) => h,
            None => TURN_AUTH_EXPIRATION_HOURS_DEFAULT,
        },
    }
}

/// How an ICE server entry authenticates.
#[derive(Copy, Clone, PartialEq, Eq, Structural, Debug)]
pub enum IceCredentialType {
    Unspecified,
    Password,
    Oauth,
}

/// One ICE server entry as handed to the WebRTC stack.
pub struct IceServerConfig {
    pub urls: Vec<String>,
    pub username: String,
    pub credential: String,
    pub credential_type: IceCredentialType,
}

/// One ICE server entry in the shape a browser expects: empty strings
/// become absent fields and the credential type becomes a keyword.
pub struct ClientRTCIceServer {
    pub urls: Vec<String>,
    pub username: Option<String>,
    pub credential: Option<String>,
    pub credential_type: String,
}

/// The coturn username: the expiry timestamp in decimal, a colon, the name.
pub open spec fn spec_turn_username(expiry: nat, name: Seq<char>) -> Seq<char> {
    spec_dec_nat(expiry) + seq![':'] + name
}

/// The coturn credential: base64 of the HMAC-SHA1 code of the username
/// under the shared secret.
pub open spec fn spec_turn_credential(secret: Seq<char>, username: Seq<char>) -> Seq<char> {
    b64_chars(hmac_sha1_bytes(encode_utf8(secret), encode_utf8(username)))
}

/// Derive a coturn credential pair for a given current time.
///
/// The username is `<current + expires_after> ":" <name>`; the credential
/// is the base64 HMAC-SHA1 code of the username under the shared secret.
pub fn _generate_coturn_credential(secret: &str, name: &str, current_secs: u64, expires_secs: u64)
    -> (r: (String, String))
    requires
        current_secs + expires_secs <= u64::MAX,
    ensures
        r.0@ == spec_turn_username((current_secs + expires_secs) as nat, name@),
        r.0@.len() >= 2,
        r.1@ == spec_turn_credential(secret@, r.0@),
        r.1@.len() == 28,
{
    let timestamp = current_secs + expires_secs;
    let mut username = u64_to_dec(timestamp);
    username.append(":");
    username.append(name);
    proof {
        reveal_strlit(":");
        assert(username@ =~= spec_turn_username(timestamp as nat, name@));
        lemma_spec_dec_nat_digits(timestamp as nat);
    }
    let code = hmac_sha1(secret.as_bytes(), username.as_str().as_bytes());
    let credential = b64_encode(code.as_slice());
    (username, credential)
}

/// Derive a coturn credential pair expiring `expires_secs` from now.  The
/// expiry saturates at the largest representable timestamp.
pub fn generate_coturn_credential(secret: &str, name: &str, expires_secs: u64) -> (r: (
    String,
    String,
))
    ensures
        exists|e: u64|
            r.0@ == #[trigger] spec_turn_username(e as nat, name@) && r.0@.len() >= 2 && r.1@
                == spec_turn_credential(secret@, r.0@) && r.1@.len() == 28,
{
    let now = unix_now_secs();
    let base = if now <= u64::MAX - expires_secs {
        now
    } else {
        u64::MAX - expires_secs
    };
    let r = _generate_coturn_credential(secret, name, base, expires_secs);
    proof {
        let e = (base + expires_secs) as u64;
        assert(r.0@ == spec_turn_username(e as nat, name@) && r.0@.len() >= 2 && r.1@
            == spec_turn_credential(secret@, r.0@) && r.1@.len() == 28);
    }
    r
}

/// Build the ICE server list: a STUN entry always; a TURN entry with
/// derived credentials when both the TURN url and the shared secret are
/// configured.  `expires_hours` saturates on overflow when turned into
/// seconds.
pub fn create_ice_server_config(
    name: &str,
    stun_url: &str,
    turn_url: Option<String>,
    turn_auth: Option<String>,
    expires_hours: u64,
) -> (r: Vec<IceServerConfig>)
    ensures
        r@.len() == if turn_url is Some && turn_auth is Some {
            2int
        } else {
            1int
        },
        r@[0].urls@.len() == 1 && r@[0].urls@[0]@ == "stun:"@ + stun_url@,
        r@[0].username@ == Seq::<char>::empty(),
        r@[0].credential@ == Seq::<char>::empty(),
        r@[0].credential_type == IceCredentialType::Unspecified,
        (turn_url is Some && turn_auth is Some) ==> ({
            &&& r@[1].urls@.len() == 1
            &&& r@[1].urls@[0]@ == "turn:"@ + turn_url.unwrap()@
            &&& exists|e: u64|
                r@[1].username@ == #[trigger] spec_turn_username(e as nat, name@)
            &&& r@[1].credential@ == spec_turn_credential(turn_auth.unwrap()@, r@[1].username@)
            &&& r@[1].username@.len() >= 2
            &&& r@[1].credential@.len() == 28
            &&& r@[1].credential_type == IceCredentialType::Password
        }),
{
    let mut ret: Vec<IceServerConfig> = Vec::new();
    let mut stun_urls: Vec<String> = Vec::new();
    stun_urls.push(String::from_str("stun:").concat(stun_url));
    ret.push(
        IceServerConfig {
            urls: stun_urls,
            username: String::new(),
            credential: String::new(),
            credential_type: IceCredentialType::Unspecified,
        },
    );
    if turn_url.is_some() && turn_auth.is_some() {
        let turl = turn_url.unwrap();
        let tauth = turn_auth.unwrap();
        let secs = if expires_hours <= u64::MAX / 3600 {
            expires_hours * 3600
        } else {
            u64::MAX
        };
        let (username, credential) = generate_coturn_credential(tauth.as_str(), name, secs);
        let mut turn_urls: Vec<String> = Vec::new();
        turn_urls.push(String::from_str("turn:").concat(turl.as_str()));
        ret.push(
            IceServerConfig {
                urls: turn_urls,
                username,
                credential,
                credential_type: IceCredentialType::Password,
            },
        );
    }
    ret
}

/// Reshape one ICE server entry for a browser: empty credentials become
/// absent, and the credential type is the keyword "oauth" or "password".
pub fn browser_ice_server(s: IceServerConfig) -> (r: ClientRTCIceServer)
    ensures
        r.urls == s.urls,
        s.username@.len() == 0 ==> r.username is None,
        s.username@.len() > 0 ==> (r.username matches Some(u) && u@ == s.username@),
        s.credential@.len() == 0 ==> r.credential is None,
        s.credential@.len() > 0 ==> (r.credential matches Some(c) && c@ == s.credential@),
        s.credential_type == IceCredentialType::Oauth ==> r.credential_type@ == "oauth"@,
        s.credential_type != IceCredentialType::Oauth ==> r.credential_type@ == "password"@,
{
    let IceServerConfig { urls, username, credential, credential_type } = s;
    let username_opt = if username.as_str().unicode_len() == 0 {
        None
    } else {
        Some(username)
    };
    let credential_opt = if credential.as_str().unicode_len() == 0 {
        None
    } else {
        Some(credential)
    };
    let credential_type_str = if credential_type == IceCredentialType::Oauth {
        String::from_str("oauth")
    } else {
        String::from_str("password")
    };
    ClientRTCIceServer {
        urls,
        username: username_opt,
        credential: credential_opt,
        credential_type: credential_type_str,
    }
}

/// Build the ICE server list in the browser shape.
pub fn create_ice_server_config_for_browser(
    name: &str,
    stun_url: &str,
    turn_url: Option<String>,
    turn_auth: Option<String>,
    expires_hours: u64,
) -> (r: Vec<ClientRTCIceServer>)
    ensures
        r@.len() == if turn_url is Some && turn_auth is Some {
            2int
        } else {
            1int
        },
        r@[0].urls@.len() == 1 && r@[0].urls@[0]@ == "stun:"@ + stun_url@,
        r@[0].username is None,
        r@[0].credential is None,
        r@[0].credential_type@ == "password"@,
        (turn_url is Some && turn_auth is Some) ==> ({
            &&& r@[1].urls@.len() == 1
            &&& r@[1].urls@[0]@ == "turn:"@ + turn_url.unwrap()@
            &&& r@[1].username matches Some(u) && exists|e: u64|
                u@ == #[trigger] spec_turn_username(e as nat, name@)
            &&& r@[1].credential matches Some(c) && r@[1].username matches Some(u) && c@
                == spec_turn_credential(turn_auth.unwrap()@, u@)
            &&& r@[1].credential_type@ == "password"@
        }),
{
    let ghost has_turn = turn_url is Some && turn_auth is Some;
    let mut cfg = create_ice_server_config(name, stun_url, turn_url, turn_auth, expires_hours);
    let mut ret: Vec<ClientRTCIceServer> = Vec::new();
    if cfg.len() == 2 {
        let e1 = cfg.pop().unwrap();
        let e0 = cfg.pop().unwrap();
        ret.push(browser_ice_server(e0));
        ret.push(browser_ice_server(e1));
    } else {
        let e0 = cfg.pop().unwrap();
        ret.push(browser_ice_server(e0));
    }
    ret
}

/// Law: the TURN username parses back to `<expiry> ":" <name>`, and the
/// credential is by construction the base64 HMAC-SHA1 code of the
/// username under the shared secret.
pub proof fn lemma_turn_credential_format(e: u64, name: Seq<char>, secret: Seq<char>)
    requires
        !name.contains(':'),
    ensures
        ({
            let u = spec_turn_username(e as nat, name);
            &&& splits_in_two(u)
            &&& spec_parse_u64(u.take(find_char(u, ':'))) == Some(e)
            &&& u.skip(find_char(u, ':') + 1) == name
            &&& spec_turn_credential(secret, u) == b64_chars(
                hmac_sha1_bytes(encode_utf8(secret), encode_utf8(u)),
            )
        }),
{
    let u = spec_turn_username(e as nat, name);
    let d = spec_dec_nat(e as nat);
    lemma_spec_dec_nat_digits(e as nat);
    assert(forall|j: int| 0 <= j < d.len() ==> u[j] == d[j]);
    assert(u[d.len() as int] == ':');
    assert(forall|j: int| 0 <= j < name.len() ==> u[d.len() + 1 + j] == name[j]);
    assert(forall|j: int| 0 <= j < d.len() ==> u[j] != ':') by {
        assert forall|j: int| 0 <= j < d.len() implies u[j] != ':' by {
            assert(is_dec_digit(d[j]));
        }
    }
    lemma_find_char(u, ':');
    assert(find_char(u, ':') == d.len()) by {
        if find_char(u, ':') < d.len() {
            assert(u[find_char(u, ':')] == ':');
        }
        if find_char(u, ':') > d.len() {
            assert(u[d.len() as int] != ':');
        }
    }
    assert(u.skip(d.len() as int + 1) =~= name);
    assert(u.take(d.len() as int) =~= d);
    lemma_parse_spec_dec_u64(e);
}

/// Parsing the decimal notation of an unsigned 64-bit value gives it back.
pub proof fn lemma_parse_spec_dec_u64(n: u64)
    ensures
        spec_parse_u64(spec_dec_nat(n as nat)) == Some(n),
{
    let s = spec_dec_nat(n as nat);
    lemma_spec_dec_nat_digits(n as nat);
    lemma_dec_val_spec_dec_nat(n as nat);
    assert(is_dec_digit(s[0]));
    assert(s[0] != '+');
}

} // verus!
