//! Room and member provisioning: input checks, secret tokens, and the
//! error taxonomy of the provisioning endpoints.

use crate::bridge::{b64_chars, b64_encode, is_b64_std_char, random_bytes_32};
use crate::digits::{spec_dec_nat, u64_to_dec};
use vstd::prelude::*;
use vstd::string::StringExecFns;
use vstd::string::StrSliceExecFns;

verus! {

/// Longest accepted room or member name, in characters.
pub const NAME_MAX_CHAR_COUNT: usize = 30;

/// What the provisioning endpoints report when they fail.
#[derive(Debug)]
pub enum ApplicationError {
    DBPool(String),
    DB(String),
    InputCheck(String),
    Message(String),
    MessageAndStatus(String, u16),
    JWKSFetchError,
}

impl ApplicationError {
    /// The HTTP status code of the error: 400 for a failed input check, a
    /// carried status when it is a valid code, 500 otherwise.
    pub fn status_code(&self) -> (r: u16)
        ensures
            self matches ApplicationError::InputCheck(_) ==> r == 400,
            self matches ApplicationError::MessageAndStatus(_, s) ==> r == (if 100 <= *s && *s
                <= 999 {
                *s
            } else {
                500u16
            }),
            !(self matches ApplicationError::InputCheck(_)) && !(self
                matches ApplicationError::MessageAndStatus(_, _)) ==> r == 500,
    {
        match self {
            ApplicationError::InputCheck(_) => 400,
            ApplicationError::MessageAndStatus(_, s) => {
                if 100 <= *s && *s <= 999 {
                    *s
                } else {
                    500
                }
            },
            _ => 500,
        }
    }

    /// The message shown to the caller: the carried message for an input
    /// check or a message-with-status, a generic one otherwise.
    pub fn error_message(&self) -> (r: String)
        ensures
            self matches ApplicationError::InputCheck(m) ==> r@ == m@,
            self matches ApplicationError::MessageAndStatus(m, _) ==> r@ == m@,
            !(self matches ApplicationError::InputCheck(_)) && !(self
                matches ApplicationError::MessageAndStatus(_, _)) ==> r@
                == "Internal Server Error"@,
    {
        match self {
            ApplicationError::InputCheck(m) => m.clone(),
            ApplicationError::MessageAndStatus(m, _) => m.clone(),
            _ => String::from_str("Internal Server Error"),
        }
    }
}

/// What the authenticated configuration endpoint reports.
pub struct ApiInfo {
    pub domain: String,
    pub client_id: String,
    pub audience: String,
}

impl ApiInfo {
    /// Assemble the endpoint configuration from its three values.
    pub fn new(domain: String, client_id: String, audience: String) -> (r: ApiInfo)
        ensures
            r.domain == domain,
            r.client_id == client_id,
            r.audience == audience,
    {
        ApiInfo { domain, client_id, audience }
    }
}

/// Request body for creating a room.
pub struct RoomBody {
    pub room_name: String,
}

/// Request body for adding a member to a room.
pub struct MemberBody {
    pub room_id: i64,
    pub room_secret_token: String,
    pub member_name: String,
}

/// Check a name field: it must not be empty nor longer than `max`
/// characters.
pub fn check_length(name: &str, field_name: &str, max: usize) -> (r: Result<
    (),
    ApplicationError,
>)
    ensures
        name@.len() == 0 ==> (r matches Err(e) && e matches ApplicationError::InputCheck(m) && m@
            == field_name@ + " is empty."@),
        name@.len() > max ==> (r matches Err(e) && e matches ApplicationError::InputCheck(m) && m@
            == field_name@ + " must be no more than "@ + spec_dec_nat(max as nat)
            + " characters."@),
        0 < name@.len() <= max ==> r is Ok,
{
    let n = name.unicode_len();
    if n == 0 {
        let m = String::from_str(field_name).concat(" is empty.");
        return Err(ApplicationError::InputCheck(m));
    }
    if n > max {
        let mut m = String::from_str(field_name).concat(" must be no more than ");
        let max_dec = u64_to_dec(max as u64);
        m.append(max_dec.as_str());
        m.append(" characters.");
        return Err(ApplicationError::InputCheck(m));
    }
    Ok(())
}

/// A fresh secret token: 32 random bytes, base64-encoded.  The standard
/// base64 alphabet holds no ':', so the token always fits cleanly behind
/// the colon of a member token.
pub fn generate_secret_token() -> (r: String)
    ensures
        exists|bs: Seq<u8>| bs.len() == 32 && r@ == #[trigger] b64_chars(bs),
        r@.len() == 44,
        !r@.contains(':'),
{
    let bs = random_bytes_32();
    let r = b64_encode(bs.as_slice());
    proof {
        if r@.contains(':') {
            let i = choose|i: int| 0 <= i < r@.len() && #[trigger] r@[i] == ':';
            assert(is_b64_std_char(r@[i]));
        }
    }
    r
}

} // verus!
