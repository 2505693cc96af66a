//! Error taxonomy of the forwarding core.

use vstd::prelude::*;
use vstd::string::StringExecFns;

verus! {

/// Everything that can go wrong inside the core.  Variants that stood for
/// failures of outside collaborators carry a short description instead of
/// the collaborator's own error value.
#[derive(Debug)]
pub enum ApplicationError {
    Message(String),
    Any,
    Json(String),
    Web(String),
    WebRTC(String),
    WsSend(String),
    DBPool(String),
    DB(String),
    Base64(String),
    Decode(String),
}

/// A JSON-shaped error body: a status code and a message.
#[derive(Debug)]
pub struct ErrorMessage {
    pub code: u16,
    pub message: String,
}

/// The body of an authorization failure: 401, "Invalid token".
pub fn invalid_token_message() -> (r: ErrorMessage)
    ensures
        r.code == 401,
        r.message@ == "Invalid token"@,
{
    ErrorMessage { code: 401, message: String::from_str("Invalid token") }
}

/// The body of a malformed peer id: 400, "Invalid id format".
pub fn invalid_id_message() -> (r: ErrorMessage)
    ensures
        r.code == 400,
        r.message@ == "Invalid id format"@,
{
    ErrorMessage { code: 400, message: String::from_str("Invalid id format") }
}

} // verus!
