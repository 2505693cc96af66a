//! Core of a selective forwarding unit (SFU) for small conference rooms.
//!
//! The library holds the room registry and fan-out rules, the member-token
//! codec, ICE server configuration with time-limited TURN credentials, the
//! signaling decision rules, and RTCP feedback detection.  Network and
//! WebRTC I/O live outside the library and call into it with plain values.

pub mod auth;
pub mod bridge;
pub mod digits;
pub mod errors;
pub mod ice;
pub mod manager;
pub mod messages;
pub mod peerid;
pub mod rtcp;
pub mod start;
pub mod token;
