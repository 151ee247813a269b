//! Whether a device's hello is accepted: the protocol version it speaks,
//! then the shared token.
use vstd::prelude::*;
use crate::text::str_eq;

verus! {

/// The device protocol version this agent speaks.
pub const PROTOCOL_VERSION: u16 = 1;

/// Why a device's hello was refused.
#[derive(Debug, Clone, Copy, PartialEq, Eq)]
pub enum RejectReason {
    UnsupportedVersion,
    BadToken,
}

/// Validates a hello: an unsupported protocol version is rejected first
/// (worth reporting even to a device with a bad token), then the token is
/// checked. With no token configured every device is rejected: the check
/// fails closed.
pub fn validate_hello(protocol_version: u16, token: &str, expected_token: Option<&str>) -> (r: Result<(), RejectReason>)
    ensures
        protocol_version != PROTOCOL_VERSION ==> r == Err::<(), RejectReason>(RejectReason::UnsupportedVersion),
        protocol_version == PROTOCOL_VERSION ==> match expected_token {
            Some(expected) => if expected@ == token@ {
                r == Ok::<(), RejectReason>(())
            } else {
                r == Err::<(), RejectReason>(RejectReason::BadToken)
            },
            None => r == Err::<(), RejectReason>(RejectReason::BadToken),
        },
{
    if protocol_version != PROTOCOL_VERSION {
        return Err(RejectReason::UnsupportedVersion);
    }
    match expected_token {
        Some(expected) => if str_eq(expected, token) {
            Ok(())
        } else {
            Err(RejectReason::BadToken)
        },
        None => Err(RejectReason::BadToken),
    }
}

} // verus!
