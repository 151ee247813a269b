use nala::handshake::{validate_hello, RejectReason, PROTOCOL_VERSION};

#[test]
fn a_matching_version_and_token_is_accepted() {
    assert_eq!(validate_hello(PROTOCOL_VERSION, "secret", Some("secret")), Ok(()));
}

#[test]
fn a_hello_with_an_unsupported_protocol_version_is_rejected() {
    assert_eq!(validate_hello(PROTOCOL_VERSION + 1, "secret", Some("secret")), Err(RejectReason::UnsupportedVersion));
}

#[test]
fn a_hello_with_a_bad_token_is_rejected() {
    assert_eq!(validate_hello(PROTOCOL_VERSION, "wrong", Some("secret")), Err(RejectReason::BadToken));
}

#[test]
fn no_token_configured_rejects_every_device() {
    assert_eq!(validate_hello(PROTOCOL_VERSION, "anything", None), Err(RejectReason::BadToken));
}

#[test]
fn an_unsupported_version_is_reported_before_a_bad_token() {
    assert_eq!(validate_hello(PROTOCOL_VERSION + 1, "wrong", None), Err(RejectReason::UnsupportedVersion));
}
