use messenger::delivery::ApiError;
use messenger::identity::IdentityError;
use messenger::local_store::CoreError;
use messenger::mls_state::CryptoError;
use messenger::protocol::Error;
use messenger::transport::TransportError;

#[test]
fn errors_describe_themselves() {
    assert_eq!(ApiError::TokenReuse.message(), "refresh token reuse detected");
    assert_eq!(ApiError::CursorRegression.message(), "cursor cannot move backwards");
    assert_eq!(CoreError::InvalidMasterKey.message(), "master key must contain exactly 32 bytes");
    assert_eq!(
        TransportError::Unavailable.message(),
        "all relay transports failed; outbox retained"
    );
    assert_eq!(IdentityError::InvalidInput.message(), "identity input is invalid");
    assert_eq!(Error::NonCanonical.name(), "NonCanonical");
    assert_eq!(
        CryptoError::OpenMls("group creation").message(),
        "OpenMLS operation failed: group creation"
    );
    assert_eq!(
        CryptoError::StateAuthentication.message(),
        "encrypted state could not be authenticated"
    );
}
