use signaller::channel::delivery_result;
use signaller::SignalError;

#[test]
fn each_failure_has_its_words() {
    assert_eq!(SignalError::MalformedIdentity.message(), "Identity is not a UUID");
    assert_eq!(SignalError::MalformedMessage.message(), "Frame is not a signalling message");
    assert_eq!(SignalError::SessionAlreadyExists.message(), "Session already exists");
    assert_eq!(SignalError::SessionNotFound.message(), "Session does not exist");
    assert_eq!(SignalError::PeerNotFound.message(), "Peer does not exist");
    assert_eq!(SignalError::TransportSendFailure.message(), "Recipient's connection is closed");
}

#[test]
fn a_queued_frame_is_a_success() {
    assert_eq!(delivery_result(true), Ok(()));
}

#[test]
fn a_frame_that_was_not_queued_is_a_transport_failure() {
    assert_eq!(delivery_result(false), Err(SignalError::TransportSendFailure));
}
