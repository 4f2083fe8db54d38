use vstd::prelude::*;

verus! {

/// The ways in which a call of the engine can fail.
#[derive(Clone, Copy, Debug, PartialEq, Eq, Structural)]
pub enum OnvifError {
    /// The endpoint text is not an address with a port.
    AddressParseError,
    /// The local socket could not be bound.
    SocketBindError,
    /// Sending, receiving or setting the broadcast flag failed.
    SocketIoError,
    /// One attempt ran into its deadline; the exchange goes on.
    TimeoutExceeded,
    /// Every attempt was used and no data was ever received.
    AllAttemptsExhausted,
    /// The connection handshake failed.
    HandshakeFailure,
    /// The request URI has no authority component.
    MissingAuthority,
    /// A frame of the response body could not be read.
    FrameReadError,
    /// The bytes are not UTF-8 text.
    Utf8DecodeError,
}

} // verus!
