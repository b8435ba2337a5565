use vstd::prelude::*;

verus! {

/// Every way a signing or estimation request can fail.
#[derive(Clone, Copy, Debug, PartialEq, Eq, Structural)]
pub enum SigningError {
    /// No quote is stored for the requested token (caller error).
    UnknownToken,
    /// The stored quote's price is not an unsigned decimal integer.
    MalformedQuote,
    /// An intermediate product of the conversion does not fit in 128 bits.
    ArithmeticOverflow,
    /// The nonce counter has reached its maximum value.
    NonceOverflow,
    /// The durable store did not record the new nonce; the request may be retried.
    DurableStoreUnavailable,
    /// The signing key could not be decoded or is not a valid key pair.
    KeyUnavailable,
}

impl SigningError {
    /// Whether the error is attributable to the caller (a 4xx status).
    pub fn is_caller_error(&self) -> (r: bool)
        ensures
            r == (*self == SigningError::UnknownToken),
    {
        match self {
            SigningError::UnknownToken => true,
            _ => false,
        }
    }

    /// Whether retrying the whole request may succeed.
    pub fn is_retryable(&self) -> (r: bool)
        ensures
            r == (*self == SigningError::DurableStoreUnavailable),
    {
        match self {
            SigningError::DurableStoreUnavailable => true,
            _ => false,
        }
    }
}

} // verus!
