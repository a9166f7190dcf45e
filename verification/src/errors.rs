//! Error taxonomy of the vault core.

use vstd::prelude::*;

verus! {

/// Failures of the encryption layer.
#[derive(Debug, Clone, Copy, PartialEq, Eq, Structural)]
pub enum CryptoError {
    /// The plaintext handed to encryption was empty.
    EmptyInput,
    /// The authentication tag did not verify: wrong key, corruption or tampering.
    Authentication,
    /// Malformed base64, a nonce of the wrong length, or non-UTF-8 plaintext bytes.
    Encoding,
    /// The cipher itself refused the operation (inputs beyond its limits).
    Cipher,
}

impl CryptoError {
    /// A short human-readable description.
    pub fn message(&self) -> (r: String)
        ensures
            self is EmptyInput ==> r@ == "cannot encrypt empty string"@,
            self is Authentication ==> r@ == "decryption failed: authentication error"@,
            self is Encoding ==> r@ == "decryption failed: encoding error"@,
            self is Cipher ==> r@ == "encryption error"@,
    {
        match self {
            CryptoError::EmptyInput => "cannot encrypt empty string".to_owned(),
            CryptoError::Authentication => "decryption failed: authentication error".to_owned(),
            CryptoError::Encoding => "decryption failed: encoding error".to_owned(),
            CryptoError::Cipher => "encryption error".to_owned(),
        }
    }
}

/// Failures of state-token validation.
#[derive(Debug, Clone, Copy, PartialEq, Eq, Structural)]
pub enum ValidationError {
    /// The token does not split into payload and signature.
    Format,
    /// The payload does not split into timestamp and nonce.
    PayloadFormat,
    /// The timestamp is not a decimal integer.
    Timestamp,
    /// The token is older (or newer) than the validity window.
    Expired,
    /// The signature part is not valid base64.
    HmacEncoding,
    /// The recomputed signature does not match the supplied one.
    SignatureMismatch,
}

impl ValidationError {
    /// A short human-readable description.
    pub fn message(&self) -> (r: String)
        ensures
            self is Format ==> r@ == "invalid state format"@,
            self is PayloadFormat ==> r@ == "invalid state payload format"@,
            self is Timestamp ==> r@ == "invalid timestamp"@,
            self is Expired ==> r@ == "state expired"@,
            self is HmacEncoding ==> r@ == "invalid HMAC encoding"@,
            self is SignatureMismatch ==> r@ == "HMAC verification failed - possible tampering"@,
    {
        match self {
            ValidationError::Format => "invalid state format".to_owned(),
            ValidationError::PayloadFormat => "invalid state payload format".to_owned(),
            ValidationError::Timestamp => "invalid timestamp".to_owned(),
            ValidationError::Expired => "state expired".to_owned(),
            ValidationError::HmacEncoding => "invalid HMAC encoding".to_owned(),
            ValidationError::SignatureMismatch => "HMAC verification failed - possible tampering".to_owned(),
        }
    }
}

/// Failures of the OAuth callback rendezvous.
#[derive(Debug, Clone)]
pub enum CallbackError {
    /// The callback URL could not be parsed at all.
    InvalidUrl,
    /// The provider reported an error parameter, with its description.
    Provider { error: String, description: String },
    /// The query is missing a required parameter (its name is carried).
    MissingParameter { name: String },
    /// The returned state differs from the registered one.
    StateMismatch,
    /// The state matched but its signature or timestamp did not validate.
    InvalidState { reason: ValidationError },
}

} // verus!
