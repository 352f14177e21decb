//! Why an operation of the core fails.

use vstd::prelude::*;

verus! {

/// Why an operation of the core failed.
#[derive(Clone, Copy, Debug, PartialEq, Eq, Structural)]
pub enum CoreError {
    /// The secret key is not base64 text.
    SecretKeyEncoding,
    /// The secret key does not decode to 32 bytes.
    SecretKeyLength,
    /// The session holds no key pair.
    NoKeypair,
    /// The session holds no profile.
    NoProfile,
    /// The profile's version counter is at its largest value.
    VersionLimit,
}

impl CoreError {
    /// A short description of the failure.
    pub fn message(&self) -> (r: String)
        ensures
            r@ == match self {
                CoreError::SecretKeyEncoding => "Failed to decode secret key"@,
                CoreError::SecretKeyLength => "Invalid secret key length"@,
                CoreError::NoKeypair => "No keypair available"@,
                CoreError::NoProfile => "No current profile"@,
                CoreError::VersionLimit => "Profile version limit reached"@,
            },
    {
        match self {
            CoreError::SecretKeyEncoding => String::from_str("Failed to decode secret key"),
            CoreError::SecretKeyLength => String::from_str("Invalid secret key length"),
            CoreError::NoKeypair => String::from_str("No keypair available"),
            CoreError::NoProfile => String::from_str("No current profile"),
            CoreError::VersionLimit => String::from_str("Profile version limit reached"),
        }
    }
}

} // verus!
