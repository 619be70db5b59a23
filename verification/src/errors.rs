use vstd::prelude::*;

verus! {

/// Failure of decoding a textual identifier back into its numeric form.
#[derive(Clone, Copy, Debug, PartialEq, Eq, Structural)]
pub enum DecodeError {
    /// The string has the wrong length or holds a character outside the
    /// identifier alphabet.
    Malformed,
}

/// Errors returned by the storage engine.
#[derive(Clone, Copy, Debug, PartialEq, Eq, Structural)]
pub enum StorageError {
    /// The identifier already denotes a live entry.
    Collision,
    /// No live entry exists under the identifier (never existed, expired,
    /// or burned); the three are intentionally indistinguishable.
    NotFound,
    /// The entry is password protected and no password was supplied.
    PasswordRequired,
    /// The supplied password does not verify against the stored digest.
    PasswordMismatch,
    /// The supplied owner token does not match the stored one.
    Forbidden,
}

/// Errors surfaced by the entry service to the transport layer.
#[derive(Clone, Copy, Debug, PartialEq, Eq, Structural)]
pub enum ServiceError {
    /// Every insert attempt collided with a live entry.
    IdSpaceExhausted,
    /// No live entry exists under the identifier.
    NotFound,
    /// The entry is password protected and no password was supplied.
    PasswordRequired,
    /// The supplied password does not verify against the stored digest.
    PasswordMismatch,
    /// The supplied owner token does not match the stored one.
    Forbidden,
    /// The textual identifier could not be decoded.
    Malformed,
    /// The request carries an invalid field (a zero expiry).
    ValidationError,
}

impl StorageError {
    /// Maps a storage failure onto the service error shown to callers.
    pub fn to_service_error(self) -> (r: ServiceError)
        ensures
            r == storage_to_service(self),
    {
        match self {
            StorageError::Collision => ServiceError::IdSpaceExhausted,
            StorageError::NotFound => ServiceError::NotFound,
            StorageError::PasswordRequired => ServiceError::PasswordRequired,
            StorageError::PasswordMismatch => ServiceError::PasswordMismatch,
            StorageError::Forbidden => ServiceError::Forbidden,
        }
    }
}

/// The one-to-one mapping of storage errors onto service errors.
pub open spec fn storage_to_service(e: StorageError) -> ServiceError {
    match e {
        StorageError::Collision => ServiceError::IdSpaceExhausted,
        StorageError::NotFound => ServiceError::NotFound,
        StorageError::PasswordRequired => ServiceError::PasswordRequired,
        StorageError::PasswordMismatch => ServiceError::PasswordMismatch,
        StorageError::Forbidden => ServiceError::Forbidden,
    }
}

} // verus!
