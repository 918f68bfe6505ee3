//! The ways in which reading or writing a sealed field can fail.

use vstd::prelude::*;

verus! {

/// Why an operation on the vault was refused. The absence of a record is not
/// among them: lookups report it as `None`.
#[derive(Clone, Copy, Debug, PartialEq, Eq, Structural)]
pub enum BackendError {
    /// A stored field is not hexadecimal text, or is too short to hold a nonce.
    DecodeError,
    /// The bytes that came out of a field are not valid UTF-8.
    ToStringError,
    /// The cipher refused: on reading, the authentication tag did not verify
    /// (a wrong master password and a tampered field look the same); on
    /// writing, the plaintext is longer than the cipher accepts.
    AesError,
    /// The table refused a row: its name or id is taken, or no id is left.
    StorageError,
}

impl BackendError {
    /// The message that goes with this error.
    pub open spec fn message(self) -> Seq<char> {
        match self {
            BackendError::DecodeError => "error decoding a stored field"@,
            BackendError::ToStringError => "error converting decrypted data to a string"@,
            BackendError::AesError => "error occurred during decryption"@,
            BackendError::StorageError => "error storing the password"@,
        }
    }

    /// The message as text, for a front end to show.
    pub fn to_string(&self) -> (text: String)
        ensures
            text@ == self.message(),
    {
        match self {
            BackendError::DecodeError => "error decoding a stored field".to_owned(),
            BackendError::ToStringError => "error converting decrypted data to a string".to_owned(),
            BackendError::AesError => "error occurred during decryption".to_owned(),
            BackendError::StorageError => "error storing the password".to_owned(),
        }
    }
}

} // verus!
