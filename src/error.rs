//! The errors of credential resolution and access.
use vstd::prelude::*;
use vstd::utf8::{decode_utf8, valid_utf8};

use crate::secret_service::{CredModel, SsCredential};

verus! {

/// Why an access to a credential failed.
#[derive(Debug)]
pub enum Error {
    /// No item matches the credential.
    NoEntry,
    /// More than one item matches the credential: one credential per item.
    Ambiguous(Vec<SsCredential>),
    /// An input was refused before the store was touched: the field and why.
    Invalid(String, String),
    /// A stored secret is not valid UTF-8 where a password was asked for.
    BadEncoding(Vec<u8>),
    /// The store refused access.
    NoStorageAccess(String),
    /// Any other failure of the store.
    PlatformFailure(String),
}

/// What an error holds.
pub enum ErrorModel {
    NoEntry,
    Ambiguous(Seq<CredModel>),
    Invalid(Seq<char>, Seq<char>),
    BadEncoding(Seq<u8>),
    NoStorageAccess(Seq<char>),
    PlatformFailure(Seq<char>),
}

impl View for Error {
    type V = ErrorModel;

    open spec fn view(&self) -> ErrorModel {
        match self {
            Error::NoEntry => ErrorModel::NoEntry,
            Error::Ambiguous(creds) => ErrorModel::Ambiguous(
                creds@.map_values(|c: SsCredential| c@),
            ),
            Error::Invalid(field, reason) => ErrorModel::Invalid(field@, reason@),
            Error::BadEncoding(bytes) => ErrorModel::BadEncoding(bytes@),
            Error::NoStorageAccess(cause) => ErrorModel::NoStorageAccess(cause@),
            Error::PlatformFailure(cause) => ErrorModel::PlatformFailure(cause@),
        }
    }
}

/// The view of a result, with `f` as the view of its success value.
pub open spec fn outcome<T, V>(r: Result<T, Error>, f: spec_fn(T) -> V) -> Result<V, ErrorModel> {
    match r {
        Ok(v) => Ok(f(v)),
        Err(e) => Err(e@),
    }
}

/// What reading a password from `bytes` gives.
pub open spec fn password_of(bytes: Seq<u8>) -> Result<Seq<char>, ErrorModel> {
    if valid_utf8(bytes) {
        Ok(decode_utf8(bytes))
    } else {
        Err(ErrorModel::BadEncoding(bytes))
    }
}

/// Relies on `String::from_utf8`: it accepts exactly the valid UTF-8 byte
/// strings and keeps their characters; on failure, `FromUtf8Error::into_bytes`
/// gives back the bytes it was handed.
#[verifier::external_body]
fn utf8_to_string(bytes: Vec<u8>) -> (r: Result<String, Vec<u8>>)
    ensures
        r matches Ok(s) ==> valid_utf8(bytes@) && s@ == decode_utf8(bytes@),
        r matches Err(b) ==> !valid_utf8(bytes@) && b@ == bytes@,
{
    String::from_utf8(bytes).map_err(|e| e.into_bytes())
}

/// Reads a secret as a UTF-8 password.
pub fn decode_password(bytes: Vec<u8>) -> (r: Result<String, Error>)
    ensures
        outcome(r, |s: String| s@) == password_of(bytes@),
{
    match utf8_to_string(bytes) {
        Ok(s) => Ok(s),
        Err(raw) => Err(Error::BadEncoding(raw)),
    }
}

/// How a native store reports that an operation failed, with a description.
pub enum StoreFailure {
    /// The store or the item is locked.
    Locked(String),
    /// The store returned no result.
    NoResult(String),
    /// The user declined a prompt.
    Prompt(String),
    /// Any other failure.
    Other(String),
}

/// Classifies a native failure: a locked store, a missing result and a
/// declined prompt are refusals of access; anything else is a failure of the
/// platform.
pub fn decode_error(failure: StoreFailure) -> (r: Error)
    ensures
        r@ == match failure {
            StoreFailure::Locked(cause) => ErrorModel::NoStorageAccess(cause@),
            StoreFailure::NoResult(cause) => ErrorModel::NoStorageAccess(cause@),
            StoreFailure::Prompt(cause) => ErrorModel::NoStorageAccess(cause@),
            StoreFailure::Other(cause) => ErrorModel::PlatformFailure(cause@),
        },
{
    match failure {
        StoreFailure::Locked(cause) => Error::NoStorageAccess(cause),
        StoreFailure::NoResult(cause) => Error::NoStorageAccess(cause),
        StoreFailure::Prompt(cause) => Error::NoStorageAccess(cause),
        StoreFailure::Other(cause) => Error::PlatformFailure(cause),
    }
}

} // verus!
