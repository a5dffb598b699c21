//! The library's error taxonomy and its mapping to protocol status codes.
use vstd::prelude::*;

use crate::digest::DigestHash;
use crate::instance_name::InstanceName;

verus! {

/// Why a hexadecimal string could not be decoded.
#[derive(Debug)]
pub enum HexError {
    /// A character that is not a hexadecimal digit, with its position.
    InvalidHexCharacter(char, usize),
    /// The text has an odd number of characters.
    OddLength,
    /// The text has an even length that does not fit the expected width.
    InvalidStringLength,
}

/// Every failure the library reports.
#[derive(Debug)]
pub enum Error {
    /// Malformed hexadecimal in a wire digest.
    InvalidHexString(HexError),
    /// No store is registered for the tenant.
    StoreNotFound(InstanceName),
    /// The requested digest is absent from the resolved store.
    DigestInfoNotFound(DigestHash),
    /// A digest could not be built from its textual parts.
    InvalidDigestParts(String),
    /// A wire resource name that fits neither addressing grammar.
    InvalidResourceName(String),
    /// An integer field could not be converted to the needed width.
    ConversionIntError(String),
    /// A read offset past the end of the stored payload.
    InvalidRange,
    /// The committed payload's computed hash or size disagrees with the
    /// claimed digest.
    DigestMismatch,
    /// No upload session with the given identifier exists.
    UploadNotFound(String),
    /// A chunk or a finalization that breaks the upload's sequential order.
    OutOfOrderWrite(String),
    /// A write stream that ended without a frame marked final.
    IncompleteWrite(String),
    /// A blob addressed as a directory does not hold a directory payload.
    NotADirectory(DigestHash),
}

/// The protocol-level status class of an error.
#[derive(Debug, Clone, Copy, PartialEq, Eq, Structural)]
pub enum StatusCode {
    Success,
    InvalidArgument,
    NotFound,
    Internal,
}

/// The status class of each error: caller mistakes are `InvalidArgument`,
/// absent blobs, tenants and uploads are `NotFound`, and a hex container
/// width error is an internal fault, since the library chooses the width.
pub open spec fn status_code_of(e: &Error) -> StatusCode {
    match e {
        Error::InvalidHexString(h) => match h {
            HexError::InvalidStringLength => StatusCode::Internal,
            _ => StatusCode::InvalidArgument,
        },
        Error::StoreNotFound(_) => StatusCode::NotFound,
        Error::DigestInfoNotFound(_) => StatusCode::NotFound,
        Error::InvalidDigestParts(_) => StatusCode::InvalidArgument,
        Error::InvalidResourceName(_) => StatusCode::InvalidArgument,
        Error::ConversionIntError(_) => StatusCode::InvalidArgument,
        Error::InvalidRange => StatusCode::InvalidArgument,
        Error::DigestMismatch => StatusCode::InvalidArgument,
        Error::UploadNotFound(_) => StatusCode::NotFound,
        Error::OutOfOrderWrite(_) => StatusCode::InvalidArgument,
        Error::IncompleteWrite(_) => StatusCode::InvalidArgument,
        Error::NotADirectory(_) => StatusCode::InvalidArgument,
    }
}

impl Error {
    pub fn status_code(&self) -> (r: StatusCode)
        ensures
            r == status_code_of(self),
    {
        match self {
            Error::InvalidHexString(h) => match h {
                HexError::InvalidStringLength => StatusCode::Internal,
                _ => StatusCode::InvalidArgument,
            },
            Error::StoreNotFound(_) => StatusCode::NotFound,
            Error::DigestInfoNotFound(_) => StatusCode::NotFound,
            Error::InvalidDigestParts(_) => StatusCode::InvalidArgument,
            Error::InvalidResourceName(_) => StatusCode::InvalidArgument,
            Error::ConversionIntError(_) => StatusCode::InvalidArgument,
            Error::InvalidRange => StatusCode::InvalidArgument,
            Error::DigestMismatch => StatusCode::InvalidArgument,
            Error::UploadNotFound(_) => StatusCode::NotFound,
            Error::OutOfOrderWrite(_) => StatusCode::InvalidArgument,
            Error::IncompleteWrite(_) => StatusCode::InvalidArgument,
            Error::NotADirectory(_) => StatusCode::InvalidArgument,
        }
    }
}

} // verus!
