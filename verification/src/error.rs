use vstd::prelude::*;

verus! {

/// The error kinds of the transfer engine.
#[derive(Debug, Clone)]
pub enum Error {
    /// The transfer UUID is not known.
    BadTransfer,
    /// The transfer is in the wrong phase for the operation, or is a duplicate.
    BadTransferState,
    /// A sub-path is malformed or a required component is missing.
    BadPath(String),
    /// The durable store reported a failure, or held an out-of-range value.
    StorageError,
    /// Clean termination of a task or session.
    Canceled,
    /// The peer sent more bytes than the declared file size.
    MismatchedSize,
    /// The received bytes do not validate against the declared size.
    UnexpectedData,
    /// A destination filename exceeds the allowed length.
    FilenameTooLong,
    /// The listening address is already taken.
    AddrInUse,
    /// The configuration is invalid.
    InvalidArgument,
}

impl Error {
    /// A stable, human-readable name of the error kind.
    pub fn kind_name(&self) -> (r: &'static str)
        ensures
            r@ == self.spec_kind_name(),
    {
        match self {
            Error::BadTransfer => "bad transfer",
            Error::BadTransferState => "bad transfer state",
            Error::BadPath(_) => "bad path",
            Error::StorageError => "storage error",
            Error::Canceled => "canceled",
            Error::MismatchedSize => "mismatched size",
            Error::UnexpectedData => "unexpected data",
            Error::FilenameTooLong => "filename too long",
            Error::AddrInUse => "address in use",
            Error::InvalidArgument => "invalid argument",
        }
    }

    pub open spec fn spec_kind_name(&self) -> Seq<char> {
        match self {
            Error::BadTransfer => "bad transfer"@,
            Error::BadTransferState => "bad transfer state"@,
            Error::BadPath(_) => "bad path"@,
            Error::StorageError => "storage error"@,
            Error::Canceled => "canceled"@,
            Error::MismatchedSize => "mismatched size"@,
            Error::UnexpectedData => "unexpected data"@,
            Error::FilenameTooLong => "filename too long"@,
            Error::AddrInUse => "address in use"@,
            Error::InvalidArgument => "invalid argument"@,
        }
    }
}

} // verus!
