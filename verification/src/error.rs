use vstd::prelude::*;

verus! {

/// Error kinds of the transfer core.
///
/// `SourceNotFound` names a source path that failed the existence check made
/// before any bytes move; `IoFailure` is a local read/write/directory error;
/// `TransportFailure` is a connection, authentication, channel or storage
/// request error; `ConfigFormatError` is a malformed destination or
/// configuration payload. Each variant carries a human-readable cause.
#[derive(Debug, Clone, PartialEq, Eq)]
pub enum TransferError {
    SourceNotFound(String),
    IoFailure(String),
    TransportFailure(String),
    ConfigFormatError(String),
}

impl TransferError {
    /// The human-readable cause carried by the error.
    pub fn message(&self) -> (r: &String)
        ensures
            r@ == self.spec_message(),
    {
        match self {
            TransferError::SourceNotFound(m) => m,
            TransferError::IoFailure(m) => m,
            TransferError::TransportFailure(m) => m,
            TransferError::ConfigFormatError(m) => m,
        }
    }

    pub open spec fn spec_message(&self) -> Seq<char> {
        match self {
            TransferError::SourceNotFound(m) => m@,
            TransferError::IoFailure(m) => m@,
            TransferError::TransportFailure(m) => m@,
            TransferError::ConfigFormatError(m) => m@,
        }
    }
}

} // verus!
