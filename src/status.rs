//! Status and method enumerations shared by compression and loading.

use crate::error::IOError;
use vstd::prelude::*;

verus! {

/// Execution state of a command buffer.
///
/// `pending` is the only state from which a command buffer can move; the
/// three others are terminal.
#[allow(non_camel_case_types)]
#[derive(Copy, Clone, Debug, PartialEq, Eq, Hash, Structural)]
pub enum MTLIOStatus {
    pending,
    cancelled,
    error,
    complete,
}

impl MTLIOStatus {
    /// The numeric code of the status.
    pub open spec fn spec_raw(self) -> u64 {
        match self {
            MTLIOStatus::pending => 0,
            MTLIOStatus::cancelled => 1,
            MTLIOStatus::error => 2,
            MTLIOStatus::complete => 3,
        }
    }

    /// Whether no further transition can leave this state.
    pub open spec fn spec_is_terminal(self) -> bool {
        self != MTLIOStatus::pending
    }

    pub fn raw(self) -> (r: u64)
        ensures
            r == self.spec_raw(),
    {
        match self {
            MTLIOStatus::pending => 0,
            MTLIOStatus::cancelled => 1,
            MTLIOStatus::error => 2,
            MTLIOStatus::complete => 3,
        }
    }

    pub fn from_raw(raw: u64) -> (r: Option<MTLIOStatus>)
        ensures
            r matches Some(s) ==> s.spec_raw() == raw,
            r is None <==> raw > 3,
    {
        match raw {
            0 => Some(MTLIOStatus::pending),
            1 => Some(MTLIOStatus::cancelled),
            2 => Some(MTLIOStatus::error),
            3 => Some(MTLIOStatus::complete),
            _ => None,
        }
    }

    pub fn is_terminal(self) -> (r: bool)
        ensures
            r == self.spec_is_terminal(),
    {
        !matches!(self, MTLIOStatus::pending)
    }

    /// The outcome a terminal status reports; `None` while pending.
    pub fn outcome(self) -> (r: Option<Result<(), IOError>>)
        ensures
            r == match self {
                MTLIOStatus::pending => None,
                MTLIOStatus::cancelled => Some(Err::<(), IOError>(IOError::Cancelled)),
                MTLIOStatus::error => Some(Err::<(), IOError>(IOError::TransferError)),
                MTLIOStatus::complete => Some(Ok::<(), IOError>(())),
            },
    {
        match self {
            MTLIOStatus::pending => None,
            MTLIOStatus::cancelled => Some(Err(IOError::Cancelled)),
            MTLIOStatus::error => Some(Err(IOError::TransferError)),
            MTLIOStatus::complete => Some(Ok(())),
        }
    }
}

/// Algorithm used to encode each chunk of a compressed container.
#[allow(non_camel_case_types)]
#[derive(Copy, Clone, Debug, PartialEq, Eq, Hash, Structural)]
pub enum MTLIOCompressionMethod {
    zlib,
    lzfse,
    lz4,
    lzma,
    lzBitmap,
}

impl MTLIOCompressionMethod {
    /// The numeric code of the method, as stored in a container header.
    pub open spec fn spec_raw(self) -> u64 {
        match self {
            MTLIOCompressionMethod::zlib => 0,
            MTLIOCompressionMethod::lzfse => 1,
            MTLIOCompressionMethod::lz4 => 2,
            MTLIOCompressionMethod::lzma => 3,
            MTLIOCompressionMethod::lzBitmap => 4,
        }
    }

    pub fn raw(self) -> (r: u64)
        ensures
            r == self.spec_raw(),
    {
        match self {
            MTLIOCompressionMethod::zlib => 0,
            MTLIOCompressionMethod::lzfse => 1,
            MTLIOCompressionMethod::lz4 => 2,
            MTLIOCompressionMethod::lzma => 3,
            MTLIOCompressionMethod::lzBitmap => 4,
        }
    }

    pub fn from_raw(raw: u64) -> (r: Option<MTLIOCompressionMethod>)
        ensures
            r matches Some(m) ==> m.spec_raw() == raw,
            r is None <==> raw > 4,
    {
        match raw {
            0 => Some(MTLIOCompressionMethod::zlib),
            1 => Some(MTLIOCompressionMethod::lzfse),
            2 => Some(MTLIOCompressionMethod::lz4),
            3 => Some(MTLIOCompressionMethod::lzma),
            4 => Some(MTLIOCompressionMethod::lzBitmap),
            _ => None,
        }
    }
}

/// Outcome of flushing a compression context.
#[allow(non_camel_case_types)]
#[derive(Copy, Clone, Debug, PartialEq, Eq, Hash, Structural)]
pub enum MTLIOCompressionStatus {
    complete,
    error,
}

impl MTLIOCompressionStatus {
    pub open spec fn spec_raw(self) -> u64 {
        match self {
            MTLIOCompressionStatus::complete => 0,
            MTLIOCompressionStatus::error => 1,
        }
    }

    pub fn raw(self) -> (r: u64)
        ensures
            r == self.spec_raw(),
    {
        match self {
            MTLIOCompressionStatus::complete => 0,
            MTLIOCompressionStatus::error => 1,
        }
    }
}

} // verus!
