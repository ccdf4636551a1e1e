use vstd::prelude::*;

verus! {

/// Structural failures found while reading an archive's bytes.
///
/// The decoders in this crate produce only `BadMagic` and `BadHeader`;
/// the remaining variants are reserved for payload-level validation done
/// by callers, so that every layer can report failures in one vocabulary.
#[derive(Debug, Clone, Copy, PartialEq, Eq, Structural)]
pub enum RPMFileError {
    /// A fixed literal (lead or section magic) did not match.
    BadMagic,
    /// A structural decode failed after the magic matched: unknown type
    /// code, a tag value out of its store's bounds, or a string without
    /// a terminator.
    BadHeader,
    /// A section declared a size beyond a sane upper bound.
    HeaderSize,
    UnknownFiletype,
    MissingFile,
    DigestMismatch,
    UnmappedFile,
    FileSize,
    /// An invariant of the decoder itself was violated.
    Internal,
}

/// `std::io::Error` carried through opaquely: the decoders never read or
/// construct one, they only let callers wrap a byte source's failure.
#[verifier::external_type_specification]
#[verifier::external_body]
pub struct ExIoError(std::io::Error);

/// Top-level error: an I/O failure from the byte source, a structural
/// failure in the file's bytes, or a programming error.
#[derive(Debug)]
pub enum RPMError {
    Io(std::io::Error),
    File(RPMFileError),
    Internal,
}

impl From<std::io::Error> for RPMError {
    fn from(err: std::io::Error) -> (r: RPMError) {
        RPMError::Io(err)
    }
}

impl vstd::std_specs::convert::FromSpecImpl<std::io::Error> for RPMError {
    open spec fn obeys_from_spec() -> bool {
        true
    }

    open spec fn from_spec(err: std::io::Error) -> RPMError {
        RPMError::Io(err)
    }
}

/// Failure of one decode step over an input slice.
///
/// `Incomplete(need)` says that the field being decoded ends `need` bytes
/// after the start of the input, and fewer bytes than that were available;
/// a caller that can supply more data may treat it as non-fatal.
/// `Fail(kind, at)` is a hard structural failure, with the byte offset,
/// from the start of the input, at which the failing field begins.
#[derive(Debug, Clone, Copy, PartialEq, Eq, Structural)]
pub enum ParseError {
    Incomplete(u64),
    Fail(RPMFileError, u64),
}

} // verus!
