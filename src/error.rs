use vstd::prelude::*;

verus! {

/// Every way in which an operation of the store can fail.
#[derive(Debug, Clone, PartialEq, Eq)]
pub enum DatabaseError {
    /// A fresh store was asked for in a root that already holds generations.
    StoreNotEmpty,
    /// The `worlds` directory under the given root does not exist.
    GenerationsDirectoryNotFound(String),
    /// A directory under `worlds` carries the generation prefix but no valid ordinal.
    InvalidGenerationName(String),
    /// No generation with this ordinal exists.
    GenerationNotFound(u64),
    /// The directory of a generation to load does not exist.
    DirectoryNotFound(String),
    /// No record exists for the player in the active generation.
    PlayerNotFound,
    /// The named record file could not be parsed.
    RecordParseError(String),
    /// The metadata file could not be parsed.
    MetadataParseError,
    /// Reading or writing a file failed; the message says why.
    IOError(String),
    /// The identity service could not be reached or answered badly.
    IdentityUnavailable,
    /// The cosmetic reference of a profile could not be decoded.
    IdentityDecodeError,
    /// A counter would exceed its representable range.
    Overflow,
}

} // verus!
