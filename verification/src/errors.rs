use vstd::prelude::*;

verus! {

/// Every failure the library can report.  Each variant names the rule that
/// was violated; functions state in their contracts exactly which inputs
/// produce which variant.
#[derive(Clone, Copy, Debug, PartialEq, Eq, Structural)]
pub enum GitError {
    /// An object payload has no `"<kind> <size>\0"` header.
    MalformedHeader,
    /// The size declared in an object header disagrees with the body length.
    SizeMismatch,
    /// A tree body does not follow the `"<mode> <name>\0<sha20>"` grammar,
    /// or an object expected to be a tree is not one.
    TreeParseError,
    /// No `.git` directory was found walking up from the working directory.
    NotARepo,
    /// A referenced object is not present.
    ObjectNotFound,
    /// A packfile does not start with the `"PACK"` signature.
    PackSignature,
    /// The SHA-1 trailer of a packfile disagrees with its contents.
    PackChecksumMismatch,
    /// A pack object has a type this decoder does not support.
    UnsupportedObjectType,
    /// A packfile is truncated or an encoded size does not fit in 64 bits.
    PackMalformed,
    /// A delta's declared source size disagrees with the base body length.
    DeltaBaseSizeMismatch,
    /// A delta's output disagrees with its declared target size.
    DeltaTargetSizeMismatch,
    /// A delta COPY instruction reads outside the base body.
    DeltaCopyOutOfBounds,
    /// A delta instruction byte is zero, or an instruction is truncated.
    DeltaBadInstruction,
    /// A pkt-line framed message does not follow the framing rules.
    PktLineMalformed,
    /// The remote does not advertise a capability this client needs.
    CapabilityUnsupported,
    /// A commit body does not start with a well-formed `"tree <sha>"` line.
    CommitParseError,
    /// `HEAD` holds neither a symbolic ref nor a bare object id.
    HeadInvalid,
    /// Bytes that must decode as UTF-8 text do not.
    Utf8Invalid,
    /// A zlib stream cannot be decompressed.
    ZlibInvalid,
}

impl GitError {
    /// A one-line diagnostic for the command line.
    pub fn describe(&self) -> &'static str {
        match self {
            GitError::MalformedHeader => "unrecognised object structure",
            GitError::SizeMismatch => "object header size disagrees with body",
            GitError::TreeParseError => "not a well-formed tree object",
            GitError::NotARepo => "cannot find a .git directory",
            GitError::ObjectNotFound => "no such object",
            GitError::PackSignature => "incorrect PACK signature",
            GitError::PackChecksumMismatch => "pack checksum is not correct",
            GitError::UnsupportedObjectType => "unsupported object type",
            GitError::PackMalformed => "pack data is truncated or oversized",
            GitError::DeltaBaseSizeMismatch => "delta source size disagrees with base",
            GitError::DeltaTargetSizeMismatch => "unexpected delta target size",
            GitError::DeltaCopyOutOfBounds => "delta copy reads outside the base",
            GitError::DeltaBadInstruction => "bad delta instruction",
            GitError::PktLineMalformed => "incorrect pkt-line structure",
            GitError::CapabilityUnsupported => "server does not advertise required capabilities",
            GitError::CommitParseError => "cannot parse commit",
            GitError::HeadInvalid => "incorrect HEAD contents",
            GitError::Utf8Invalid => "bytes are not valid UTF-8 text",
            GitError::ZlibInvalid => "cannot decompress zlib data",
        }
    }
}

} // verus!
