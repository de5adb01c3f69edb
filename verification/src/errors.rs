//! The crate's error taxonomy: every failure a verified function can
//! return, each tied by contract to the exact inputs that produce it.

use vstd::prelude::*;

verus! {

/// Why an operation of the state layer failed.
#[derive(Clone, Copy, PartialEq, Eq, Structural, Debug)]
pub enum VmError {
    /// A record needs more randomizers than the machine can index.
    RecordTooLarge,
    /// A ciphertext's shape does not decode: wrong randomizer count, an
    /// undecodable masked entry, or an out-of-range owner element.
    MalformedCiphertext,
    /// Two record entries carry the same identifier.
    DuplicateIdentifier,
    /// A looked-up record entry does not exist.
    EntryNotFound,
    /// A path lookup was given an empty path.
    EmptyPath,
    /// A program declares no function.
    NoFunctions,
    /// A deployment's program differs from the stack's.
    ProgramMismatch,
    /// A deployment's certified keys are not in the program's function
    /// order, or their count differs from the function count.
    UnorderedDeployment,
    /// An external program a function's inputs reference is unknown.
    ExternalProgramNotFound,
    /// A function's captured circuit assignment is missing.
    MissingAssignment,
    /// A certificate does not verify against a function and verifying key.
    InvalidCertificate,
    /// A finalize command addresses a mapping the store never declared.
    MappingNotFound,
    /// An operand names a register the environment does not hold.
    RegisterNotFound,
    /// A textual or binary form does not parse.
    ParseError,
}

} // verus!
