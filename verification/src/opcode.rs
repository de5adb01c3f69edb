//! Instruction opcodes: a closed tagging of instruction categories, each
//! carrying its fixed mnemonic.

use vstd::prelude::*;

verus! {

/// The category of an instruction, with its mnemonic.
#[derive(Clone, PartialEq, Eq, Debug, Hash)]
pub enum Opcode {
    /// An assertion operation, e.g. `assert.eq`.
    Assert(String),
    /// The call operation.
    Call,
    /// The cast operation.
    Cast,
    /// A finalize command, e.g. `set`.
    Command(String),
    /// A commitment operation, e.g. `commit.psd4`.
    Commit(String),
    /// A finalize operation.
    Finalize(String),
    /// A hash operation, e.g. `hash.psd4`.
    Hash(String),
    /// A comparison operation, e.g. `is.eq`.
    Is(String),
    /// A literal operation, e.g. `add`.
    Literal(String),
}

/// The mnemonic an opcode projects to.
pub open spec fn opcode_mnemonic(o: Opcode) -> Seq<char> {
    match o {
        Opcode::Assert(s) => s@,
        Opcode::Call => "call"@,
        Opcode::Cast => "cast"@,
        Opcode::Command(s) => s@,
        Opcode::Commit(s) => s@,
        Opcode::Finalize(s) => s@,
        Opcode::Hash(s) => s@,
        Opcode::Is(s) => s@,
        Opcode::Literal(s) => s@,
    }
}

impl Opcode {
    /// Returns the opcode's mnemonic.
    pub fn mnemonic(&self) -> (r: &str)
        ensures
            r@ == opcode_mnemonic(*self),
    {
        match self {
            Opcode::Assert(s) => s.as_str(),
            Opcode::Call => "call",
            Opcode::Cast => "cast",
            Opcode::Command(s) => s.as_str(),
            Opcode::Commit(s) => s.as_str(),
            Opcode::Finalize(s) => s.as_str(),
            Opcode::Hash(s) => s.as_str(),
            Opcode::Is(s) => s.as_str(),
            Opcode::Literal(s) => s.as_str(),
        }
    }
}

} // verus!
