//! Confidential state layer of a zero-knowledge virtual machine.
//!
//! The crate provides confidential state objects ("records") with per-field
//! visibility, symmetric record encryption keyed by a Diffie-Hellman style
//! shared secret, constant-structure record equality, a program deployment
//! pipeline that binds compiled circuits to certificates, and the
//! deterministic `set` finalize command over a persistent mapping store.
//!
//! The proof backend's algebra (pairing curves, polynomial commitments) is out
//! of scope; the group and the key-certification primitives are modeled
//! deterministically over small prime fields so that every state-layer rule
//! is stated and machine-checked.

pub mod algebra;
pub mod block;
pub mod crypto;
pub mod encode;
pub mod equality;
pub mod command;
pub mod errors;
pub mod input;
pub mod opcode;
pub mod lookup;
pub mod plaintext;
pub mod program;
pub mod record;
pub mod stack;
pub mod store;
