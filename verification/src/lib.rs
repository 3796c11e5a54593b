//! A streaming SQL sink core: the canonical model of one database mutation
//! (`Operation`), the wire codec that reads and writes it as JSON bytes, the
//! translation of an `Operation` into a backend dialect's parameterized
//! statement, the reference semantics of applying an `Operation` to a table,
//! and the consumption-loop state machine with its retry and acknowledgment
//! policy.

use vstd::prelude::*;

pub mod decode;
pub mod encode;
pub mod errors;
pub mod lex;
pub mod operation;
pub mod roundtrip;
pub mod semantics;
pub mod sqlgen;
pub mod sink;
pub mod value;
pub mod wire;

verus! {

/// The build-time revision identifier recorded for diagnostics. This build
/// does not embed a revision, so a fixed placeholder is reported.
pub fn git_hash_version() -> (r: &'static str)
    ensures
        r@ == "unknown"@,
{
    "unknown"
}

} // verus!
