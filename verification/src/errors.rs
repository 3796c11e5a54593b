//! The error taxonomy of the sink core: decode failures (fatal, fail-fast),
//! execution failures (transient or permanent), startup failures, and the
//! reasons for which the consumption loop terminates.

use vstd::prelude::*;

verus! {

/// Why a wire payload was rejected by the operation decoder. A rejected
/// payload yields no operation at all.
#[derive(Clone, Copy, Debug, PartialEq, Eq, Structural)]
pub enum DecodeError {
    /// The payload is not a well-formed operation document (bad syntax,
    /// truncated input, or trailing bytes).
    Malformed,
    /// The single top-level tag is none of the recognized operation kinds.
    UnknownOperationTag,
    /// A tagged value carries a tag that is none of the recognized value kinds.
    UnknownValueTag,
    /// A field holds a value of the wrong kind, or a number out of range.
    TypeMismatch,
    /// An update or delete carries an empty key, which would target
    /// unboundedly many rows.
    EmptyKey,
    /// An insert, update or upsert carries no columns to write.
    EmptyColumns,
    /// A table or column name is empty or holds characters that could enable
    /// injection when interpolated.
    InvalidIdentifier,
    /// An upsert's conflict key names a column that is not among its columns.
    ConflictKeyMismatch,
}

/// An execution failure reported by a backend. Transient failures are retried
/// with bounded backoff; permanent failures terminate the run.
#[derive(Clone, Copy, Debug, PartialEq, Eq, Structural)]
pub enum ExecError {
    /// Expected to resolve on retry: connection reset, deadlock or
    /// serialization conflict, statement timeout.
    Transient,
    /// Will recur on retry: constraint violation, type mismatch, unsupported
    /// statement.
    Permanent,
}

/// A startup failure: the connection string's scheme matches no supported
/// backend.
#[derive(Clone, Copy, Debug, PartialEq, Eq, Structural)]
pub struct UnsupportedBackendError;

/// A startup failure establishing the database connection; the reason is the
/// driver's message, carried as bytes.
#[derive(Debug)]
pub struct ConnectError {
    pub reason: Vec<u8>,
}

/// Why the consumption loop stopped before the stream ended.
#[derive(Clone, Copy, Debug, PartialEq, Eq, Structural)]
pub enum TermReason {
    /// A record failed to decode: a poison pill, never silently skipped.
    Decode(DecodeError),
    /// An operation failed permanently, or exhausted its retry budget.
    Exec(ExecError),
}

} // verus!
