//! The canonical, backend-agnostic representation of one database mutation,
//! and its mathematical model. An operation is immutable once decoded and is
//! consumed by the execution that applies it.

use vstd::prelude::*;

use crate::lex::ident_ok;
use crate::value::ValModel;
use crate::value::Value;
use crate::value::val_wf;

verus! {

/// One database mutation.
#[derive(Debug, PartialEq)]
pub enum Operation {
    Insert { table: Vec<u8>, columns: Vec<(Vec<u8>, Value)> },
    Update { table: Vec<u8>, set: Vec<(Vec<u8>, Value)>, key: Vec<(Vec<u8>, Value)> },
    Delete { table: Vec<u8>, key: Vec<(Vec<u8>, Value)> },
    Upsert { table: Vec<u8>, columns: Vec<(Vec<u8>, Value)>, conflict_key: Vec<Vec<u8>> },
}

/// The mathematical model of an `Operation`.
#[verifier::ext_equal]
pub enum OpModel {
    Insert { table: Seq<u8>, columns: Seq<(Seq<u8>, ValModel)> },
    Update { table: Seq<u8>, set: Seq<(Seq<u8>, ValModel)>, key: Seq<(Seq<u8>, ValModel)> },
    Delete { table: Seq<u8>, key: Seq<(Seq<u8>, ValModel)> },
    Upsert { table: Seq<u8>, columns: Seq<(Seq<u8>, ValModel)>, conflict_key: Seq<Seq<u8>> },
}

/// The model of a column list.
pub open spec fn pairs_view(ps: Seq<(Vec<u8>, Value)>) -> Seq<(Seq<u8>, ValModel)> {
    ps.map_values(|p: (Vec<u8>, Value)| (p.0@, p.1@))
}

/// The model of a column-name list.
pub open spec fn names_view(ns: Seq<Vec<u8>>) -> Seq<Seq<u8>> {
    ns.map_values(|n: Vec<u8>| n@)
}

impl View for Operation {
    type V = OpModel;

    open spec fn view(&self) -> OpModel {
        match self {
            Operation::Insert { table, columns } => OpModel::Insert {
                table: table@,
                columns: pairs_view(columns@),
            },
            Operation::Update { table, set, key } => OpModel::Update {
                table: table@,
                set: pairs_view(set@),
                key: pairs_view(key@),
            },
            Operation::Delete { table, key } => OpModel::Delete {
                table: table@,
                key: pairs_view(key@),
            },
            Operation::Upsert { table, columns, conflict_key } => OpModel::Upsert {
                table: table@,
                columns: pairs_view(columns@),
                conflict_key: names_view(conflict_key@),
            },
        }
    }
}

/// A well-formed column list: validated names, well-formed values.
pub open spec fn pairs_wf(ps: Seq<(Seq<u8>, ValModel)>) -> bool {
    forall|i: int|
        0 <= i < ps.len() ==> ident_ok((#[trigger] ps[i]).0) && val_wf(ps[i].1)
}

/// The names of a column list, in order.
pub open spec fn pair_names(ps: Seq<(Seq<u8>, ValModel)>) -> Seq<Seq<u8>> {
    ps.map_values(|p: (Seq<u8>, ValModel)| p.0)
}

/// The values of a column list, in order.
pub open spec fn pair_values(ps: Seq<(Seq<u8>, ValModel)>) -> Seq<ValModel> {
    ps.map_values(|p: (Seq<u8>, ValModel)| p.1)
}

/// A well-formed operation:
/// - every table and column name is a validated identifier;
/// - every value is well formed;
/// - an insert, update or upsert writes at least one column;
/// - an update or delete keys on at least one column — an empty key would
///   target unboundedly many rows;
/// - an upsert's conflict key is a non-empty subset of its column names.
pub open spec fn op_wf(m: OpModel) -> bool {
    match m {
        OpModel::Insert { table, columns } => {
            &&& ident_ok(table)
            &&& columns.len() > 0
            &&& pairs_wf(columns)
        },
        OpModel::Update { table, set, key } => {
            &&& ident_ok(table)
            &&& set.len() > 0
            &&& pairs_wf(set)
            &&& key.len() > 0
            &&& pairs_wf(key)
        },
        OpModel::Delete { table, key } => {
            &&& ident_ok(table)
            &&& key.len() > 0
            &&& pairs_wf(key)
        },
        OpModel::Upsert { table, columns, conflict_key } => {
            &&& ident_ok(table)
            &&& columns.len() > 0
            &&& pairs_wf(columns)
            &&& conflict_key.len() > 0
            &&& forall|i: int|
                0 <= i < conflict_key.len() ==> pair_names(columns).contains(
                    #[trigger] conflict_key[i],
                )
        },
    }
}

impl Operation {
    /// A well-formed operation; what the decoder yields and what execution
    /// and rendering require.
    pub open spec fn wf(&self) -> bool {
        op_wf(self@)
    }
}

} // verus!
