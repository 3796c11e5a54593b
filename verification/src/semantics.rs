//! The reference semantics of operations: what applying a mutation means,
//! stated against an in-memory table of rows. This is the canonical meaning
//! an adapter's translation must realize, and what the laws about zero-match
//! deletes and repeated upserts are proved against.
//!
//! The model is schemaless: a row is an ordered list of named values. An
//! update or upsert writes the named columns of every matched row; a delete
//! removes every matched row; matching zero rows is a no-op, never an error.

use vstd::prelude::*;

use crate::lex::bytes_eq;
use crate::lex::copy_bytes;
use crate::operation::OpModel;
use crate::operation::Operation;
use crate::operation::pair_names;
use crate::operation::pairs_view;
use crate::value::ValModel;
use crate::value::Value;
use crate::value::value_eq;

verus! {

/// The model of one row: named values in column order.
pub type RowModel = Seq<(Seq<u8>, ValModel)>;

/// The value of the first column named `name` in `row`, if any.
pub open spec fn row_get(row: RowModel, name: Seq<u8>) -> Option<ValModel>
    decreases row.len(),
{
    if row.len() == 0 {
        None
    } else if row[0].0 == name {
        Some(row[0].1)
    } else {
        row_get(row.skip(1), name)
    }
}

/// Whether `row` carries every column of `key` with the key's value.
pub open spec fn row_matches(row: RowModel, key: RowModel) -> bool {
    forall|k: int|
        0 <= k < key.len() ==> row_get(row, (#[trigger] key[k]).0) == Some(key[k].1)
}

/// `row` with every column named in `set` given the `set` value, other
/// columns kept.
pub open spec fn row_set(row: RowModel, set: RowModel) -> RowModel {
    row.map_values(
        |c: (Seq<u8>, ValModel)|
            match row_get(set, c.0) {
                Some(v) => (c.0, v),
                None => c,
            },
    )
}

/// The key pairs an upsert matches on: each conflict column with the value
/// the upsert writes to it.
pub open spec fn conflict_pairs(columns: RowModel, ck: Seq<Seq<u8>>) -> RowModel {
    ck.map_values(
        |n: Seq<u8>|
            (
                n,
                match row_get(columns, n) {
                    Some(v) => v,
                    None => ValModel::Null,
                },
            ),
    )
}

/// Rows of `t` with every `key` match removed.
pub open spec fn delete_rows(t: Seq<RowModel>, key: RowModel) -> Seq<RowModel>
    decreases t.len(),
{
    if t.len() == 0 {
        Seq::empty()
    } else {
        delete_rows(t.take(t.len() - 1), key) + (if row_matches(t.last(), key) {
            Seq::empty()
        } else {
            seq![t.last()]
        })
    }
}

/// Rows of `t` with `set` written to every `key` match.
pub open spec fn update_rows(t: Seq<RowModel>, set: RowModel, key: RowModel) -> Seq<RowModel> {
    t.map_values(
        |row: RowModel|
            if row_matches(row, key) {
                row_set(row, set)
            } else {
                row
            },
    )
}

/// Whether any row of `t` matches `key`.
pub open spec fn any_match(t: Seq<RowModel>, key: RowModel) -> bool {
    exists|i: int| 0 <= i < t.len() && row_matches(#[trigger] t[i], key)
}

/// How many rows of `t` match `key`.
pub open spec fn count_matching(t: Seq<RowModel>, key: RowModel) -> int
    decreases t.len(),
{
    if t.len() == 0 {
        0
    } else {
        count_matching(t.take(t.len() - 1), key) + (if row_matches(t.last(), key) {
            1int
        } else {
            0int
        })
    }
}

/// What applying one operation does to a table.
pub open spec fn apply_spec(t: Seq<RowModel>, m: OpModel) -> Seq<RowModel> {
    match m {
        OpModel::Insert { table: _, columns } => t.push(columns),
        OpModel::Update { table: _, set, key } => update_rows(t, set, key),
        OpModel::Delete { table: _, key } => delete_rows(t, key),
        OpModel::Upsert { table: _, columns, conflict_key } => {
            let cp = conflict_pairs(columns, conflict_key);
            if any_match(t, cp) {
                update_rows(t, columns, cp)
            } else {
                t.push(columns)
            }
        },
    }
}

/// An in-memory table: the reference backend.
pub struct Table {
    pub rows: Vec<Vec<(Vec<u8>, Value)>>,
}

impl View for Table {
    type V = Seq<RowModel>;

    open spec fn view(&self) -> Seq<RowModel> {
        self.rows@.map_values(|r: Vec<(Vec<u8>, Value)>| pairs_view(r@))
    }
}

/// An independent copy of one value.
pub fn clone_value(v: &Value) -> (r: Value)
    ensures
        r@ == v@,
{
    match v {
        Value::Null => Value::Null,
        Value::Integer(i) => Value::Integer(*i),
        Value::Float(t) => Value::Float(copy_bytes(t)),
        Value::Text(t) => Value::Text(copy_bytes(t)),
        Value::Boolean(b) => Value::Boolean(*b),
        Value::Bytes(b) => Value::Bytes(copy_bytes(b)),
        Value::Timestamp(t) => Value::Timestamp(*t),
    }
}

/// An independent copy of a pair list.
fn clone_pairs(ps: &Vec<(Vec<u8>, Value)>) -> (r: Vec<(Vec<u8>, Value)>)
    ensures
        pairs_view(r@) == pairs_view(ps@),
{
    let mut out: Vec<(Vec<u8>, Value)> = Vec::new();
    let mut i: usize = 0;
    while i < ps.len()
        invariant
            0 <= i <= ps.len(),
            out@.len() == i,
            forall|k: int|
                0 <= k < i ==> (#[trigger] out@[k]).0@ == ps@[k].0@ && out@[k].1@ == ps@[k].1@,
        decreases ps.len() - i,
    {
        let name = copy_bytes(&ps[i].0);
        let val = clone_value(&ps[i].1);
        out.push((name, val));
        i = i + 1;
    }
    proof {
        assert(pairs_view(out@) =~= pairs_view(ps@));
    }
    out
}

/// The value of the first column named `name` in `row`, if any.
fn exec_row_get(row: &Vec<(Vec<u8>, Value)>, name: &Vec<u8>) -> (r: Option<Value>)
    ensures
        ({
            let sp = row_get(pairs_view(row@), name@);
            match r {
                Some(v) => sp is Some && v@ == sp->0,
                None => sp is None,
            }
        }),
{
    let ghost rv = pairs_view(row@);
    proof {
        assert(rv.skip(0) =~= rv);
    }
    let mut i: usize = 0;
    while i < row.len()
        invariant
            0 <= i <= row.len(),
            rv == pairs_view(row@),
            row_get(rv, name@) == row_get(rv.skip(i as int), name@),
        decreases row.len() - i,
    {
        proof {
            assert(rv.skip(i as int)[0] == rv[i as int]);
            assert(rv.skip(i as int).skip(1) =~= rv.skip(i + 1));
        }
        if bytes_eq(&row[i].0, name) {
            return Some(clone_value(&row[i].1));
        }
        i = i + 1;
    }
    proof {
        assert(rv.skip(row.len() as int) =~= Seq::<(Seq<u8>, ValModel)>::empty());
    }
    None
}

/// Whether `row` carries every column of `key` with the key's value.
fn exec_row_matches(row: &Vec<(Vec<u8>, Value)>, key: &Vec<(Vec<u8>, Value)>) -> (r: bool)
    ensures
        r == row_matches(pairs_view(row@), pairs_view(key@)),
{
    let ghost rv = pairs_view(row@);
    let ghost kv = pairs_view(key@);
    let mut i: usize = 0;
    while i < key.len()
        invariant
            0 <= i <= key.len(),
            rv == pairs_view(row@),
            kv == pairs_view(key@),
            forall|k: int| 0 <= k < i ==> row_get(rv, (#[trigger] kv[k]).0) == Some(kv[k].1),
        decreases key.len() - i,
    {
        proof {
            assert(kv[i as int] == (key@[i as int].0@, key@[i as int].1@));
        }
        match exec_row_get(row, &key[i].0) {
            None => {
                return false;
            },
            Some(v) => {
                if !value_eq(&v, &key[i].1) {
                    return false;
                }
            },
        }
        i = i + 1;
    }
    true
}

/// `row` with every column named in `set` given the `set` value.
fn exec_row_set(row: &Vec<(Vec<u8>, Value)>, set: &Vec<(Vec<u8>, Value)>) -> (r: Vec<
    (Vec<u8>, Value),
>)
    ensures
        pairs_view(r@) == row_set(pairs_view(row@), pairs_view(set@)),
{
    let ghost rv = pairs_view(row@);
    let ghost sv = pairs_view(set@);
    let mut out: Vec<(Vec<u8>, Value)> = Vec::new();
    let mut i: usize = 0;
    while i < row.len()
        invariant
            0 <= i <= row.len(),
            rv == pairs_view(row@),
            sv == pairs_view(set@),
            out@.len() == i,
            forall|k: int|
                0 <= k < i ==> pairs_view(out@)[k] == row_set(rv, sv)[k],
        decreases row.len() - i,
    {
        let name = copy_bytes(&row[i].0);
        let picked: Value = match exec_row_get(set, &row[i].0) {
            Some(v) => v,
            None => clone_value(&row[i].1),
        };
        out.push((name, picked));
        proof {
            assert(rv[i as int] == (row@[i as int].0@, row@[i as int].1@));
        }
        i = i + 1;
    }
    proof {
        assert(pairs_view(out@) =~= row_set(rv, sv));
    }
    out
}

impl Table {
    /// An empty table.
    pub fn new() -> (r: Table)
        ensures
            r@ == Seq::<RowModel>::empty(),
    {
        let t = Table { rows: Vec::new() };
        proof {
            assert(t@ =~= Seq::<RowModel>::empty());
        }
        t
    }

    /// How many rows the table holds.
    pub fn row_count(&self) -> (r: usize)
        ensures
            r == self@.len(),
    {
        self.rows.len()
    }

    /// How many rows match `key`.
    pub fn matching(&self, key: &Vec<(Vec<u8>, Value)>) -> (r: usize)
        ensures
            r == count_matching(self@, pairs_view(key@)),
    {
        let ghost tv = self@;
        let ghost kv = pairs_view(key@);
        let mut n: usize = 0;
        let mut i: usize = 0;
        while i < self.rows.len()
            invariant
                0 <= i <= self.rows.len(),
                tv == self@,
                kv == pairs_view(key@),
                tv.len() == self.rows.len(),
                n == count_matching(tv.take(i as int), kv),
                n <= i,
            decreases self.rows.len() - i,
        {
            let m = exec_row_matches(&self.rows[i], key);
            proof {
                let t = tv.take(i + 1);
                assert(t.take(t.len() - 1) =~= tv.take(i as int));
                assert(t.last() == tv[i as int]);
                assert(tv[i as int] == pairs_view(self.rows@[i as int]@));
            }
            if m {
                n = n + 1;
            }
            i = i + 1;
        }
        proof {
            assert(tv.take(tv.len() as int) =~= tv);
        }
        n
    }

    /// The value of column `name` in the first row matching `key`, if any
    /// such row exists and carries the column.
    pub fn lookup(&self, key: &Vec<(Vec<u8>, Value)>, name: &Vec<u8>) -> (r: Option<Value>)
        ensures
            ({
                let rows = self@;
                match r {
                    Some(v) => exists|i: int|
                        0 <= i < rows.len() && row_matches(#[trigger] rows[i], pairs_view(key@))
                            && row_get(rows[i], name@) == Some(v@),
                    None => true,
                }
            }),
    {
        let mut i: usize = 0;
        while i < self.rows.len()
            invariant
                0 <= i <= self.rows.len(),
                self@.len() == self.rows.len(),
            decreases self.rows.len() - i,
        {
            proof {
                assert(self@[i as int] == pairs_view(self.rows@[i as int]@));
            }
            if exec_row_matches(&self.rows[i], key) {
                return exec_row_get(&self.rows[i], name);
            }
            i = i + 1;
        }
        None
    }

    /// Applies one operation; the new contents are exactly what `apply_spec`
    /// assigns. Matching zero rows is a no-op, never an error.
    #[verifier::rlimit(100)]
    pub fn apply(&mut self, op: &Operation)
        ensures
            final(self)@ == apply_spec(old(self)@, op@),
    {
        match op {
            Operation::Insert { table: _, columns } => {
                let row = clone_pairs(columns);
                let ghost before = self@;
                self.rows.push(row);
                proof {
                    assert(self@ =~= before.push(pairs_view(columns@)));
                }
            },
            Operation::Update { table: _, set, key } => {
                self.write_matches(set, key);
            },
            Operation::Delete { table: _, key } => {
                let ghost tv = self@;
                let ghost kv = pairs_view(key@);
                let mut kept: Vec<Vec<(Vec<u8>, Value)>> = Vec::new();
                let mut i: usize = 0;
                while i < self.rows.len()
                    invariant
                        0 <= i <= self.rows.len(),
                        tv == self@,
                        kv == pairs_view(key@),
                        tv.len() == self.rows.len(),
                        kept@.map_values(|r: Vec<(Vec<u8>, Value)>| pairs_view(r@))
                            == delete_rows(tv.take(i as int), kv),
                    decreases self.rows.len() - i,
                {
                    let ghost keptv = kept@.map_values(
                        |r: Vec<(Vec<u8>, Value)>| pairs_view(r@),
                    );
                    proof {
                        let t = tv.take(i + 1);
                        assert(t.take(t.len() - 1) =~= tv.take(i as int));
                        assert(t.last() == tv[i as int]);
                        assert(tv[i as int] == pairs_view(self.rows@[i as int]@));
                    }
                    if !exec_row_matches(&self.rows[i], key) {
                        let row = clone_pairs(&self.rows[i]);
                        kept.push(row);
                        proof {
                            assert(kept@.map_values(|r: Vec<(Vec<u8>, Value)>| pairs_view(r@))
                                =~= keptv + seq![tv[i as int]]);
                            assert(keptv + seq![tv[i as int]] =~= delete_rows(
                                tv.take(i + 1),
                                kv,
                            ));
                        }
                    } else {
                        proof {
                            assert(kept@.map_values(|r: Vec<(Vec<u8>, Value)>| pairs_view(r@))
                                =~= delete_rows(tv.take(i + 1), kv));
                        }
                    }
                    i = i + 1;
                }
                self.rows = kept;
                proof {
                    assert(tv.take(tv.len() as int) =~= tv);
                }
            },
            Operation::Upsert { table: _, columns, conflict_key } => {
                let mut cp: Vec<(Vec<u8>, Value)> = Vec::new();
                let mut k: usize = 0;
                while k < conflict_key.len()
                    invariant
                        0 <= k <= conflict_key.len(),
                        cp@.len() == k,
                        forall|m: int|
                            0 <= m < k ==> pairs_view(cp@)[m] == conflict_pairs(
                                pairs_view(columns@),
                                crate::operation::names_view(conflict_key@),
                            )[m],
                    decreases conflict_key.len() - k,
                {
                    let name = copy_bytes(&conflict_key[k]);
                    let val: Value = match exec_row_get(columns, &conflict_key[k]) {
                        Some(v) => v,
                        None => Value::Null,
                    };
                    let ghost nv = name@;
                    let ghost vv = val@;
                    let ghost old_cp = cp@;
                    cp.push((name, val));
                    proof {
                        let ckv = crate::operation::names_view(conflict_key@);
                        let target = conflict_pairs(pairs_view(columns@), ckv);
                        assert(ckv[k as int] == conflict_key@[k as int]@);
                        assert(target[k as int] == (
                            ckv[k as int],
                            match row_get(pairs_view(columns@), ckv[k as int]) {
                                Some(v) => v,
                                None => ValModel::Null,
                            },
                        ));
                        assert forall|m: int| 0 <= m < k + 1 implies pairs_view(cp@)[m]
                            == target[m] by {
                            if m < k {
                                assert(cp@[m] == old_cp[m]);
                                assert(pairs_view(old_cp)[m] == target[m]);
                            } else {
                                assert(cp@[m] == (cp@[m].0, cp@[m].1));
                                assert(pairs_view(cp@)[m] == (nv, vv));
                            }
                        }
                    }
                    k = k + 1;
                }
                proof {
                    assert(pairs_view(cp@) =~= conflict_pairs(
                        pairs_view(columns@),
                        crate::operation::names_view(conflict_key@),
                    ));
                }
                let n = self.matching(&cp);
                if n > 0 {
                    proof {
                        crate::semantics::lemma_count_matching_exists(self@, pairs_view(cp@));
                    }
                    self.write_matches(columns, &cp);
                } else {
                    proof {
                        crate::semantics::lemma_count_matching_exists(self@, pairs_view(cp@));
                    }
                    let ghost before = self@;
                    let row = clone_pairs(columns);
                    self.rows.push(row);
                    proof {
                        assert(self@ =~= before.push(pairs_view(columns@)));
                    }
                }
            },
        }
    }

    /// Writes `set` to every row matching `key`.
    fn write_matches(&mut self, set: &Vec<(Vec<u8>, Value)>, key: &Vec<(Vec<u8>, Value)>)
        ensures
            final(self)@ == update_rows(old(self)@, pairs_view(set@), pairs_view(key@)),
    {
        let ghost tv = self@;
        let ghost sv = pairs_view(set@);
        let ghost kv = pairs_view(key@);
        let mut out: Vec<Vec<(Vec<u8>, Value)>> = Vec::new();
        let mut i: usize = 0;
        while i < self.rows.len()
            invariant
                0 <= i <= self.rows.len(),
                tv == self@,
                sv == pairs_view(set@),
                kv == pairs_view(key@),
                tv.len() == self.rows.len(),
                out@.len() == i,
                forall|m: int|
                    0 <= m < i ==> out@.map_values(|r: Vec<(Vec<u8>, Value)>| pairs_view(r@))[m]
                        == update_rows(tv, sv, kv)[m],
            decreases self.rows.len() - i,
        {
            proof {
                assert(tv[i as int] == pairs_view(self.rows@[i as int]@));
            }
            let row: Vec<(Vec<u8>, Value)> = if exec_row_matches(&self.rows[i], key) {
                exec_row_set(&self.rows[i], set)
            } else {
                clone_pairs(&self.rows[i])
            };
            out.push(row);
            i = i + 1;
        }
        self.rows = out;
        proof {
            assert(self@ =~= update_rows(tv, sv, kv));
        }
    }
}

/// Looking up a named column after `row_set` finds the written value where
/// `set` names the column, and the old value where it does not.
pub proof fn lemma_row_get_row_set(row: RowModel, set: RowModel, n: Seq<u8>)
    ensures
        row_get(row_set(row, set), n) == (match row_get(row, n) {
            None => None::<ValModel>,
            Some(v) => Some(
                match row_get(set, n) {
                    Some(w) => w,
                    None => v,
                },
            ),
        }),
    decreases row.len(),
{
    if row.len() > 0 {
        let rs = row_set(row, set);
        assert(rs[0].0 == row[0].0);
        if row[0].0 != n {
            assert(rs.skip(1) =~= row_set(row.skip(1), set));
            lemma_row_get_row_set(row.skip(1), set, n);
        }
    }
}

/// A column named among a row's column names is found by `row_get`.
pub proof fn lemma_named_column_found(row: RowModel, n: Seq<u8>)
    requires
        pair_names(row).contains(n),
    ensures
        row_get(row, n) is Some,
    decreases row.len(),
{
    let i = choose|i: int| 0 <= i < pair_names(row).len() && pair_names(row)[i] == n;
    assert(row[i].0 == n);
    if i > 0 {
        assert(pair_names(row.skip(1))[i - 1] == row.skip(1)[i - 1].0);
        assert(row.skip(1)[i - 1] == row[i]);
        assert(pair_names(row.skip(1)).contains(n));
        if row[0].0 != n {
            lemma_named_column_found(row.skip(1), n);
        }
    }
}

/// Deleting with a key that matches no row leaves the table unchanged — a
/// zero-match delete succeeds as a no-op, it is never an error.
pub proof fn lemma_delete_zero_match_noop(t: Seq<RowModel>, table: Seq<u8>, key: RowModel)
    requires
        !any_match(t, key),
    ensures
        apply_spec(t, OpModel::Delete { table, key }) == t,
{
    lemma_delete_rows_noop(t, key);
}

proof fn lemma_delete_rows_noop(t: Seq<RowModel>, key: RowModel)
    requires
        !any_match(t, key),
    ensures
        delete_rows(t, key) == t,
    decreases t.len(),
{
    if t.len() > 0 {
        let prefix = t.take(t.len() - 1);
        assert forall|i: int| 0 <= i < prefix.len() implies !row_matches(
            #[trigger] prefix[i],
            key,
        ) by {
            assert(prefix[i] == t[i]);
        }
        lemma_delete_rows_noop(prefix, key);
        assert(t[t.len() - 1] == t.last());
        assert(!row_matches(t.last(), key));
        assert(delete_rows(t, key) =~= t);
    }
}

/// Applying the same upsert twice to an empty table leaves exactly one row
/// matching the upsert's conflict key: the second application updates the
/// row the first one inserted instead of inserting another.
pub proof fn lemma_upsert_twice_one_match(
    table: Seq<u8>,
    columns: RowModel,
    conflict_key: Seq<Seq<u8>>,
)
    requires
        crate::operation::op_wf(OpModel::Upsert { table, columns, conflict_key }),
    ensures
        ({
            let u = OpModel::Upsert { table, columns, conflict_key };
            let once = apply_spec(Seq::empty(), u);
            let twice = apply_spec(once, u);
            count_matching(twice, conflict_pairs(columns, conflict_key)) == 1
        }),
{
    let u = OpModel::Upsert { table, columns, conflict_key };
    let cp = conflict_pairs(columns, conflict_key);
    let empty = Seq::<RowModel>::empty();
    assert(!any_match(empty, cp));
    let once = apply_spec(empty, u);
    assert(once =~= seq![columns]);
    assert forall|k: int| 0 <= k < cp.len() implies row_get(columns, (#[trigger] cp[k]).0)
        == Some(cp[k].1) by {
        assert(cp[k].0 == conflict_key[k]);
        lemma_named_column_found(columns, conflict_key[k]);
    }
    assert(row_matches(columns, cp));
    assert(once[0] == columns);
    assert(any_match(once, cp));
    let twice = apply_spec(once, u);
    assert(twice =~= seq![row_set(columns, columns)]);
    let updated = row_set(columns, columns);
    assert forall|k: int| 0 <= k < cp.len() implies row_get(updated, (#[trigger] cp[k]).0)
        == Some(cp[k].1) by {
        lemma_row_get_row_set(columns, columns, cp[k].0);
    }
    assert(row_matches(updated, cp));
    assert(twice.len() == 1);
    assert(twice.take(0) =~= Seq::<RowModel>::empty());
    assert(count_matching(twice.take(0), cp) == 0);
    assert(twice.last() == updated);
    assert(row_matches(twice.last(), cp));
    assert(count_matching(twice, cp) == count_matching(twice.take(0), cp) + 1);
}

/// A positive match count names a matching row, and a zero count none.
pub proof fn lemma_count_matching_exists(t: Seq<RowModel>, key: RowModel)
    ensures
        count_matching(t, key) > 0 <==> any_match(t, key),
        count_matching(t, key) >= 0,
    decreases t.len(),
{
    if t.len() > 0 {
        lemma_count_matching_exists(t.take(t.len() - 1), key);
        if count_matching(t, key) > 0 {
            if row_matches(t.last(), key) {
                assert(t[t.len() - 1] == t.last());
            } else {
                let i = choose|i: int|
                    0 <= i < t.len() - 1 && row_matches(#[trigger] t.take(t.len() - 1)[i], key);
                assert(t.take(t.len() - 1)[i] == t[i]);
            }
        }
        if any_match(t, key) {
            let i = choose|i: int| 0 <= i < t.len() && row_matches(#[trigger] t[i], key);
            if i == t.len() - 1 {
            } else {
                assert(t.take(t.len() - 1)[i] == t[i]);
            }
        }
    }
}

} // verus!
