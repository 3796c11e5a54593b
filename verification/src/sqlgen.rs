//! Backend selection and dialect translation: the connection string picks
//! the backend once at startup, and an operation is rendered into that
//! backend's parameterized statement text with its parameters in binding
//! order. Values are never interpolated into the text: the text holds only
//! validated identifiers, fixed words and placeholders.

use vstd::prelude::*;

use crate::decode::starts_with;
use crate::encode::dec_nat;
use crate::encode::emit_dec_u64;
use crate::errors::UnsupportedBackendError;
use crate::operation::OpModel;
use crate::operation::Operation;
use crate::operation::pair_names;
use crate::operation::pair_values;
use crate::operation::pairs_view;
use crate::operation::names_view;
use crate::lex::copy_bytes;
use crate::semantics::clone_value;
use crate::value::ValModel;
use crate::value::Value;
use crate::wire::B_COMMA;
use crate::wire::B_QUOTE;

verus! {

/// ASCII '`'.
pub const B_BTICK: u8 = 96;

/// ASCII '$'.
pub const B_DOLLAR: u8 = 36;

/// ASCII '?'.
pub const B_QMARK: u8 = 63;

/// ASCII ' '.
pub const B_SPACE: u8 = 32;

/// ASCII '('.
pub const B_LPAREN: u8 = 40;

/// ASCII ')'.
pub const B_RPAREN: u8 = 41;

/// ASCII '='.
pub const B_EQ: u8 = 61;

/// The bytes of `"INSERT INTO "`.
pub open spec fn lit_sql_insert_into() -> Seq<u8> {
    seq![73u8, 78u8, 83u8, 69u8, 82u8, 84u8, 32u8, 73u8, 78u8, 84u8, 79u8, 32u8]
}

fn make_lit_sql_insert_into() -> (r: Vec<u8>)
    ensures
        r@ == lit_sql_insert_into(),
{
    let mut v: Vec<u8> = Vec::new();
    v.push(73);
    v.push(78);
    v.push(83);
    v.push(69);
    v.push(82);
    v.push(84);
    v.push(32);
    v.push(73);
    v.push(78);
    v.push(84);
    v.push(79);
    v.push(32);
    proof {
        assert(v@ =~= lit_sql_insert_into());
    }
    v
}

/// The bytes of `") VALUES ("`.
pub open spec fn lit_sql_values() -> Seq<u8> {
    seq![41u8, 32u8, 86u8, 65u8, 76u8, 85u8, 69u8, 83u8, 32u8, 40u8]
}

fn make_lit_sql_values() -> (r: Vec<u8>)
    ensures
        r@ == lit_sql_values(),
{
    let mut v: Vec<u8> = Vec::new();
    v.push(41);
    v.push(32);
    v.push(86);
    v.push(65);
    v.push(76);
    v.push(85);
    v.push(69);
    v.push(83);
    v.push(32);
    v.push(40);
    proof {
        assert(v@ =~= lit_sql_values());
    }
    v
}

/// The bytes of `"UPDATE "`.
pub open spec fn lit_sql_update() -> Seq<u8> {
    seq![85u8, 80u8, 68u8, 65u8, 84u8, 69u8, 32u8]
}

fn make_lit_sql_update() -> (r: Vec<u8>)
    ensures
        r@ == lit_sql_update(),
{
    let mut v: Vec<u8> = Vec::new();
    v.push(85);
    v.push(80);
    v.push(68);
    v.push(65);
    v.push(84);
    v.push(69);
    v.push(32);
    proof {
        assert(v@ =~= lit_sql_update());
    }
    v
}

/// The bytes of `" SET "`.
pub open spec fn lit_sql_set() -> Seq<u8> {
    seq![32u8, 83u8, 69u8, 84u8, 32u8]
}

fn make_lit_sql_set() -> (r: Vec<u8>)
    ensures
        r@ == lit_sql_set(),
{
    let mut v: Vec<u8> = Vec::new();
    v.push(32);
    v.push(83);
    v.push(69);
    v.push(84);
    v.push(32);
    proof {
        assert(v@ =~= lit_sql_set());
    }
    v
}

/// The bytes of `" WHERE "`.
pub open spec fn lit_sql_where() -> Seq<u8> {
    seq![32u8, 87u8, 72u8, 69u8, 82u8, 69u8, 32u8]
}

fn make_lit_sql_where() -> (r: Vec<u8>)
    ensures
        r@ == lit_sql_where(),
{
    let mut v: Vec<u8> = Vec::new();
    v.push(32);
    v.push(87);
    v.push(72);
    v.push(69);
    v.push(82);
    v.push(69);
    v.push(32);
    proof {
        assert(v@ =~= lit_sql_where());
    }
    v
}

/// The bytes of `" AND "`.
pub open spec fn lit_sql_and() -> Seq<u8> {
    seq![32u8, 65u8, 78u8, 68u8, 32u8]
}

fn make_lit_sql_and() -> (r: Vec<u8>)
    ensures
        r@ == lit_sql_and(),
{
    let mut v: Vec<u8> = Vec::new();
    v.push(32);
    v.push(65);
    v.push(78);
    v.push(68);
    v.push(32);
    proof {
        assert(v@ =~= lit_sql_and());
    }
    v
}

/// The bytes of `"DELETE FROM "`.
pub open spec fn lit_sql_delete_from() -> Seq<u8> {
    seq![68u8, 69u8, 76u8, 69u8, 84u8, 69u8, 32u8, 70u8, 82u8, 79u8, 77u8, 32u8]
}

fn make_lit_sql_delete_from() -> (r: Vec<u8>)
    ensures
        r@ == lit_sql_delete_from(),
{
    let mut v: Vec<u8> = Vec::new();
    v.push(68);
    v.push(69);
    v.push(76);
    v.push(69);
    v.push(84);
    v.push(69);
    v.push(32);
    v.push(70);
    v.push(82);
    v.push(79);
    v.push(77);
    v.push(32);
    proof {
        assert(v@ =~= lit_sql_delete_from());
    }
    v
}

/// The bytes of `" ON CONFLICT ("`.
pub open spec fn lit_sql_on_conflict() -> Seq<u8> {
    seq![32u8, 79u8, 78u8, 32u8, 67u8, 79u8, 78u8, 70u8, 76u8, 73u8, 67u8, 84u8, 32u8, 40u8]
}

fn make_lit_sql_on_conflict() -> (r: Vec<u8>)
    ensures
        r@ == lit_sql_on_conflict(),
{
    let mut v: Vec<u8> = Vec::new();
    v.push(32);
    v.push(79);
    v.push(78);
    v.push(32);
    v.push(67);
    v.push(79);
    v.push(78);
    v.push(70);
    v.push(76);
    v.push(73);
    v.push(67);
    v.push(84);
    v.push(32);
    v.push(40);
    proof {
        assert(v@ =~= lit_sql_on_conflict());
    }
    v
}

/// The bytes of `") DO UPDATE SET "`.
pub open spec fn lit_sql_do_update() -> Seq<u8> {
    seq![41u8, 32u8, 68u8, 79u8, 32u8, 85u8, 80u8, 68u8, 65u8, 84u8, 69u8, 32u8, 83u8, 69u8, 84u8, 32u8]
}

fn make_lit_sql_do_update() -> (r: Vec<u8>)
    ensures
        r@ == lit_sql_do_update(),
{
    let mut v: Vec<u8> = Vec::new();
    v.push(41);
    v.push(32);
    v.push(68);
    v.push(79);
    v.push(32);
    v.push(85);
    v.push(80);
    v.push(68);
    v.push(65);
    v.push(84);
    v.push(69);
    v.push(32);
    v.push(83);
    v.push(69);
    v.push(84);
    v.push(32);
    proof {
        assert(v@ =~= lit_sql_do_update());
    }
    v
}

/// The bytes of `"=excluded."`.
pub open spec fn lit_sql_excluded() -> Seq<u8> {
    seq![61u8, 101u8, 120u8, 99u8, 108u8, 117u8, 100u8, 101u8, 100u8, 46u8]
}

fn make_lit_sql_excluded() -> (r: Vec<u8>)
    ensures
        r@ == lit_sql_excluded(),
{
    let mut v: Vec<u8> = Vec::new();
    v.push(61);
    v.push(101);
    v.push(120);
    v.push(99);
    v.push(108);
    v.push(117);
    v.push(100);
    v.push(101);
    v.push(100);
    v.push(46);
    proof {
        assert(v@ =~= lit_sql_excluded());
    }
    v
}

/// The bytes of `" ON DUPLICATE KEY UPDATE "`.
pub open spec fn lit_sql_on_dup() -> Seq<u8> {
    seq![32u8, 79u8, 78u8, 32u8, 68u8, 85u8, 80u8, 76u8, 73u8, 67u8, 65u8, 84u8, 69u8, 32u8, 75u8, 69u8, 89u8, 32u8, 85u8, 80u8, 68u8, 65u8, 84u8, 69u8, 32u8]
}

fn make_lit_sql_on_dup() -> (r: Vec<u8>)
    ensures
        r@ == lit_sql_on_dup(),
{
    let mut v: Vec<u8> = Vec::new();
    v.push(32);
    v.push(79);
    v.push(78);
    v.push(32);
    v.push(68);
    v.push(85);
    v.push(80);
    v.push(76);
    v.push(73);
    v.push(67);
    v.push(65);
    v.push(84);
    v.push(69);
    v.push(32);
    v.push(75);
    v.push(69);
    v.push(89);
    v.push(32);
    v.push(85);
    v.push(80);
    v.push(68);
    v.push(65);
    v.push(84);
    v.push(69);
    v.push(32);
    proof {
        assert(v@ =~= lit_sql_on_dup());
    }
    v
}

/// The bytes of `"=VALUES("`.
pub open spec fn lit_sql_eq_values() -> Seq<u8> {
    seq![61u8, 86u8, 65u8, 76u8, 85u8, 69u8, 83u8, 40u8]
}

fn make_lit_sql_eq_values() -> (r: Vec<u8>)
    ensures
        r@ == lit_sql_eq_values(),
{
    let mut v: Vec<u8> = Vec::new();
    v.push(61);
    v.push(86);
    v.push(65);
    v.push(76);
    v.push(85);
    v.push(69);
    v.push(83);
    v.push(40);
    proof {
        assert(v@ =~= lit_sql_eq_values());
    }
    v
}

/// The bytes of `"postgres://"`.
pub open spec fn lit_scheme_postgres() -> Seq<u8> {
    seq![112u8, 111u8, 115u8, 116u8, 103u8, 114u8, 101u8, 115u8, 58u8, 47u8, 47u8]
}

fn make_lit_scheme_postgres() -> (r: Vec<u8>)
    ensures
        r@ == lit_scheme_postgres(),
{
    let mut v: Vec<u8> = Vec::new();
    v.push(112);
    v.push(111);
    v.push(115);
    v.push(116);
    v.push(103);
    v.push(114);
    v.push(101);
    v.push(115);
    v.push(58);
    v.push(47);
    v.push(47);
    proof {
        assert(v@ =~= lit_scheme_postgres());
    }
    v
}

/// The bytes of `"postgresql://"`.
pub open spec fn lit_scheme_postgresql() -> Seq<u8> {
    seq![112u8, 111u8, 115u8, 116u8, 103u8, 114u8, 101u8, 115u8, 113u8, 108u8, 58u8, 47u8, 47u8]
}

fn make_lit_scheme_postgresql() -> (r: Vec<u8>)
    ensures
        r@ == lit_scheme_postgresql(),
{
    let mut v: Vec<u8> = Vec::new();
    v.push(112);
    v.push(111);
    v.push(115);
    v.push(116);
    v.push(103);
    v.push(114);
    v.push(101);
    v.push(115);
    v.push(113);
    v.push(108);
    v.push(58);
    v.push(47);
    v.push(47);
    proof {
        assert(v@ =~= lit_scheme_postgresql());
    }
    v
}

/// The bytes of `"mysql://"`.
pub open spec fn lit_scheme_mysql() -> Seq<u8> {
    seq![109u8, 121u8, 115u8, 113u8, 108u8, 58u8, 47u8, 47u8]
}

fn make_lit_scheme_mysql() -> (r: Vec<u8>)
    ensures
        r@ == lit_scheme_mysql(),
{
    let mut v: Vec<u8> = Vec::new();
    v.push(109);
    v.push(121);
    v.push(115);
    v.push(113);
    v.push(108);
    v.push(58);
    v.push(47);
    v.push(47);
    proof {
        assert(v@ =~= lit_scheme_mysql());
    }
    v
}

/// The bytes of `"sqlite://"`.
pub open spec fn lit_scheme_sqlite() -> Seq<u8> {
    seq![115u8, 113u8, 108u8, 105u8, 116u8, 101u8, 58u8, 47u8, 47u8]
}

fn make_lit_scheme_sqlite() -> (r: Vec<u8>)
    ensures
        r@ == lit_scheme_sqlite(),
{
    let mut v: Vec<u8> = Vec::new();
    v.push(115);
    v.push(113);
    v.push(108);
    v.push(105);
    v.push(116);
    v.push(101);
    v.push(58);
    v.push(47);
    v.push(47);
    proof {
        assert(v@ =~= lit_scheme_sqlite());
    }
    v
}

/// The relational backends this sink can drive. New backends add variants
/// here, not new call sites.
#[derive(Clone, Copy, Debug, PartialEq, Eq, Structural)]
pub enum BackendKind {
    Postgres,
    MySql,
    Sqlite,
}

/// Which backend a connection string selects, by its scheme prefix; an
/// unrecognized scheme is refused before any stream consumption begins.
pub open spec fn backend_of(s: Seq<u8>) -> Result<BackendKind, UnsupportedBackendError> {
    if starts_with(s, lit_scheme_postgresql()) || starts_with(s, lit_scheme_postgres()) {
        Ok(BackendKind::Postgres)
    } else if starts_with(s, lit_scheme_mysql()) {
        Ok(BackendKind::MySql)
    } else if starts_with(s, lit_scheme_sqlite()) {
        Ok(BackendKind::Sqlite)
    } else {
        Err(UnsupportedBackendError)
    }
}

/// Whether `v` begins with `p`.
fn has_prefix(v: &Vec<u8>, p: &Vec<u8>) -> (r: bool)
    ensures
        r == starts_with(v@, p@),
{
    if v.len() < p.len() {
        return false;
    }
    let mut k: usize = 0;
    while k < p.len()
        invariant
            0 <= k <= p.len(),
            p.len() <= v.len(),
            forall|m: int| 0 <= m < k ==> v@[m] == p@[m],
        decreases p.len() - k,
    {
        if v[k] != p[k] {
            proof {
                assert(v@.take(p@.len() as int)[k as int] == v@[k as int]);
            }
            return false;
        }
        k = k + 1;
    }
    proof {
        assert(v@.take(p@.len() as int) =~= p@);
    }
    true
}

/// Selects the backend for a connection string, once at startup.
pub fn select_backend(url: &Vec<u8>) -> (r: Result<BackendKind, UnsupportedBackendError>)
    ensures
        r == backend_of(url@),
{
    let pgl = make_lit_scheme_postgresql();
    let pg = make_lit_scheme_postgres();
    let my = make_lit_scheme_mysql();
    let sq = make_lit_scheme_sqlite();
    if has_prefix(url, &pgl) || has_prefix(url, &pg) {
        Ok(BackendKind::Postgres)
    } else if has_prefix(url, &my) {
        Ok(BackendKind::MySql)
    } else if has_prefix(url, &sq) {
        Ok(BackendKind::Sqlite)
    } else {
        Err(UnsupportedBackendError)
    }
}

/// A validated identifier between the dialect's quote characters.
pub open spec fn q_ident(kind: BackendKind, name: Seq<u8>) -> Seq<u8> {
    if kind == BackendKind::MySql {
        seq![B_BTICK] + name + seq![B_BTICK]
    } else {
        seq![B_QUOTE] + name + seq![B_QUOTE]
    }
}

/// The dialect's placeholder for the `n`-th bound parameter (1-based).
pub open spec fn ph(kind: BackendKind, n: int) -> Seq<u8> {
    if kind == BackendKind::Postgres {
        seq![B_DOLLAR] + dec_nat(n as nat)
    } else {
        seq![B_QMARK]
    }
}

/// Quoted column names, comma-separated.
pub open spec fn col_list(kind: BackendKind, ns: Seq<Seq<u8>>) -> Seq<u8>
    decreases ns.len(),
{
    if ns.len() == 0 {
        Seq::empty()
    } else if ns.len() == 1 {
        q_ident(kind, ns[0])
    } else {
        col_list(kind, ns.take(ns.len() - 1)) + seq![B_COMMA] + q_ident(kind, ns.last())
    }
}

/// Placeholders numbered `start..start+count`, comma-separated.
pub open spec fn ph_list(kind: BackendKind, start: int, count: nat) -> Seq<u8>
    decreases count,
{
    if count == 0 {
        Seq::empty()
    } else if count == 1 {
        ph(kind, start)
    } else {
        ph_list(kind, start, (count - 1) as nat) + seq![B_COMMA] + ph(kind, start + count - 1)
    }
}

/// `"name"=PH` assignments, comma-separated, numbered from `start`.
pub open spec fn assign_list(kind: BackendKind, ns: Seq<Seq<u8>>, start: int) -> Seq<u8>
    decreases ns.len(),
{
    if ns.len() == 0 {
        Seq::empty()
    } else if ns.len() == 1 {
        q_ident(kind, ns[0]) + seq![B_EQ] + ph(kind, start)
    } else {
        assign_list(kind, ns.take(ns.len() - 1), start) + seq![B_COMMA] + q_ident(
            kind,
            ns.last(),
        ) + seq![B_EQ] + ph(kind, start + ns.len() - 1)
    }
}

/// `"name"=PH` conditions joined by AND, numbered from `start`.
pub open spec fn cond_list(kind: BackendKind, ns: Seq<Seq<u8>>, start: int) -> Seq<u8>
    decreases ns.len(),
{
    if ns.len() == 0 {
        Seq::empty()
    } else if ns.len() == 1 {
        q_ident(kind, ns[0]) + seq![B_EQ] + ph(kind, start)
    } else {
        cond_list(kind, ns.take(ns.len() - 1), start) + lit_sql_and() + q_ident(kind, ns.last())
            + seq![B_EQ] + ph(kind, start + ns.len() - 1)
    }
}

/// `"name"=excluded."name"` assignments for a conflict-target upsert.
pub open spec fn excl_list(kind: BackendKind, ns: Seq<Seq<u8>>) -> Seq<u8>
    decreases ns.len(),
{
    if ns.len() == 0 {
        Seq::empty()
    } else if ns.len() == 1 {
        q_ident(kind, ns[0]) + lit_sql_excluded() + q_ident(kind, ns[0])
    } else {
        excl_list(kind, ns.take(ns.len() - 1)) + seq![B_COMMA] + q_ident(kind, ns.last())
            + lit_sql_excluded() + q_ident(kind, ns.last())
    }
}

/// `` `name`=VALUES(`name`) `` assignments for a duplicate-key upsert.
pub open spec fn dupkey_list(kind: BackendKind, ns: Seq<Seq<u8>>) -> Seq<u8>
    decreases ns.len(),
{
    if ns.len() == 0 {
        Seq::empty()
    } else if ns.len() == 1 {
        q_ident(kind, ns[0]) + lit_sql_eq_values() + q_ident(kind, ns[0]) + seq![B_RPAREN]
    } else {
        dupkey_list(kind, ns.take(ns.len() - 1)) + seq![B_COMMA] + q_ident(kind, ns.last())
            + lit_sql_eq_values() + q_ident(kind, ns.last()) + seq![B_RPAREN]
    }
}

/// A parameterized INSERT.
pub open spec fn sql_insert_stmt(kind: BackendKind, table: Seq<u8>, ns: Seq<Seq<u8>>) -> Seq<
    u8,
> {
    lit_sql_insert_into() + q_ident(kind, table) + seq![B_SPACE, B_LPAREN] + col_list(kind, ns)
        + lit_sql_values() + ph_list(kind, 1, ns.len()) + seq![B_RPAREN]
}

/// A parameterized UPDATE filtered by the AND-conjunction of the key.
pub open spec fn sql_update_stmt(
    kind: BackendKind,
    table: Seq<u8>,
    set_ns: Seq<Seq<u8>>,
    key_ns: Seq<Seq<u8>>,
) -> Seq<u8> {
    lit_sql_update() + q_ident(kind, table) + lit_sql_set() + assign_list(kind, set_ns, 1)
        + lit_sql_where() + cond_list(kind, key_ns, 1 + set_ns.len() as int)
}

/// A parameterized DELETE filtered by the AND-conjunction of the key.
pub open spec fn sql_delete_stmt(kind: BackendKind, table: Seq<u8>, key_ns: Seq<Seq<u8>>) -> Seq<
    u8,
> {
    lit_sql_delete_from() + q_ident(kind, table) + lit_sql_where() + cond_list(kind, key_ns, 1)
}

/// A native upsert: a conflict-target clause where the dialect has one, a
/// duplicate-key clause on MySQL. Either form updates every written column,
/// so repeating the statement leaves the matched row the same.
pub open spec fn sql_upsert_stmt(
    kind: BackendKind,
    table: Seq<u8>,
    ns: Seq<Seq<u8>>,
    ck: Seq<Seq<u8>>,
) -> Seq<u8> {
    if kind == BackendKind::MySql {
        sql_insert_stmt(kind, table, ns) + lit_sql_on_dup() + dupkey_list(kind, ns)
    } else {
        sql_insert_stmt(kind, table, ns) + lit_sql_on_conflict() + col_list(kind, ck)
            + lit_sql_do_update() + excl_list(kind, ns)
    }
}

/// The statement text an operation translates to in the given dialect.
pub open spec fn sql_of(kind: BackendKind, m: OpModel) -> Seq<u8> {
    match m {
        OpModel::Insert { table, columns } => sql_insert_stmt(kind, table, pair_names(columns)),
        OpModel::Update { table, set, key } => sql_update_stmt(
            kind,
            table,
            pair_names(set),
            pair_names(key),
        ),
        OpModel::Delete { table, key } => sql_delete_stmt(kind, table, pair_names(key)),
        OpModel::Upsert { table, columns, conflict_key } => sql_upsert_stmt(
            kind,
            table,
            pair_names(columns),
            conflict_key,
        ),
    }
}

/// The parameters an operation binds, in placeholder order.
pub open spec fn params_of(m: OpModel) -> Seq<ValModel> {
    match m {
        OpModel::Insert { table: _, columns } => pair_values(columns),
        OpModel::Update { table: _, set, key } => pair_values(set) + pair_values(key),
        OpModel::Delete { table: _, key } => pair_values(key),
        OpModel::Upsert { table: _, columns, conflict_key: _ } => pair_values(columns),
    }
}

/// Appends a quoted identifier.
fn emit_qident(out: &mut Vec<u8>, kind: BackendKind, name: &Vec<u8>)
    ensures
        final(out)@ == old(out)@ + q_ident(kind, name@),
{
    let q: u8 = if kind == BackendKind::MySql {
        B_BTICK
    } else {
        B_QUOTE
    };
    out.push(q);
    let mut body = copy_bytes(name);
    out.append(&mut body);
    out.push(q);
    proof {
        assert(final(out)@ =~= old(out)@ + q_ident(kind, name@));
    }
}

/// Appends the placeholder for parameter `n`.
fn emit_ph(out: &mut Vec<u8>, kind: BackendKind, n: usize)
    ensures
        final(out)@ == old(out)@ + ph(kind, n as int),
{
    if kind == BackendKind::Postgres {
        out.push(B_DOLLAR);
        emit_dec_u64(out, n as u64);
        proof {
            assert(final(out)@ =~= old(out)@ + ph(kind, n as int));
        }
    } else {
        out.push(B_QMARK);
        proof {
            assert(final(out)@ =~= old(out)@ + ph(kind, n as int));
        }
    }
}

/// Appends the quoted column names of `ps`, comma-separated.
fn emit_col_list_pairs(out: &mut Vec<u8>, kind: BackendKind, ps: &Vec<(Vec<u8>, Value)>)
    ensures
        final(out)@ == old(out)@ + col_list(kind, pair_names(pairs_view(ps@))),
{
    let ghost base = out@;
    let ghost ns = pair_names(pairs_view(ps@));
    let mut i: usize = 0;
    while i < ps.len()
        invariant
            0 <= i <= ps.len(),
            ns == pair_names(pairs_view(ps@)),
            out@ == base + col_list(kind, ns.take(i as int)),
        decreases ps.len() - i,
    {
        if i > 0 {
            out.push(B_COMMA);
        }
        emit_qident(out, kind, &ps[i].0);
        proof {
            let t = ns.take(i + 1);
            assert(t.take(t.len() - 1) =~= ns.take(i as int));
            assert(t.last() == ns[i as int]);
            assert(ns[i as int] == ps@[i as int].0@);
            assert(out@ =~= base + col_list(kind, ns.take(i + 1)));
        }
        i = i + 1;
    }
    proof {
        assert(ns.take(ns.len() as int) =~= ns);
    }
}

/// Appends the quoted names of `ns`, comma-separated.
fn emit_col_list_names(out: &mut Vec<u8>, kind: BackendKind, ns: &Vec<Vec<u8>>)
    ensures
        final(out)@ == old(out)@ + col_list(kind, names_view(ns@)),
{
    let ghost base = out@;
    let ghost nv = names_view(ns@);
    let mut i: usize = 0;
    while i < ns.len()
        invariant
            0 <= i <= ns.len(),
            nv == names_view(ns@),
            out@ == base + col_list(kind, nv.take(i as int)),
        decreases ns.len() - i,
    {
        if i > 0 {
            out.push(B_COMMA);
        }
        emit_qident(out, kind, &ns[i]);
        proof {
            let t = nv.take(i + 1);
            assert(t.take(t.len() - 1) =~= nv.take(i as int));
            assert(t.last() == nv[i as int]);
            assert(nv[i as int] == ns@[i as int]@);
            assert(out@ =~= base + col_list(kind, nv.take(i + 1)));
        }
        i = i + 1;
    }
    proof {
        assert(nv.take(nv.len() as int) =~= nv);
    }
}

/// Appends `count` placeholders numbered from `start`, comma-separated.
fn emit_ph_list(out: &mut Vec<u8>, kind: BackendKind, start: usize, count: usize)
    requires
        start + count <= usize::MAX,
    ensures
        final(out)@ == old(out)@ + ph_list(kind, start as int, count as nat),
{
    let ghost base = out@;
    let mut i: usize = 0;
    while i < count
        invariant
            0 <= i <= count,
            start + count <= usize::MAX,
            out@ == base + ph_list(kind, start as int, i as nat),
        decreases count - i,
    {
        if i > 0 {
            out.push(B_COMMA);
        }
        emit_ph(out, kind, start + i);
        proof {
            assert(out@ =~= base + ph_list(kind, start as int, (i + 1) as nat));
        }
        i = i + 1;
    }
}

/// Appends the assignments of `ps`, numbered from `start`.
fn emit_assign_list(out: &mut Vec<u8>, kind: BackendKind, ps: &Vec<(Vec<u8>, Value)>, start: usize)
    requires
        start + ps@.len() <= usize::MAX,
    ensures
        final(out)@ == old(out)@ + assign_list(kind, pair_names(pairs_view(ps@)), start as int),
{
    let ghost base = out@;
    let ghost ns = pair_names(pairs_view(ps@));
    let mut i: usize = 0;
    while i < ps.len()
        invariant
            0 <= i <= ps.len(),
            start + ps@.len() <= usize::MAX,
            ns == pair_names(pairs_view(ps@)),
            out@ == base + assign_list(kind, ns.take(i as int), start as int),
        decreases ps.len() - i,
    {
        if i > 0 {
            out.push(B_COMMA);
        }
        emit_qident(out, kind, &ps[i].0);
        out.push(B_EQ);
        emit_ph(out, kind, start + i);
        proof {
            let t = ns.take(i + 1);
            assert(t.take(t.len() - 1) =~= ns.take(i as int));
            assert(t.last() == ns[i as int]);
            assert(ns[i as int] == ps@[i as int].0@);
            assert(out@ =~= base + assign_list(kind, ns.take(i + 1), start as int));
        }
        i = i + 1;
    }
    proof {
        assert(ns.take(ns.len() as int) =~= ns);
    }
}

/// Appends the AND-joined conditions of `ps`, numbered from `start`.
fn emit_cond_list(out: &mut Vec<u8>, kind: BackendKind, ps: &Vec<(Vec<u8>, Value)>, start: usize)
    requires
        start + ps@.len() <= usize::MAX,
    ensures
        final(out)@ == old(out)@ + cond_list(kind, pair_names(pairs_view(ps@)), start as int),
{
    let ghost base = out@;
    let ghost ns = pair_names(pairs_view(ps@));
    let mut i: usize = 0;
    while i < ps.len()
        invariant
            0 <= i <= ps.len(),
            start + ps@.len() <= usize::MAX,
            ns == pair_names(pairs_view(ps@)),
            out@ == base + cond_list(kind, ns.take(i as int), start as int),
        decreases ps.len() - i,
    {
        if i > 0 {
            let mut sep = make_lit_sql_and();
            out.append(&mut sep);
        }
        emit_qident(out, kind, &ps[i].0);
        out.push(B_EQ);
        emit_ph(out, kind, start + i);
        proof {
            let t = ns.take(i + 1);
            assert(t.take(t.len() - 1) =~= ns.take(i as int));
            assert(t.last() == ns[i as int]);
            assert(ns[i as int] == ps@[i as int].0@);
            assert(out@ =~= base + cond_list(kind, ns.take(i + 1), start as int));
        }
        i = i + 1;
    }
    proof {
        assert(ns.take(ns.len() as int) =~= ns);
    }
}

/// Appends the excluded-row assignments of `ps`.
fn emit_excl_list(out: &mut Vec<u8>, kind: BackendKind, ps: &Vec<(Vec<u8>, Value)>)
    ensures
        final(out)@ == old(out)@ + excl_list(kind, pair_names(pairs_view(ps@))),
{
    let ghost base = out@;
    let ghost ns = pair_names(pairs_view(ps@));
    let mut i: usize = 0;
    while i < ps.len()
        invariant
            0 <= i <= ps.len(),
            ns == pair_names(pairs_view(ps@)),
            out@ == base + excl_list(kind, ns.take(i as int)),
        decreases ps.len() - i,
    {
        if i > 0 {
            out.push(B_COMMA);
        }
        emit_qident(out, kind, &ps[i].0);
        let mut mid = make_lit_sql_excluded();
        out.append(&mut mid);
        emit_qident(out, kind, &ps[i].0);
        proof {
            let t = ns.take(i + 1);
            assert(t.take(t.len() - 1) =~= ns.take(i as int));
            assert(t.last() == ns[i as int]);
            assert(ns[i as int] == ps@[i as int].0@);
            assert(out@ =~= base + excl_list(kind, ns.take(i + 1)));
        }
        i = i + 1;
    }
    proof {
        assert(ns.take(ns.len() as int) =~= ns);
    }
}

/// Appends the duplicate-key assignments of `ps`.
fn emit_dupkey_list(out: &mut Vec<u8>, kind: BackendKind, ps: &Vec<(Vec<u8>, Value)>)
    ensures
        final(out)@ == old(out)@ + dupkey_list(kind, pair_names(pairs_view(ps@))),
{
    let ghost base = out@;
    let ghost ns = pair_names(pairs_view(ps@));
    let mut i: usize = 0;
    while i < ps.len()
        invariant
            0 <= i <= ps.len(),
            ns == pair_names(pairs_view(ps@)),
            out@ == base + dupkey_list(kind, ns.take(i as int)),
        decreases ps.len() - i,
    {
        if i > 0 {
            out.push(B_COMMA);
        }
        emit_qident(out, kind, &ps[i].0);
        let mut mid = make_lit_sql_eq_values();
        out.append(&mut mid);
        emit_qident(out, kind, &ps[i].0);
        out.push(B_RPAREN);
        proof {
            let t = ns.take(i + 1);
            assert(t.take(t.len() - 1) =~= ns.take(i as int));
            assert(t.last() == ns[i as int]);
            assert(ns[i as int] == ps@[i as int].0@);
            assert(out@ =~= base + dupkey_list(kind, ns.take(i + 1)));
        }
        i = i + 1;
    }
    proof {
        assert(ns.take(ns.len() as int) =~= ns);
    }
}

/// Appends the parameter values of `ps`, in order.
fn push_params(params: &mut Vec<Value>, ps: &Vec<(Vec<u8>, Value)>)
    ensures
        final(params)@.map_values(|v: Value| v@) == old(params)@.map_values(|v: Value| v@)
            + pair_values(pairs_view(ps@)),
{
    let ghost base = params@.map_values(|v: Value| v@);
    let ghost pv = pair_values(pairs_view(ps@));
    proof {
        assert(base + pv.take(0) =~= base);
    }
    let mut i: usize = 0;
    while i < ps.len()
        invariant
            0 <= i <= ps.len(),
            base == old(params)@.map_values(|v: Value| v@),
            pv == pair_values(pairs_view(ps@)),
            params@.map_values(|v: Value| v@) == base + pv.take(i as int),
        decreases ps.len() - i,
    {
        let v = clone_value(&ps[i].1);
        let ghost vv = v@;
        let ghost before = params@;
        let ghost before_map = params@.map_values(|v: Value| v@);
        params.push(v);
        proof {
            assert(pv[i as int] == ps@[i as int].1@);
            assert(vv == pv[i as int]);
            assert(params@ == before.push(v));
            assert forall|k: int| 0 <= k < params@.len() implies params@.map_values(
                |v: Value| v@,
            )[k] == (before_map.push(vv))[k] by {
                if k < before.len() {
                    assert(params@[k] == before[k]);
                    assert(before_map[k] == before[k]@);
                } else {
                    assert(params@[k] == v);
                }
            }
            assert(params@.map_values(|v: Value| v@) =~= before_map.push(vv));
            assert(pv.take(i + 1) =~= pv.take(i as int).push(pv[i as int]));
            assert((base + pv.take(i as int)).push(vv) =~= base + pv.take(i + 1));
            assert(params@.map_values(|v: Value| v@) =~= base + pv.take(i + 1));
        }
        i = i + 1;
    }
    proof {
        assert(pv.take(pv.len() as int) =~= pv);
    }
}

/// Appends the fixed opening of an INSERT up to and including its
/// placeholder list and closing parenthesis.
fn emit_insert_stmt(
    out: &mut Vec<u8>,
    kind: BackendKind,
    table: &Vec<u8>,
    columns: &Vec<(Vec<u8>, Value)>,
)
    requires
        columns@.len() < usize::MAX,
    ensures
        final(out)@ == old(out)@ + sql_insert_stmt(kind, table@, pair_names(pairs_view(
            columns@,
        ))),
{
    let mut head = make_lit_sql_insert_into();
    out.append(&mut head);
    emit_qident(out, kind, table);
    out.push(B_SPACE);
    out.push(B_LPAREN);
    emit_col_list_pairs(out, kind, columns);
    let mut mid = make_lit_sql_values();
    out.append(&mut mid);
    emit_ph_list(out, kind, 1, columns.len());
    out.push(B_RPAREN);
    proof {
        assert(final(out)@ =~= old(out)@ + sql_insert_stmt(kind, table@, pair_names(
            pairs_view(columns@),
        )));
    }
}

/// Translates an operation into the dialect's parameterized statement and
/// its parameters in binding order. The statement text holds only fixed
/// words, quoted validated identifiers and placeholders — never a value.
#[verifier::rlimit(100)]
pub fn render_operation(kind: BackendKind, op: &Operation) -> (r: (Vec<u8>, Vec<Value>))
    requires
        op.wf(),
        params_of(op@).len() < usize::MAX,
    ensures
        r.0@ == sql_of(kind, op@),
        r.1@.map_values(|v: Value| v@) == params_of(op@),
{
    let mut out: Vec<u8> = Vec::new();
    let mut params: Vec<Value> = Vec::new();
    proof {
        assert(params@.map_values(|v: Value| v@) =~= Seq::<ValModel>::empty());
    }
    match op {
        Operation::Insert { table, columns } => {
            proof {
                assert(params_of(op@).len() == columns@.len());
            }
            emit_insert_stmt(&mut out, kind, table, columns);
            push_params(&mut params, columns);
            proof {
                assert(Seq::<ValModel>::empty() + pair_values(pairs_view(columns@))
                    =~= pair_values(pairs_view(columns@)));
            }
        },
        Operation::Update { table, set, key } => {
            let mut head = make_lit_sql_update();
            out.append(&mut head);
            emit_qident(&mut out, kind, table);
            let mut w1 = make_lit_sql_set();
            out.append(&mut w1);
            proof {
                assert(params_of(op@).len() == set@.len() + key@.len());
                assert(pairs_view(key@).len() > 0);
            }
            emit_assign_list(&mut out, kind, set, 1);
            let mut w2 = make_lit_sql_where();
            out.append(&mut w2);
            emit_cond_list(&mut out, kind, key, 1 + set.len());
            push_params(&mut params, set);
            push_params(&mut params, key);
            proof {
                assert(out@ =~= sql_of(kind, op@));
                assert(Seq::<ValModel>::empty() + pair_values(pairs_view(set@))
                    =~= pair_values(pairs_view(set@)));
                assert(params@.map_values(|v: Value| v@) =~= params_of(op@));
            }
        },
        Operation::Delete { table, key } => {
            proof {
                assert(params_of(op@).len() == key@.len());
            }
            let mut head = make_lit_sql_delete_from();
            out.append(&mut head);
            emit_qident(&mut out, kind, table);
            let mut w = make_lit_sql_where();
            out.append(&mut w);
            emit_cond_list(&mut out, kind, key, 1);
            push_params(&mut params, key);
            proof {
                assert(out@ =~= sql_of(kind, op@));
                assert(Seq::<ValModel>::empty() + pair_values(pairs_view(key@))
                    =~= pair_values(pairs_view(key@)));
            }
        },
        Operation::Upsert { table, columns, conflict_key } => {
            proof {
                assert(params_of(op@).len() == columns@.len());
            }
            emit_insert_stmt(&mut out, kind, table, columns);
            if kind == BackendKind::MySql {
                let mut w = make_lit_sql_on_dup();
                out.append(&mut w);
                emit_dupkey_list(&mut out, kind, columns);
            } else {
                let mut w1 = make_lit_sql_on_conflict();
                out.append(&mut w1);
                emit_col_list_names(&mut out, kind, conflict_key);
                let mut w2 = make_lit_sql_do_update();
                out.append(&mut w2);
                emit_excl_list(&mut out, kind, columns);
            }
            push_params(&mut params, columns);
            proof {
                assert(out@ =~= sql_of(kind, op@));
                assert(Seq::<ValModel>::empty() + pair_values(pairs_view(columns@))
                    =~= pair_values(pairs_view(columns@)));
            }
        },
    }
    (out, params)
}

} // verus!
