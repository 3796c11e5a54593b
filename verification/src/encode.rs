//! The wire encoder: the specification serializer `ser_op` defines the
//! canonical byte form of an operation, and `encode_operation` is proved to
//! produce exactly that form.

use vstd::prelude::*;

use crate::lex::B_D0;
use crate::lex::B_LA;
use crate::lex::B_MINUS;
use crate::operation::OpModel;
use crate::operation::Operation;
use crate::operation::pairs_view;
use crate::operation::names_view;
use crate::value::ValModel;
use crate::value::Value;
use crate::wire::lit_null;
use crate::wire::lit_true;
use crate::wire::lit_false;
use crate::wire::lit_float;
use crate::wire::lit_bytes;
use crate::wire::lit_timestamp;
use crate::wire::lit_insert;
use crate::wire::lit_update;
use crate::wire::lit_delete;
use crate::wire::lit_upsert;
use crate::wire::lit_table;
use crate::wire::lit_columns;
use crate::wire::lit_set;
use crate::wire::lit_key;
use crate::wire::lit_conflict_key;
use crate::wire::make_lit_null;
use crate::wire::make_lit_true;
use crate::wire::make_lit_false;
use crate::wire::make_lit_float;
use crate::wire::make_lit_bytes;
use crate::wire::make_lit_timestamp;
use crate::wire::make_lit_insert;
use crate::wire::make_lit_update;
use crate::wire::make_lit_delete;
use crate::wire::make_lit_upsert;
use crate::wire::make_lit_table;
use crate::wire::make_lit_columns;
use crate::wire::make_lit_set;
use crate::wire::make_lit_key;
use crate::wire::make_lit_conflict_key;
use crate::wire::B_LBRACE;
use crate::wire::B_RBRACE;
use crate::wire::B_LBRACK;
use crate::wire::B_RBRACK;
use crate::wire::B_COMMA;
use crate::wire::B_COLON;
use crate::wire::B_QUOTE;
use crate::wire::B_BSL;
use crate::wire::B_LOW_U;

verus! {

/// The decimal numeral of `n`, most significant digit first.
pub open spec fn dec_nat(n: nat) -> Seq<u8>
    decreases n,
{
    if n < 10 {
        seq![(B_D0 + n) as u8]
    } else {
        dec_nat(n / 10) + seq![(B_D0 + n % 10) as u8]
    }
}

/// The decimal numeral of a signed integer.
pub open spec fn ser_int(i: int) -> Seq<u8> {
    if i < 0 {
        seq![B_MINUS] + dec_nat((-i) as nat)
    } else {
        dec_nat(i as nat)
    }
}

/// The lower-case hex digit of `n < 16`.
pub open spec fn hex_digit(n: int) -> u8 {
    if n < 10 {
        (B_D0 + n) as u8
    } else {
        (B_LA + (n - 10)) as u8
    }
}

/// How one byte of a text value appears inside a JSON string: quote and
/// backslash are escaped, control bytes become `\u00XX`, everything else is
/// written verbatim.
pub open spec fn esc_byte(b: u8) -> Seq<u8> {
    if b == B_QUOTE {
        seq![B_BSL, B_QUOTE]
    } else if b == B_BSL {
        seq![B_BSL, B_BSL]
    } else if b < 32 {
        seq![B_BSL, B_LOW_U, B_D0, B_D0, hex_digit(b as int / 16), hex_digit(b as int % 16)]
    } else {
        seq![b]
    }
}

/// The escaped body of a JSON string.
pub open spec fn esc_bytes(s: Seq<u8>) -> Seq<u8>
    decreases s.len(),
{
    if s.len() == 0 {
        Seq::empty()
    } else {
        esc_bytes(s.take(s.len() - 1)) + esc_byte(s.last())
    }
}

/// A JSON string: quoted, escaped bytes.
pub open spec fn ser_str(s: Seq<u8>) -> Seq<u8> {
    seq![B_QUOTE] + esc_bytes(s) + seq![B_QUOTE]
}

/// One value on the wire. Scalars that JSON can carry directly are written
/// directly; a float, byte array or timestamp is a single-key object whose
/// key names the value kind.
pub open spec fn ser_val(m: ValModel) -> Seq<u8> {
    match m {
        ValModel::Null => lit_null(),
        ValModel::Boolean(b) => if b {
            lit_true()
        } else {
            lit_false()
        },
        ValModel::Integer(i) => ser_int(i),
        ValModel::Text(t) => ser_str(t),
        ValModel::Float(t) => seq![B_LBRACE, B_QUOTE] + lit_float() + seq![B_QUOTE, B_COLON]
            + ser_str(t) + seq![B_RBRACE],
        ValModel::Bytes(b) => seq![B_LBRACE, B_QUOTE] + lit_bytes() + seq![B_QUOTE, B_COLON,
            B_LBRACK] + ser_bytelist_items(b) + seq![B_RBRACK, B_RBRACE],
        ValModel::Timestamp(t) => seq![B_LBRACE, B_QUOTE] + lit_timestamp() + seq![B_QUOTE,
            B_COLON] + ser_int(t) + seq![B_RBRACE],
    }
}

/// One `[name, value]` pair on the wire.
pub open spec fn ser_pair(p: (Seq<u8>, ValModel)) -> Seq<u8> {
    seq![B_LBRACK] + ser_str(p.0) + seq![B_COMMA] + ser_val(p.1) + seq![B_RBRACK]
}

/// Comma-separated pairs.
pub open spec fn ser_pairs_items(ps: Seq<(Seq<u8>, ValModel)>) -> Seq<u8>
    decreases ps.len(),
{
    if ps.len() == 0 {
        Seq::empty()
    } else if ps.len() == 1 {
        ser_pair(ps[0])
    } else {
        ser_pairs_items(ps.take(ps.len() - 1)) + seq![B_COMMA] + ser_pair(ps.last())
    }
}

/// Comma-separated column names.
pub open spec fn ser_names_items(ns: Seq<Seq<u8>>) -> Seq<u8>
    decreases ns.len(),
{
    if ns.len() == 0 {
        Seq::empty()
    } else if ns.len() == 1 {
        ser_str(ns[0])
    } else {
        ser_names_items(ns.take(ns.len() - 1)) + seq![B_COMMA] + ser_str(ns.last())
    }
}

/// Comma-separated byte numerals.
pub open spec fn ser_bytelist_items(bs: Seq<u8>) -> Seq<u8>
    decreases bs.len(),
{
    if bs.len() == 0 {
        Seq::empty()
    } else if bs.len() == 1 {
        dec_nat(bs[0] as nat)
    } else {
        ser_bytelist_items(bs.take(bs.len() - 1)) + seq![B_COMMA] + dec_nat(bs.last() as nat)
    }
}

/// `"name":` for a field whose name is the literal `name`.
pub open spec fn ser_field(name: Seq<u8>) -> Seq<u8> {
    seq![B_QUOTE] + name + seq![B_QUOTE, B_COLON]
}

/// The body of an insert document: its table and columns fields.
pub open spec fn ser_insert_body(table: Seq<u8>, columns: Seq<(Seq<u8>, ValModel)>) -> Seq<u8> {
    seq![B_LBRACE] + ser_field(lit_table()) + ser_str(table) + seq![B_COMMA] + ser_field(
        lit_columns(),
    ) + seq![B_LBRACK] + ser_pairs_items(columns) + seq![B_RBRACK, B_RBRACE]
}

/// The body of an update document: its table, set and key fields.
pub open spec fn ser_update_body(
    table: Seq<u8>,
    set: Seq<(Seq<u8>, ValModel)>,
    key: Seq<(Seq<u8>, ValModel)>,
) -> Seq<u8> {
    seq![B_LBRACE] + ser_field(lit_table()) + ser_str(table) + seq![B_COMMA] + ser_field(
        lit_set(),
    ) + seq![B_LBRACK] + ser_pairs_items(set) + seq![B_RBRACK, B_COMMA] + ser_field(lit_key())
        + seq![B_LBRACK] + ser_pairs_items(key) + seq![B_RBRACK, B_RBRACE]
}

/// The body of a delete document: its table and key fields.
pub open spec fn ser_delete_body(table: Seq<u8>, key: Seq<(Seq<u8>, ValModel)>) -> Seq<u8> {
    seq![B_LBRACE] + ser_field(lit_table()) + ser_str(table) + seq![B_COMMA] + ser_field(
        lit_key(),
    ) + seq![B_LBRACK] + ser_pairs_items(key) + seq![B_RBRACK, B_RBRACE]
}

/// The body of an upsert document: its table, columns and conflict-key
/// fields.
pub open spec fn ser_upsert_body(
    table: Seq<u8>,
    columns: Seq<(Seq<u8>, ValModel)>,
    conflict_key: Seq<Seq<u8>>,
) -> Seq<u8> {
    seq![B_LBRACE] + ser_field(lit_table()) + ser_str(table) + seq![B_COMMA] + ser_field(
        lit_columns(),
    ) + seq![B_LBRACK] + ser_pairs_items(columns) + seq![B_RBRACK, B_COMMA] + ser_field(
        lit_conflict_key(),
    ) + seq![B_LBRACK] + ser_names_items(conflict_key) + seq![B_RBRACK, B_RBRACE]
}

/// The whole operation document: a single-key object whose key is the
/// operation kind and whose body lists the fields in a fixed order.
pub open spec fn ser_op(m: OpModel) -> Seq<u8> {
    match m {
        OpModel::Insert { table, columns } => seq![B_LBRACE] + ser_field(lit_insert())
            + ser_insert_body(table, columns) + seq![B_RBRACE],
        OpModel::Update { table, set, key } => seq![B_LBRACE] + ser_field(lit_update())
            + ser_update_body(table, set, key) + seq![B_RBRACE],
        OpModel::Delete { table, key } => seq![B_LBRACE] + ser_field(lit_delete())
            + ser_delete_body(table, key) + seq![B_RBRACE],
        OpModel::Upsert { table, columns, conflict_key } => seq![B_LBRACE] + ser_field(
            lit_upsert(),
        ) + ser_upsert_body(table, columns, conflict_key) + seq![B_RBRACE],
    }
}

/// Appends the decimal numeral of `n`.
pub fn emit_dec_u64(out: &mut Vec<u8>, n: u64)
    ensures
        final(out)@ == old(out)@ + dec_nat(n as nat),
    decreases n,
{
    if n < 10 {
        out.push(B_D0 + n as u8);
        proof {
            assert(final(out)@ =~= old(out)@ + dec_nat(n as nat));
        }
    } else {
        emit_dec_u64(out, n / 10);
        out.push(B_D0 + (n % 10) as u8);
        proof {
            assert(final(out)@ =~= old(out)@ + dec_nat(n as nat));
        }
    }
}

/// Appends the decimal numeral of `i`.
pub fn emit_int(out: &mut Vec<u8>, i: i64)
    ensures
        final(out)@ == old(out)@ + ser_int(i as int),
{
    if i < 0 {
        out.push(B_MINUS);
        let mag: u64 = (-(i as i128)) as u64;
        emit_dec_u64(out, mag);
        proof {
            assert(final(out)@ =~= old(out)@ + ser_int(i as int));
        }
    } else {
        emit_dec_u64(out, i as u64);
    }
}

/// Appends `s` as a JSON string.
pub fn emit_str(out: &mut Vec<u8>, s: &Vec<u8>)
    ensures
        final(out)@ == old(out)@ + ser_str(s@),
{
    let ghost base = out@;
    out.push(B_QUOTE);
    let mut i: usize = 0;
    while i < s.len()
        invariant
            0 <= i <= s.len(),
            out@ == base + seq![B_QUOTE] + esc_bytes(s@.take(i as int)),
        decreases s.len() - i,
    {
        let ghost before = out@;
        let b = s[i];
        if b == B_QUOTE {
            out.push(B_BSL);
            out.push(B_QUOTE);
        } else if b == B_BSL {
            out.push(B_BSL);
            out.push(B_BSL);
        } else if b < 32 {
            out.push(B_BSL);
            out.push(B_LOW_U);
            out.push(B_D0);
            out.push(B_D0);
            let hi = b / 16;
            let lo = b % 16;
            out.push(if hi < 10 {
                B_D0 + hi
            } else {
                B_LA + (hi - 10)
            });
            out.push(if lo < 10 {
                B_D0 + lo
            } else {
                B_LA + (lo - 10)
            });
        } else {
            out.push(b);
        }
        proof {
            assert(out@ =~= before + esc_byte(s@[i as int]));
            let t = s@.take(i + 1);
            assert(t.take(t.len() - 1) =~= s@.take(i as int));
            assert(t.last() == s@[i as int]);
            assert(esc_bytes(t) == esc_bytes(s@.take(i as int)) + esc_byte(s@[i as int]));
            assert(out@ =~= base + seq![B_QUOTE] + esc_bytes(s@.take(i + 1)));
        }
        i = i + 1;
    }
    out.push(B_QUOTE);
    proof {
        assert(s@.take(s@.len() as int) =~= s@);
        assert(final(out)@ =~= old(out)@ + ser_str(s@));
    }
}

/// Appends one value.
pub fn emit_value(out: &mut Vec<u8>, v: &Value)
    ensures
        final(out)@ == old(out)@ + ser_val(v@),
{
    match v {
        Value::Null => {
            let mut l = make_lit_null();
            out.append(&mut l);
        },
        Value::Boolean(b) => {
            let mut l = if *b {
                make_lit_true()
            } else {
                make_lit_false()
            };
            out.append(&mut l);
        },
        Value::Integer(i) => {
            emit_int(out, *i);
        },
        Value::Text(t) => {
            emit_str(out, t);
        },
        Value::Float(t) => {
            out.push(B_LBRACE);
            out.push(B_QUOTE);
            let mut l = make_lit_float();
            out.append(&mut l);
            out.push(B_QUOTE);
            out.push(B_COLON);
            emit_str(out, t);
            out.push(B_RBRACE);
            proof {
                assert(final(out)@ =~= old(out)@ + ser_val(v@));
            }
        },
        Value::Timestamp(t) => {
            out.push(B_LBRACE);
            out.push(B_QUOTE);
            let mut l = make_lit_timestamp();
            out.append(&mut l);
            out.push(B_QUOTE);
            out.push(B_COLON);
            emit_int(out, *t);
            out.push(B_RBRACE);
            proof {
                assert(final(out)@ =~= old(out)@ + ser_val(v@));
            }
        },
        Value::Bytes(bs) => {
            out.push(B_LBRACE);
            out.push(B_QUOTE);
            let mut l = make_lit_bytes();
            out.append(&mut l);
            out.push(B_QUOTE);
            out.push(B_COLON);
            out.push(B_LBRACK);
            let ghost mid = out@;
            let mut i: usize = 0;
            while i < bs.len()
                invariant
                    0 <= i <= bs.len(),
                    out@ == mid + ser_bytelist_items(bs@.take(i as int)),
                decreases bs.len() - i,
            {
                let ghost before = out@;
                if i > 0 {
                    out.push(B_COMMA);
                }
                emit_dec_u64(out, bs[i] as u64);
                proof {
                    let t = bs@.take(i + 1);
                    assert(t.take(t.len() - 1) =~= bs@.take(i as int));
                    assert(t.last() == bs@[i as int]);
                    if i == 0 {
                        assert(out@ =~= mid + ser_bytelist_items(bs@.take(i + 1)));
                    } else {
                        assert(out@ =~= mid + ser_bytelist_items(bs@.take(i + 1)));
                    }
                }
                i = i + 1;
            }
            out.push(B_RBRACK);
            out.push(B_RBRACE);
            proof {
                assert(bs@.take(bs@.len() as int) =~= bs@);
                assert(final(out)@ =~= old(out)@ + ser_val(v@));
            }
        },
    }
}

/// Appends one `[name, value]` pair.
pub fn emit_pair(out: &mut Vec<u8>, name: &Vec<u8>, v: &Value)
    ensures
        final(out)@ == old(out)@ + ser_pair((name@, v@)),
{
    out.push(B_LBRACK);
    emit_str(out, name);
    out.push(B_COMMA);
    emit_value(out, v);
    out.push(B_RBRACK);
    proof {
        assert(final(out)@ =~= old(out)@ + ser_pair((name@, v@)));
    }
}

/// Appends a pair list, brackets included.
pub fn emit_pairs(out: &mut Vec<u8>, ps: &Vec<(Vec<u8>, Value)>)
    ensures
        final(out)@ == old(out)@ + seq![B_LBRACK] + ser_pairs_items(pairs_view(ps@))
            + seq![B_RBRACK],
{
    out.push(B_LBRACK);
    let ghost mid = out@;
    let ghost pv = pairs_view(ps@);
    let mut i: usize = 0;
    while i < ps.len()
        invariant
            0 <= i <= ps.len(),
            pv == pairs_view(ps@),
            out@ == mid + ser_pairs_items(pv.take(i as int)),
        decreases ps.len() - i,
    {
        if i > 0 {
            out.push(B_COMMA);
        }
        emit_pair(out, &ps[i].0, &ps[i].1);
        proof {
            let t = pv.take(i + 1);
            assert(t.take(t.len() - 1) =~= pv.take(i as int));
            assert(t.last() == pv[i as int]);
            assert(pv[i as int] == (ps@[i as int].0@, ps@[i as int].1@));
            assert(out@ =~= mid + ser_pairs_items(pv.take(i + 1)));
        }
        i = i + 1;
    }
    out.push(B_RBRACK);
    proof {
        assert(pv.take(pv.len() as int) =~= pv);
        assert(final(out)@ =~= old(out)@ + seq![B_LBRACK] + ser_pairs_items(pv)
            + seq![B_RBRACK]);
    }
}

/// Appends a name list, brackets included.
pub fn emit_names(out: &mut Vec<u8>, ns: &Vec<Vec<u8>>)
    ensures
        final(out)@ == old(out)@ + seq![B_LBRACK] + ser_names_items(names_view(ns@))
            + seq![B_RBRACK],
{
    out.push(B_LBRACK);
    let ghost mid = out@;
    let ghost nv = names_view(ns@);
    let mut i: usize = 0;
    while i < ns.len()
        invariant
            0 <= i <= ns.len(),
            nv == names_view(ns@),
            out@ == mid + ser_names_items(nv.take(i as int)),
        decreases ns.len() - i,
    {
        if i > 0 {
            out.push(B_COMMA);
        }
        emit_str(out, &ns[i]);
        proof {
            let t = nv.take(i + 1);
            assert(t.take(t.len() - 1) =~= nv.take(i as int));
            assert(t.last() == nv[i as int]);
            assert(nv[i as int] == ns@[i as int]@);
            assert(out@ =~= mid + ser_names_items(nv.take(i + 1)));
        }
        i = i + 1;
    }
    out.push(B_RBRACK);
    proof {
        assert(nv.take(nv.len() as int) =~= nv);
        assert(final(out)@ =~= old(out)@ + seq![B_LBRACK] + ser_names_items(nv)
            + seq![B_RBRACK]);
    }
}

/// Appends `"name":` for a field literal already built.
fn emit_field(out: &mut Vec<u8>, name: Vec<u8>)
    ensures
        final(out)@ == old(out)@ + ser_field(name@),
{
    let ghost nv = name@;
    out.push(B_QUOTE);
    let mut tmp = name;
    out.append(&mut tmp);
    out.push(B_QUOTE);
    out.push(B_COLON);
    proof {
        assert(final(out)@ =~= old(out)@ + ser_field(nv));
    }
}

/// Encodes an operation into its canonical wire form.
#[verifier::rlimit(100)]
pub fn encode_operation(op: &Operation) -> (r: Vec<u8>)
    ensures
        r@ == ser_op(op@),
{
    let mut out: Vec<u8> = Vec::new();
    out.push(B_LBRACE);
    match op {
        Operation::Insert { table, columns } => {
            emit_field(&mut out, make_lit_insert());
            out.push(B_LBRACE);
            emit_field(&mut out, make_lit_table());
            emit_str(&mut out, table);
            out.push(B_COMMA);
            emit_field(&mut out, make_lit_columns());
            emit_pairs(&mut out, columns);
            out.push(B_RBRACE);
            out.push(B_RBRACE);
            proof {
                assert(out@ =~= ser_op(op@));
            }
        },
        Operation::Update { table, set, key } => {
            emit_field(&mut out, make_lit_update());
            out.push(B_LBRACE);
            emit_field(&mut out, make_lit_table());
            emit_str(&mut out, table);
            out.push(B_COMMA);
            emit_field(&mut out, make_lit_set());
            emit_pairs(&mut out, set);
            out.push(B_COMMA);
            emit_field(&mut out, make_lit_key());
            emit_pairs(&mut out, key);
            out.push(B_RBRACE);
            out.push(B_RBRACE);
            proof {
                assert(out@ =~= ser_op(op@));
            }
        },
        Operation::Delete { table, key } => {
            emit_field(&mut out, make_lit_delete());
            out.push(B_LBRACE);
            emit_field(&mut out, make_lit_table());
            emit_str(&mut out, table);
            out.push(B_COMMA);
            emit_field(&mut out, make_lit_key());
            emit_pairs(&mut out, key);
            out.push(B_RBRACE);
            out.push(B_RBRACE);
            proof {
                assert(out@ =~= ser_op(op@));
            }
        },
        Operation::Upsert { table, columns, conflict_key } => {
            emit_field(&mut out, make_lit_upsert());
            out.push(B_LBRACE);
            emit_field(&mut out, make_lit_table());
            emit_str(&mut out, table);
            out.push(B_COMMA);
            emit_field(&mut out, make_lit_columns());
            emit_pairs(&mut out, columns);
            out.push(B_COMMA);
            emit_field(&mut out, make_lit_conflict_key());
            emit_names(&mut out, conflict_key);
            out.push(B_RBRACE);
            out.push(B_RBRACE);
            proof {
                assert(out@ =~= ser_op(op@));
            }
        },
    }
    out
}

} // verus!
