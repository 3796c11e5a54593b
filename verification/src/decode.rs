//! The operation decoder: the specification parser `parse_op` defines which
//! payloads are accepted and what they mean, and `decode_operation` is proved
//! to return exactly its result. Decoding is pure; a rejected payload yields
//! an error and no operation.
//!
//! The accepted form is the canonical compact document that `ser_op` writes:
//! no insignificant whitespace, fields in their fixed order. String escapes
//! (`\"`, `\\`, `\/`, `\n`, `\t`, `\r`, `\b`, `\f`, `\uXXXX` outside the
//! surrogate range) are processed.

use vstd::prelude::*;

use crate::errors::DecodeError;
use crate::lex::B_D0;
use crate::lex::B_MINUS;
use crate::lex::digit_run;
use crate::lex::lemma_skip_skip;
use crate::lex::digits_prefix_len;
use crate::lex::digits_val;
use crate::lex::ident_ok;
use crate::lex::in_i64;
use crate::lex::is_digit;
use crate::lex::num_lit_ok;
use crate::lex::bytes_eq;
use crate::lex::is_valid_ident;
use crate::lex::is_valid_num_lit;
use crate::operation::OpModel;
use crate::operation::Operation;
use crate::operation::pair_names;
use crate::operation::pairs_view;
use crate::operation::pairs_wf;
use crate::operation::names_view;
use crate::value::ValModel;
use crate::value::Value;
use crate::value::val_wf;
use crate::wire::make_lit_bytes;
use crate::wire::make_lit_columns;
use crate::wire::make_lit_conflict_key;
use crate::wire::make_lit_delete;
use crate::wire::make_lit_false;
use crate::wire::make_lit_float;
use crate::wire::make_lit_insert;
use crate::wire::make_lit_key;
use crate::wire::make_lit_null;
use crate::wire::make_lit_set;
use crate::wire::make_lit_table;
use crate::wire::make_lit_timestamp;
use crate::wire::make_lit_true;
use crate::wire::make_lit_update;
use crate::wire::make_lit_upsert;
use crate::wire::B_BSL;
use crate::wire::B_COLON;
use crate::wire::B_COMMA;
use crate::wire::B_LBRACE;
use crate::wire::B_LBRACK;
use crate::wire::B_LOW_B;
use crate::wire::B_LOW_F;
use crate::wire::B_LOW_N;
use crate::wire::B_LOW_R;
use crate::wire::B_LOW_T;
use crate::wire::B_LOW_U;
use crate::wire::B_QUOTE;
use crate::wire::B_RBRACE;
use crate::wire::B_RBRACK;
use crate::wire::B_SLASH;
use crate::wire::lit_bytes;
use crate::wire::lit_columns;
use crate::wire::lit_conflict_key;
use crate::wire::lit_delete;
use crate::wire::lit_false;
use crate::wire::lit_float;
use crate::wire::lit_insert;
use crate::wire::lit_key;
use crate::wire::lit_null;
use crate::wire::lit_set;
use crate::wire::lit_table;
use crate::wire::lit_timestamp;
use crate::wire::lit_true;
use crate::wire::lit_update;
use crate::wire::lit_upsert;
use crate::encode::ser_field;

verus! {

/// Whether `s` begins with `p`.
pub open spec fn starts_with(s: Seq<u8>, p: Seq<u8>) -> bool {
    s.len() >= p.len() && s.take(p.len() as int) == p
}

/// Consumes the exact bytes `lit` or rejects the payload.
pub open spec fn parse_lit(s: Seq<u8>, lit: Seq<u8>) -> Result<Seq<u8>, DecodeError> {
    if starts_with(s, lit) {
        Ok(s.skip(lit.len() as int))
    } else {
        Err(DecodeError::Malformed)
    }
}

/// Whether `b` is an ASCII hex digit.
pub open spec fn is_hex(b: u8) -> bool {
    is_digit(b) || (97 <= b && b <= 102) || (65 <= b && b <= 70)
}

/// The value of a hex digit.
pub open spec fn hex_val(b: u8) -> int {
    if is_digit(b) {
        b - B_D0
    } else if 97 <= b && b <= 102 {
        b - 87
    } else {
        b - 55
    }
}

/// The UTF-8 bytes of a code point below 0x10000.
pub open spec fn utf8_enc(c: int) -> Seq<u8> {
    if c < 0x80 {
        seq![c as u8]
    } else if c < 0x800 {
        seq![(0xC0 + c / 64) as u8, (0x80 + c % 64) as u8]
    } else {
        seq![(0xE0 + c / 4096) as u8, (0x80 + (c / 64) % 64) as u8, (0x80 + c % 64) as u8]
    }
}

/// The body of a JSON string after its opening quote: unescaped bytes and
/// the remainder after the closing quote. Raw control bytes are rejected;
/// `\uXXXX` in the surrogate range is rejected.
pub open spec fn parse_str_body(s: Seq<u8>) -> Result<(Seq<u8>, Seq<u8>), DecodeError>
    decreases s.len(),
{
    if s.len() == 0 {
        Err(DecodeError::Malformed)
    } else if s[0] == B_QUOTE {
        Ok((Seq::empty(), s.skip(1)))
    } else if s[0] == B_BSL {
        if s.len() < 2 {
            Err(DecodeError::Malformed)
        } else {
            let e = s[1];
            if e == B_QUOTE || e == B_BSL || e == B_SLASH {
                match parse_str_body(s.skip(2)) {
                    Ok(p) => Ok((seq![e] + p.0, p.1)),
                    Err(er) => Err(er),
                }
            } else if e == B_LOW_N || e == B_LOW_T || e == B_LOW_R || e == B_LOW_B || e
                == B_LOW_F {
                let c: u8 = if e == B_LOW_N {
                    10
                } else if e == B_LOW_T {
                    9
                } else if e == B_LOW_R {
                    13
                } else if e == B_LOW_B {
                    8
                } else {
                    12
                };
                match parse_str_body(s.skip(2)) {
                    Ok(p) => Ok((seq![c] + p.0, p.1)),
                    Err(er) => Err(er),
                }
            } else if e == B_LOW_U {
                if s.len() < 6 {
                    Err(DecodeError::Malformed)
                } else if !(is_hex(s[2]) && is_hex(s[3]) && is_hex(s[4]) && is_hex(s[5])) {
                    Err(DecodeError::Malformed)
                } else {
                    let c = hex_val(s[2]) * 4096 + hex_val(s[3]) * 256 + hex_val(s[4]) * 16
                        + hex_val(s[5]);
                    if 0xD800 <= c <= 0xDFFF {
                        Err(DecodeError::Malformed)
                    } else {
                        match parse_str_body(s.skip(6)) {
                            Ok(p) => Ok((utf8_enc(c) + p.0, p.1)),
                            Err(er) => Err(er),
                        }
                    }
                }
            } else {
                Err(DecodeError::Malformed)
            }
        }
    } else if s[0] < 32 {
        Err(DecodeError::Malformed)
    } else {
        match parse_str_body(s.skip(1)) {
            Ok(p) => Ok((seq![s[0]] + p.0, p.1)),
            Err(er) => Err(er),
        }
    }
}

/// A JSON string: opening quote, body, closing quote.
pub open spec fn parse_str(s: Seq<u8>) -> Result<(Seq<u8>, Seq<u8>), DecodeError> {
    if s.len() == 0 || s[0] != B_QUOTE {
        Err(DecodeError::Malformed)
    } else {
        parse_str_body(s.skip(1))
    }
}

/// A bare integer: optional minus, digits without a leading zero; the value
/// must fit the 64-bit signed range, else the field's type does not match.
pub open spec fn parse_int(s: Seq<u8>) -> Result<(int, Seq<u8>), DecodeError> {
    let neg = s.len() > 0 && s[0] == B_MINUS;
    let u = if neg {
        s.skip(1)
    } else {
        s
    };
    let d = digits_prefix_len(u);
    if d < 1 {
        Err(DecodeError::Malformed)
    } else if d > 1 && u[0] == B_D0 {
        Err(DecodeError::Malformed)
    } else {
        let v0 = digits_val(u.take(d));
        let v = if neg {
            -v0
        } else {
            v0
        };
        if !in_i64(v) {
            Err(DecodeError::TypeMismatch)
        } else {
            Ok((v, u.skip(d)))
        }
    }
}

/// The items of a `[..]` byte array after its opening bracket, each an
/// integer in `0..=255`, and the remainder after the closing bracket.
pub open spec fn parse_byte_items(s: Seq<u8>) -> Result<(Seq<u8>, Seq<u8>), DecodeError>
    decreases s.len(),
{
    if s.len() == 0 {
        Err(DecodeError::Malformed)
    } else if s[0] == B_RBRACK {
        Ok((Seq::empty(), s.skip(1)))
    } else {
        match parse_int(s) {
            Err(e) => Err(e),
            Ok((v, r)) => if !(0 <= v <= 255) {
                Err(DecodeError::TypeMismatch)
            } else if r.len() == 0 {
                Err(DecodeError::Malformed)
            } else if r[0] == B_RBRACK {
                Ok((seq![v as u8], r.skip(1)))
            } else if r[0] == B_COMMA {
                if r.skip(1).len() < s.len() && (r.skip(1).len() == 0 || r.skip(1)[0]
                    != B_RBRACK) {
                    match parse_byte_items(r.skip(1)) {
                        Ok(p) => Ok((seq![v as u8] + p.0, p.1)),
                        Err(e) => Err(e),
                    }
                } else {
                    Err(DecodeError::Malformed)
                }
            } else {
                Err(DecodeError::Malformed)
            },
        }
    }
}

/// A tagged value object after its opening brace: `"Float"`, `"Bytes"` or
/// `"Timestamp"`, any other tag being unknown.
pub open spec fn parse_tagged(s: Seq<u8>) -> Result<(ValModel, Seq<u8>), DecodeError> {
    match parse_str(s) {
        Err(e) => Err(e),
        Ok((tag, r1)) => match parse_lit(r1, seq![B_COLON]) {
            Err(e) => Err(e),
            Ok(r2) => if tag == lit_float() {
                match parse_str(r2) {
                    Err(e) => Err(e),
                    Ok((t, r3)) => if !num_lit_ok(t) {
                        Err(DecodeError::TypeMismatch)
                    } else {
                        match parse_lit(r3, seq![B_RBRACE]) {
                            Err(e) => Err(e),
                            Ok(r4) => Ok((ValModel::Float(t), r4)),
                        }
                    },
                }
            } else if tag == lit_bytes() {
                match parse_lit(r2, seq![B_LBRACK]) {
                    Err(e) => Err(e),
                    Ok(r3) => match parse_byte_items(r3) {
                        Err(e) => Err(e),
                        Ok((bs, r4)) => match parse_lit(r4, seq![B_RBRACE]) {
                            Err(e) => Err(e),
                            Ok(r5) => Ok((ValModel::Bytes(bs), r5)),
                        },
                    },
                }
            } else if tag == lit_timestamp() {
                match parse_int(r2) {
                    Err(e) => Err(e),
                    Ok((v, r3)) => match parse_lit(r3, seq![B_RBRACE]) {
                        Err(e) => Err(e),
                        Ok(r4) => Ok((ValModel::Timestamp(v), r4)),
                    },
                }
            } else {
                Err(DecodeError::UnknownValueTag)
            },
        },
    }
}

/// One value: a JSON scalar or a tagged value object. A nested array is the
/// wrong kind of thing in a value position.
pub open spec fn parse_value(s: Seq<u8>) -> Result<(ValModel, Seq<u8>), DecodeError> {
    if s.len() == 0 {
        Err(DecodeError::Malformed)
    } else if s[0] == B_LOW_N {
        match parse_lit(s, lit_null()) {
            Ok(r) => Ok((ValModel::Null, r)),
            Err(e) => Err(e),
        }
    } else if s[0] == B_LOW_T {
        match parse_lit(s, lit_true()) {
            Ok(r) => Ok((ValModel::Boolean(true), r)),
            Err(e) => Err(e),
        }
    } else if s[0] == B_LOW_F {
        match parse_lit(s, lit_false()) {
            Ok(r) => Ok((ValModel::Boolean(false), r)),
            Err(e) => Err(e),
        }
    } else if s[0] == B_MINUS || is_digit(s[0]) {
        match parse_int(s) {
            Ok((v, r)) => Ok((ValModel::Integer(v), r)),
            Err(e) => Err(e),
        }
    } else if s[0] == B_QUOTE {
        match parse_str(s) {
            Ok((t, r)) => Ok((ValModel::Text(t), r)),
            Err(e) => Err(e),
        }
    } else if s[0] == B_LBRACE {
        parse_tagged(s.skip(1))
    } else if s[0] == B_LBRACK {
        Err(DecodeError::TypeMismatch)
    } else {
        Err(DecodeError::Malformed)
    }
}

/// One `["name", value]` pair; the name must be a validated identifier.
pub open spec fn parse_pair(s: Seq<u8>) -> Result<((Seq<u8>, ValModel), Seq<u8>), DecodeError> {
    match parse_lit(s, seq![B_LBRACK]) {
        Err(e) => Err(e),
        Ok(r1) => match parse_str(r1) {
            Err(e) => Err(e),
            Ok((name, r2)) => if !ident_ok(name) {
                Err(DecodeError::InvalidIdentifier)
            } else {
                match parse_lit(r2, seq![B_COMMA]) {
                    Err(e) => Err(e),
                    Ok(r3) => match parse_value(r3) {
                        Err(e) => Err(e),
                        Ok((v, r4)) => match parse_lit(r4, seq![B_RBRACK]) {
                            Err(e) => Err(e),
                            Ok(r5) => Ok(((name, v), r5)),
                        },
                    },
                }
            },
        },
    }
}

/// The items of a pair list after its opening bracket, and the remainder
/// after the closing bracket.
pub open spec fn parse_pairs_items(s: Seq<u8>) -> Result<
    (Seq<(Seq<u8>, ValModel)>, Seq<u8>),
    DecodeError,
>
    decreases s.len(),
{
    if s.len() == 0 {
        Err(DecodeError::Malformed)
    } else if s[0] == B_RBRACK {
        Ok((Seq::empty(), s.skip(1)))
    } else {
        match parse_pair(s) {
            Err(e) => Err(e),
            Ok((p, r)) => if r.len() == 0 {
                Err(DecodeError::Malformed)
            } else if r[0] == B_RBRACK {
                Ok((seq![p], r.skip(1)))
            } else if r[0] == B_COMMA {
                if r.skip(1).len() < s.len() && (r.skip(1).len() == 0 || r.skip(1)[0]
                    != B_RBRACK) {
                    match parse_pairs_items(r.skip(1)) {
                        Ok(q) => Ok((seq![p] + q.0, q.1)),
                        Err(e) => Err(e),
                    }
                } else {
                    Err(DecodeError::Malformed)
                }
            } else {
                Err(DecodeError::Malformed)
            },
        }
    }
}

/// The items of a conflict-key name list after its opening bracket.
pub open spec fn parse_names_items(s: Seq<u8>) -> Result<(Seq<Seq<u8>>, Seq<u8>), DecodeError>
    decreases s.len(),
{
    if s.len() == 0 {
        Err(DecodeError::Malformed)
    } else if s[0] == B_RBRACK {
        Ok((Seq::empty(), s.skip(1)))
    } else {
        match parse_str(s) {
            Err(e) => Err(e),
            Ok((name, r)) => if !ident_ok(name) {
                Err(DecodeError::InvalidIdentifier)
            } else if r.len() == 0 {
                Err(DecodeError::Malformed)
            } else if r[0] == B_RBRACK {
                Ok((seq![name], r.skip(1)))
            } else if r[0] == B_COMMA {
                if r.skip(1).len() < s.len() && (r.skip(1).len() == 0 || r.skip(1)[0]
                    != B_RBRACK) {
                    match parse_names_items(r.skip(1)) {
                        Ok(q) => Ok((seq![name] + q.0, q.1)),
                        Err(e) => Err(e),
                    }
                } else {
                    Err(DecodeError::Malformed)
                }
            } else {
                Err(DecodeError::Malformed)
            },
        }
    }
}

/// `{"table":` then the validated table name.
pub open spec fn parse_table(s: Seq<u8>) -> Result<(Seq<u8>, Seq<u8>), DecodeError> {
    match parse_lit(s, seq![B_LBRACE] + ser_field(lit_table())) {
        Err(e) => Err(e),
        Ok(r1) => match parse_str(r1) {
            Err(e) => Err(e),
            Ok((table, r2)) => if !ident_ok(table) {
                Err(DecodeError::InvalidIdentifier)
            } else {
                Ok((table, r2))
            },
        },
    }
}

/// `,"name":[` for a list-valued field.
pub open spec fn parse_list_field(s: Seq<u8>, name: Seq<u8>) -> Result<Seq<u8>, DecodeError> {
    parse_lit(s, seq![B_COMMA] + ser_field(name) + seq![B_LBRACK])
}

/// The body of an insert: table, then its columns, at least one.
pub open spec fn parse_insert_body(s: Seq<u8>) -> Result<(OpModel, Seq<u8>), DecodeError> {
    match parse_table(s) {
        Err(e) => Err(e),
        Ok((table, r1)) => match parse_list_field(r1, lit_columns()) {
            Err(e) => Err(e),
            Ok(r2) => match parse_pairs_items(r2) {
                Err(e) => Err(e),
                Ok((cols, r3)) => if cols.len() == 0 {
                    Err(DecodeError::EmptyColumns)
                } else {
                    match parse_lit(r3, seq![B_RBRACE]) {
                        Err(e) => Err(e),
                        Ok(r4) => Ok((OpModel::Insert { table, columns: cols }, r4)),
                    }
                },
            },
        },
    }
}

/// The body of an update: table, the columns to set (at least one), and the
/// key (at least one column — an empty key would target unboundedly).
pub open spec fn parse_update_body(s: Seq<u8>) -> Result<(OpModel, Seq<u8>), DecodeError> {
    match parse_table(s) {
        Err(e) => Err(e),
        Ok((table, r1)) => match parse_list_field(r1, lit_set()) {
            Err(e) => Err(e),
            Ok(r2) => match parse_pairs_items(r2) {
                Err(e) => Err(e),
                Ok((set, r3)) => if set.len() == 0 {
                    Err(DecodeError::EmptyColumns)
                } else {
                    match parse_list_field(r3, lit_key()) {
                        Err(e) => Err(e),
                        Ok(r4) => match parse_pairs_items(r4) {
                            Err(e) => Err(e),
                            Ok((key, r5)) => if key.len() == 0 {
                                Err(DecodeError::EmptyKey)
                            } else {
                                match parse_lit(r5, seq![B_RBRACE]) {
                                    Err(e) => Err(e),
                                    Ok(r6) => Ok((OpModel::Update { table, set, key }, r6)),
                                }
                            },
                        },
                    }
                },
            },
        },
    }
}

/// The body of a delete: table and the key, at least one column.
pub open spec fn parse_delete_body(s: Seq<u8>) -> Result<(OpModel, Seq<u8>), DecodeError> {
    match parse_table(s) {
        Err(e) => Err(e),
        Ok((table, r1)) => match parse_list_field(r1, lit_key()) {
            Err(e) => Err(e),
            Ok(r2) => match parse_pairs_items(r2) {
                Err(e) => Err(e),
                Ok((key, r3)) => if key.len() == 0 {
                    Err(DecodeError::EmptyKey)
                } else {
                    match parse_lit(r3, seq![B_RBRACE]) {
                        Err(e) => Err(e),
                        Ok(r4) => Ok((OpModel::Delete { table, key }, r4)),
                    }
                },
            },
        },
    }
}

/// The body of an upsert: table, columns (at least one), and a conflict key
/// that is a non-empty subset of the column names.
pub open spec fn parse_upsert_body(s: Seq<u8>) -> Result<(OpModel, Seq<u8>), DecodeError> {
    match parse_table(s) {
        Err(e) => Err(e),
        Ok((table, r1)) => match parse_list_field(r1, lit_columns()) {
            Err(e) => Err(e),
            Ok(r2) => match parse_pairs_items(r2) {
                Err(e) => Err(e),
                Ok((cols, r3)) => if cols.len() == 0 {
                    Err(DecodeError::EmptyColumns)
                } else {
                    match parse_list_field(r3, lit_conflict_key()) {
                        Err(e) => Err(e),
                        Ok(r4) => match parse_names_items(r4) {
                            Err(e) => Err(e),
                            Ok((ck, r5)) => if ck.len() == 0 {
                                Err(DecodeError::EmptyKey)
                            } else if !(forall|i: int|
                                0 <= i < ck.len() ==> pair_names(cols).contains(
                                    #[trigger] ck[i],
                                )) {
                                Err(DecodeError::ConflictKeyMismatch)
                            } else {
                                match parse_lit(r5, seq![B_RBRACE]) {
                                    Err(e) => Err(e),
                                    Ok(r6) => Ok((
                                        OpModel::Upsert {
                                            table,
                                            columns: cols,
                                            conflict_key: ck,
                                        },
                                        r6,
                                    )),
                                }
                            },
                        },
                    }
                },
            },
        },
    }
}

/// A whole payload: a single-key object whose tag names the operation kind,
/// with nothing after the closing brace.
pub open spec fn parse_op(s: Seq<u8>) -> Result<OpModel, DecodeError> {
    match parse_lit(s, seq![B_LBRACE]) {
        Err(e) => Err(e),
        Ok(r0) => match parse_str(r0) {
            Err(e) => Err(e),
            Ok((tag, r1)) => match parse_lit(r1, seq![B_COLON]) {
                Err(e) => Err(e),
                Ok(r2) => {
                    let body = if tag == lit_insert() {
                        parse_insert_body(r2)
                    } else if tag == lit_update() {
                        parse_update_body(r2)
                    } else if tag == lit_delete() {
                        parse_delete_body(r2)
                    } else if tag == lit_upsert() {
                        parse_upsert_body(r2)
                    } else {
                        Err(DecodeError::UnknownOperationTag)
                    };
                    match body {
                        Err(e) => Err(e),
                        Ok((m, r3)) => match parse_lit(r3, seq![B_RBRACE]) {
                            Err(e) => Err(e),
                            Ok(r4) => if r4.len() == 0 {
                                Ok(m)
                            } else {
                                Err(DecodeError::Malformed)
                            },
                        },
                    }
                },
            },
        },
    }
}

/// Consumes the exact bytes `lit` at `i`.
fn x_expect(v: &Vec<u8>, i: usize, lit: &Vec<u8>) -> (r: Result<usize, DecodeError>)
    requires
        i <= v.len(),
    ensures
        ({
            let sp = parse_lit(v@.skip(i as int), lit@);
            match r {
                Ok(j) => sp is Ok && i <= j <= v.len() && v@.skip(j as int) == sp->Ok_0,
                Err(e) => sp is Err && e == sp->Err_0,
            }
        }),
{
    let ghost s = v@.skip(i as int);
    if v.len() - i < lit.len() {
        return Err(DecodeError::Malformed);
    }
    let mut k: usize = 0;
    while k < lit.len()
        invariant
            0 <= k <= lit.len(),
            i <= v.len(),
            lit.len() <= v.len() - i,
            s == v@.skip(i as int),
            forall|m: int| 0 <= m < k ==> s[m] == lit@[m],
        decreases lit.len() - k,
    {
        if v[i + k] != lit[k] {
            proof {
                assert(s[k as int] == v@[i + k]);
                assert(s.take(lit@.len() as int)[k as int] == s[k as int]);
                assert(!starts_with(s, lit@));
            }
            return Err(DecodeError::Malformed);
        }
        proof {
            assert(s[k as int] == v@[i + k]);
        }
        k = k + 1;
    }
    proof {
        assert(s.take(lit@.len() as int) =~= lit@);
        lemma_skip_skip(v@, i as int, lit@.len() as int);
    }
    Ok(i + lit.len())
}

/// Parses a JSON string at `i`, unescaping its body.
#[verifier::rlimit(100)]
fn x_parse_str(v: &Vec<u8>, i: usize) -> (r: Result<(Vec<u8>, usize), DecodeError>)
    requires
        i <= v.len(),
    ensures
        ({
            let sp = parse_str(v@.skip(i as int));
            match r {
                Ok(p) => sp is Ok && p.0@ == sp->Ok_0.0 && i < p.1 <= v.len() && v@.skip(
                    p.1 as int,
                ) == sp->Ok_0.1,
                Err(e) => sp is Err && e == sp->Err_0,
            }
        }),
{
    let ghost s = v@.skip(i as int);
    if i == v.len() || v[i] != B_QUOTE {
        proof {
            if s.len() > 0 {
                assert(s[0] == v@[i as int]);
            }
        }
        return Err(DecodeError::Malformed);
    }
    proof {
        assert(s[0] == v@[i as int]);
        lemma_skip_skip(v@, i as int, 1);
    }
    let ghost body0 = v@.skip(i + 1);
    let mut acc: Vec<u8> = Vec::new();
    let mut j: usize = i + 1;
    loop
        invariant
            i + 1 <= j <= v.len(),
            body0 == v@.skip(i + 1),
            parse_str(v@.skip(i as int)) == parse_str_body(body0),
            parse_str_body(body0) == (match parse_str_body(v@.skip(j as int)) {
                Ok(p) => Ok::<(Seq<u8>, Seq<u8>), DecodeError>((acc@ + p.0, p.1)),
                Err(e) => Err(e),
            }),
        decreases v.len() - j,
    {
        let ghost cur = v@.skip(j as int);
        if j == v.len() {
            return Err(DecodeError::Malformed);
        }
        proof {
            assert(cur[0] == v@[j as int]);
        }
        let b = v[j];
        if b == B_QUOTE {
            proof {
                lemma_skip_skip(v@, j as int, 1);
                assert(acc@ + Seq::<u8>::empty() =~= acc@);
            }
            return Ok((acc, j + 1));
        }
        if b == B_BSL {
            if j + 1 == v.len() {
                return Err(DecodeError::Malformed);
            }
            proof {
                assert(cur[1] == v@[j + 1]);
            }
            let e = v[j + 1];
            if e == B_QUOTE || e == B_BSL || e == B_SLASH {
                let ghost before = acc@;
                acc.push(e);
                proof {
                    lemma_skip_skip(v@, j as int, 2);
                    assert(acc@ =~= before + seq![e]);
                    assert forall|t: Seq<u8>| true implies before + (seq![e] + t) =~= acc@
                        + t by {}
                }
                j = j + 2;
            } else if e == B_LOW_N || e == B_LOW_T || e == B_LOW_R || e == B_LOW_B || e
                == B_LOW_F {
                let c: u8 = if e == B_LOW_N {
                    10
                } else if e == B_LOW_T {
                    9
                } else if e == B_LOW_R {
                    13
                } else if e == B_LOW_B {
                    8
                } else {
                    12
                };
                let ghost before = acc@;
                acc.push(c);
                proof {
                    lemma_skip_skip(v@, j as int, 2);
                    assert(acc@ =~= before + seq![c]);
                    assert forall|t: Seq<u8>| true implies before + (seq![c] + t) =~= acc@
                        + t by {}
                }
                j = j + 2;
            } else if e == B_LOW_U {
                if v.len() - j < 6 {
                    return Err(DecodeError::Malformed);
                }
                proof {
                    assert(cur[2] == v@[j + 2]);
                    assert(cur[3] == v@[j + 3]);
                    assert(cur[4] == v@[j + 4]);
                    assert(cur[5] == v@[j + 5]);
                }
                let h1 = hex_digit_val(v[j + 2]);
                let h2 = hex_digit_val(v[j + 3]);
                let h3 = hex_digit_val(v[j + 4]);
                let h4 = hex_digit_val(v[j + 5]);
                if h1 > 15 || h2 > 15 || h3 > 15 || h4 > 15 {
                    return Err(DecodeError::Malformed);
                }
                let c: u32 = (h1 as u32) * 4096 + (h2 as u32) * 256 + (h3 as u32) * 16
                    + (h4 as u32);
                if 0xD800 <= c && c <= 0xDFFF {
                    return Err(DecodeError::Malformed);
                }
                let ghost before = acc@;
                if c < 0x80 {
                    acc.push(c as u8);
                } else if c < 0x800 {
                    acc.push(0xC0 + (c / 64) as u8);
                    acc.push(0x80 + (c % 64) as u8);
                } else {
                    acc.push(0xE0 + (c / 4096) as u8);
                    acc.push(0x80 + ((c / 64) % 64) as u8);
                    acc.push(0x80 + (c % 64) as u8);
                }
                proof {
                    lemma_skip_skip(v@, j as int, 6);
                    assert(acc@ =~= before + utf8_enc(c as int));
                    assert forall|t: Seq<u8>| true implies before + (utf8_enc(c as int) + t)
                        =~= acc@ + t by {}
                }
                j = j + 6;
            } else {
                return Err(DecodeError::Malformed);
            }
        } else if b < 32 {
            return Err(DecodeError::Malformed);
        } else {
            let ghost before = acc@;
            acc.push(b);
            proof {
                lemma_skip_skip(v@, j as int, 1);
                assert(acc@ =~= before + seq![b]);
                assert forall|t: Seq<u8>| true implies before + (seq![b] + t) =~= acc@
                    + t by {}
            }
            j = j + 1;
        }
    }
}

/// The value of an ASCII hex digit, or 255 when the byte is none.
fn hex_digit_val(b: u8) -> (r: u8)
    ensures
        is_hex(b) <==> r <= 15,
        is_hex(b) ==> r == hex_val(b),
{
    if B_D0 <= b && b <= 57 {
        b - B_D0
    } else if 97 <= b && b <= 102 {
        b - 87
    } else if 65 <= b && b <= 70 {
        b - 55
    } else {
        255
    }
}

/// Parses a bare integer at `i`.
#[verifier::rlimit(100)]
fn x_parse_int(v: &Vec<u8>, i: usize) -> (r: Result<(i64, usize), DecodeError>)
    requires
        i <= v.len(),
    ensures
        ({
            let sp = parse_int(v@.skip(i as int));
            match r {
                Ok(p) => sp is Ok && p.0 as int == sp->Ok_0.0 && i <= p.1 <= v.len() && v@.skip(
                    p.1 as int,
                ) == sp->Ok_0.1,
                Err(e) => sp is Err && e == sp->Err_0,
            }
        }),
{
    let ghost s = v@.skip(i as int);
    let neg = i < v.len() && v[i] == B_MINUS;
    proof {
        if s.len() > 0 {
            assert(s[0] == v@[i as int]);
        }
    }
    let st: usize = if neg {
        i + 1
    } else {
        i
    };
    let ghost u = v@.skip(st as int);
    proof {
        if neg {
            lemma_skip_skip(v@, i as int, 1);
        }
    }
    let j = digit_run(v, st);
    let d = j - st;
    if d < 1 {
        return Err(DecodeError::Malformed);
    }
    proof {
        assert(u[0] == v@[st as int]);
    }
    if d > 1 && v[st] == B_D0 {
        return Err(DecodeError::Malformed);
    }
    if d > 19 {
        proof {
            crate::lex::lemma_pow10_mono(19, (d - 1) as nat);
            crate::lex::lemma_pow10_vals();
            let digs = u.take(d as int);
            assert forall|m: int| 0 <= m < digs.len() implies is_digit(#[trigger] digs[m]) by {
                assert(digs[m] == v@[st + m]);
            }
            assert(digs[0] == v@[st as int]);
            crate::lex::lemma_digits_val_lower(digs);
        }
        return Err(DecodeError::TypeMismatch);
    }
    let mut acc: u64 = 0;
    let mut k: usize = st;
    while k < j
        invariant
            st <= k <= j,
            j <= v.len(),
            j - st <= 19,
            u == v@.skip(st as int),
            forall|m: int| st <= m < j ==> is_digit(#[trigger] v@[m]),
            acc as int == digits_val(u.take(k - st)),
            (acc as int) < crate::lex::pow10((k - st) as nat),
        decreases j - k,
    {
        proof {
            crate::lex::lemma_pow10_mono((k - st) as nat, 18);
            crate::lex::lemma_pow10_vals();
            assert(u[k - st] == v@[k as int]);
        }
        let b = v[k];
        acc = acc * 10 + (b - B_D0) as u64;
        proof {
            let t = u.take(k - st + 1);
            assert(t.take(t.len() - 1) =~= u.take(k - st));
            assert(t.last() == u[k - st]);
            assert forall|m: int| 0 <= m < t.len() implies is_digit(#[trigger] t[m]) by {
                assert(t[m] == v@[st + m]);
            }
            crate::lex::lemma_digits_val_upper(t);
        }
        k = k + 1;
    }
    proof {
        lemma_skip_skip(v@, st as int, d as int);
    }
    if neg {
        if acc > 9223372036854775808u64 {
            return Err(DecodeError::TypeMismatch);
        }
        let res: i64 = if acc == 9223372036854775808u64 {
            i64::MIN
        } else {
            -(acc as i64)
        };
        Ok((res, j))
    } else {
        if acc > 9223372036854775807u64 {
            return Err(DecodeError::TypeMismatch);
        }
        Ok((acc as i64, j))
    }
}

/// A one-byte vector.
fn make_byte(b: u8) -> (r: Vec<u8>)
    ensures
        r@ == seq![b],
{
    let mut v: Vec<u8> = Vec::new();
    v.push(b);
    proof {
        assert(v@ =~= seq![b]);
    }
    v
}

/// `{"table":` as bytes.
fn make_table_prefix() -> (r: Vec<u8>)
    ensures
        r@ == seq![B_LBRACE] + ser_field(lit_table()),
{
    let mut v: Vec<u8> = Vec::new();
    v.push(B_LBRACE);
    v.push(B_QUOTE);
    let mut t = make_lit_table();
    v.append(&mut t);
    v.push(B_QUOTE);
    v.push(B_COLON);
    proof {
        assert(v@ =~= seq![B_LBRACE] + ser_field(lit_table()));
    }
    v
}

/// `,"name":[` as bytes.
fn make_list_prefix(name: Vec<u8>) -> (r: Vec<u8>)
    ensures
        r@ == seq![B_COMMA] + ser_field(name@) + seq![B_LBRACK],
{
    let ghost nv = name@;
    let mut v: Vec<u8> = Vec::new();
    v.push(B_COMMA);
    v.push(B_QUOTE);
    let mut t = name;
    v.append(&mut t);
    v.push(B_QUOTE);
    v.push(B_COLON);
    v.push(B_LBRACK);
    proof {
        assert(v@ =~= seq![B_COMMA] + ser_field(nv) + seq![B_LBRACK]);
    }
    v
}

/// Parses the items of a byte array at `i`.
fn x_parse_byte_items(v: &Vec<u8>, i: usize) -> (r: Result<(Vec<u8>, usize), DecodeError>)
    requires
        i <= v.len(),
    ensures
        ({
            let sp = parse_byte_items(v@.skip(i as int));
            match r {
                Ok(p) => sp is Ok && p.0@ == sp->Ok_0.0 && i < p.1 <= v.len() && v@.skip(
                    p.1 as int,
                ) == sp->Ok_0.1,
                Err(e) => sp is Err && e == sp->Err_0,
            }
        }),
    decreases v.len() - i,
{
    let ghost s = v@.skip(i as int);
    if i == v.len() {
        return Err(DecodeError::Malformed);
    }
    proof {
        assert(s[0] == v@[i as int]);
    }
    if v[i] == B_RBRACK {
        proof {
            lemma_skip_skip(v@, i as int, 1);
        }
        let out: Vec<u8> = Vec::new();
        proof {
            assert(out@ =~= Seq::<u8>::empty());
        }
        return Ok((out, i + 1));
    }
    match x_parse_int(v, i) {
        Err(e) => Err(e),
        Ok((val, j)) => {
            if val < 0 || val > 255 {
                return Err(DecodeError::TypeMismatch);
            }
            if j == v.len() {
                return Err(DecodeError::Malformed);
            }
            let ghost rr = v@.skip(j as int);
            proof {
                assert(rr[0] == v@[j as int]);
            }
            if v[j] == B_RBRACK {
                proof {
                    lemma_skip_skip(v@, j as int, 1);
                }
                let mut out: Vec<u8> = Vec::new();
                out.push(val as u8);
                proof {
                    assert(out@ =~= seq![val as u8]);
                }
                Ok((out, j + 1))
            } else if v[j] == B_COMMA {
                proof {
                    lemma_skip_skip(v@, j as int, 1);
                    assert(rr.skip(1).len() < s.len());
                    if rr.skip(1).len() > 0 {
                        assert(rr.skip(1)[0] == v@[j + 1]);
                    }
                }
                if j + 1 < v.len() && v[j + 1] == B_RBRACK {
                    return Err(DecodeError::Malformed);
                }
                match x_parse_byte_items(v, j + 1) {
                    Err(e) => Err(e),
                    Ok((rest, k)) => {
                        let mut out: Vec<u8> = Vec::new();
                        out.push(val as u8);
                        let mut tail = rest;
                        let ghost tv = tail@;
                        out.append(&mut tail);
                        proof {
                            assert(out@ =~= seq![val as u8] + tv);
                        }
                        Ok((out, k))
                    },
                }
            } else {
                Err(DecodeError::Malformed)
            }
        },
    }
}

/// Parses one value at `i`.
#[verifier::rlimit(100)]
fn x_parse_value(v: &Vec<u8>, i: usize) -> (r: Result<(Value, usize), DecodeError>)
    requires
        i <= v.len(),
    ensures
        ({
            let sp = parse_value(v@.skip(i as int));
            match r {
                Ok(p) => sp is Ok && p.0@ == sp->Ok_0.0 && val_wf(p.0@) && i <= p.1 <= v.len()
                    && v@.skip(p.1 as int) == sp->Ok_0.1,
                Err(e) => sp is Err && e == sp->Err_0,
            }
        }),
{
    let ghost s = v@.skip(i as int);
    if i == v.len() {
        return Err(DecodeError::Malformed);
    }
    proof {
        assert(s[0] == v@[i as int]);
    }
    let b = v[i];
    if b == B_LOW_N {
        let lit = make_lit_null();
        match x_expect(v, i, &lit) {
            Ok(j) => Ok((Value::Null, j)),
            Err(e) => Err(e),
        }
    } else if b == B_LOW_T {
        let lit = make_lit_true();
        match x_expect(v, i, &lit) {
            Ok(j) => Ok((Value::Boolean(true), j)),
            Err(e) => Err(e),
        }
    } else if b == B_LOW_F {
        let lit = make_lit_false();
        match x_expect(v, i, &lit) {
            Ok(j) => Ok((Value::Boolean(false), j)),
            Err(e) => Err(e),
        }
    } else if b == B_MINUS || (B_D0 <= b && b <= 57) {
        match x_parse_int(v, i) {
            Ok((val, j)) => Ok((Value::Integer(val), j)),
            Err(e) => Err(e),
        }
    } else if b == B_QUOTE {
        match x_parse_str(v, i) {
            Ok((t, j)) => Ok((Value::Text(t), j)),
            Err(e) => Err(e),
        }
    } else if b == B_LBRACE {
        proof {
            lemma_skip_skip(v@, i as int, 1);
        }
        match x_parse_str(v, i + 1) {
            Err(e) => Err(e),
            Ok((tag, j1)) => {
                let colon = make_byte(B_COLON);
                match x_expect(v, j1, &colon) {
                    Err(e) => Err(e),
                    Ok(j2) => {
                        let lf = make_lit_float();
                        let lb = make_lit_bytes();
                        let lt = make_lit_timestamp();
                        if bytes_eq(&tag, &lf) {
                            match x_parse_str(v, j2) {
                                Err(e) => Err(e),
                                Ok((txt, j3)) => {
                                    if !is_valid_num_lit(&txt) {
                                        return Err(DecodeError::TypeMismatch);
                                    }
                                    let rb = make_byte(B_RBRACE);
                                    match x_expect(v, j3, &rb) {
                                        Err(e) => Err(e),
                                        Ok(j4) => Ok((Value::Float(txt), j4)),
                                    }
                                },
                            }
                        } else if bytes_eq(&tag, &lb) {
                            let lk = make_byte(B_LBRACK);
                            match x_expect(v, j2, &lk) {
                                Err(e) => Err(e),
                                Ok(j3) => match x_parse_byte_items(v, j3) {
                                    Err(e) => Err(e),
                                    Ok((bs, j4)) => {
                                        let rb = make_byte(B_RBRACE);
                                        match x_expect(v, j4, &rb) {
                                            Err(e) => Err(e),
                                            Ok(j5) => Ok((Value::Bytes(bs), j5)),
                                        }
                                    },
                                },
                            }
                        } else if bytes_eq(&tag, &lt) {
                            match x_parse_int(v, j2) {
                                Err(e) => Err(e),
                                Ok((ts, j3)) => {
                                    let rb = make_byte(B_RBRACE);
                                    match x_expect(v, j3, &rb) {
                                        Err(e) => Err(e),
                                        Ok(j4) => Ok((Value::Timestamp(ts), j4)),
                                    }
                                },
                            }
                        } else {
                            Err(DecodeError::UnknownValueTag)
                        }
                    },
                }
            },
        }
    } else if b == B_LBRACK {
        Err(DecodeError::TypeMismatch)
    } else {
        Err(DecodeError::Malformed)
    }
}

/// Parses one `["name", value]` pair at `i`.
fn x_parse_pair(v: &Vec<u8>, i: usize) -> (r: Result<((Vec<u8>, Value), usize), DecodeError>)
    requires
        i <= v.len(),
    ensures
        ({
            let sp = parse_pair(v@.skip(i as int));
            match r {
                Ok(p) => sp is Ok && p.0.0@ == sp->Ok_0.0.0 && p.0.1@ == sp->Ok_0.0.1
                    && val_wf(p.0.1@) && i < p.1 <= v.len() && v@.skip(p.1 as int)
                    == sp->Ok_0.1,
                Err(e) => sp is Err && e == sp->Err_0,
            }
        }),
{
    let lk = make_byte(B_LBRACK);
    match x_expect(v, i, &lk) {
        Err(e) => Err(e),
        Ok(r1) => match x_parse_str(v, r1) {
            Err(e) => Err(e),
            Ok((name, r2)) => {
                if !is_valid_ident(&name) {
                    return Err(DecodeError::InvalidIdentifier);
                }
                let cm = make_byte(B_COMMA);
                match x_expect(v, r2, &cm) {
                    Err(e) => Err(e),
                    Ok(r3) => match x_parse_value(v, r3) {
                        Err(e) => Err(e),
                        Ok((val, r4)) => {
                            let rk = make_byte(B_RBRACK);
                            match x_expect(v, r4, &rk) {
                                Err(e) => Err(e),
                                Ok(r5) => Ok(((name, val), r5)),
                            }
                        },
                    },
                }
            },
        },
    }
}

/// Parses the items of a pair list at `i`.
#[verifier::rlimit(100)]
fn x_parse_pairs_items(v: &Vec<u8>, i: usize) -> (r: Result<
    (Vec<(Vec<u8>, Value)>, usize),
    DecodeError,
>)
    requires
        i <= v.len(),
    ensures
        ({
            let sp = parse_pairs_items(v@.skip(i as int));
            match r {
                Ok(p) => sp is Ok && pairs_view(p.0@) == sp->Ok_0.0 && pairs_wf(sp->Ok_0.0)
                    && i < p.1 <= v.len() && v@.skip(p.1 as int) == sp->Ok_0.1,
                Err(e) => sp is Err && e == sp->Err_0,
            }
        }),
    decreases v.len() - i,
{
    let ghost s = v@.skip(i as int);
    if i == v.len() {
        return Err(DecodeError::Malformed);
    }
    proof {
        assert(s[0] == v@[i as int]);
    }
    if v[i] == B_RBRACK {
        proof {
            lemma_skip_skip(v@, i as int, 1);
        }
        let out: Vec<(Vec<u8>, Value)> = Vec::new();
        proof {
            assert(pairs_view(out@) =~= Seq::<(Seq<u8>, ValModel)>::empty());
        }
        return Ok((out, i + 1));
    }
    match x_parse_pair(v, i) {
        Err(e) => Err(e),
        Ok((pair, j)) => {
            if j == v.len() {
                return Err(DecodeError::Malformed);
            }
            let ghost rr = v@.skip(j as int);
            proof {
                assert(rr[0] == v@[j as int]);
            }
            if v[j] == B_RBRACK {
                proof {
                    lemma_skip_skip(v@, j as int, 1);
                }
                let mut out: Vec<(Vec<u8>, Value)> = Vec::new();
                let ghost nm = pair.0@;
                let ghost vl = pair.1@;
                out.push(pair);
                proof {
                    assert(pairs_view(out@) =~= seq![(nm, vl)]);
                }
                Ok((out, j + 1))
            } else if v[j] == B_COMMA {
                proof {
                    lemma_skip_skip(v@, j as int, 1);
                    assert(rr.skip(1).len() < s.len());
                    if rr.skip(1).len() > 0 {
                        assert(rr.skip(1)[0] == v@[j + 1]);
                    }
                }
                if j + 1 < v.len() && v[j + 1] == B_RBRACK {
                    return Err(DecodeError::Malformed);
                }
                match x_parse_pairs_items(v, j + 1) {
                    Err(e) => Err(e),
                    Ok((rest, k)) => {
                        let mut out: Vec<(Vec<u8>, Value)> = Vec::new();
                        let ghost nm = pair.0@;
                        let ghost vl = pair.1@;
                        out.push(pair);
                        let mut tail = rest;
                        let ghost tv = tail@;
                        out.append(&mut tail);
                        proof {
                            assert(out@ =~= seq![out@[0]] + tv);
                            assert(pairs_view(out@) =~= seq![(nm, vl)] + pairs_view(tv));
                            let whole = pairs_view(out@);
                            assert forall|m: int|
                                0 <= m < whole.len() implies ident_ok(
                                (#[trigger] whole[m]).0,
                            ) && val_wf(whole[m].1) by {
                                if m > 0 {
                                    assert(whole[m] == pairs_view(tv)[m - 1]);
                                }
                            }
                        }
                        Ok((out, k))
                    },
                }
            } else {
                Err(DecodeError::Malformed)
            }
        },
    }
}

/// Parses the items of a conflict-key name list at `i`.
#[verifier::rlimit(100)]
fn x_parse_names_items(v: &Vec<u8>, i: usize) -> (r: Result<(Vec<Vec<u8>>, usize), DecodeError>)
    requires
        i <= v.len(),
    ensures
        ({
            let sp = parse_names_items(v@.skip(i as int));
            match r {
                Ok(p) => sp is Ok && names_view(p.0@) == sp->Ok_0.0 && i < p.1 <= v.len()
                    && v@.skip(p.1 as int) == sp->Ok_0.1,
                Err(e) => sp is Err && e == sp->Err_0,
            }
        }),
    decreases v.len() - i,
{
    let ghost s = v@.skip(i as int);
    if i == v.len() {
        return Err(DecodeError::Malformed);
    }
    proof {
        assert(s[0] == v@[i as int]);
    }
    if v[i] == B_RBRACK {
        proof {
            lemma_skip_skip(v@, i as int, 1);
        }
        let out: Vec<Vec<u8>> = Vec::new();
        proof {
            assert(names_view(out@) =~= Seq::<Seq<u8>>::empty());
        }
        return Ok((out, i + 1));
    }
    match x_parse_str(v, i) {
        Err(e) => Err(e),
        Ok((name, j)) => {
            if !is_valid_ident(&name) {
                return Err(DecodeError::InvalidIdentifier);
            }
            if j == v.len() {
                return Err(DecodeError::Malformed);
            }
            let ghost rr = v@.skip(j as int);
            proof {
                assert(rr[0] == v@[j as int]);
            }
            if v[j] == B_RBRACK {
                proof {
                    lemma_skip_skip(v@, j as int, 1);
                }
                let mut out: Vec<Vec<u8>> = Vec::new();
                let ghost nm = name@;
                out.push(name);
                proof {
                    assert(names_view(out@) =~= seq![nm]);
                }
                Ok((out, j + 1))
            } else if v[j] == B_COMMA {
                proof {
                    lemma_skip_skip(v@, j as int, 1);
                    assert(rr.skip(1).len() < s.len());
                    if rr.skip(1).len() > 0 {
                        assert(rr.skip(1)[0] == v@[j + 1]);
                    }
                }
                if j + 1 < v.len() && v[j + 1] == B_RBRACK {
                    return Err(DecodeError::Malformed);
                }
                match x_parse_names_items(v, j + 1) {
                    Err(e) => Err(e),
                    Ok((rest, k)) => {
                        let mut out: Vec<Vec<u8>> = Vec::new();
                        let ghost nm = name@;
                        out.push(name);
                        let mut tail = rest;
                        let ghost tv = tail@;
                        out.append(&mut tail);
                        proof {
                            assert(out@ =~= seq![out@[0]] + tv);
                            assert(names_view(out@) =~= seq![nm] + names_view(tv));
                        }
                        Ok((out, k))
                    },
                }
            } else {
                Err(DecodeError::Malformed)
            }
        },
    }
}

/// Whether every name of `ck` appears among the column names of `cols`.
fn names_in_columns(ck: &Vec<Vec<u8>>, cols: &Vec<(Vec<u8>, Value)>) -> (r: bool)
    ensures
        r == (forall|i: int|
            0 <= i < names_view(ck@).len() ==> pair_names(pairs_view(cols@)).contains(
                #[trigger] names_view(ck@)[i],
            )),
{
    let ghost nv = names_view(ck@);
    let ghost cn = pair_names(pairs_view(cols@));
    let mut i: usize = 0;
    while i < ck.len()
        invariant
            0 <= i <= ck.len(),
            nv == names_view(ck@),
            cn == pair_names(pairs_view(cols@)),
            forall|m: int| 0 <= m < i ==> cn.contains(#[trigger] nv[m]),
        decreases ck.len() - i,
    {
        let mut found = false;
        let mut k: usize = 0;
        while k < cols.len()
            invariant
                0 <= k <= cols.len(),
                cn == pair_names(pairs_view(cols@)),
                found ==> cn.contains(nv[i as int]),
                nv == names_view(ck@),
                i < ck.len(),
                !found ==> forall|m: int| 0 <= m < k ==> cn[m] != nv[i as int],
            decreases cols.len() - k,
        {
            proof {
                assert(cn[k as int] == cols@[k as int].0@);
            }
            if bytes_eq(&cols[k].0, &ck[i]) {
                found = true;
                proof {
                    assert(cn[k as int] == nv[i as int]);
                }
            }
            k = k + 1;
        }
        if !found {
            proof {
                assert(!cn.contains(nv[i as int]));
            }
            return false;
        }
        i = i + 1;
    }
    true
}

/// Parses `{"table":"name"` at `i`.
fn x_parse_table(v: &Vec<u8>, i: usize) -> (r: Result<(Vec<u8>, usize), DecodeError>)
    requires
        i <= v.len(),
    ensures
        ({
            let sp = parse_table(v@.skip(i as int));
            match r {
                Ok(p) => sp is Ok && p.0@ == sp->Ok_0.0 && i <= p.1 <= v.len() && v@.skip(
                    p.1 as int,
                ) == sp->Ok_0.1,
                Err(e) => sp is Err && e == sp->Err_0,
            }
        }),
{
    let pre = make_table_prefix();
    match x_expect(v, i, &pre) {
        Err(e) => Err(e),
        Ok(r1) => match x_parse_str(v, r1) {
            Err(e) => Err(e),
            Ok((table, r2)) => {
                if !is_valid_ident(&table) {
                    return Err(DecodeError::InvalidIdentifier);
                }
                Ok((table, r2))
            },
        },
    }
}

/// Parses `,"name":[` at `i` for the given field literal.
fn x_list_field(v: &Vec<u8>, i: usize, name: Vec<u8>) -> (r: Result<usize, DecodeError>)
    requires
        i <= v.len(),
    ensures
        ({
            let sp = parse_list_field(v@.skip(i as int), name@);
            match r {
                Ok(j) => sp is Ok && i <= j <= v.len() && v@.skip(j as int) == sp->Ok_0,
                Err(e) => sp is Err && e == sp->Err_0,
            }
        }),
{
    let ghost nv = name@;
    let pre = make_list_prefix(name);
    x_expect(v, i, &pre)
}

/// Parses an insert body at `i`.
fn x_insert_body(v: &Vec<u8>, i: usize) -> (r: Result<(Operation, usize), DecodeError>)
    requires
        i <= v.len(),
    ensures
        ({
            let sp = parse_insert_body(v@.skip(i as int));
            match r {
                Ok(p) => sp is Ok && p.0@ == sp->Ok_0.0 && p.0.wf() && i <= p.1 <= v.len()
                    && v@.skip(p.1 as int) == sp->Ok_0.1,
                Err(e) => sp is Err && e == sp->Err_0,
            }
        }),
{
    match x_parse_table(v, i) {
        Err(e) => Err(e),
        Ok((table, r1)) => match x_list_field(v, r1, make_lit_columns()) {
            Err(e) => Err(e),
            Ok(r2) => match x_parse_pairs_items(v, r2) {
                Err(e) => Err(e),
                Ok((cols, r3)) => {
                    if cols.len() == 0 {
                        return Err(DecodeError::EmptyColumns);
                    }
                    let rb = make_byte(B_RBRACE);
                    match x_expect(v, r3, &rb) {
                        Err(e) => Err(e),
                        Ok(r4) => Ok((Operation::Insert { table, columns: cols }, r4)),
                    }
                },
            },
        },
    }
}

/// Parses an update body at `i`.
fn x_update_body(v: &Vec<u8>, i: usize) -> (r: Result<(Operation, usize), DecodeError>)
    requires
        i <= v.len(),
    ensures
        ({
            let sp = parse_update_body(v@.skip(i as int));
            match r {
                Ok(p) => sp is Ok && p.0@ == sp->Ok_0.0 && p.0.wf() && i <= p.1 <= v.len()
                    && v@.skip(p.1 as int) == sp->Ok_0.1,
                Err(e) => sp is Err && e == sp->Err_0,
            }
        }),
{
    match x_parse_table(v, i) {
        Err(e) => Err(e),
        Ok((table, r1)) => match x_list_field(v, r1, make_lit_set()) {
            Err(e) => Err(e),
            Ok(r2) => match x_parse_pairs_items(v, r2) {
                Err(e) => Err(e),
                Ok((set, r3)) => {
                    if set.len() == 0 {
                        return Err(DecodeError::EmptyColumns);
                    }
                    match x_list_field(v, r3, make_lit_key()) {
                        Err(e) => Err(e),
                        Ok(r4) => match x_parse_pairs_items(v, r4) {
                            Err(e) => Err(e),
                            Ok((key, r5)) => {
                                if key.len() == 0 {
                                    return Err(DecodeError::EmptyKey);
                                }
                                let rb = make_byte(B_RBRACE);
                                match x_expect(v, r5, &rb) {
                                    Err(e) => Err(e),
                                    Ok(r6) => Ok((Operation::Update { table, set, key }, r6)),
                                }
                            },
                        },
                    }
                },
            },
        },
    }
}

/// Parses a delete body at `i`.
fn x_delete_body(v: &Vec<u8>, i: usize) -> (r: Result<(Operation, usize), DecodeError>)
    requires
        i <= v.len(),
    ensures
        ({
            let sp = parse_delete_body(v@.skip(i as int));
            match r {
                Ok(p) => sp is Ok && p.0@ == sp->Ok_0.0 && p.0.wf() && i <= p.1 <= v.len()
                    && v@.skip(p.1 as int) == sp->Ok_0.1,
                Err(e) => sp is Err && e == sp->Err_0,
            }
        }),
{
    match x_parse_table(v, i) {
        Err(e) => Err(e),
        Ok((table, r1)) => match x_list_field(v, r1, make_lit_key()) {
            Err(e) => Err(e),
            Ok(r2) => match x_parse_pairs_items(v, r2) {
                Err(e) => Err(e),
                Ok((key, r3)) => {
                    if key.len() == 0 {
                        return Err(DecodeError::EmptyKey);
                    }
                    let rb = make_byte(B_RBRACE);
                    match x_expect(v, r3, &rb) {
                        Err(e) => Err(e),
                        Ok(r4) => Ok((Operation::Delete { table, key }, r4)),
                    }
                },
            },
        },
    }
}

/// Parses an upsert body at `i`.
#[verifier::rlimit(100)]
fn x_upsert_body(v: &Vec<u8>, i: usize) -> (r: Result<(Operation, usize), DecodeError>)
    requires
        i <= v.len(),
    ensures
        ({
            let sp = parse_upsert_body(v@.skip(i as int));
            match r {
                Ok(p) => sp is Ok && p.0@ == sp->Ok_0.0 && p.0.wf() && i <= p.1 <= v.len()
                    && v@.skip(p.1 as int) == sp->Ok_0.1,
                Err(e) => sp is Err && e == sp->Err_0,
            }
        }),
{
    match x_parse_table(v, i) {
        Err(e) => Err(e),
        Ok((table, r1)) => match x_list_field(v, r1, make_lit_columns()) {
            Err(e) => Err(e),
            Ok(r2) => match x_parse_pairs_items(v, r2) {
                Err(e) => Err(e),
                Ok((cols, r3)) => {
                    if cols.len() == 0 {
                        return Err(DecodeError::EmptyColumns);
                    }
                    match x_list_field(v, r3, make_lit_conflict_key()) {
                        Err(e) => Err(e),
                        Ok(r4) => match x_parse_names_items(v, r4) {
                            Err(e) => Err(e),
                            Ok((ck, r5)) => {
                                if ck.len() == 0 {
                                    return Err(DecodeError::EmptyKey);
                                }
                                if !names_in_columns(&ck, &cols) {
                                    return Err(DecodeError::ConflictKeyMismatch);
                                }
                                let rb = make_byte(B_RBRACE);
                                match x_expect(v, r5, &rb) {
                                    Err(e) => Err(e),
                                    Ok(r6) => Ok(
                                        (
                                            Operation::Upsert {
                                                table,
                                                columns: cols,
                                                conflict_key: ck,
                                            },
                                            r6,
                                        ),
                                    ),
                                }
                            },
                        },
                    }
                },
            },
        },
    }
}

/// Decodes a wire payload into an operation, or rejects it with the reason.
/// The result is exactly what the specification parser `parse_op` assigns to
/// the payload, and a decoded operation is always well formed.
#[verifier::rlimit(100)]
pub fn decode_operation(payload: &Vec<u8>) -> (r: Result<Operation, DecodeError>)
    ensures
        ({
            let sp = parse_op(payload@);
            match r {
                Ok(op) => sp is Ok && op@ == sp->Ok_0 && op.wf(),
                Err(e) => sp is Err && e == sp->Err_0,
            }
        }),
{
    proof {
        assert(payload@.skip(0) =~= payload@);
    }
    let lb = make_byte(B_LBRACE);
    match x_expect(payload, 0, &lb) {
        Err(e) => Err(e),
        Ok(r0) => match x_parse_str(payload, r0) {
            Err(e) => Err(e),
            Ok((tag, r1)) => {
                let colon = make_byte(B_COLON);
                match x_expect(payload, r1, &colon) {
                    Err(e) => Err(e),
                    Ok(r2) => {
                        let li = make_lit_insert();
                        let lu = make_lit_update();
                        let ld = make_lit_delete();
                        let lp = make_lit_upsert();
                        let body: Result<(Operation, usize), DecodeError> = if bytes_eq(
                            &tag,
                            &li,
                        ) {
                            x_insert_body(payload, r2)
                        } else if bytes_eq(&tag, &lu) {
                            x_update_body(payload, r2)
                        } else if bytes_eq(&tag, &ld) {
                            x_delete_body(payload, r2)
                        } else if bytes_eq(&tag, &lp) {
                            x_upsert_body(payload, r2)
                        } else {
                            Err(DecodeError::UnknownOperationTag)
                        };
                        match body {
                            Err(e) => Err(e),
                            Ok((op, r3)) => {
                                let rb = make_byte(B_RBRACE);
                                match x_expect(payload, r3, &rb) {
                                    Err(e) => Err(e),
                                    Ok(r4) => {
                                        if r4 == payload.len() {
                                            Ok(op)
                                        } else {
                                            Err(DecodeError::Malformed)
                                        }
                                    },
                                }
                            },
                        }
                    },
                }
            },
        },
    }
}

} // verus!
