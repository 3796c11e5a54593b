//! The codec round trip: decoding the canonical encoding of any well-formed
//! operation yields that operation again. The law is stated against the
//! specification serializer and parser; `encode_operation` and
//! `decode_operation` are each exact against those, so the law carries over
//! to the executable pair.

use vstd::prelude::*;

use crate::decode::hex_val;
use crate::decode::is_hex;
use crate::decode::parse_byte_items;
use crate::decode::parse_int;
use crate::decode::parse_lit;
use crate::decode::parse_str;
use crate::decode::parse_str_body;
use crate::decode::starts_with;
use crate::decode::utf8_enc;
use crate::encode::dec_nat;
use crate::encode::esc_byte;
use crate::encode::esc_bytes;
use crate::encode::hex_digit;
use crate::encode::ser_int;
use crate::encode::ser_str;
use crate::lex::B_D0;
use crate::lex::B_MINUS;
use crate::lex::digits_val;
use crate::lex::in_i64;
use crate::lex::is_digit;
use crate::lex::lemma_digits_prefix_len_is;
use crate::value::ValModel;
use crate::wire::B_BSL;
use crate::wire::B_COLON;
use crate::wire::B_COMMA;
use crate::wire::B_LBRACE;
use crate::wire::B_LBRACK;
use crate::wire::B_LOW_U;
use crate::wire::B_QUOTE;
use crate::wire::B_RBRACE;
use crate::wire::B_RBRACK;

verus! {

/// Consuming a literal from input that begins with it leaves the rest.
pub proof fn lemma_parse_lit(lit: Seq<u8>, rest: Seq<u8>)
    ensures
        parse_lit(lit + rest, lit) == Ok::<Seq<u8>, crate::errors::DecodeError>(rest),
{
    let s = lit + rest;
    assert(s.take(lit.len() as int) =~= lit);
    assert(starts_with(s, lit));
    assert(s.skip(lit.len() as int) =~= rest);
}

/// The escaped body can also be peeled from the front.
pub proof fn lemma_esc_bytes_head(t: Seq<u8>)
    requires
        t.len() > 0,
    ensures
        esc_bytes(t) == esc_byte(t[0]) + esc_bytes(t.skip(1)),
    decreases t.len(),
{
    if t.len() == 1 {
        assert(t.take(0) =~= Seq::<u8>::empty());
        assert(t.skip(1) =~= Seq::<u8>::empty());
        assert(esc_bytes(t) =~= esc_byte(t[0]) + esc_bytes(t.skip(1)));
    } else {
        let p = t.take(t.len() - 1);
        lemma_esc_bytes_head(p);
        assert(p[0] == t[0]);
        assert(p.skip(1) =~= t.skip(1).take(t.skip(1).len() - 1));
        assert(t.skip(1).last() == t.last());
        assert(esc_bytes(t.skip(1)) == esc_bytes(t.skip(1).take(t.skip(1).len() - 1))
            + esc_byte(t.skip(1).last()));
        assert(esc_bytes(t) == (esc_byte(t[0]) + esc_bytes(p.skip(1))) + esc_byte(t.last()));
        assert((esc_byte(t[0]) + esc_bytes(p.skip(1))) + esc_byte(t.last()) =~= esc_byte(t[0])
            + (esc_bytes(p.skip(1)) + esc_byte(t.last())));
    }
}

/// Escaping bytes that need no escape is the identity.
pub proof fn lemma_esc_identity(t: Seq<u8>)
    requires
        forall|i: int|
            0 <= i < t.len() ==> 32 <= #[trigger] t[i] && t[i] != B_QUOTE && t[i] != B_BSL,
    ensures
        esc_bytes(t) == t,
    decreases t.len(),
{
    if t.len() > 0 {
        let p = t.take(t.len() - 1);
        assert(forall|i: int| 0 <= i < p.len() ==> p[i] == t[i]);
        lemma_esc_identity(p);
        assert(esc_byte(t.last()) =~= seq![t.last()]);
        assert(p + seq![t.last()] =~= t);
    }
}

/// A hex digit byte is one, and decodes to its value.
pub proof fn lemma_hex_digit_inverts(x: int)
    requires
        0 <= x < 16,
    ensures
        is_hex(hex_digit(x)),
        hex_val(hex_digit(x)) == x,
{
}

/// Parsing a string body from its escaped form recovers the bytes.
#[verifier::rlimit(100)]
pub proof fn lemma_parse_str_body(t: Seq<u8>, rest: Seq<u8>)
    ensures
        parse_str_body(esc_bytes(t) + seq![B_QUOTE] + rest) == Ok::<
            (Seq<u8>, Seq<u8>),
            crate::errors::DecodeError,
        >((t, rest)),
    decreases t.len(),
{
    let s = esc_bytes(t) + seq![B_QUOTE] + rest;
    if t.len() == 0 {
        assert(esc_bytes(t) =~= Seq::<u8>::empty());
        assert(s[0] == B_QUOTE);
        assert(s.skip(1) =~= rest);
        assert((Seq::<u8>::empty(), s.skip(1)) == (t, rest));
    } else {
        lemma_esc_bytes_head(t);
        let b = t[0];
        let tail = esc_bytes(t.skip(1)) + seq![B_QUOTE] + rest;
        assert(s =~= esc_byte(b) + tail);
        lemma_parse_str_body(t.skip(1), rest);
        if b == B_QUOTE || b == B_BSL {
            assert(s[0] == B_BSL);
            assert(s[1] == b);
            assert(s.skip(2) =~= tail);
            assert(seq![b] + t.skip(1) =~= t);
        } else if b < 32 {
            assert(s[0] == B_BSL);
            assert(s[1] == B_LOW_U);
            assert(s[2] == B_D0 && s[3] == B_D0);
            assert(s[4] == hex_digit(b as int / 16));
            assert(s[5] == hex_digit(b as int % 16));
            lemma_hex_digit_inverts(b as int / 16);
            lemma_hex_digit_inverts(b as int % 16);
            assert(hex_val(B_D0) == 0);
            let c = hex_val(s[2]) * 4096 + hex_val(s[3]) * 256 + hex_val(s[4]) * 16 + hex_val(
                s[5],
            );
            assert(c == (b as int / 16) * 16 + b as int % 16);
            assert(c == b as int);
            assert(!(0xD800 <= c <= 0xDFFF));
            assert(s.skip(6) =~= tail);
            assert(utf8_enc(c) =~= seq![b]);
            assert(seq![b] + t.skip(1) =~= t);
        } else {
            assert(esc_byte(b) =~= seq![b]);
            assert(s[0] == b);
            assert(s.skip(1) =~= tail);
            assert(seq![b] + t.skip(1) =~= t);
        }
    }
}

/// Parsing a serialized string recovers the bytes.
pub proof fn lemma_parse_str(t: Seq<u8>, rest: Seq<u8>)
    ensures
        parse_str(ser_str(t) + rest) == Ok::<(Seq<u8>, Seq<u8>), crate::errors::DecodeError>(
            (t, rest),
        ),
{
    let s = ser_str(t) + rest;
    assert(s[0] == B_QUOTE);
    assert(s.skip(1) =~= esc_bytes(t) + seq![B_QUOTE] + rest);
    lemma_parse_str_body(t, rest);
}

/// The decimal numeral of `n`: all digits, no leading zero unless alone,
/// and it reads back as `n`.
pub proof fn lemma_dec_nat(n: nat)
    ensures
        dec_nat(n).len() >= 1,
        forall|i: int| 0 <= i < dec_nat(n).len() ==> is_digit(#[trigger] dec_nat(n)[i]),
        dec_nat(n).len() > 1 ==> dec_nat(n)[0] != B_D0,
        digits_val(dec_nat(n)) == n,
    decreases n,
{
    if n < 10 {
        let d = dec_nat(n);
        assert(d =~= seq![(B_D0 + n) as u8]);
        assert(d.take(0) =~= Seq::<u8>::empty());
        assert(digits_val(d) == digits_val(d.take(0)) * 10 + (d.last() - B_D0));
    } else {
        lemma_dec_nat(n / 10);
        let p = dec_nat(n / 10);
        let d = dec_nat(n);
        assert(d =~= p + seq![(B_D0 + n % 10) as u8]);
        assert(d.take(d.len() - 1) =~= p);
        assert(d.last() == (B_D0 + n % 10) as u8);
        assert(digits_val(d) == digits_val(p) * 10 + (d.last() - B_D0));
        assert(d[0] == p[0]);
        assert(n / 10 >= 1);
        if n / 10 < 10 {
            assert(p =~= seq![(B_D0 + n / 10) as u8]);
            assert(p[0] != B_D0);
        } else {
            lemma_dec_nat(n / 100);
            assert(p =~= dec_nat(n / 100) + seq![(B_D0 + (n / 10) % 10) as u8]);
            assert(p.len() > 1);
        }
    }
}

/// Parsing the decimal form of an integer, when what follows is not a
/// digit, recovers the integer.
pub proof fn lemma_parse_int(i: int, rest: Seq<u8>)
    requires
        in_i64(i),
        rest.len() == 0 || !is_digit(rest[0]),
    ensures
        parse_int(ser_int(i) + rest) == Ok::<(int, Seq<u8>), crate::errors::DecodeError>(
            (i, rest),
        ),
{
    let s = ser_int(i) + rest;
    if i >= 0 {
        lemma_dec_nat(i as nat);
        let d = dec_nat(i as nat);
        assert(s =~= d + rest);
        assert(s[0] == d[0]);
        assert(is_digit(d[0]));
        assert(s[0] != B_MINUS);
        assert forall|k: int| 0 <= k < d.len() implies is_digit(#[trigger] s[k]) by {
            assert(s[k] == d[k]);
        }
        if d.len() < s.len() {
            assert(s[d.len() as int] == rest[0]);
        }
        lemma_digits_prefix_len_is(s, d.len() as int);
        assert(s.take(d.len() as int) =~= d);
        assert(s.skip(d.len() as int) =~= rest);
    } else {
        lemma_dec_nat((-i) as nat);
        let d = dec_nat((-i) as nat);
        assert(s =~= seq![B_MINUS] + d + rest);
        assert(s[0] == B_MINUS);
        let u = s.skip(1);
        assert(u =~= d + rest);
        assert forall|k: int| 0 <= k < d.len() implies is_digit(#[trigger] u[k]) by {
            assert(u[k] == d[k]);
        }
        if d.len() < u.len() {
            assert(u[d.len() as int] == rest[0]);
        }
        lemma_digits_prefix_len_is(u, d.len() as int);
        assert(u[0] == d[0]);
        assert(u.take(d.len() as int) =~= d);
        assert(u.skip(d.len() as int) =~= rest);
    }
}

/// A serialized byte list can be peeled from the front.
pub proof fn lemma_ser_bytelist_head(bs: Seq<u8>)
    requires
        bs.len() >= 2,
    ensures
        crate::encode::ser_bytelist_items(bs) == dec_nat(bs[0] as nat) + seq![B_COMMA]
            + crate::encode::ser_bytelist_items(bs.skip(1)),
    decreases bs.len(),
{
    let f = |b: u8| crate::encode::ser_bytelist_items(seq![b]);
    if bs.len() == 2 {
        let p = bs.take(1);
        assert(p =~= seq![bs[0]]);
        assert(bs.skip(1) =~= seq![bs[1]]);
        assert(crate::encode::ser_bytelist_items(bs) == crate::encode::ser_bytelist_items(p)
            + seq![B_COMMA] + dec_nat(bs.last() as nat));
    } else {
        let p = bs.take(bs.len() - 1);
        lemma_ser_bytelist_head(p);
        assert(p[0] == bs[0]);
        assert(p.skip(1) =~= bs.skip(1).take(bs.skip(1).len() - 1));
        assert(bs.skip(1).last() == bs.last());
        assert(crate::encode::ser_bytelist_items(bs.skip(1)) == crate::encode::ser_bytelist_items(
            bs.skip(1).take(bs.skip(1).len() - 1),
        ) + seq![B_COMMA] + dec_nat(bs.skip(1).last() as nat));
        assert(crate::encode::ser_bytelist_items(bs) == (dec_nat(bs[0] as nat) + seq![B_COMMA]
            + crate::encode::ser_bytelist_items(p.skip(1))) + seq![B_COMMA] + dec_nat(
            bs.last() as nat,
        ));
        assert((dec_nat(bs[0] as nat) + seq![B_COMMA] + crate::encode::ser_bytelist_items(
            p.skip(1),
        )) + seq![B_COMMA] + dec_nat(bs.last() as nat) =~= dec_nat(bs[0] as nat) + seq![B_COMMA]
            + (crate::encode::ser_bytelist_items(p.skip(1)) + seq![B_COMMA] + dec_nat(
            bs.last() as nat,
        )));
    }
}

/// Parsing a serialized byte list recovers the bytes.
#[verifier::rlimit(100)]
pub proof fn lemma_parse_byte_items(bs: Seq<u8>, rest: Seq<u8>)
    ensures
        parse_byte_items(crate::encode::ser_bytelist_items(bs) + seq![B_RBRACK] + rest) == Ok::<
            (Seq<u8>, Seq<u8>),
            crate::errors::DecodeError,
        >((bs, rest)),
    decreases bs.len(),
{
    let s = crate::encode::ser_bytelist_items(bs) + seq![B_RBRACK] + rest;
    if bs.len() == 0 {
        assert(crate::encode::ser_bytelist_items(bs) =~= Seq::<u8>::empty());
        assert(s[0] == B_RBRACK);
        assert(s.skip(1) =~= rest);
        assert((Seq::<u8>::empty(), s.skip(1)) == (bs, rest));
    } else {
        let v0 = bs[0] as int;
        lemma_dec_nat(bs[0] as nat);
        let d = dec_nat(bs[0] as nat);
        if bs.len() == 1 {
            let tail = seq![B_RBRACK] + rest;
            assert(s =~= d + tail);
            assert(ser_int(v0) == d);
            assert(s =~= ser_int(v0) + tail);
            assert(tail[0] == B_RBRACK);
            lemma_parse_int(v0, tail);
            assert(s[0] == d[0]);
            assert(is_digit(s[0]));
            assert(s[0] != B_RBRACK);
            assert(tail.skip(1) =~= rest);
            assert(seq![(v0 as u8)] =~= bs);
        } else {
            lemma_ser_bytelist_head(bs);
            let items1 = crate::encode::ser_bytelist_items(bs.skip(1));
            let tail = seq![B_COMMA] + items1 + seq![B_RBRACK] + rest;
            assert(s =~= d + tail);
            assert(ser_int(v0) == d);
            assert(s =~= ser_int(v0) + tail);
            assert(tail[0] == B_COMMA);
            lemma_parse_int(v0, tail);
            assert(s[0] == d[0]);
            assert(is_digit(s[0]));
            assert(s[0] != B_RBRACK);
            let after = tail.skip(1);
            assert(after =~= items1 + seq![B_RBRACK] + rest);
            lemma_dec_nat(bs.skip(1)[0] as nat);
            if bs.len() == 2 {
                assert(bs.skip(1) =~= seq![bs[1]]);
                assert(items1 == dec_nat(bs.skip(1)[0] as nat));
            } else {
                lemma_ser_bytelist_head(bs.skip(1));
            }
            assert(items1[0] == dec_nat(bs.skip(1)[0] as nat)[0]);
            assert(after[0] == items1[0]);
            assert(is_digit(after[0]));
            assert(after[0] != B_RBRACK);
            assert(after.len() < s.len());
            lemma_parse_byte_items(bs.skip(1), rest);
            assert(seq![(v0 as u8)] + bs.skip(1) =~= bs);
        }
    }
}

/// Parsing the serialized form of a well-formed value, when what follows
/// cannot extend a numeral, recovers the value.
#[verifier::rlimit(100)]
pub proof fn lemma_parse_value(m: crate::value::ValModel, rest: Seq<u8>)
    requires
        crate::value::val_wf(m),
        rest.len() == 0 || !is_digit(rest[0]),
    ensures
        crate::decode::parse_value(crate::encode::ser_val(m) + rest) == Ok::<
            (crate::value::ValModel, Seq<u8>),
            crate::errors::DecodeError,
        >((m, rest)),
{
    let s = crate::encode::ser_val(m) + rest;
    match m {
        ValModel::Null => {
            assert(s =~= crate::wire::lit_null() + rest);
            assert(s[0] == crate::wire::lit_null()[0]);
            lemma_parse_lit(crate::wire::lit_null(), rest);
        },
        ValModel::Boolean(b) => {
            if b {
                assert(s =~= crate::wire::lit_true() + rest);
                assert(s[0] == crate::wire::lit_true()[0]);
                lemma_parse_lit(crate::wire::lit_true(), rest);
            } else {
                assert(s =~= crate::wire::lit_false() + rest);
                assert(s[0] == crate::wire::lit_false()[0]);
                lemma_parse_lit(crate::wire::lit_false(), rest);
            }
        },
        ValModel::Integer(i) => {
            lemma_parse_int(i, rest);
            if i < 0 {
                assert(s[0] == B_MINUS);
            } else {
                lemma_dec_nat(i as nat);
                assert(s[0] == dec_nat(i as nat)[0]);
                assert(is_digit(s[0]));
            }
        },
        ValModel::Text(t) => {
            assert(s =~= ser_str(t) + rest);
            assert(s[0] == B_QUOTE);
            lemma_parse_str(t, rest);
        },
        ValModel::Float(t) => {
            assert(s[0] == B_LBRACE);
            let inner = seq![B_QUOTE] + crate::wire::lit_float() + seq![B_QUOTE] + (
            seq![B_COLON] + ser_str(t) + seq![B_RBRACE] + rest);
            assert(s.skip(1) =~= inner);
            lemma_esc_identity(crate::wire::lit_float());
            assert(ser_str(crate::wire::lit_float()) =~= seq![B_QUOTE] + crate::wire::lit_float()
                + seq![B_QUOTE]);
            assert(inner =~= ser_str(crate::wire::lit_float()) + (seq![B_COLON] + ser_str(t)
                + seq![B_RBRACE] + rest));
            lemma_parse_str(crate::wire::lit_float(), seq![B_COLON] + ser_str(t)
                + seq![B_RBRACE] + rest);
            assert(seq![B_COLON] + ser_str(t) + seq![B_RBRACE] + rest =~= seq![B_COLON] + (
            ser_str(t) + seq![B_RBRACE] + rest));
            lemma_parse_lit(seq![B_COLON], ser_str(t) + seq![B_RBRACE] + rest);
            assert(ser_str(t) + seq![B_RBRACE] + rest =~= ser_str(t) + (seq![B_RBRACE] + rest));
            lemma_parse_str(t, seq![B_RBRACE] + rest);
            lemma_parse_lit(seq![B_RBRACE], rest);
        },
        ValModel::Bytes(b) => {
            assert(s[0] == B_LBRACE);
            let items = crate::encode::ser_bytelist_items(b);
            let inner = seq![B_QUOTE] + crate::wire::lit_bytes() + seq![B_QUOTE] + (
            seq![B_COLON, B_LBRACK] + items + seq![B_RBRACK, B_RBRACE] + rest);
            assert(s.skip(1) =~= inner);
            lemma_esc_identity(crate::wire::lit_bytes());
            assert(ser_str(crate::wire::lit_bytes()) =~= seq![B_QUOTE] + crate::wire::lit_bytes()
                + seq![B_QUOTE]);
            assert(inner =~= ser_str(crate::wire::lit_bytes()) + (seq![B_COLON, B_LBRACK]
                + items + seq![B_RBRACK, B_RBRACE] + rest));
            lemma_parse_str(crate::wire::lit_bytes(), seq![B_COLON, B_LBRACK] + items
                + seq![B_RBRACK, B_RBRACE] + rest);
            assert(crate::wire::lit_bytes() != crate::wire::lit_float()) by {
                assert(crate::wire::lit_bytes()[0] == 66);
                assert(crate::wire::lit_float()[0] == 70);
            }
            assert(seq![B_COLON, B_LBRACK] + items + seq![B_RBRACK, B_RBRACE] + rest
                =~= seq![B_COLON] + (seq![B_LBRACK] + items + seq![B_RBRACK] + (seq![B_RBRACE]
                + rest)));
            lemma_parse_lit(seq![B_COLON], seq![B_LBRACK] + items + seq![B_RBRACK] + (
            seq![B_RBRACE] + rest));
            assert(seq![B_LBRACK] + items + seq![B_RBRACK] + (seq![B_RBRACE] + rest)
                =~= seq![B_LBRACK] + (items + seq![B_RBRACK] + (seq![B_RBRACE] + rest)));
            lemma_parse_lit(seq![B_LBRACK], items + seq![B_RBRACK] + (seq![B_RBRACE] + rest));
            lemma_parse_byte_items(b, seq![B_RBRACE] + rest);
            lemma_parse_lit(seq![B_RBRACE], rest);
        },
        ValModel::Timestamp(ts) => {
            assert(s[0] == B_LBRACE);
            let inner = seq![B_QUOTE] + crate::wire::lit_timestamp() + seq![B_QUOTE] + (
            seq![B_COLON] + ser_int(ts) + seq![B_RBRACE] + rest);
            assert(s.skip(1) =~= inner);
            lemma_esc_identity(crate::wire::lit_timestamp());
            assert(ser_str(crate::wire::lit_timestamp()) =~= seq![B_QUOTE]
                + crate::wire::lit_timestamp() + seq![B_QUOTE]);
            assert(inner =~= ser_str(crate::wire::lit_timestamp()) + (seq![B_COLON] + ser_int(ts)
                + seq![B_RBRACE] + rest));
            lemma_parse_str(crate::wire::lit_timestamp(), seq![B_COLON] + ser_int(ts)
                + seq![B_RBRACE] + rest);
            assert(crate::wire::lit_timestamp() != crate::wire::lit_float()) by {
                assert(crate::wire::lit_timestamp()[0] == 84);
                assert(crate::wire::lit_float()[0] == 70);
            }
            assert(crate::wire::lit_timestamp() != crate::wire::lit_bytes()) by {
                assert(crate::wire::lit_timestamp()[0] == 84);
                assert(crate::wire::lit_bytes()[0] == 66);
            }
            assert(seq![B_COLON] + ser_int(ts) + seq![B_RBRACE] + rest =~= seq![B_COLON] + (
            ser_int(ts) + (seq![B_RBRACE] + rest)));
            lemma_parse_lit(seq![B_COLON], ser_int(ts) + (seq![B_RBRACE] + rest));
            assert((seq![B_RBRACE] + rest)[0] == B_RBRACE);
            lemma_parse_int(ts, seq![B_RBRACE] + rest);
            lemma_parse_lit(seq![B_RBRACE], rest);
        },
    }
}

/// Parsing a serialized pair recovers it.
pub proof fn lemma_parse_pair(p: (Seq<u8>, ValModel), rest: Seq<u8>)
    requires
        crate::lex::ident_ok(p.0),
        crate::value::val_wf(p.1),
    ensures
        crate::decode::parse_pair(crate::encode::ser_pair(p) + rest) == Ok::<
            ((Seq<u8>, ValModel), Seq<u8>),
            crate::errors::DecodeError,
        >((p, rest)),
{
    let s = crate::encode::ser_pair(p) + rest;
    let after_name = seq![B_COMMA] + (crate::encode::ser_val(p.1) + (seq![B_RBRACK] + rest));
    assert(s =~= seq![B_LBRACK] + (ser_str(p.0) + after_name));
    lemma_parse_lit(seq![B_LBRACK], ser_str(p.0) + after_name);
    lemma_parse_str(p.0, after_name);
    lemma_parse_lit(seq![B_COMMA], crate::encode::ser_val(p.1) + (seq![B_RBRACK] + rest));
    assert((seq![B_RBRACK] + rest)[0] == B_RBRACK);
    lemma_parse_value(p.1, seq![B_RBRACK] + rest);
    lemma_parse_lit(seq![B_RBRACK], rest);
}

/// A serialized pair list can be peeled from the front.
pub proof fn lemma_ser_pairs_head(ps: Seq<(Seq<u8>, ValModel)>)
    requires
        ps.len() >= 2,
    ensures
        crate::encode::ser_pairs_items(ps) == crate::encode::ser_pair(ps[0]) + seq![B_COMMA]
            + crate::encode::ser_pairs_items(ps.skip(1)),
    decreases ps.len(),
{
    if ps.len() == 2 {
        let p = ps.take(1);
        assert(p =~= seq![ps[0]]);
        assert(ps.skip(1) =~= seq![ps[1]]);
        assert(ps.last() == ps[1]);
        assert(crate::encode::ser_pairs_items(ps) == crate::encode::ser_pairs_items(p)
            + seq![B_COMMA] + crate::encode::ser_pair(ps.last()));
        assert(crate::encode::ser_pairs_items(p) == crate::encode::ser_pair(p[0]));
        assert(crate::encode::ser_pairs_items(ps.skip(1)) == crate::encode::ser_pair(
            ps.skip(1)[0],
        ));
    } else {
        let p = ps.take(ps.len() - 1);
        lemma_ser_pairs_head(p);
        assert(p[0] == ps[0]);
        assert(p.skip(1) =~= ps.skip(1).take(ps.skip(1).len() - 1));
        assert(ps.skip(1).last() == ps.last());
        assert(crate::encode::ser_pairs_items(ps.skip(1))
            == crate::encode::ser_pairs_items(ps.skip(1).take(ps.skip(1).len() - 1))
            + seq![B_COMMA] + crate::encode::ser_pair(ps.skip(1).last()));
        assert((crate::encode::ser_pair(ps[0]) + seq![B_COMMA]
            + crate::encode::ser_pairs_items(p.skip(1))) + seq![B_COMMA]
            + crate::encode::ser_pair(ps.last()) =~= crate::encode::ser_pair(ps[0])
            + seq![B_COMMA] + (crate::encode::ser_pairs_items(p.skip(1)) + seq![B_COMMA]
            + crate::encode::ser_pair(ps.last())));
    }
}

/// Parsing a serialized pair list recovers the pairs.
#[verifier::rlimit(100)]
pub proof fn lemma_parse_pairs_items(ps: Seq<(Seq<u8>, ValModel)>, rest: Seq<u8>)
    requires
        crate::operation::pairs_wf(ps),
    ensures
        crate::decode::parse_pairs_items(crate::encode::ser_pairs_items(ps) + seq![B_RBRACK]
            + rest) == Ok::<(Seq<(Seq<u8>, ValModel)>, Seq<u8>), crate::errors::DecodeError>(
            (ps, rest),
        ),
    decreases ps.len(),
{
    let s = crate::encode::ser_pairs_items(ps) + seq![B_RBRACK] + rest;
    if ps.len() == 0 {
        assert(crate::encode::ser_pairs_items(ps) =~= Seq::<u8>::empty());
        assert(s[0] == B_RBRACK);
        assert(s.skip(1) =~= rest);
        assert((Seq::<(Seq<u8>, ValModel)>::empty(), s.skip(1)) == (ps, rest));
    } else {
        assert(crate::lex::ident_ok(ps[0].0) && crate::value::val_wf(ps[0].1));
        if ps.len() == 1 {
            assert(ps =~= seq![ps[0]]);
            let tail = seq![B_RBRACK] + rest;
            assert(s =~= crate::encode::ser_pair(ps[0]) + tail);
            lemma_parse_pair(ps[0], tail);
            assert(s[0] == crate::encode::ser_pair(ps[0])[0]);
            assert(s[0] == B_LBRACK);
            assert(tail[0] == B_RBRACK);
            assert(tail.skip(1) =~= rest);
            assert(seq![ps[0]] =~= ps);
        } else {
            lemma_ser_pairs_head(ps);
            let items1 = crate::encode::ser_pairs_items(ps.skip(1));
            let tail = seq![B_COMMA] + items1 + seq![B_RBRACK] + rest;
            assert(s =~= crate::encode::ser_pair(ps[0]) + tail);
            lemma_parse_pair(ps[0], tail);
            assert(s[0] == crate::encode::ser_pair(ps[0])[0]);
            assert(s[0] == B_LBRACK);
            assert(tail[0] == B_COMMA);
            let after = tail.skip(1);
            assert(after =~= items1 + seq![B_RBRACK] + rest);
            if ps.len() == 2 {
                assert(ps.skip(1) =~= seq![ps.skip(1)[0]]);
                assert(items1 == crate::encode::ser_pair(ps.skip(1)[0]));
            } else {
                lemma_ser_pairs_head(ps.skip(1));
            }
            assert(items1[0] == crate::encode::ser_pair(ps.skip(1)[0])[0]);
            assert(after[0] == items1[0]);
            assert(after[0] == B_LBRACK);
            assert(after[0] != B_RBRACK);
            assert(after.len() < s.len());
            assert forall|k: int|
                0 <= k < ps.skip(1).len() implies crate::lex::ident_ok(
                (#[trigger] ps.skip(1)[k]).0,
            ) && crate::value::val_wf(ps.skip(1)[k].1) by {
                assert(ps.skip(1)[k] == ps[k + 1]);
            }
            lemma_parse_pairs_items(ps.skip(1), rest);
            assert(seq![ps[0]] + ps.skip(1) =~= ps);
        }
    }
}

/// A serialized name list can be peeled from the front.
pub proof fn lemma_ser_names_head(ns: Seq<Seq<u8>>)
    requires
        ns.len() >= 2,
    ensures
        crate::encode::ser_names_items(ns) == ser_str(ns[0]) + seq![B_COMMA]
            + crate::encode::ser_names_items(ns.skip(1)),
    decreases ns.len(),
{
    if ns.len() == 2 {
        let p = ns.take(1);
        assert(p =~= seq![ns[0]]);
        assert(ns.skip(1) =~= seq![ns[1]]);
        assert(ns.last() == ns[1]);
        assert(crate::encode::ser_names_items(ns) == crate::encode::ser_names_items(p)
            + seq![B_COMMA] + ser_str(ns.last()));
        assert(crate::encode::ser_names_items(p) == ser_str(p[0]));
        assert(crate::encode::ser_names_items(ns.skip(1)) == ser_str(ns.skip(1)[0]));
    } else {
        let p = ns.take(ns.len() - 1);
        lemma_ser_names_head(p);
        assert(p[0] == ns[0]);
        assert(p.skip(1) =~= ns.skip(1).take(ns.skip(1).len() - 1));
        assert(ns.skip(1).last() == ns.last());
        assert(crate::encode::ser_names_items(ns.skip(1))
            == crate::encode::ser_names_items(ns.skip(1).take(ns.skip(1).len() - 1))
            + seq![B_COMMA] + ser_str(ns.skip(1).last()));
        assert((ser_str(ns[0]) + seq![B_COMMA] + crate::encode::ser_names_items(p.skip(1)))
            + seq![B_COMMA] + ser_str(ns.last()) =~= ser_str(ns[0]) + seq![B_COMMA] + (
        crate::encode::ser_names_items(p.skip(1)) + seq![B_COMMA] + ser_str(ns.last())));
    }
}

/// Parsing a serialized name list recovers the names.
#[verifier::rlimit(100)]
pub proof fn lemma_parse_names_items(ns: Seq<Seq<u8>>, rest: Seq<u8>)
    requires
        forall|i: int| 0 <= i < ns.len() ==> crate::lex::ident_ok(#[trigger] ns[i]),
    ensures
        crate::decode::parse_names_items(crate::encode::ser_names_items(ns) + seq![B_RBRACK]
            + rest) == Ok::<(Seq<Seq<u8>>, Seq<u8>), crate::errors::DecodeError>((ns, rest)),
    decreases ns.len(),
{
    let s = crate::encode::ser_names_items(ns) + seq![B_RBRACK] + rest;
    if ns.len() == 0 {
        assert(crate::encode::ser_names_items(ns) =~= Seq::<u8>::empty());
        assert(s[0] == B_RBRACK);
        assert(s.skip(1) =~= rest);
        assert((Seq::<Seq<u8>>::empty(), s.skip(1)) == (ns, rest));
    } else {
        assert(crate::lex::ident_ok(ns[0]));
        if ns.len() == 1 {
            let tail = seq![B_RBRACK] + rest;
            assert(s =~= ser_str(ns[0]) + tail);
            lemma_parse_str(ns[0], tail);
            assert(s[0] == B_QUOTE);
            assert(tail[0] == B_RBRACK);
            assert(tail.skip(1) =~= rest);
            assert(seq![ns[0]] =~= ns);
        } else {
            lemma_ser_names_head(ns);
            let items1 = crate::encode::ser_names_items(ns.skip(1));
            let tail = seq![B_COMMA] + items1 + seq![B_RBRACK] + rest;
            assert(s =~= ser_str(ns[0]) + tail);
            lemma_parse_str(ns[0], tail);
            assert(s[0] == B_QUOTE);
            assert(tail[0] == B_COMMA);
            let after = tail.skip(1);
            assert(after =~= items1 + seq![B_RBRACK] + rest);
            if ns.len() == 2 {
                assert(ns.skip(1) =~= seq![ns.skip(1)[0]]);
                assert(items1 == ser_str(ns.skip(1)[0]));
            } else {
                lemma_ser_names_head(ns.skip(1));
            }
            assert(items1[0] == B_QUOTE);
            assert(after[0] == items1[0]);
            assert(after[0] != B_RBRACK);
            assert(after.len() < s.len());
            assert forall|k: int| 0 <= k < ns.skip(1).len() implies crate::lex::ident_ok(
                #[trigger] ns.skip(1)[k],
            ) by {
                assert(ns.skip(1)[k] == ns[k + 1]);
            }
            lemma_parse_names_items(ns.skip(1), rest);
            assert(seq![ns[0]] + ns.skip(1) =~= ns);
        }
    }
}

/// Parsing the opening of a body recovers the validated table name.
pub proof fn lemma_parse_table(table: Seq<u8>, rest: Seq<u8>)
    requires
        crate::lex::ident_ok(table),
    ensures
        crate::decode::parse_table(seq![B_LBRACE] + crate::encode::ser_field(
            crate::wire::lit_table(),
        ) + ser_str(table) + rest) == Ok::<(Seq<u8>, Seq<u8>), crate::errors::DecodeError>(
            (table, rest),
        ),
{
    let pre = seq![B_LBRACE] + crate::encode::ser_field(crate::wire::lit_table());
    let s = pre + ser_str(table) + rest;
    assert(s =~= pre + (ser_str(table) + rest));
    lemma_parse_lit(pre, ser_str(table) + rest);
    lemma_parse_str(table, rest);
}

/// Parsing a list field's opening consumes it exactly.
pub proof fn lemma_parse_list_field(name: Seq<u8>, rest: Seq<u8>)
    ensures
        crate::decode::parse_list_field(seq![B_COMMA] + crate::encode::ser_field(name)
            + seq![B_LBRACK] + rest, name) == Ok::<Seq<u8>, crate::errors::DecodeError>(rest),
{
    let pre = seq![B_COMMA] + crate::encode::ser_field(name) + seq![B_LBRACK];
    let s = pre + rest;
    assert(s =~= (seq![B_COMMA] + crate::encode::ser_field(name) + seq![B_LBRACK]) + rest);
    lemma_parse_lit(pre, rest);
}

/// Parsing a serialized insert body recovers the operation.
#[verifier::rlimit(100)]
pub proof fn lemma_parse_insert_body(
    table: Seq<u8>,
    columns: Seq<(Seq<u8>, ValModel)>,
    rest: Seq<u8>,
)
    requires
        crate::lex::ident_ok(table),
        columns.len() > 0,
        crate::operation::pairs_wf(columns),
    ensures
        crate::decode::parse_insert_body(crate::encode::ser_insert_body(table, columns) + rest)
            == Ok::<(crate::operation::OpModel, Seq<u8>), crate::errors::DecodeError>(
            (crate::operation::OpModel::Insert { table, columns }, rest),
        ),
{
    let items = crate::encode::ser_pairs_items(columns);
    let s = crate::encode::ser_insert_body(table, columns) + rest;
    let after_table = seq![B_COMMA] + crate::encode::ser_field(crate::wire::lit_columns())
        + seq![B_LBRACK] + (items + seq![B_RBRACK] + (seq![B_RBRACE] + rest));
    assert(s =~= seq![B_LBRACE] + crate::encode::ser_field(crate::wire::lit_table()) + ser_str(
        table,
    ) + after_table);
    lemma_parse_table(table, after_table);
    lemma_parse_list_field(crate::wire::lit_columns(), items + seq![B_RBRACK] + (seq![B_RBRACE]
        + rest));
    lemma_parse_pairs_items(columns, seq![B_RBRACE] + rest);
    lemma_parse_lit(seq![B_RBRACE], rest);
}

/// Parsing a serialized update body recovers the operation.
#[verifier::rlimit(100)]
pub proof fn lemma_parse_update_body(
    table: Seq<u8>,
    set: Seq<(Seq<u8>, ValModel)>,
    key: Seq<(Seq<u8>, ValModel)>,
    rest: Seq<u8>,
)
    requires
        crate::lex::ident_ok(table),
        set.len() > 0,
        crate::operation::pairs_wf(set),
        key.len() > 0,
        crate::operation::pairs_wf(key),
    ensures
        crate::decode::parse_update_body(crate::encode::ser_update_body(table, set, key) + rest)
            == Ok::<(crate::operation::OpModel, Seq<u8>), crate::errors::DecodeError>(
            (crate::operation::OpModel::Update { table, set, key }, rest),
        ),
{
    let set_items = crate::encode::ser_pairs_items(set);
    let key_items = crate::encode::ser_pairs_items(key);
    let s = crate::encode::ser_update_body(table, set, key) + rest;
    let after_key_field = key_items + seq![B_RBRACK] + (seq![B_RBRACE] + rest);
    let after_set = seq![B_COMMA] + crate::encode::ser_field(crate::wire::lit_key())
        + seq![B_LBRACK] + after_key_field;
    let after_table = seq![B_COMMA] + crate::encode::ser_field(crate::wire::lit_set())
        + seq![B_LBRACK] + (set_items + seq![B_RBRACK] + after_set);
    assert(s =~= seq![B_LBRACE] + crate::encode::ser_field(crate::wire::lit_table()) + ser_str(
        table,
    ) + after_table);
    lemma_parse_table(table, after_table);
    lemma_parse_list_field(crate::wire::lit_set(), set_items + seq![B_RBRACK] + after_set);
    lemma_parse_pairs_items(set, after_set);
    lemma_parse_list_field(crate::wire::lit_key(), after_key_field);
    lemma_parse_pairs_items(key, seq![B_RBRACE] + rest);
    lemma_parse_lit(seq![B_RBRACE], rest);
}

/// Parsing a serialized delete body recovers the operation.
#[verifier::rlimit(100)]
pub proof fn lemma_parse_delete_body(table: Seq<u8>, key: Seq<(Seq<u8>, ValModel)>, rest: Seq<u8>)
    requires
        crate::lex::ident_ok(table),
        key.len() > 0,
        crate::operation::pairs_wf(key),
    ensures
        crate::decode::parse_delete_body(crate::encode::ser_delete_body(table, key) + rest)
            == Ok::<(crate::operation::OpModel, Seq<u8>), crate::errors::DecodeError>(
            (crate::operation::OpModel::Delete { table, key }, rest),
        ),
{
    let items = crate::encode::ser_pairs_items(key);
    let s = crate::encode::ser_delete_body(table, key) + rest;
    let after_table = seq![B_COMMA] + crate::encode::ser_field(crate::wire::lit_key())
        + seq![B_LBRACK] + (items + seq![B_RBRACK] + (seq![B_RBRACE] + rest));
    assert(s =~= seq![B_LBRACE] + crate::encode::ser_field(crate::wire::lit_table()) + ser_str(
        table,
    ) + after_table);
    lemma_parse_table(table, after_table);
    lemma_parse_list_field(crate::wire::lit_key(), items + seq![B_RBRACK] + (seq![B_RBRACE]
        + rest));
    lemma_parse_pairs_items(key, seq![B_RBRACE] + rest);
    lemma_parse_lit(seq![B_RBRACE], rest);
}

/// Parsing a serialized upsert body recovers the operation.
#[verifier::rlimit(100)]
pub proof fn lemma_parse_upsert_body(
    table: Seq<u8>,
    columns: Seq<(Seq<u8>, ValModel)>,
    conflict_key: Seq<Seq<u8>>,
    rest: Seq<u8>,
)
    requires
        crate::operation::op_wf(
            crate::operation::OpModel::Upsert { table, columns, conflict_key },
        ),
    ensures
        crate::decode::parse_upsert_body(crate::encode::ser_upsert_body(
            table,
            columns,
            conflict_key,
        ) + rest) == Ok::<(crate::operation::OpModel, Seq<u8>), crate::errors::DecodeError>(
            (crate::operation::OpModel::Upsert { table, columns, conflict_key }, rest),
        ),
{
    let col_items = crate::encode::ser_pairs_items(columns);
    let ck_items = crate::encode::ser_names_items(conflict_key);
    let s = crate::encode::ser_upsert_body(table, columns, conflict_key) + rest;
    let after_ck_field = ck_items + seq![B_RBRACK] + (seq![B_RBRACE] + rest);
    let after_cols = seq![B_COMMA] + crate::encode::ser_field(crate::wire::lit_conflict_key())
        + seq![B_LBRACK] + after_ck_field;
    let after_table = seq![B_COMMA] + crate::encode::ser_field(crate::wire::lit_columns())
        + seq![B_LBRACK] + (col_items + seq![B_RBRACK] + after_cols);
    assert(s =~= seq![B_LBRACE] + crate::encode::ser_field(crate::wire::lit_table()) + ser_str(
        table,
    ) + after_table);
    lemma_parse_table(table, after_table);
    lemma_parse_list_field(crate::wire::lit_columns(), col_items + seq![B_RBRACK] + after_cols);
    lemma_parse_pairs_items(columns, after_cols);
    lemma_parse_list_field(crate::wire::lit_conflict_key(), after_ck_field);
    assert forall|i: int| 0 <= i < conflict_key.len() implies crate::lex::ident_ok(
        #[trigger] conflict_key[i],
    ) by {
        let names = crate::operation::pair_names(columns);
        assert(names.contains(conflict_key[i]));
        let j = choose|j: int| 0 <= j < names.len() && names[j] == conflict_key[i];
        assert(columns[j].0 == conflict_key[i]);
    }
    lemma_parse_names_items(conflict_key, seq![B_RBRACE] + rest);
    lemma_parse_lit(seq![B_RBRACE], rest);
}

/// Parsing the envelope of an operation document: the opening brace, the
/// quoted tag, and the colon before the body.
#[verifier::rlimit(100)]
proof fn lemma_parse_envelope(tag: Seq<u8>, inner: Seq<u8>)
    requires
        forall|i: int|
            0 <= i < tag.len() ==> 32 <= #[trigger] tag[i] && tag[i] != B_QUOTE && tag[i]
                != B_BSL,
    ensures
        ({
            let s = seq![B_LBRACE] + crate::encode::ser_field(tag) + inner + seq![B_RBRACE];
            let body = inner + (seq![B_RBRACE] + Seq::<u8>::empty());
            &&& parse_lit(s, seq![B_LBRACE]) == Ok::<Seq<u8>, crate::errors::DecodeError>(
                ser_str(tag) + (seq![B_COLON] + body),
            )
            &&& parse_str(ser_str(tag) + (seq![B_COLON] + body)) == Ok::<
                (Seq<u8>, Seq<u8>),
                crate::errors::DecodeError,
            >((tag, seq![B_COLON] + body))
            &&& parse_lit(seq![B_COLON] + body, seq![B_COLON]) == Ok::<
                Seq<u8>,
                crate::errors::DecodeError,
            >(body)
        }),
{
    let s = seq![B_LBRACE] + crate::encode::ser_field(tag) + inner + seq![B_RBRACE];
    let body = inner + (seq![B_RBRACE] + Seq::<u8>::empty());
    lemma_esc_identity(tag);
    assert(s =~= seq![B_LBRACE] + (ser_str(tag) + (seq![B_COLON] + body)));
    lemma_parse_lit(seq![B_LBRACE], ser_str(tag) + (seq![B_COLON] + body));
    lemma_parse_str(tag, seq![B_COLON] + body);
    lemma_parse_lit(seq![B_COLON], body);
}

/// The insert case of the round trip.
#[verifier::rlimit(100)]
proof fn lemma_round_trip_insert(table: Seq<u8>, columns: Seq<(Seq<u8>, ValModel)>)
    requires
        crate::operation::op_wf(crate::operation::OpModel::Insert { table, columns }),
    ensures
        crate::decode::parse_op(crate::encode::ser_op(
            crate::operation::OpModel::Insert { table, columns },
        )) == Ok::<crate::operation::OpModel, crate::errors::DecodeError>(
            crate::operation::OpModel::Insert { table, columns },
        ),
{
    lemma_tags_distinct();
    lemma_parse_envelope(crate::wire::lit_insert(), crate::encode::ser_insert_body(table, columns));
    lemma_parse_insert_body(table, columns, seq![B_RBRACE] + Seq::<u8>::empty());
    lemma_parse_lit(seq![B_RBRACE], Seq::<u8>::empty());
}

/// The update case of the round trip.
#[verifier::rlimit(100)]
proof fn lemma_round_trip_update(
    table: Seq<u8>,
    set: Seq<(Seq<u8>, ValModel)>,
    key: Seq<(Seq<u8>, ValModel)>,
)
    requires
        crate::operation::op_wf(crate::operation::OpModel::Update { table, set, key }),
    ensures
        crate::decode::parse_op(crate::encode::ser_op(
            crate::operation::OpModel::Update { table, set, key },
        )) == Ok::<crate::operation::OpModel, crate::errors::DecodeError>(
            crate::operation::OpModel::Update { table, set, key },
        ),
{
    lemma_tags_distinct();
    lemma_parse_envelope(crate::wire::lit_update(), crate::encode::ser_update_body(table, set, key));
    lemma_parse_update_body(table, set, key, seq![B_RBRACE] + Seq::<u8>::empty());
    lemma_parse_lit(seq![B_RBRACE], Seq::<u8>::empty());
}

/// The delete case of the round trip.
#[verifier::rlimit(100)]
proof fn lemma_round_trip_delete(table: Seq<u8>, key: Seq<(Seq<u8>, ValModel)>)
    requires
        crate::operation::op_wf(crate::operation::OpModel::Delete { table, key }),
    ensures
        crate::decode::parse_op(crate::encode::ser_op(
            crate::operation::OpModel::Delete { table, key },
        )) == Ok::<crate::operation::OpModel, crate::errors::DecodeError>(
            crate::operation::OpModel::Delete { table, key },
        ),
{
    lemma_tags_distinct();
    lemma_parse_envelope(crate::wire::lit_delete(), crate::encode::ser_delete_body(table, key));
    lemma_parse_delete_body(table, key, seq![B_RBRACE] + Seq::<u8>::empty());
    lemma_parse_lit(seq![B_RBRACE], Seq::<u8>::empty());
}

/// The upsert case of the round trip.
#[verifier::rlimit(100)]
proof fn lemma_round_trip_upsert(
    table: Seq<u8>,
    columns: Seq<(Seq<u8>, ValModel)>,
    conflict_key: Seq<Seq<u8>>,
)
    requires
        crate::operation::op_wf(
            crate::operation::OpModel::Upsert { table, columns, conflict_key },
        ),
    ensures
        crate::decode::parse_op(crate::encode::ser_op(
            crate::operation::OpModel::Upsert { table, columns, conflict_key },
        )) == Ok::<crate::operation::OpModel, crate::errors::DecodeError>(
            crate::operation::OpModel::Upsert { table, columns, conflict_key },
        ),
{
    lemma_tags_distinct();
    lemma_parse_envelope(crate::wire::lit_upsert(), crate::encode::ser_upsert_body(table, columns, conflict_key));
    lemma_parse_upsert_body(table, columns, conflict_key, seq![B_RBRACE] + Seq::<u8>::empty());
    lemma_parse_lit(seq![B_RBRACE], Seq::<u8>::empty());
}

/// The four operation tags are pairwise distinct.
proof fn lemma_tags_distinct()
    ensures
        crate::wire::lit_insert() != crate::wire::lit_update(),
        crate::wire::lit_insert() != crate::wire::lit_delete(),
        crate::wire::lit_insert() != crate::wire::lit_upsert(),
        crate::wire::lit_update() != crate::wire::lit_delete(),
        crate::wire::lit_update() != crate::wire::lit_upsert(),
        crate::wire::lit_delete() != crate::wire::lit_upsert(),
{
    assert(crate::wire::lit_insert()[0] == 73 && crate::wire::lit_update()[0] == 85);
    assert(crate::wire::lit_delete()[0] == 68 && crate::wire::lit_upsert()[0] == 85);
    assert(crate::wire::lit_update()[2] == 100 && crate::wire::lit_upsert()[2] == 115);
}

/// Decoding the canonical encoding of any well-formed operation yields that
/// operation again: nothing the codec writes is lost or changed on the way
/// back in.
pub proof fn lemma_round_trip(m: crate::operation::OpModel)
    requires
        crate::operation::op_wf(m),
    ensures
        crate::decode::parse_op(crate::encode::ser_op(m)) == Ok::<
            crate::operation::OpModel,
            crate::errors::DecodeError,
        >(m),
{
    match m {
        crate::operation::OpModel::Insert { table, columns } => {
            lemma_round_trip_insert(table, columns);
        },
        crate::operation::OpModel::Update { table, set, key } => {
            lemma_round_trip_update(table, set, key);
        },
        crate::operation::OpModel::Delete { table, key } => {
            lemma_round_trip_delete(table, key);
        },
        crate::operation::OpModel::Upsert { table, columns, conflict_key } => {
            lemma_round_trip_upsert(table, columns, conflict_key);
        },
    }
}

} // verus!
