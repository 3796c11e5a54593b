//! The wire format's fixed tokens: punctuation bytes and the spelled-out
//! tags and field names of the operation document, each as a specification
//! sequence beside an executable constructor proved to match it.

use vstd::prelude::*;

verus! {

/// ASCII '{'.
pub const B_LBRACE: u8 = 123;

/// ASCII '}'.
pub const B_RBRACE: u8 = 125;

/// ASCII '['.
pub const B_LBRACK: u8 = 91;

/// ASCII ']'.
pub const B_RBRACK: u8 = 93;

/// ASCII ','.
pub const B_COMMA: u8 = 44;

/// ASCII ':'.
pub const B_COLON: u8 = 58;

/// ASCII '"'.
pub const B_QUOTE: u8 = 34;

/// ASCII '\\'.
pub const B_BSL: u8 = 92;

/// ASCII '/'.
pub const B_SLASH: u8 = 47;

/// ASCII 'u'.
pub const B_LOW_U: u8 = 117;

/// ASCII 'n'.
pub const B_LOW_N: u8 = 110;

/// ASCII 't'.
pub const B_LOW_T: u8 = 116;

/// ASCII 'r'.
pub const B_LOW_R: u8 = 114;

/// ASCII 'b'.
pub const B_LOW_B: u8 = 98;

/// ASCII 'f'.
pub const B_LOW_F: u8 = 102;

/// The bytes of `"null"`.
pub open spec fn lit_null() -> Seq<u8> {
    seq![110u8, 117u8, 108u8, 108u8]
}

pub fn make_lit_null() -> (r: Vec<u8>)
    ensures
        r@ == lit_null(),
{
    let mut v: Vec<u8> = Vec::new();
    v.push(110);
    v.push(117);
    v.push(108);
    v.push(108);
    proof {
        assert(v@ =~= lit_null());
    }
    v
}

/// The bytes of `"true"`.
pub open spec fn lit_true() -> Seq<u8> {
    seq![116u8, 114u8, 117u8, 101u8]
}

pub fn make_lit_true() -> (r: Vec<u8>)
    ensures
        r@ == lit_true(),
{
    let mut v: Vec<u8> = Vec::new();
    v.push(116);
    v.push(114);
    v.push(117);
    v.push(101);
    proof {
        assert(v@ =~= lit_true());
    }
    v
}

/// The bytes of `"false"`.
pub open spec fn lit_false() -> Seq<u8> {
    seq![102u8, 97u8, 108u8, 115u8, 101u8]
}

pub fn make_lit_false() -> (r: Vec<u8>)
    ensures
        r@ == lit_false(),
{
    let mut v: Vec<u8> = Vec::new();
    v.push(102);
    v.push(97);
    v.push(108);
    v.push(115);
    v.push(101);
    proof {
        assert(v@ =~= lit_false());
    }
    v
}

/// The bytes of `"Float"`.
pub open spec fn lit_float() -> Seq<u8> {
    seq![70u8, 108u8, 111u8, 97u8, 116u8]
}

pub fn make_lit_float() -> (r: Vec<u8>)
    ensures
        r@ == lit_float(),
{
    let mut v: Vec<u8> = Vec::new();
    v.push(70);
    v.push(108);
    v.push(111);
    v.push(97);
    v.push(116);
    proof {
        assert(v@ =~= lit_float());
    }
    v
}

/// The bytes of `"Bytes"`.
pub open spec fn lit_bytes() -> Seq<u8> {
    seq![66u8, 121u8, 116u8, 101u8, 115u8]
}

pub fn make_lit_bytes() -> (r: Vec<u8>)
    ensures
        r@ == lit_bytes(),
{
    let mut v: Vec<u8> = Vec::new();
    v.push(66);
    v.push(121);
    v.push(116);
    v.push(101);
    v.push(115);
    proof {
        assert(v@ =~= lit_bytes());
    }
    v
}

/// The bytes of `"Timestamp"`.
pub open spec fn lit_timestamp() -> Seq<u8> {
    seq![84u8, 105u8, 109u8, 101u8, 115u8, 116u8, 97u8, 109u8, 112u8]
}

pub fn make_lit_timestamp() -> (r: Vec<u8>)
    ensures
        r@ == lit_timestamp(),
{
    let mut v: Vec<u8> = Vec::new();
    v.push(84);
    v.push(105);
    v.push(109);
    v.push(101);
    v.push(115);
    v.push(116);
    v.push(97);
    v.push(109);
    v.push(112);
    proof {
        assert(v@ =~= lit_timestamp());
    }
    v
}

/// The bytes of `"Insert"`.
pub open spec fn lit_insert() -> Seq<u8> {
    seq![73u8, 110u8, 115u8, 101u8, 114u8, 116u8]
}

pub fn make_lit_insert() -> (r: Vec<u8>)
    ensures
        r@ == lit_insert(),
{
    let mut v: Vec<u8> = Vec::new();
    v.push(73);
    v.push(110);
    v.push(115);
    v.push(101);
    v.push(114);
    v.push(116);
    proof {
        assert(v@ =~= lit_insert());
    }
    v
}

/// The bytes of `"Update"`.
pub open spec fn lit_update() -> Seq<u8> {
    seq![85u8, 112u8, 100u8, 97u8, 116u8, 101u8]
}

pub fn make_lit_update() -> (r: Vec<u8>)
    ensures
        r@ == lit_update(),
{
    let mut v: Vec<u8> = Vec::new();
    v.push(85);
    v.push(112);
    v.push(100);
    v.push(97);
    v.push(116);
    v.push(101);
    proof {
        assert(v@ =~= lit_update());
    }
    v
}

/// The bytes of `"Delete"`.
pub open spec fn lit_delete() -> Seq<u8> {
    seq![68u8, 101u8, 108u8, 101u8, 116u8, 101u8]
}

pub fn make_lit_delete() -> (r: Vec<u8>)
    ensures
        r@ == lit_delete(),
{
    let mut v: Vec<u8> = Vec::new();
    v.push(68);
    v.push(101);
    v.push(108);
    v.push(101);
    v.push(116);
    v.push(101);
    proof {
        assert(v@ =~= lit_delete());
    }
    v
}

/// The bytes of `"Upsert"`.
pub open spec fn lit_upsert() -> Seq<u8> {
    seq![85u8, 112u8, 115u8, 101u8, 114u8, 116u8]
}

pub fn make_lit_upsert() -> (r: Vec<u8>)
    ensures
        r@ == lit_upsert(),
{
    let mut v: Vec<u8> = Vec::new();
    v.push(85);
    v.push(112);
    v.push(115);
    v.push(101);
    v.push(114);
    v.push(116);
    proof {
        assert(v@ =~= lit_upsert());
    }
    v
}

/// The bytes of `"table"`.
pub open spec fn lit_table() -> Seq<u8> {
    seq![116u8, 97u8, 98u8, 108u8, 101u8]
}

pub fn make_lit_table() -> (r: Vec<u8>)
    ensures
        r@ == lit_table(),
{
    let mut v: Vec<u8> = Vec::new();
    v.push(116);
    v.push(97);
    v.push(98);
    v.push(108);
    v.push(101);
    proof {
        assert(v@ =~= lit_table());
    }
    v
}

/// The bytes of `"columns"`.
pub open spec fn lit_columns() -> Seq<u8> {
    seq![99u8, 111u8, 108u8, 117u8, 109u8, 110u8, 115u8]
}

pub fn make_lit_columns() -> (r: Vec<u8>)
    ensures
        r@ == lit_columns(),
{
    let mut v: Vec<u8> = Vec::new();
    v.push(99);
    v.push(111);
    v.push(108);
    v.push(117);
    v.push(109);
    v.push(110);
    v.push(115);
    proof {
        assert(v@ =~= lit_columns());
    }
    v
}

/// The bytes of `"set"`.
pub open spec fn lit_set() -> Seq<u8> {
    seq![115u8, 101u8, 116u8]
}

pub fn make_lit_set() -> (r: Vec<u8>)
    ensures
        r@ == lit_set(),
{
    let mut v: Vec<u8> = Vec::new();
    v.push(115);
    v.push(101);
    v.push(116);
    proof {
        assert(v@ =~= lit_set());
    }
    v
}

/// The bytes of `"key"`.
pub open spec fn lit_key() -> Seq<u8> {
    seq![107u8, 101u8, 121u8]
}

pub fn make_lit_key() -> (r: Vec<u8>)
    ensures
        r@ == lit_key(),
{
    let mut v: Vec<u8> = Vec::new();
    v.push(107);
    v.push(101);
    v.push(121);
    proof {
        assert(v@ =~= lit_key());
    }
    v
}

/// The bytes of `"conflict_key"`.
pub open spec fn lit_conflict_key() -> Seq<u8> {
    seq![99u8, 111u8, 110u8, 102u8, 108u8, 105u8, 99u8, 116u8, 95u8, 107u8, 101u8, 121u8]
}

pub fn make_lit_conflict_key() -> (r: Vec<u8>)
    ensures
        r@ == lit_conflict_key(),
{
    let mut v: Vec<u8> = Vec::new();
    v.push(99);
    v.push(111);
    v.push(110);
    v.push(102);
    v.push(108);
    v.push(105);
    v.push(99);
    v.push(116);
    v.push(95);
    v.push(107);
    v.push(101);
    v.push(121);
    proof {
        assert(v@ =~= lit_conflict_key());
    }
    v
}

} // verus!
