//! Byte-level lexical ground for the wire codec: digit runs, decimal values,
//! validated identifiers, and the JSON number-literal grammar.

use vstd::prelude::*;

verus! {

/// ASCII byte codes used by the codec, named for readability.
pub const B_D0: u8 = 48;

pub const B_D9: u8 = 57;

pub const B_LA: u8 = 97;

pub const B_LZ: u8 = 122;

pub const B_UA: u8 = 65;

pub const B_UZ: u8 = 90;

pub const B_UND: u8 = 95;

pub const B_MINUS: u8 = 45;

pub const B_PLUS: u8 = 43;

pub const B_DOT: u8 = 46;

pub const B_LE: u8 = 101;

pub const B_UE: u8 = 69;

/// Whether `i` fits the 64-bit signed range.
pub open spec fn in_i64(i: int) -> bool {
    -0x8000_0000_0000_0000 <= i <= 0x7fff_ffff_ffff_ffff
}

/// An ASCII decimal digit.
pub open spec fn is_digit(b: u8) -> bool {
    B_D0 <= b && b <= B_D9
}

/// A byte allowed anywhere in a table or column identifier: ASCII letters,
/// digits and underscore. Nothing here can open or close quoting in any
/// supported dialect, so a validated identifier is safe to interpolate
/// between quote characters.
pub open spec fn is_ident_byte(b: u8) -> bool {
    (B_LA <= b && b <= B_LZ) || (B_UA <= b && b <= B_UZ) || is_digit(b) || b == B_UND
}

/// A validated identifier: non-empty, made of identifier bytes, not starting
/// with a digit.
pub open spec fn ident_ok(s: Seq<u8>) -> bool {
    &&& s.len() > 0
    &&& !is_digit(s[0])
    &&& forall|i: int| 0 <= i < s.len() ==> is_ident_byte(#[trigger] s[i])
}

/// The length of the longest all-digit prefix of `s`.
pub open spec fn digits_prefix_len(s: Seq<u8>) -> int
    decreases s.len(),
{
    if s.len() == 0 || !is_digit(s[0]) {
        0
    } else {
        1 + digits_prefix_len(s.skip(1))
    }
}

/// The value of an all-digit sequence read as a decimal numeral.
pub open spec fn digits_val(s: Seq<u8>) -> int
    decreases s.len(),
{
    if s.len() == 0 {
        0
    } else {
        digits_val(s.take(s.len() - 1)) * 10 + (s.last() - B_D0)
    }
}

/// Ten to the power `n`.
pub open spec fn pow10(n: nat) -> int
    decreases n,
{
    if n == 0 {
        1
    } else {
        10 * pow10((n - 1) as nat)
    }
}

pub proof fn lemma_skip_skip(s: Seq<u8>, a: int, b: int)
    requires
        0 <= a,
        0 <= b,
        a + b <= s.len(),
    ensures
        s.skip(a).skip(b) == s.skip(a + b),
{
    assert(s.skip(a).skip(b) =~= s.skip(a + b));
}

/// A digit run is bounded by the first non-digit byte.
pub proof fn lemma_digits_prefix_len_bounds(s: Seq<u8>)
    ensures
        0 <= digits_prefix_len(s) <= s.len(),
        forall|i: int| 0 <= i < digits_prefix_len(s) ==> is_digit(#[trigger] s[i]),
        digits_prefix_len(s) < s.len() ==> !is_digit(s[digits_prefix_len(s)]),
    decreases s.len(),
{
    if s.len() == 0 || !is_digit(s[0]) {
    } else {
        lemma_digits_prefix_len_bounds(s.skip(1));
        assert forall|i: int| 0 <= i < digits_prefix_len(s) implies is_digit(#[trigger] s[i]) by {
            if i > 0 {
                assert(s.skip(1)[i - 1] == s[i]);
            }
        }
        if digits_prefix_len(s) < s.len() {
            assert(s.skip(1)[digits_prefix_len(s) - 1] == s[digits_prefix_len(s)]);
        }
    }
}

/// If the first `k` bytes are digits and the byte after them (if any) is not,
/// then the digit run has length exactly `k`.
pub proof fn lemma_digits_prefix_len_is(s: Seq<u8>, k: int)
    requires
        0 <= k <= s.len(),
        forall|i: int| 0 <= i < k ==> is_digit(#[trigger] s[i]),
        k < s.len() ==> !is_digit(s[k]),
    ensures
        digits_prefix_len(s) == k,
    decreases s.len(),
{
    if s.len() == 0 {
    } else if k == 0 {
    } else {
        assert(is_digit(s[0]));
        assert forall|i: int| 0 <= i < k - 1 implies is_digit(#[trigger] s.skip(1)[i]) by {
            assert(s.skip(1)[i] == s[i + 1]);
        }
        if k - 1 < s.skip(1).len() {
            assert(s.skip(1)[k - 1] == s[k]);
        }
        lemma_digits_prefix_len_is(s.skip(1), k - 1);
    }
}

/// A numeral's value is below ten to its length.
pub proof fn lemma_digits_val_upper(s: Seq<u8>)
    requires
        forall|i: int| 0 <= i < s.len() ==> is_digit(#[trigger] s[i]),
    ensures
        0 <= digits_val(s) < pow10(s.len()),
    decreases s.len(),
{
    if s.len() > 0 {
        let t = s.take(s.len() - 1);
        assert(forall|i: int| 0 <= i < t.len() ==> is_digit(#[trigger] t[i]));
        lemma_digits_val_upper(t);
    }
}

/// A numeral without a leading zero is at least ten to one less than its
/// length.
pub proof fn lemma_digits_val_lower(s: Seq<u8>)
    requires
        s.len() > 0,
        forall|i: int| 0 <= i < s.len() ==> is_digit(#[trigger] s[i]),
        s[0] != B_D0,
    ensures
        digits_val(s) >= pow10((s.len() - 1) as nat),
    decreases s.len(),
{
    if s.len() == 1 {
        assert(digits_val(s) == digits_val(s.take(0)) * 10 + (s[0] - B_D0));
        assert(digits_val(s.take(0)) == 0);
    } else {
        let t = s.take(s.len() - 1);
        assert(t[0] == s[0]);
        assert(forall|i: int| 0 <= i < t.len() ==> is_digit(#[trigger] t[i]));
        lemma_digits_val_lower(t);
    }
}

/// Powers of ten grow with the exponent.
pub proof fn lemma_pow10_mono(a: nat, b: nat)
    requires
        a <= b,
    ensures
        0 < pow10(a) <= pow10(b),
    decreases b,
{
    if a == b {
        lemma_pow10_pos(a);
    } else {
        lemma_pow10_mono(a, (b - 1) as nat);
    }
}

/// Powers of ten are positive.
pub proof fn lemma_pow10_pos(n: nat)
    ensures
        pow10(n) > 0,
    decreases n,
{
    if n > 0 {
        lemma_pow10_pos((n - 1) as nat);
    }
}

/// The numeric values of the powers of ten at the 64-bit boundary.
pub proof fn lemma_pow10_vals()
    ensures
        pow10(18) == 1000000000000000000,
        pow10(19) == 10000000000000000000,
{
    reveal_with_fuel(pow10, 21);
}

/// The grammar of a JSON number literal: optional minus, an integer part with
/// no leading zero, an optional fraction, an optional exponent.
pub open spec fn num_lit_ok(s: Seq<u8>) -> bool {
    if s.len() > 0 && s[0] == B_MINUS {
        num_body_ok(s.skip(1))
    } else {
        num_body_ok(s)
    }
}

/// The unsigned part of a number literal.
pub open spec fn num_body_ok(u: Seq<u8>) -> bool {
    let d = digits_prefix_len(u);
    &&& d >= 1
    &&& !(d > 1 && u[0] == B_D0)
    &&& frac_exp_ok(u.skip(d))
}

/// What may follow the integer part: nothing, a fraction, or an exponent.
pub open spec fn frac_exp_ok(v: Seq<u8>) -> bool {
    if v.len() == 0 {
        true
    } else if v[0] == B_DOT {
        let d = digits_prefix_len(v.skip(1));
        d >= 1 && exp_ok(v.skip(1 + d))
    } else {
        exp_ok(v)
    }
}

/// What may end a number literal: nothing, or an exponent consuming the rest.
pub open spec fn exp_ok(w: Seq<u8>) -> bool {
    if w.len() == 0 {
        true
    } else if w[0] == B_LE || w[0] == B_UE {
        let x = if w.len() >= 2 && (w[1] == B_PLUS || w[1] == B_MINUS) {
            w.skip(2)
        } else {
            w.skip(1)
        };
        digits_prefix_len(x) >= 1 && digits_prefix_len(x) == x.len()
    } else {
        false
    }
}

/// Scans the digit run of `v` starting at `i`; returns the index just past it.
pub fn digit_run(v: &Vec<u8>, i: usize) -> (j: usize)
    requires
        i <= v.len(),
    ensures
        i <= j <= v.len(),
        j - i == digits_prefix_len(v@.skip(i as int)),
        forall|k: int| i <= k < j ==> is_digit(#[trigger] v@[k]),
        j < v.len() ==> !is_digit(v@[j as int]),
{
    let mut j: usize = i;
    while j < v.len() && B_D0 <= v[j] && v[j] <= B_D9
        invariant
            i <= j <= v.len(),
            forall|k: int| i <= k < j ==> is_digit(#[trigger] v@[k]),
        decreases v.len() - j,
    {
        j = j + 1;
    }
    proof {
        let s = v@.skip(i as int);
        assert forall|k: int| 0 <= k < j - i implies is_digit(#[trigger] s[k]) by {
            assert(s[k] == v@[i + k]);
        }
        if (j - i) < s.len() {
            assert(s[j - i] == v@[j as int]);
        }
        lemma_digits_prefix_len_is(s, j - i);
    }
    j
}

/// An independent copy of a byte vector.
pub fn copy_bytes(v: &Vec<u8>) -> (r: Vec<u8>)
    ensures
        r@ == v@,
{
    let mut r: Vec<u8> = Vec::new();
    let mut i: usize = 0;
    while i < v.len()
        invariant
            0 <= i <= v.len(),
            r@ == v@.take(i as int),
        decreases v.len() - i,
    {
        r.push(v[i]);
        proof {
            assert(v@.take(i + 1) =~= v@.take(i as int).push(v@[i as int]));
        }
        i = i + 1;
    }
    proof {
        assert(v@.take(v.len() as int) =~= v@);
    }
    r
}

/// Whether two byte vectors hold the same bytes.
pub fn bytes_eq(a: &Vec<u8>, b: &Vec<u8>) -> (r: bool)
    ensures
        r == (a@ == b@),
{
    if a.len() != b.len() {
        return false;
    }
    let mut i: usize = 0;
    while i < a.len()
        invariant
            0 <= i <= a.len(),
            a.len() == b.len(),
            forall|k: int| 0 <= k < i ==> a@[k] == b@[k],
        decreases a.len() - i,
    {
        if a[i] != b[i] {
            return false;
        }
        i = i + 1;
    }
    proof {
        assert(a@ =~= b@);
    }
    true
}

/// Whether `v` is a validated identifier.
pub fn is_valid_ident(v: &Vec<u8>) -> (r: bool)
    ensures
        r == ident_ok(v@),
{
    if v.len() == 0 {
        return false;
    }
    let b0 = v[0];
    if B_D0 <= b0 && b0 <= B_D9 {
        return false;
    }
    let mut i: usize = 0;
    while i < v.len()
        invariant
            0 <= i <= v.len(),
            forall|k: int| 0 <= k < i ==> is_ident_byte(#[trigger] v@[k]),
        decreases v.len() - i,
    {
        let b = v[i];
        let ok = (B_LA <= b && b <= B_LZ) || (B_UA <= b && b <= B_UZ) || (B_D0 <= b && b <= B_D9)
            || b == B_UND;
        if !ok {
            return false;
        }
        i = i + 1;
    }
    true
}

/// Whether `v` is a JSON number literal.
#[verifier::rlimit(100)]
pub fn is_valid_num_lit(v: &Vec<u8>) -> (r: bool)
    ensures
        r == num_lit_ok(v@),
{
    let start: usize = if v.len() > 0 && v[0] == B_MINUS {
        1
    } else {
        0
    };
    let ghost u = v@.skip(start as int);
    proof {
        if start == 0 {
            assert(v@.skip(0) =~= v@);
        }
        assert(num_lit_ok(v@) == num_body_ok(u));
    }
    let d_end = digit_run(v, start);
    proof {
        lemma_skip_skip(v@, start as int, d_end - start);
    }
    if d_end == start {
        return false;
    }
    if d_end - start > 1 && v[start] == B_D0 {
        assert(u[0] == v@[start as int]);
        return false;
    }
    assert(u[0] == v@[start as int]);
    let ghost fv = v@.skip(d_end as int);
    // fraction part
    let mut j: usize = d_end;
    if j < v.len() && v[j] == B_DOT {
        let f_end = digit_run(v, j + 1);
        proof {
            lemma_skip_skip(v@, j + 1, f_end - (j + 1));
            assert(fv[0] == v@[j as int]);
            assert(fv.skip(1) =~= v@.skip(j + 1));
        }
        if f_end == j + 1 {
            assert(!frac_exp_ok(fv));
            return false;
        }
        assert(frac_exp_ok(fv) == exp_ok(v@.skip(f_end as int))) by {
            assert(fv.skip(1 + digits_prefix_len(fv.skip(1))) =~= v@.skip(f_end as int));
        }
        j = f_end;
    } else {
        proof {
            if fv.len() > 0 {
                assert(fv[0] == v@[j as int]);
            }
        }
        assert(frac_exp_ok(fv) == exp_ok(v@.skip(j as int)));
    }
    // exponent part
    let ghost w = v@.skip(j as int);
    if j == v.len() {
        assert(exp_ok(w));
        return true;
    }
    let e = v[j];
    proof {
        assert(w[0] == v@[j as int]);
    }
    if !(e == B_LE || e == B_UE) {
        assert(!exp_ok(w));
        return false;
    }
    let mut k: usize = j + 1;
    if k < v.len() && (v[k] == B_PLUS || v[k] == B_MINUS) {
        proof {
            assert(w[1] == v@[k as int]);
        }
        k = k + 1;
        proof {
            assert(w.skip(2) =~= v@.skip(k as int));
        }
    } else {
        proof {
            if w.len() >= 2 {
                assert(w[1] == v@[j + 1]);
            }
            assert(w.skip(1) =~= v@.skip(j + 1));
        }
    }
    let ghost x = v@.skip(k as int);
    let x_end = digit_run(v, k);
    if x_end == k {
        return false;
    }
    if x_end != v.len() {
        return false;
    }
    true
}

} // verus!
