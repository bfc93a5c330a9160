//! Decimal numerals: pie identifiers as digit strings and back.
use vstd::prelude::*;
use crate::json::{is_digit, wf_num};

verus! {

/// The numeric value of one decimal digit character.
pub open spec fn digit_val(c: char) -> nat {
    if c == '0' {
        0
    } else if c == '1' {
        1
    } else if c == '2' {
        2
    } else if c == '3' {
        3
    } else if c == '4' {
        4
    } else if c == '5' {
        5
    } else if c == '6' {
        6
    } else if c == '7' {
        7
    } else if c == '8' {
        8
    } else {
        9
    }
}

/// A nonempty run of decimal digits.
pub open spec fn is_digits(t: Seq<char>) -> bool {
    t.len() > 0 && forall|i: int| 0 <= i < t.len() ==> is_digit(#[trigger] t[i])
}

/// The value of a digit string, most significant digit first.
pub open spec fn dec_val(t: Seq<char>) -> nat
    decreases t,
{
    if t.len() == 0 {
        0
    } else {
        dec_val(t.drop_last()) * 10 + digit_val(t.last())
    }
}

/// The digit character for a value below ten, as a specification.
pub open spec fn char_of_digit(v: nat) -> char {
    if v == 0 {
        '0'
    } else if v == 1 {
        '1'
    } else if v == 2 {
        '2'
    } else if v == 3 {
        '3'
    } else if v == 4 {
        '4'
    } else if v == 5 {
        '5'
    } else if v == 6 {
        '6'
    } else if v == 7 {
        '7'
    } else if v == 8 {
        '8'
    } else {
        '9'
    }
}

/// The decimal numeral of `v`, most significant digit first.
pub open spec fn digits_of(v: nat) -> Seq<char>
    decreases v,
{
    if v < 10 {
        seq![char_of_digit(v)]
    } else {
        digits_of(v / 10).push(char_of_digit(v % 10))
    }
}

/// The numeral of `v` is made of digits, is a number token, and reads back
/// as `v`.
pub proof fn lemma_digits_of(v: nat)
    ensures
        is_digits(digits_of(v)),
        wf_num(digits_of(v)),
        dec_val(digits_of(v)) == v,
    decreases v,
{
    let t = digits_of(v);
    if v < 10 {
        assert(digit_val(char_of_digit(v)) == v);
        assert(t.drop_last() =~= Seq::<char>::empty());
        assert(dec_val(Seq::<char>::empty()) == 0);
    } else {
        lemma_digits_of(v / 10);
        let p = digits_of(v / 10);
        assert(t == p.push(char_of_digit(v % 10)));
        assert(t.drop_last() =~= p);
        assert(t.last() == char_of_digit(v % 10));
        assert(digit_val(char_of_digit(v % 10)) == v % 10);
        assert(dec_val(t) == (v / 10) * 10 + (v % 10));
        assert(is_digits(t)) by {
            assert(forall|i: int| 0 <= i < p.len() ==> t[i] == p[i]);
        }
    }
}

/// The digit character for a value below ten.
pub fn digit_char(v: u64) -> (c: char)
    requires
        v < 10,
    ensures
        is_digit(c),
        digit_val(c) == v,
        c == char_of_digit(v as nat),
{
    if v == 0 {
        '0'
    } else if v == 1 {
        '1'
    } else if v == 2 {
        '2'
    } else if v == 3 {
        '3'
    } else if v == 4 {
        '4'
    } else if v == 5 {
        '5'
    } else if v == 6 {
        '6'
    } else if v == 7 {
        '7'
    } else if v == 8 {
        '8'
    } else {
        '9'
    }
}

/// Writes `v` in decimal, most significant digit first, no leading zeros.
pub fn u64_to_digits(v: u64) -> (t: Vec<char>)
    ensures
        t@ == digits_of(v as nat),
        is_digits(t@),
        dec_val(t@) == v,
        wf_num(t@),
    decreases v,
{
    proof {
        lemma_digits_of(v as nat);
    }
    if v < 10 {
        let mut t: Vec<char> = Vec::new();
        t.push(digit_char(v));
        proof {
            assert(t@.drop_last() =~= Seq::<char>::empty());
            assert(dec_val(Seq::<char>::empty()) == 0);
            assert(t@.last() == t@[0]);
        }
        t
    } else {
        let mut t = u64_to_digits(v / 10);
        let ghost pre = t@;
        let d = digit_char(v % 10);
        t.push(d);
        proof {
            assert(t@.drop_last() =~= pre);
            assert(t@.last() == d);
            assert(dec_val(t@) == (v / 10) * 10 + (v % 10));
        }
        t
    }
}

/// The value of any proper prefix never exceeds the whole string's value.
pub proof fn lemma_dec_val_prefix(t: Seq<char>, k: int)
    requires
        0 <= k <= t.len(),
    ensures
        dec_val(t.take(k)) <= dec_val(t),
    decreases t.len() - k,
{
    if k < t.len() {
        lemma_dec_val_prefix(t, k + 1);
        assert(t.take(k + 1).drop_last() =~= t.take(k));
        assert(dec_val(t.take(k + 1)) == dec_val(t.take(k)) * 10 + digit_val(t.take(k + 1).last()));
    } else {
        assert(t.take(k) =~= t);
    }
}

/// Reads a digit string as a machine integer; fails exactly on a string that
/// is empty, holds a non-digit, or names a value too large for `u64`.
#[verifier::loop_isolation(false)]
pub fn digits_to_u64(t: &Vec<char>) -> (r: Option<u64>)
    ensures
        r matches Some(v) ==> is_digits(t@) && v == dec_val(t@),
        (is_digits(t@) && dec_val(t@) <= u64::MAX) ==> (r matches Some(v) && v == dec_val(t@)),
        r is None ==> !(is_digits(t@) && dec_val(t@) <= u64::MAX),
{
    if t.len() == 0 {
        return None;
    }
    let mut val: u64 = 0;
    let mut i: usize = 0;
    while i < t.len()
        invariant
            0 <= i <= t@.len(),
            forall|k: int| 0 <= k < i ==> is_digit(#[trigger] t@[k]),
            val == dec_val(t@.take(i as int)),
        decreases t@.len() - i,
    {
        let c = t[i];
        if !('0' <= c && c <= '9') {
            return None;
        }
        let d: u64 = char_digit_val(c);
        if val > (u64::MAX - d) / 10 {
            proof {
                assert(t@.take(i as int + 1).drop_last() =~= t@.take(i as int));
                assert(dec_val(t@.take(i as int + 1)) == val * 10 + d);
                lemma_dec_val_prefix(t@, i as int + 1);
                assert(val * 10 + d > u64::MAX) by (nonlinear_arith)
                    requires
                        val > (u64::MAX - d) / 10,
                        d < 10,
                ;
            }
            return None;
        }
        val = val * 10 + d;
        proof {
            assert(t@.take(i as int + 1).drop_last() =~= t@.take(i as int));
        }
        i = i + 1;
    }
    proof {
        assert(t@.take(t@.len() as int) =~= t@);
    }
    Some(val)
}

/// The numeric value of a digit character.
pub fn char_digit_val(c: char) -> (v: u64)
    requires
        is_digit(c),
    ensures
        v == digit_val(c),
        v < 10,
{
    if c == '0' {
        0
    } else if c == '1' {
        1
    } else if c == '2' {
        2
    } else if c == '3' {
        3
    } else if c == '4' {
        4
    } else if c == '5' {
        5
    } else if c == '6' {
        6
    } else if c == '7' {
        7
    } else if c == '8' {
        8
    } else {
        9
    }
}

} // verus!
