//! Base-N codec: conversion between non-negative integers and their digit
//! strings in a base between 2 and 36, with the alphabet `0-9` then `A-Z`
//! (case-insensitive on input).

use vstd::prelude::*;

use crate::TsError;

verus! {

/// The character standing for digit value `v` (0 to 35): `0-9` then `A-Z`.
pub open spec fn digit_char(v: int) -> char {
    if v < 10 {
        (('0' as int) + v) as char
    } else {
        (('A' as int) + v - 10) as char
    }
}

/// The digit value of `c`, case-insensitive; 36 when `c` is no digit at all,
/// so that `digit_val(c) < base` says `c` is a digit of `base`.
pub open spec fn digit_val(c: char) -> int {
    if '0' <= c && c <= '9' {
        (c as int) - ('0' as int)
    } else if 'A' <= c && c <= 'Z' {
        (c as int) - ('A' as int) + 10
    } else if 'a' <= c && c <= 'z' {
        (c as int) - ('a' as int) + 10
    } else {
        36
    }
}

/// The digits of `n` in `base`, most significant first; empty for `n == 0`.
pub open spec fn spec_to_base(n: nat, base: nat) -> Seq<char>
    decreases n via spec_to_base_decreases
{
    if n == 0 || base < 2 {
        Seq::empty()
    } else {
        spec_to_base(n / base, base).push(digit_char((n % base) as int))
    }
}

#[via_fn]
proof fn spec_to_base_decreases(n: nat, base: nat) {
    if !(n == 0 || base < 2) {
        assert(n / base < n) by (nonlinear_arith)
            requires
                n >= 1,
                base >= 2,
        ;
    }
}

/// The encoding of `n` in `base`: its digits, or `"0"` for `n == 0`.
pub open spec fn spec_encoded(n: nat, base: nat) -> Seq<char> {
    if n == 0 {
        seq!['0']
    } else {
        spec_to_base(n, base)
    }
}

/// Whether `s` is one or more digits, each valid in `base`.
pub open spec fn valid_digits(s: Seq<char>, base: int) -> bool {
    s.len() > 0 && forall|i: int| 0 <= i < s.len() ==> digit_val(s[i]) < base
}

/// The value of the digit string `s` in `base`.
pub open spec fn spec_from_base(s: Seq<char>, base: int) -> int
    decreases s.len(),
{
    if s.len() == 0 {
        0
    } else {
        spec_from_base(s.drop_last(), base) * base + digit_val(s.last())
    }
}

/// Returns the character standing for digit value `v`.
pub(crate) fn digit_char_of(v: u32) -> (c: char)
    requires
        v < 36,
    ensures
        c == digit_char(v as int),
{
    if v < 10 {
        (48u8 + v as u8) as char
    } else {
        (65u8 + (v - 10) as u8) as char
    }
}

/// Returns the digit value of `c`, case-insensitive, or 36 for a non-digit.
fn digit_val_of(c: char) -> (v: u32)
    ensures
        v == digit_val(c),
{
    if '0' <= c && c <= '9' {
        (c as u32) - ('0' as u32)
    } else if 'A' <= c && c <= 'Z' {
        (c as u32) - ('A' as u32) + 10
    } else if 'a' <= c && c <= 'z' {
        (c as u32) - ('a' as u32) + 10
    } else {
        36
    }
}

/// Relies on String::push: appends one character at the end.
#[verifier::external_body]
pub(crate) fn push_char(s: &mut String, c: char)
    ensures
        final(s)@ == old(s)@.push(c),
{
    s.push(c);
}

/// Converts a non-negative integer to its digit string in the given base.
///
/// `0` encodes to `"0"`; any other value to its digits without leading
/// zeros, most significant first.
pub fn to_base_n(n: u32, base: u32) -> (r: String)
    requires
        2 <= base <= 36,
    ensures
        r@ == spec_encoded(n as nat, base as nat),
{
    if n == 0 {
        let mut zero = String::new();
        push_char(&mut zero, '0');
        assert(zero@ =~= spec_encoded(0, base as nat));
        return zero;
    }
    let mut digits: Vec<char> = Vec::new();
    let mut m: u32 = n;
    while m > 0
        invariant
            2 <= base <= 36,
            spec_to_base(n as nat, base as nat) =~= spec_to_base(m as nat, base as nat)
                + digits@.reverse(),
        decreases m,
    {
        let ghost pre = digits@;
        let ghost m0 = m;
        let d = m % base;
        digits.push(digit_char_of(d));
        m = m / base;
        proof {
            let dc = digit_char(d as int);
            assert(digits@ == pre.push(dc));
            assert(digits@.reverse() =~= seq![dc] + pre.reverse());
            assert(spec_to_base(m0 as nat, base as nat) == spec_to_base(
                (m0 as nat) / (base as nat),
                base as nat,
            ).push(digit_char(((m0 as nat) % (base as nat)) as int)));
            assert((m0 as nat) / (base as nat) == m as nat);
            assert(((m0 as nat) % (base as nat)) as int == d as int);
            assert(spec_to_base(m as nat, base as nat) + digits@.reverse() =~= spec_to_base(
                m0 as nat,
                base as nat,
            ) + pre.reverse());
        }
    }
    proof {
        assert(spec_to_base(0nat, base as nat) =~= Seq::<char>::empty());
        assert(spec_to_base(n as nat, base as nat) =~= digits@.reverse());
        assert(spec_to_base(n as nat, base as nat).len() > 0);
    }
    let mut r = String::new();
    let len = digits.len();
    let mut j: usize = 0;
    while j < len
        invariant
            len == digits@.len(),
            0 < len,
            0 <= j <= len,
            r@ =~= digits@.reverse().take(j as int),
        decreases len - j,
    {
        push_char(&mut r, digits[len - 1 - j]);
        proof {
            assert(digits@.reverse()[j as int] == digits@[len - 1 - j]);
            assert(r@ =~= digits@.reverse().take(j + 1));
        }
        j = j + 1;
    }
    proof {
        assert(r@ =~= digits@.reverse());
        assert(spec_to_base(n as nat, base as nat) =~= digits@.reverse());
    }
    r
}

/// Converts a digit string in the given base to a non-negative integer,
/// reading every character as a digit, case-insensitively.
///
/// Fails with `InvalidDigit` when the string is empty, holds any character
/// that is no digit of `base`, or encodes a value above `u32::MAX`.
pub fn from_base_n(s: &str, base: u32) -> (r: Result<u32, TsError>)
    requires
        2 <= base <= 36,
    ensures
        r is Ok <==> valid_digits(s@, base as int) && spec_from_base(s@, base as int)
            <= u32::MAX,
        r matches Ok(v) ==> v == spec_from_base(s@, base as int),
        r is Err ==> r == Result::<u32, TsError>::Err(TsError::InvalidDigit),
{
    let len = s.unicode_len();
    if len == 0 {
        return Err(TsError::InvalidDigit);
    }
    let ghost body = s@;
    let mut i: usize = 0;
    let mut acc: u32 = 0;
    while i < len
        invariant
            i <= len,
            0 < len,
            len == s@.len(),
            2 <= base <= 36,
            body == s@,
            forall|k: int| 0 <= k < i ==> digit_val(s@[k]) < base,
            acc == spec_from_base(s@.subrange(0, i as int), base as int),
        decreases len - i,
    {
        let c = s.get_char(i);
        let d = digit_val_of(c);
        if d >= base {
            proof {
                assert(digit_val(body[i as int]) >= base);
                assert(!valid_digits(body, base as int));
            }
            return Err(TsError::InvalidDigit);
        }
        if acc > (u32::MAX - d) / base {
            proof {
                let pre = s@.subrange(0, (i + 1) as int);
                assert(pre.drop_last() =~= s@.subrange(0, i as int));
                assert(pre.last() == s@[i as int]);
                assert(spec_from_base(pre, base as int) == acc * base + d);
                assert(acc * base + d > u32::MAX) by (nonlinear_arith)
                    requires
                        acc as int > ((u32::MAX - d) as int) / (base as int),
                        2 <= base as int,
                        0 <= d as int,
                ;
                if valid_digits(body, base as int) {
                    assert(pre =~= body.take((i + 1) as int));
                    lemma_from_base_prefix_le(body, base as int, (i + 1) as int);
                    assert(spec_from_base(body, base as int) > u32::MAX);
                }
            }
            return Err(TsError::InvalidDigit);
        }
        proof {
            let pre = s@.subrange(0, (i + 1) as int);
            assert(pre.drop_last() =~= s@.subrange(0, i as int));
            assert(acc * base + d <= u32::MAX) by (nonlinear_arith)
                requires
                    acc as int <= ((u32::MAX - d) as int) / (base as int),
                    2 <= base as int,
                    0 <= d as int,
                    (d as int) < base as int,
            ;
        }
        acc = acc * base + d;
        i = i + 1;
    }
    proof {
        assert(s@.subrange(0, i as int) =~= body);
    }
    Ok(acc)
}

/// The value of a digit string never shrinks as more digits are read: the
/// value of `s.take(k)` is at most the value of all of `s`.
proof fn lemma_from_base_prefix_le(s: Seq<char>, base: int, k: int)
    requires
        2 <= base <= 36,
        0 <= k <= s.len(),
        forall|i: int| 0 <= i < s.len() ==> digit_val(s[i]) < base,
        forall|i: int| 0 <= i < s.len() ==> 0 <= digit_val(s[i]),
    ensures
        spec_from_base(s.take(k), base) <= spec_from_base(s, base),
        0 <= spec_from_base(s.take(k), base),
    decreases s.len() - k,
{
    lemma_from_base_nonneg(s.take(k), base);
    if k < s.len() {
        let t = s.take(k + 1);
        assert(t.drop_last() =~= s.take(k));
        lemma_from_base_nonneg(s.take(k), base);
        assert(spec_from_base(s.take(k), base) * base >= spec_from_base(s.take(k), base))
            by (nonlinear_arith)
            requires
                spec_from_base(s.take(k), base) >= 0,
                base >= 2,
        ;
        assert(0 <= digit_val(t.last()));
        lemma_from_base_prefix_le(s, base, k + 1);
    } else {
        assert(s.take(k) =~= s);
    }
}

/// The value of a digit string is non-negative.
proof fn lemma_from_base_nonneg(s: Seq<char>, base: int)
    requires
        2 <= base,
        forall|i: int| 0 <= i < s.len() ==> 0 <= digit_val(s[i]),
    ensures
        0 <= spec_from_base(s, base),
    decreases s.len(),
{
    if s.len() > 0 {
        lemma_from_base_nonneg(s.drop_last(), base);
        assert(spec_from_base(s.drop_last(), base) * base >= 0) by (nonlinear_arith)
            requires
                spec_from_base(s.drop_last(), base) >= 0,
                base >= 2,
        ;
    }
}


/// `s` left-padded with `'0'` to width 3; unchanged when already 3 or longer.
pub open spec fn spec_pad3(s: Seq<char>) -> Seq<char> {
    if s.len() >= 3 {
        s
    } else {
        Seq::new((3 - s.len()) as nat, |i: int| '0') + s
    }
}

/// Zero-pads a digit string on the left to a width of 3 characters.
pub fn pad3(s: &str) -> (r: String)
    ensures
        r@ == spec_pad3(s@),
{
    let len = s.unicode_len();
    let mut r = String::new();
    let mut k: usize = 0;
    let pad: usize = if len >= 3 {
        0
    } else {
        3 - len
    };
    while k < pad
        invariant
            k <= pad,
            r@ =~= Seq::new(k as nat, |i: int| '0'),
        decreases pad - k,
    {
        push_char(&mut r, '0');
        proof {
            assert(r@ =~= Seq::new((k + 1) as nat, |i: int| '0'));
        }
        k = k + 1;
    }
    r.append(s);
    proof {
        assert(r@ =~= spec_pad3(s@));
    }
    r
}

/// The digit character of a value below 36 reads back as that value.
proof fn lemma_digit_char_val(v: int)
    requires
        0 <= v < 36,
    ensures
        digit_val(digit_char(v)) == v,
{
}

/// Every character of `spec_to_base(n, base)` is a digit of `base`.
proof fn lemma_to_base_digits_valid(n: nat, base: nat)
    requires
        2 <= base <= 36,
    ensures
        forall|i: int|
            0 <= i < spec_to_base(n, base).len() ==> #[trigger] digit_val(
                spec_to_base(n, base)[i],
            ) < base,
    decreases n,
{
    if n != 0 {
        assert(n / base < n) by (nonlinear_arith)
            requires
                n >= 1,
                base >= 2,
        ;
        lemma_to_base_digits_valid(n / base, base);
        assert(n % base < base) by (nonlinear_arith)
            requires
                base >= 2,
        ;
        lemma_digit_char_val((n % base) as int);
        let s = spec_to_base(n, base);
        let t = spec_to_base(n / base, base);
        assert forall|i: int| 0 <= i < s.len() implies #[trigger] digit_val(s[i]) < base by {
            if i < t.len() {
                assert(s[i] == t[i]);
            } else {
                assert(s[i] == digit_char((n % base) as int));
            }
        }
    }
}

/// Reading back the digits of `n` yields `n` again.
proof fn lemma_from_to_base(n: nat, base: nat)
    requires
        2 <= base <= 36,
    ensures
        spec_from_base(spec_to_base(n, base), base as int) == n,
    decreases n,
{
    if n != 0 {
        assert(n / base < n && n % base < base) by (nonlinear_arith)
            requires
                n >= 1,
                base >= 2,
        ;
        lemma_from_to_base(n / base, base);
        let s = spec_to_base(n, base);
        let t = spec_to_base(n / base, base);
        assert(s.drop_last() =~= t);
        lemma_digit_char_val((n % base) as int);
        assert(spec_from_base(s, base as int) == (n / base) * base + n % base);
        assert((n / base) * base + n % base == n) by (nonlinear_arith)
            requires
                base >= 2,
                n >= 0,
        ;
    }
}

/// A run of `'0'` characters reads as the value 0.
proof fn lemma_zeros_value(z: Seq<char>, base: int)
    requires
        2 <= base <= 36,
        forall|i: int| 0 <= i < z.len() ==> z[i] == '0',
    ensures
        spec_from_base(z, base) == 0,
    decreases z.len(),
{
    if z.len() > 0 {
        lemma_zeros_value(z.drop_last(), base);
        assert(digit_val('0') == 0);
    }
}

/// Leading zeros do not change the value a digit string reads as.
proof fn lemma_prepend_zeros(z: Seq<char>, s: Seq<char>, base: int)
    requires
        2 <= base <= 36,
        forall|i: int| 0 <= i < z.len() ==> z[i] == '0',
    ensures
        spec_from_base(z + s, base) == spec_from_base(s, base),
    decreases s.len(),
{
    if s.len() == 0 {
        assert(z + s =~= z);
        lemma_zeros_value(z, base);
    } else {
        assert((z + s).drop_last() =~= z + s.drop_last());
        assert((z + s).last() == s.last());
        lemma_prepend_zeros(z, s.drop_last(), base);
    }
}

/// Decoding inverts encoding: for any minutes value below 1440 and either
/// supported base, the encoded digit string is a valid digit body (with no
/// sign to strip) and reads back as the same value.
pub proof fn lemma_decode_encode(n: u32, base: u32)
    requires
        n < 1440,
        base == 12 || base == 36,
    ensures
        valid_digits(spec_encoded(n as nat, base as nat), base as int),
        spec_from_base(spec_encoded(n as nat, base as nat), base as int) == n,
{
    let enc = spec_encoded(n as nat, base as nat);
    if n == 0 {
        assert(digit_val('0') == 0);
        assert(enc =~= seq!['0']);
        assert(enc.drop_last() =~= Seq::<char>::empty());
        assert(enc.last() == '0');
        assert(spec_from_base(Seq::<char>::empty(), base as int) == 0);
        assert(spec_from_base(enc, base as int) == 0 * base + digit_val('0'));
    } else {
        lemma_from_to_base(n as nat, base as nat);
        lemma_to_base_digits_valid(n as nat, base as nat);
        assert(enc.len() > 0);
    }
}

/// A value below `base` cubed needs at most 3 digits.
proof fn lemma_to_base_len3(n: nat, base: nat)
    requires
        2 <= base <= 36,
        n < base * base * base,
    ensures
        spec_to_base(n, base).len() <= 3,
{
    let b = base as int;
    if n != 0 {
        let n1 = n / base;
        vstd::arithmetic::div_mod::lemma_fundamental_div_mod(n as int, b);
        vstd::arithmetic::div_mod::lemma_mod_bound(n as int, b);
        assert(n1 < base * base) by (nonlinear_arith)
            requires
                n as int == b * (n1 as int) + (n as int) % b,
                0 <= (n as int) % b < b,
                n < base * base * base,
                b == base as int,
                b >= 2,
        ;
        assert(spec_to_base(n, base).len() == spec_to_base(n1, base).len() + 1);
        if n1 != 0 {
            let n2 = n1 / base;
            vstd::arithmetic::div_mod::lemma_fundamental_div_mod(n1 as int, b);
            vstd::arithmetic::div_mod::lemma_mod_bound(n1 as int, b);
            assert(n2 < base) by (nonlinear_arith)
                requires
                    n1 as int == b * (n2 as int) + (n1 as int) % b,
                    0 <= (n1 as int) % b < b,
                    n1 < base * base,
                    b == base as int,
                    b >= 2,
            ;
            assert(spec_to_base(n1, base).len() == spec_to_base(n2, base).len() + 1);
            if n2 != 0 {
                let n3 = n2 / base;
                vstd::arithmetic::div_mod::lemma_basic_div(n2 as int, b);
                assert(n3 == 0);
                assert(spec_to_base(n2, base).len() == spec_to_base(n3, base).len() + 1);
                assert(spec_to_base(0nat, base).len() == 0);
            }
        } else {
            assert(spec_to_base(0nat, base).len() == 0);
        }
    }
}

/// The encoding of any minutes value below 1440 is at most 3 characters in
/// either supported base, so zero-padding to width 3 never truncates.
pub proof fn lemma_encoded_len(n: u32, base: u32)
    requires
        n < 1440,
        base == 12 || base == 36,
    ensures
        1 <= spec_encoded(n as nat, base as nat).len() <= 3,
        spec_pad3(spec_encoded(n as nat, base as nat)).len() == 3,
{
    assert((base * base * base) as int >= 1728) by (nonlinear_arith)
        requires
            base == 12 || base == 36,
    ;
    lemma_to_base_len3(n as nat, base as nat);
    if n != 0 {
        assert(spec_encoded(n as nat, base as nat).len() >= 1);
    }
}

/// Padding preserves both digit validity and the value read back.
pub proof fn lemma_pad3_value(s: Seq<char>, base: int)
    requires
        2 <= base <= 36,
        valid_digits(s, base),
    ensures
        valid_digits(spec_pad3(s), base),
        spec_from_base(spec_pad3(s), base) == spec_from_base(s, base),
{
    if s.len() < 3 {
        let z = Seq::new((3 - s.len()) as nat, |i: int| '0');
        assert(forall|i: int| 0 <= i < z.len() ==> z[i] == '0');
        lemma_prepend_zeros(z, s, base);
        assert(digit_val('0') == 0);
        let p = spec_pad3(s);
        assert forall|i: int| 0 <= i < p.len() implies #[trigger] digit_val(p[i]) < base by {
            if i < z.len() {
                assert(p[i] == '0');
            } else {
                assert(p[i] == s[i - z.len()]);
            }
        }
    }
}


/// Every character of an encoding is a decimal digit or an upper-case
/// letter.
pub proof fn lemma_encoded_shape(n: nat, base: nat)
    requires
        2 <= base <= 36,
    ensures
        forall|i: int|
            0 <= i < spec_encoded(n, base).len() ==> (('0' <= #[trigger] spec_encoded(n, base)[i]
                && spec_encoded(n, base)[i] <= '9') || ('A' <= spec_encoded(n, base)[i]
                && spec_encoded(n, base)[i] <= 'Z')),
{
    if n == 0 {
        assert(spec_encoded(n, base) =~= seq!['0']);
    } else {
        lemma_to_base_shape(n, base);
    }
}

/// Every character of a digit string is a decimal digit or an upper-case
/// letter.
proof fn lemma_to_base_shape(n: nat, base: nat)
    requires
        2 <= base <= 36,
    ensures
        forall|i: int|
            0 <= i < spec_to_base(n, base).len() ==> (('0' <= #[trigger] spec_to_base(n, base)[i]
                && spec_to_base(n, base)[i] <= '9') || ('A' <= spec_to_base(n, base)[i]
                && spec_to_base(n, base)[i] <= 'Z')),
    decreases n,
{
    if n != 0 {
        assert(n / base < n) by (nonlinear_arith)
            requires
                n >= 1,
                base >= 2,
        ;
        assert(n % base < base) by (nonlinear_arith)
            requires
                base >= 2,
        ;
        lemma_to_base_shape(n / base, base);
        let s = spec_to_base(n, base);
        let t = spec_to_base(n / base, base);
        assert forall|i: int|
            0 <= i < s.len() implies (('0' <= #[trigger] s[i] && s[i] <= '9') || ('A' <= s[i]
            && s[i] <= 'Z')) by {
            if i < t.len() {
                assert(s[i] == t[i]);
            } else {
                assert(s[i] == digit_char((n % base) as int));
            }
        }
    }
}

} // verus!
