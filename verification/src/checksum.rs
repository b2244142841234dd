//! The arithmetic of ISO 7064 MOD 97-10: letters are written out as two decimal
//! digits (A = 10 ... Z = 35) and the decimal number that results is reduced
//! modulo 97.

use vstd::prelude::*;

verus! {

/// `0`..`9`.
pub open spec fn is_digit(c: char) -> bool {
    '0' <= c && c <= '9'
}

/// `A`..`Z`.
pub open spec fn is_upper(c: char) -> bool {
    'A' <= c && c <= 'Z'
}

/// `a`..`z`.
pub open spec fn is_lower(c: char) -> bool {
    'a' <= c && c <= 'z'
}

/// An ASCII letter of either case, or an ASCII digit.
pub open spec fn is_alnum(c: char) -> bool {
    is_digit(c) || is_upper(c) || is_lower(c)
}

/// Every character is a digit.
pub open spec fn all_digits(s: Seq<char>) -> bool {
    forall|i: int| 0 <= i < s.len() ==> is_digit(#[trigger] s[i])
}

/// Every character is a letter or a digit.
pub open spec fn all_alnum(s: Seq<char>) -> bool {
    forall|i: int| 0 <= i < s.len() ==> is_alnum(#[trigger] s[i])
}

/// The value of a character as a base-36 digit: `0`..`9` are 0..9, and a
/// letter of either case is 10..35. Any other character counts as 0.
pub open spec fn base36_value(c: char) -> nat {
    if is_digit(c) {
        (c as int - 48) as nat
    } else if is_upper(c) {
        (c as int - 55) as nat
    } else if is_lower(c) {
        (c as int - 87) as nat
    } else {
        0
    }
}

/// The character that shows the decimal digit `d`.
pub open spec fn digit_char(d: nat) -> char
    recommends
        d < 10,
{
    (d + 48) as char
}

/// What one character becomes: a digit stays, a letter turns into the two
/// decimal digits of its base-36 value.
pub open spec fn expand_char(c: char) -> Seq<char> {
    if is_digit(c) {
        seq![c]
    } else {
        seq![digit_char(base36_value(c) / 10), digit_char(base36_value(c) % 10)]
    }
}

/// The digit string that a code becomes when each character is expanded in
/// place.
pub open spec fn expansion(s: Seq<char>) -> Seq<char>
    decreases s.len(),
{
    if s.len() == 0 {
        Seq::<char>::empty()
    } else {
        expansion(s.drop_last()) + expand_char(s.last())
    }
}

/// The number that a string of decimal digits writes, however long it is.
pub open spec fn decimal_value(s: Seq<char>) -> nat
    decreases s.len(),
{
    if s.len() == 0 {
        0
    } else {
        decimal_value(s.drop_last()) * 10 + base36_value(s.last())
    }
}

/// The remainder modulo 97 of the number that the expansion of `s` writes.
pub open spec fn residue(s: Seq<char>) -> nat {
    decimal_value(expansion(s)) % 97
}

/// Expanding character by character is the same as expanding two parts and
/// joining them.
pub proof fn lemma_expansion_concat(a: Seq<char>, b: Seq<char>)
    ensures
        expansion(a + b) == expansion(a) + expansion(b),
    decreases b.len(),
{
    if b.len() == 0 {
        assert(a + b =~= a);
        assert(expansion(a) + expansion(b) =~= expansion(a));
    } else {
        lemma_expansion_concat(a, b.drop_last());
        assert((a + b).drop_last() =~= a + b.drop_last());
        assert((a + b).last() == b.last());
        assert(expansion(a + b) =~= expansion(a) + expansion(b));
    }
}

/// A string of digits is its own expansion.
pub proof fn lemma_expansion_of_digits(s: Seq<char>)
    requires
        all_digits(s),
    ensures
        expansion(s) == s,
    decreases s.len(),
{
    if s.len() > 0 {
        lemma_expansion_of_digits(s.drop_last());
        assert(expansion(s) =~= s);
    }
}

/// The expansion of an alphanumeric string holds digits only.
pub proof fn lemma_expansion_all_digits(s: Seq<char>)
    requires
        all_alnum(s),
    ensures
        all_digits(expansion(s)),
    decreases s.len(),
{
    if s.len() > 0 {
        lemma_expansion_all_digits(s.drop_last());
        let c = s.last();
        assert(is_alnum(c));
        assert(all_digits(expand_char(c)));
    }
}

/// Two more digits at the end multiply the number by 100 and add the two.
pub proof fn lemma_decimal_value_push2(s: Seq<char>, hi: char, lo: char)
    ensures
        decimal_value(s + seq![hi, lo]) == decimal_value(s) * 100 + base36_value(hi) * 10
            + base36_value(lo),
{
    let t = s + seq![hi, lo];
    assert(t.drop_last() =~= s.push(hi));
    assert(s.push(hi).drop_last() =~= s);
    assert(decimal_value(s.push(hi)) == decimal_value(s) * 10 + base36_value(hi));
    assert(decimal_value(t) == decimal_value(t.drop_last()) * 10 + base36_value(lo));
}

/// Folding one more digit into a remainder gives the remainder of the longer
/// number.
proof fn lemma_fold_digit(value: nat, digit: nat)
    ensures
        ((value % 97) * 10 + digit) % 97 == (value * 10 + digit) % 97,
{
}

/// Ten to the power `n`.
pub open spec fn pow10(n: nat) -> nat
    decreases n,
{
    if n == 0 {
        1
    } else {
        10 * pow10((n - 1) as nat)
    }
}

/// Digits behind a number shift it left by their count and add their own
/// number.
pub proof fn lemma_decimal_value_concat(a: Seq<char>, b: Seq<char>)
    ensures
        decimal_value(a + b) == decimal_value(a) * pow10(b.len()) + decimal_value(b),
    decreases b.len(),
{
    if b.len() == 0 {
        assert(a + b =~= a);
        assert(pow10(0) == 1);
        assert(decimal_value(a) * 1 == decimal_value(a));
    } else {
        let shorter = b.drop_last();
        lemma_decimal_value_concat(a, shorter);
        assert((a + b).drop_last() =~= a + shorter);
        assert((a + b).last() == b.last());
        let high = decimal_value(a);
        let scale = pow10(shorter.len());
        let low = decimal_value(shorter);
        let digit = base36_value(b.last());
        assert(decimal_value(a + b) == (high * scale + low) * 10 + digit);
        assert(decimal_value(b) == low * 10 + digit);
        assert(pow10(b.len()) == 10 * scale);
        assert((high * scale + low) * 10 + digit == high * (10 * scale) + (low * 10 + digit))
            by (nonlinear_arith);
    }
}

/// 97 divides no power of ten: where it divides a multiple of one, it divides
/// the other factor.
pub proof fn lemma_power_of_ten_is_prime_to_97(factor: int, n: nat)
    requires
        (factor * pow10(n)) % 97 == 0,
    ensures
        factor % 97 == 0,
    decreases n,
{
    if n == 0 {
        assert(pow10(0) == 1);
        assert(factor * 1 == factor);
    } else {
        let rest = pow10((n - 1) as nat);
        assert(factor * pow10(n) == (factor * 10) * rest) by (nonlinear_arith)
            requires
                pow10(n) == 10 * rest,
        ;
        lemma_power_of_ten_is_prime_to_97(factor * 10, (n - 1) as nat);
        let quotient = (factor * 10) / 97;
        assert(factor * 10 == 97 * quotient);
        assert(factor == (68 * quotient - 7 * factor) * 97);
        vstd::arithmetic::div_mod::lemma_mod_multiples_basic(68 * quotient - 7 * factor, 97);
    }
}

/// Another digit in the place of one changes the remainder modulo 97.
pub proof fn lemma_changed_digit_changes_residue(s: Seq<char>, at: int, digit: char)
    requires
        0 <= at < s.len(),
        is_digit(s[at]),
        is_digit(digit),
        digit != s[at],
    ensures
        residue(s.update(at, digit)) != residue(s),
{
    let front = s.take(at);
    let back = s.skip(at + 1);
    let was = seq![s[at]];
    let now = seq![digit];
    assert(s =~= front + was + back);
    assert(s.update(at, digit) =~= front + now + back);
    lemma_expansion_concat(front + was, back);
    lemma_expansion_concat(front, was);
    lemma_expansion_concat(front + now, back);
    lemma_expansion_concat(front, now);
    lemma_expansion_of_digits(was);
    lemma_expansion_of_digits(now);
    let head = expansion(front);
    let tail = expansion(back);
    lemma_decimal_value_concat(head + was, tail);
    lemma_decimal_value_concat(head + now, tail);
    assert((head + was).drop_last() =~= head);
    assert((head + now).drop_last() =~= head);
    let scale = pow10(tail.len());
    let high = decimal_value(head) * 10;
    let old_digit = base36_value(s[at]) as int;
    let new_digit = base36_value(digit) as int;
    let old_number = decimal_value(expansion(s)) as int;
    let new_number = decimal_value(expansion(s.update(at, digit))) as int;
    assert(old_number == (high + old_digit) * scale + decimal_value(tail));
    assert(new_number == (high + new_digit) * scale + decimal_value(tail));
    assert(old_number - new_number == (old_digit - new_digit) * scale) by (nonlinear_arith)
        requires
            old_number == (high + old_digit) * scale + decimal_value(tail),
            new_number == (high + new_digit) * scale + decimal_value(tail),
    ;
    if old_number % 97 == new_number % 97 {
        assert((old_number - new_number) % 97 == 0);
        lemma_power_of_ten_is_prime_to_97(old_digit - new_digit, tail.len());
        assert(false);
    }
}

/// Whether every character of `code` is an ASCII letter or digit.
pub fn is_alphanumeric(code: &str) -> (ok: bool)
    ensures
        ok == all_alnum(code@),
{
    let mut ok = true;
    for c in it: code.chars()
        invariant
            it.seq() == code@,
            ok == all_alnum(it.seq().take(it.index() as int)),
    {
        let here = ('0' <= c && c <= '9') || ('A' <= c && c <= 'Z') || ('a' <= c && c <= 'z');
        proof {
            let before = it.seq().take(it.index() as int);
            let after = it.seq().take(it.index() + 1);
            assert(after.drop_last() =~= before);
            assert(after.last() == c);
            if ok && here {
                assert forall|i: int| 0 <= i < after.len() implies is_alnum(#[trigger] after[i]) by {
                    if i < before.len() {
                        assert(after[i] == before[i]);
                    }
                }
            } else if !here {
                assert(!is_alnum(after[after.len() - 1]));
            } else {
                let k = choose|k: int| 0 <= k < before.len() && !is_alnum(#[trigger] before[k]);
                assert(after[k] == before[k]);
            }
        }
        ok = ok && here;
    }
    proof {
        assert(code@.take(code@.len() as int) =~= code@);
    }
    ok
}

/// Writes every letter of `code` as the two decimal digits of its base-36
/// value (A = 10 ... Z = 35, in either case) and keeps the digits as they are.
pub fn expand(code: &str) -> (digits: String)
    requires
        all_alnum(code@),
    ensures
        digits@ == expansion(code@),
        all_digits(digits@),
{
    let mut digits = String::new();
    for c in it: code.chars()
        invariant
            it.seq() == code@,
            all_alnum(code@),
            digits@ == expansion(it.seq().take(it.index() as int)),
    {
        proof {
            let after = it.seq().take(it.index() + 1);
            assert(after.drop_last() =~= it.seq().take(it.index() as int));
            assert(after.last() == c);
            assert(is_alnum(code@[it.index() as int]));
        }
        if '0' <= c && c <= '9' {
            digits.push(c);
        } else {
            let v: u8 = if 'A' <= c && c <= 'Z' {
                c as u8 - 55
            } else {
                c as u8 - 87
            };
            digits.push((v / 10 + 48) as char);
            digits.push((v % 10 + 48) as char);
        }
        assert(digits@ =~= expansion(it.seq().take(it.index() + 1)));
    }
    proof {
        assert(code@.take(code@.len() as int) =~= code@);
        lemma_expansion_all_digits(code@);
    }
    digits
}

/// The number that `digits` writes, modulo 97. The number itself is never
/// built: one digit at a time is folded into a running remainder.
pub fn mod97(digits: &str) -> (r: u32)
    requires
        all_digits(digits@),
    ensures
        r == decimal_value(digits@) % 97,
        r <= 96,
{
    let mut acc: u32 = 0;
    for c in it: digits.chars()
        invariant
            it.seq() == digits@,
            all_digits(digits@),
            acc == decimal_value(it.seq().take(it.index() as int)) % 97,
    {
        proof {
            let after = it.seq().take(it.index() + 1);
            assert(after.drop_last() =~= it.seq().take(it.index() as int));
            assert(after.last() == c);
            assert(is_digit(digits@[it.index() as int]));
            let before = it.seq().take(it.index() as int);
            assert(decimal_value(after) == decimal_value(before) * 10 + (c as int - 48));
            lemma_fold_digit(decimal_value(before), (c as int - 48) as nat);
        }
        acc = (acc * 10 + (c as u32 - 48)) % 97;
    }
    proof {
        assert(digits@.take(digits@.len() as int) =~= digits@);
    }
    acc
}

} // verus!
