//! ASCII decimal numerals: their value, and the canonical numeral of a
//! number.

use vstd::prelude::*;

verus! {

/// `b` is an ASCII decimal digit.
pub open spec fn is_digit(b: u8) -> bool {
    48 <= b <= 57
}

/// Every byte of `s` is an ASCII decimal digit.
pub open spec fn all_digits(s: Seq<u8>) -> bool {
    forall|i: int| 0 <= i < s.len() ==> is_digit(#[trigger] s[i])
}

/// The value of a string of ASCII decimal digits, most significant first.
pub open spec fn decimal_value(digits: Seq<u8>) -> nat
    decreases digits.len(),
{
    if digits.len() == 0 {
        0
    } else {
        decimal_value(digits.drop_last()) * 10 + (digits.last() - 48) as nat
    }
}

/// `10` to the power `n`.
pub open spec fn pow10(n: nat) -> nat
    decreases n,
{
    if n == 0 {
        1
    } else {
        10 * pow10((n - 1) as nat)
    }
}

/// The canonical decimal numeral of `n`: no sign and no leading zero.
pub open spec fn decimal_digits(n: nat) -> Seq<u8>
    decreases n,
{
    if n < 10 {
        seq![(48 + n) as u8]
    } else {
        decimal_digits(n / 10).push((48 + n % 10) as u8)
    }
}

/// Reading one more digit multiplies by ten and adds it.
pub proof fn lemma_decimal_step(digits: Seq<u8>, i: int)
    requires
        0 <= i < digits.len(),
    ensures
        decimal_value(digits.take(i + 1)) == decimal_value(digits.take(i)) * 10 + (digits[i]
            - 48) as nat,
{
    assert(digits.take(i + 1).drop_last() =~= digits.take(i));
}

/// The canonical numeral of `n` is made of digits, starts with a nonzero
/// digit unless `n` is zero, has at most `k` digits when `n < 10^k`, and
/// reads back as `n`.
pub proof fn lemma_decimal_digits(n: nat, k: nat)
    requires
        n < pow10(k),
    ensures
        all_digits(decimal_digits(n)),
        0 < decimal_digits(n).len() <= if k == 0 { 1 } else { k },
        decimal_value(decimal_digits(n)) == n,
        n > 0 ==> decimal_digits(n)[0] != 48,
    decreases n,
{
    if n < 10 {
        reveal_with_fuel(decimal_value, 2);
        assert(decimal_digits(n).drop_last() =~= Seq::<u8>::empty());
    } else {
        assert(k > 0) by {
            if k == 0 {
                assert(pow10(0) == 1);
            }
        }
        let km = (k - 1) as nat;
        assert(n / 10 < pow10(km));
        lemma_decimal_digits(n / 10, km);
        let d = decimal_digits(n);
        assert(d.drop_last() =~= decimal_digits(n / 10));
        assert(d[0] == decimal_digits(n / 10)[0]);
        if km == 0 {
            assert(pow10(0) == 1);
        }
    }
}

/// The canonical decimal numeral of `n`, as `n.to_string()` writes it.
pub fn decimal_bytes(n: u32) -> (r: Vec<u8>)
    ensures
        r@ == decimal_digits(n as nat),
    decreases n,
{
    if n < 10 {
        let mut v: Vec<u8> = Vec::new();
        v.push((48 + n) as u8);
        assert(v@ =~= decimal_digits(n as nat));
        v
    } else {
        let mut v = decimal_bytes(n / 10);
        v.push((48 + n % 10) as u8);
        v
    }
}

} // verus!
