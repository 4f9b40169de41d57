//! Length-prefixed ASCII integers of the wire format: decimal for `lon` and
//! `tim` values, hexadecimal for `ptr` values, together with the canonical
//! digit strings the encoder emits and the round-trip facts relating them.
use vstd::arithmetic::div_mod::{lemma_div_decreases, lemma_fundamental_div_mod,
    lemma_mod_division_less_than_divisor};
use vstd::prelude::*;

verus! {

/// ASCII decimal digit.
pub open spec fn is_dec_digit(b: u8) -> bool {
    '0' as u8 <= b <= '9' as u8
}

/// Value of a decimal digit byte.
pub open spec fn dec_val(b: u8) -> nat {
    (b - '0' as u8) as nat
}

/// ASCII hexadecimal digit, either case.
pub open spec fn is_hex_digit(b: u8) -> bool {
    ||| '0' as u8 <= b <= '9' as u8
    ||| 'a' as u8 <= b <= 'f' as u8
    ||| 'A' as u8 <= b <= 'F' as u8
}

/// Value of a hexadecimal digit byte.
pub open spec fn hex_val(b: u8) -> nat {
    if '0' as u8 <= b <= '9' as u8 {
        (b - '0' as u8) as nat
    } else if 'a' as u8 <= b <= 'f' as u8 {
        (b - 'a' as u8 + 10) as nat
    } else {
        (b - 'A' as u8 + 10) as nat
    }
}

/// Every byte of `s` is a decimal digit.
pub open spec fn all_dec_digits(s: Seq<u8>) -> bool {
    forall|i: int| 0 <= i < s.len() ==> is_dec_digit(#[trigger] s[i])
}

/// Every byte of `s` is a hexadecimal digit.
pub open spec fn all_hex_digits(s: Seq<u8>) -> bool {
    forall|i: int| 0 <= i < s.len() ==> is_hex_digit(#[trigger] s[i])
}

/// The number written by `s` in base 10, most significant digit first.
pub open spec fn dec_nat_of(s: Seq<u8>) -> nat
    decreases s.len(),
{
    if s.len() == 0 {
        0
    } else {
        dec_nat_of(s.drop_last()) * 10 + dec_val(s.last())
    }
}

/// The number written by `s` in base 16, most significant digit first.
pub open spec fn hex_nat_of(s: Seq<u8>) -> nat
    decreases s.len(),
{
    if s.len() == 0 {
        0
    } else {
        hex_nat_of(s.drop_last()) * 16 + hex_val(s.last())
    }
}

/// The canonical decimal digits of `n`: no leading zeros, lower case.
pub open spec fn dec_digits_of(n: nat) -> Seq<u8>
    decreases n,
{
    if n < 10 {
        seq![(n + '0' as u8) as u8]
    } else {
        dec_digits_of(n / 10) + seq![((n % 10) + '0' as u8) as u8]
    }
}

/// The byte of one hexadecimal digit value, lower case.
pub open spec fn hex_digit_byte(d: nat) -> u8 {
    if d < 10 {
        (d + '0' as u8) as u8
    } else {
        (d - 10 + 'a' as u8) as u8
    }
}

/// The canonical hexadecimal digits of `n`: no leading zeros, lower case.
pub open spec fn hex_digits_of(n: nat) -> Seq<u8>
    decreases n,
{
    if n < 16 {
        seq![hex_digit_byte(n)]
    } else {
        hex_digits_of(n / 16) + seq![hex_digit_byte(n % 16)]
    }
}

/// Powers of ten.
pub open spec fn pow10(k: nat) -> nat
    decreases k,
{
    if k == 0 {
        1
    } else {
        10 * pow10((k - 1) as nat)
    }
}

/// Powers of sixteen.
pub open spec fn pow16(k: nat) -> nat
    decreases k,
{
    if k == 0 {
        1
    } else {
        16 * pow16((k - 1) as nat)
    }
}

/// The canonical decimal digits read back as a number give that number.
pub proof fn lemma_dec_digits_of(n: nat)
    ensures
        all_dec_digits(dec_digits_of(n)),
        dec_nat_of(dec_digits_of(n)) == n,
        dec_digits_of(n).len() >= 1,
    decreases n,
{
    reveal_with_fuel(dec_nat_of, 3);
    if n < 10 {
        assert(dec_digits_of(n) =~= seq![(n + '0' as u8) as u8]);
        assert(dec_nat_of(seq![(n + '0' as u8) as u8]) == n);
    } else {
        lemma_div_decreases(n as int, 10);
        lemma_fundamental_div_mod(n as int, 10);
        lemma_mod_division_less_than_divisor(n as int, 10);
        lemma_dec_digits_of(n / 10);
        let d = dec_digits_of(n);
        assert(d.drop_last() =~= dec_digits_of(n / 10));
        assert(d.last() == ((n % 10) + '0' as u8) as u8);
        assert(dec_val(d.last()) == n % 10);
        assert(dec_nat_of(d) == dec_nat_of(d.drop_last()) * 10 + dec_val(d.last()));
        assert(dec_nat_of(d) == n);
        assert(forall|i: int| 0 <= i < d.len() ==> is_dec_digit(#[trigger] d[i])) by {
            assert(forall|i: int|
                0 <= i < d.len() - 1 ==> d[i] == #[trigger] dec_digits_of(n / 10)[i]);
        }
    }
}

/// The canonical hexadecimal digits read back as a number give that number.
pub proof fn lemma_hex_digits_of(n: nat)
    ensures
        all_hex_digits(hex_digits_of(n)),
        hex_nat_of(hex_digits_of(n)) == n,
        hex_digits_of(n).len() >= 1,
    decreases n,
{
    reveal_with_fuel(hex_nat_of, 3);
    if n < 16 {
        assert(hex_digits_of(n) =~= seq![hex_digit_byte(n)]);
    } else {
        lemma_div_decreases(n as int, 16);
        lemma_fundamental_div_mod(n as int, 16);
        lemma_mod_division_less_than_divisor(n as int, 16);
        lemma_hex_digits_of(n / 16);
        let d = hex_digits_of(n);
        assert(d.drop_last() =~= hex_digits_of(n / 16));
        assert(forall|i: int| 0 <= i < d.len() ==> is_hex_digit(#[trigger] d[i])) by {
            assert(forall|i: int|
                0 <= i < d.len() - 1 ==> d[i] == #[trigger] hex_digits_of(n / 16)[i]);
        }
    }
}

/// Numbers below `pow10(k)` take at most `k` decimal digits.
pub proof fn lemma_dec_digits_len(n: nat, k: nat)
    requires
        1 <= k,
        n < pow10(k),
    ensures
        dec_digits_of(n).len() <= k,
    decreases k,
{
    if n < 10 {
    } else {
        assert(pow10(k) == 10 * pow10((k - 1) as nat));
        assert(n / 10 < pow10((k - 1) as nat)) by (nonlinear_arith)
            requires
                n < 10 * pow10((k - 1) as nat),
                10 <= n,
        ;
        assert(1 <= (k - 1) as nat) by {
            if k == 1 {
                assert(pow10(1nat) == 10);
            }
        }
        lemma_dec_digits_len(n / 10, (k - 1) as nat);
    }
}

/// Numbers below `pow16(k)` take at most `k` hexadecimal digits.
pub proof fn lemma_hex_digits_len(n: nat, k: nat)
    requires
        1 <= k,
        n < pow16(k),
    ensures
        hex_digits_of(n).len() <= k,
    decreases k,
{
    if n < 16 {
    } else {
        assert(pow16(k) == 16 * pow16((k - 1) as nat));
        assert(n / 16 < pow16((k - 1) as nat)) by (nonlinear_arith)
            requires
                n < 16 * pow16((k - 1) as nat),
                16 <= n,
        ;
        assert(1 <= (k - 1) as nat) by {
            if k == 1 {
                assert(pow16(1nat) == 16);
            }
        }
        lemma_hex_digits_len(n / 16, (k - 1) as nat);
    }
}

/// A `u128` value takes at most 39 decimal digits.
pub proof fn lemma_u128_dec_len(n: u128)
    ensures
        dec_digits_of(n as nat).len() <= 39,
{
    assert(pow10(39) == 1000000000000000000000000000000000000000nat) by {
        reveal_with_fuel(pow10, 40);
    }
    assert((n as nat) < pow10(39));
    lemma_dec_digits_len(n as nat, 39);
}

/// A `u128` value takes at most 32 hexadecimal digits.
pub proof fn lemma_u128_hex_len(n: u128)
    ensures
        hex_digits_of(n as nat).len() <= 32,
{
    assert(pow16(32) == 0x100000000000000000000000000000000nat) by {
        reveal_with_fuel(pow16, 33);
    }
    assert((n as nat) < pow16(32));
    lemma_hex_digits_len(n as nat, 32);
}

/// Reading one more digit extends the value.
pub proof fn lemma_dec_nat_push(s: Seq<u8>, b: u8)
    ensures
        dec_nat_of(s.push(b)) == dec_nat_of(s) * 10 + dec_val(b),
{
    assert(s.push(b).drop_last() =~= s);
}

/// Reading one more hexadecimal digit extends the value.
pub proof fn lemma_hex_nat_push(s: Seq<u8>, b: u8)
    ensures
        hex_nat_of(s.push(b)) == hex_nat_of(s) * 16 + hex_val(b),
{
    assert(s.push(b).drop_last() =~= s);
}

/// A prefix of a digit string never writes a larger number.
pub proof fn lemma_dec_prefix_le(s: Seq<u8>, i: int)
    requires
        0 <= i <= s.len(),
    ensures
        dec_nat_of(s.take(i)) <= dec_nat_of(s),
    decreases s.len() - i,
{
    if i == s.len() {
        assert(s.take(i) =~= s);
    } else {
        assert(s.take(i + 1).drop_last() =~= s.take(i));
        assert(dec_nat_of(s.take(i)) <= dec_nat_of(s.take(i + 1)));
        lemma_dec_prefix_le(s, i + 1);
    }
}

/// A prefix of a hexadecimal digit string never writes a larger number.
pub proof fn lemma_hex_prefix_le(s: Seq<u8>, i: int)
    requires
        0 <= i <= s.len(),
    ensures
        hex_nat_of(s.take(i)) <= hex_nat_of(s),
    decreases s.len() - i,
{
    if i == s.len() {
        assert(s.take(i) =~= s);
    } else {
        assert(s.take(i + 1).drop_last() =~= s.take(i));
        assert(hex_nat_of(s.take(i)) <= hex_nat_of(s.take(i + 1)));
        lemma_hex_prefix_le(s, i + 1);
    }
}

} // verus!
