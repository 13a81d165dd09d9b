use vstd::prelude::*;
use crate::pii::PiiType;
use crate::text::{ascii_digits, digit_chars, is_digit_char};

verus! {

/// The value of an ASCII digit.
pub open spec fn digit_value(c: char) -> int {
    c as int - '0' as int
}

/// One Luhn term: the digit itself, or its double less 9 when the double
/// exceeds 9.
pub open spec fn luhn_term(d: int, doubled: bool) -> int {
    if doubled {
        if 2 * d > 9 {
            2 * d - 9
        } else {
            2 * d
        }
    } else {
        d
    }
}

/// The Luhn sum of `digits`, walking from the rightmost digit, which is
/// doubled when `doubled` holds; every second digit after it is doubled.
pub open spec fn luhn_sum(digits: Seq<char>, doubled: bool) -> int
    decreases digits.len(),
{
    if digits.len() == 0 {
        0
    } else {
        luhn_term(digit_value(digits.last()), doubled) + luhn_sum(digits.drop_last(), !doubled)
    }
}

/// A card number is accepted when it has 13 to 19 digits and their Luhn sum
/// (rightmost digit not doubled) is a multiple of 10.
pub open spec fn is_valid_card_number(value: Seq<char>) -> bool {
    let digits = digit_chars(value);
    13 <= digits.len() <= 19 && luhn_sum(digits, false) % 10 == 0
}

/// The number written by the digits `digits[from..to]`.
pub open spec fn decimal_value(digits: Seq<char>, from: int, to: int) -> int
    decreases to - from,
{
    if to <= from {
        0
    } else {
        decimal_value(digits, from, to - 1) * 10 + digit_value(digits[to - 1])
    }
}

/// A social security number is accepted when it has exactly 9 digits, its
/// area (first 3) is neither 000, 666 nor 900-999, its group (next 2) is not
/// 00 and its serial (last 4) is not 0000.
pub open spec fn is_valid_ssn(value: Seq<char>) -> bool {
    let d = digit_chars(value);
    let area = decimal_value(d, 0, 3);
    let group = decimal_value(d, 3, 5);
    let serial = decimal_value(d, 5, 9);
    &&& d.len() == 9
    &&& area != 0 && area != 666 && area < 900
    &&& group != 0
    &&& serial != 0
}

/// Whether a match of the given type passes the type's extra check.
pub open spec fn is_valid_match(pii_type: PiiType, value: Seq<char>) -> bool {
    match pii_type {
        PiiType::CreditCard => is_valid_card_number(value),
        PiiType::SSN => is_valid_ssn(value),
        _ => true,
    }
}

proof fn lemma_digits_are_digits(s: Seq<char>)
    ensures
        forall|i: int| 0 <= i < digit_chars(s).len() ==> '0' <= #[trigger] digit_chars(s)[i] <= '9',
    decreases s.len(),
{
    if s.len() > 0 {
        lemma_digits_are_digits(s.drop_last());
        let t = digit_chars(s.drop_last());
        if is_digit_char(s.last()) {
            assert forall|i: int| 0 <= i < t.push(s.last()).len() implies '0' <= #[trigger] t.push(
                s.last(),
            )[i] <= '9' by {
                if i < t.len() {
                    assert(t.push(s.last())[i] == t[i]);
                }
            }
        }
    }
}

/// The sum of the decimal digits of `n`.
pub open spec fn digit_sum(n: nat) -> nat
    decreases n,
{
    if n < 10 {
        n
    } else {
        n % 10 + digit_sum(n / 10)
    }
}

/// The Luhn total as the check is usually described: walking from the
/// rightmost digit, every second digit is multiplied by 2 (the rightmost
/// when `doubled`), and the decimal digits of all the products are added.
pub open spec fn luhn_digit_total(digits: Seq<char>, doubled: bool) -> nat
    decreases digits.len(),
{
    if digits.len() == 0 {
        0
    } else {
        digit_sum((digit_value(digits.last()) * if doubled {
            2int
        } else {
            1int
        }) as nat) + luhn_digit_total(digits.drop_last(), !doubled)
    }
}

/// A Luhn term is the sum of the decimal digits of the digit, doubled or
/// not: a doubled 5 counts 1, a doubled 9 counts 9.
pub proof fn law_luhn_term_is_digit_sum(d: int, doubled: bool)
    requires
        0 <= d <= 9,
    ensures
        luhn_term(d, doubled) == digit_sum((d * if doubled {
            2int
        } else {
            1int
        }) as nat),
{
    let n = (d * if doubled {
        2int
    } else {
        1int
    }) as nat;
    assert(n < 100);
    assert(digit_sum(n / 10) == n / 10);
}

proof fn lemma_luhn_sum_is_digit_total(digits: Seq<char>, doubled: bool)
    requires
        forall|k: int| 0 <= k < digits.len() ==> '0' <= #[trigger] digits[k] <= '9',
    ensures
        luhn_sum(digits, doubled) == luhn_digit_total(digits, doubled),
    decreases digits.len(),
{
    if digits.len() > 0 {
        assert(forall|k: int| 0 <= k < digits.drop_last().len() ==> digits.drop_last()[k] == digits[k]);
        lemma_luhn_sum_is_digit_total(digits.drop_last(), !doubled);
        assert('0' <= digits[digits.len() - 1] <= '9');
        law_luhn_term_is_digit_sum(digit_value(digits.last()), doubled);
    }
}

/// A card number is accepted exactly when it has 13 to 19 digits and their
/// Luhn total (the rightmost digit not doubled) is a multiple of 10.
pub proof fn law_card_check_is_luhn(value: Seq<char>)
    ensures
        is_valid_card_number(value) <==> {
            let digits = digit_chars(value);
            13 <= digits.len() <= 19 && luhn_digit_total(digits, false) % 10 == 0
        },
{
    lemma_digits_are_digits(value);
    lemma_luhn_sum_is_digit_total(digit_chars(value), false);
}

/// The digits of a social security number, as characters.
pub open spec fn ssn_digits_allowed(d: Seq<char>) -> bool {
    &&& d.len() == 9
    &&& !(d[0] == '0' && d[1] == '0' && d[2] == '0')
    &&& !(d[0] == '6' && d[1] == '6' && d[2] == '6')
    &&& d[0] != '9'
    &&& !(d[3] == '0' && d[4] == '0')
    &&& !(d[5] == '0' && d[6] == '0' && d[7] == '0' && d[8] == '0')
}

/// A social security number is accepted exactly when it has 9 digits, its
/// area does not read 000 or 666 and does not start with 9 (areas 900 to 999
/// are refused), its group does not read 00 and its serial not 0000.
pub proof fn law_ssn_check_by_digits(value: Seq<char>)
    ensures
        is_valid_ssn(value) <==> ssn_digits_allowed(digit_chars(value)),
{
    lemma_digits_are_digits(value);
    let d = digit_chars(value);
    if d.len() == 9 {
        assert('0' <= d[0] <= '9' && '0' <= d[1] <= '9' && '0' <= d[2] <= '9');
        assert('0' <= d[3] <= '9' && '0' <= d[4] <= '9');
        assert('0' <= d[5] <= '9' && '0' <= d[6] <= '9' && '0' <= d[7] <= '9' && '0' <= d[8] <= '9');
        let a0 = digit_value(d[0]);
        let a1 = digit_value(d[1]);
        let a2 = digit_value(d[2]);
        assert(decimal_value(d, 0, 3) == a0 * 100 + a1 * 10 + a2) by {
            assert(decimal_value(d, 0, 0) == 0);
            assert(decimal_value(d, 0, 1) == a0);
            assert(decimal_value(d, 0, 2) == a0 * 10 + a1);
        }
        let g0 = digit_value(d[3]);
        let g1 = digit_value(d[4]);
        assert(decimal_value(d, 3, 5) == g0 * 10 + g1) by {
            assert(decimal_value(d, 3, 3) == 0);
            assert(decimal_value(d, 3, 4) == g0);
        }
        let s0 = digit_value(d[5]);
        let s1 = digit_value(d[6]);
        let s2 = digit_value(d[7]);
        let s3 = digit_value(d[8]);
        assert(decimal_value(d, 5, 9) == s0 * 1000 + s1 * 100 + s2 * 10 + s3) by {
            assert(decimal_value(d, 5, 5) == 0);
            assert(decimal_value(d, 5, 6) == s0);
            assert(decimal_value(d, 5, 7) == s0 * 10 + s1);
            assert(decimal_value(d, 5, 8) == s0 * 100 + s1 * 10 + s2);
        }
    }
}

/// Luhn check of the digits of a card number.
pub fn validate_credit_card(value: &str) -> (valid: bool)
    ensures
        valid == is_valid_card_number(value@),
        valid == (13 <= digit_chars(value@).len() <= 19 && luhn_digit_total(digit_chars(value@), false) % 10 == 0),
{
    proof {
        law_card_check_is_luhn(value@);
    }
    let digits = ascii_digits(value);
    proof {
        lemma_digits_are_digits(value@);
    }
    if digits.len() < 13 || digits.len() > 19 {
        return false;
    }
    let mut sum: u32 = 0;
    let mut alternate = false;
    let mut i = digits.len();
    proof {
        assert(digits@.take(i as int) =~= digits@);
    }
    while i > 0
        invariant
            i <= digits.len() <= 19,
            digits@ == digit_chars(value@),
            forall|k: int| 0 <= k < digits.len() ==> '0' <= #[trigger] digits@[k] <= '9',
            sum <= 9 * (digits.len() - i),
            luhn_sum(digits@, false) == sum + luhn_sum(digits@.take(i as int), alternate),
        decreases i,
    {
        let c = digits[i - 1];
        let mut n: u32 = (c as u32) - ('0' as u32);
        if alternate {
            n = n * 2;
            if n > 9 {
                n = n - 9;
            }
        }
        proof {
            assert(digits@.take(i as int).drop_last() =~= digits@.take(i - 1));
            assert(digits@.take(i as int).last() == c);
        }
        sum = sum + n;
        alternate = !alternate;
        i = i - 1;
    }
    proof {
        assert(digits@.take(0) =~= Seq::<char>::empty());
    }
    sum % 10 == 0
}

/// Reads the number written by `digits[from..to]`.
fn read_number(digits: &Vec<char>, from: usize, to: usize) -> (n: u32)
    requires
        from <= to <= digits.len(),
        to - from <= 4,
        forall|k: int| 0 <= k < digits.len() ==> '0' <= #[trigger] digits@[k] <= '9',
    ensures
        n == decimal_value(digits@, from as int, to as int),
{
    let mut n: u32 = 0;
    let mut i = from;
    while i < to
        invariant
            from <= i <= to <= digits.len(),
            to - from <= 4,
            forall|k: int| 0 <= k < digits.len() ==> '0' <= #[trigger] digits@[k] <= '9',
            n == decimal_value(digits@, from as int, i as int),
            n < 10000,
            i - from <= 3 ==> n < 1000,
            i - from <= 2 ==> n < 100,
            i - from <= 1 ==> n < 10,
            i == from ==> n == 0,
        decreases to - i,
    {
        let c = digits[i];
        n = n * 10 + ((c as u32) - ('0' as u32));
        i = i + 1;
    }
    n
}

/// Structural check of a social security number.
pub fn validate_ssn(value: &str) -> (valid: bool)
    ensures
        valid == is_valid_ssn(value@),
        valid == ssn_digits_allowed(digit_chars(value@)),
{
    proof {
        law_ssn_check_by_digits(value@);
    }
    let digits = ascii_digits(value);
    proof {
        lemma_digits_are_digits(value@);
    }
    if digits.len() != 9 {
        return false;
    }
    let area = read_number(&digits, 0, 3);
    if area == 0 || area == 666 || area >= 900 {
        return false;
    }
    let group = read_number(&digits, 3, 5);
    if group == 0 {
        return false;
    }
    let serial = read_number(&digits, 5, 9);
    serial != 0
}

/// The extra check a match of the given type must pass.
pub fn validate_match(pii_type: PiiType, value: &str) -> (valid: bool)
    ensures
        valid == is_valid_match(pii_type, value@),
{
    match pii_type {
        PiiType::CreditCard => validate_credit_card(value),
        PiiType::SSN => validate_ssn(value),
        _ => true,
    }
}

} // verus!
