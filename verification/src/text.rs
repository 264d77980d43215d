//! Decimal rendering of integers, as `{}` formatting writes them.

use vstd::prelude::*;
use vstd::string::StringExecFns;

verus! {

/// The character of a decimal digit.
pub open spec fn digit_char(d: nat) -> char {
    if d == 0 { '0' }
    else if d == 1 { '1' }
    else if d == 2 { '2' }
    else if d == 3 { '3' }
    else if d == 4 { '4' }
    else if d == 5 { '5' }
    else if d == 6 { '6' }
    else if d == 7 { '7' }
    else if d == 8 { '8' }
    else { '9' }
}

/// The decimal digits of `n`, most significant first, without leading zeros.
pub open spec fn decimal(n: nat) -> Seq<char>
    decreases n,
{
    if n < 10 {
        seq![digit_char(n)]
    } else {
        decimal(n / 10).push(digit_char(n % 10))
    }
}

/// `c` is one of the ten decimal digits.
pub open spec fn is_digit(c: char) -> bool {
    c == '0' || c == '1' || c == '2' || c == '3' || c == '4' || c == '5' || c == '6' || c == '7'
        || c == '8' || c == '9'
}

/// The value of the decimal digit `c`.
pub open spec fn digit_value(c: char) -> nat {
    if c == '1' { 1 }
    else if c == '2' { 2 }
    else if c == '3' { 3 }
    else if c == '4' { 4 }
    else if c == '5' { 5 }
    else if c == '6' { 6 }
    else if c == '7' { 7 }
    else if c == '8' { 8 }
    else if c == '9' { 9 }
    else { 0 }
}

/// The number a string of decimal digits stands for, read left to right.
pub open spec fn digits_value(s: Seq<char>) -> nat
    decreases s.len(),
{
    if s.len() == 0 {
        0
    } else {
        digits_value(s.drop_last()) * 10 + digit_value(s.last())
    }
}

/// `s` is a number as `{}` writes it: one or more decimal digits, with no
/// leading zero unless the number is zero itself.
pub open spec fn is_decimal_text(s: Seq<char>) -> bool {
    &&& s.len() > 0
    &&& forall|i: int| 0 <= i < s.len() ==> is_digit(#[trigger] s[i])
    &&& s[0] == '0' ==> s.len() == 1
}

/// The decimal text of `n` is a well-formed number that reads back as `n`.
pub proof fn lemma_decimal_reads_back(n: nat)
    ensures
        is_decimal_text(decimal(n)),
        digits_value(decimal(n)) == n,
    decreases n,
{
    if n >= 10 {
        let d = decimal(n / 10);
        let c = digit_char(n % 10);
        lemma_decimal_reads_back(n / 10);
        assert(decimal(n) == d.push(c));
        assert(d.push(c).drop_last() =~= d);
        assert(digits_value(decimal(n)) == digits_value(d) * 10 + digit_value(c));
        assert(digit_value(c) == n % 10);
        assert((n / 10) * 10 + n % 10 == n) by (nonlinear_arith);
        assert(is_digit(c));
        assert forall|i: int| 0 <= i < decimal(n).len() implies is_digit(#[trigger] decimal(n)[i]) by {
            if i < d.len() {
                assert(decimal(n)[i] == d[i]);
            }
        }
        assert(decimal(n)[0] == d[0]);
        if d[0] == '0' {
            assert(d.len() == 1);
            assert(digits_value(d) == digits_value(d.drop_last()) * 10 + digit_value(d.last()));
            assert(d.drop_last() =~= Seq::<char>::empty());
            assert(digits_value(d) == 0);
            assert(false);
        }
    } else {
        assert(seq![digit_char(n)].drop_last() =~= Seq::<char>::empty());
        assert(is_digit(decimal(n)[0]));
        assert(digits_value(Seq::<char>::empty()) == 0);
        assert(digit_value(digit_char(n)) == n);
        assert(digits_value(decimal(n)) == digits_value(Seq::<char>::empty()) * 10 + digit_value(digit_char(n)));
    }
}

/// Different numbers have different decimal texts.
pub proof fn lemma_decimal_injective(m: nat, n: nat)
    requires
        m != n,
    ensures
        decimal(m) != decimal(n),
{
    lemma_decimal_reads_back(m);
    lemma_decimal_reads_back(n);
}

/// An integer written with an explicit `+` when it is positive, a `-` when
/// it is negative, and no sign when it is zero.
pub open spec fn signed_text(n: int) -> Seq<char> {
    if n > 0 {
        seq!['+'] + decimal(n as nat)
    } else if n == 0 {
        seq!['0']
    } else {
        seq!['-'] + decimal((-n) as nat)
    }
}

/// A signed text is a sign and the number's magnitude in decimal: `+` and
/// the digits of a positive number, `-` and those of the magnitude of a
/// negative one, and `0` alone for zero.
pub proof fn lemma_signed_text_reads_back(n: int)
    ensures
        n > 0 ==> signed_text(n)[0] == '+' && is_decimal_text(signed_text(n).skip(1))
            && digits_value(signed_text(n).skip(1)) == n,
        n < 0 ==> signed_text(n)[0] == '-' && is_decimal_text(signed_text(n).skip(1))
            && digits_value(signed_text(n).skip(1)) == -n,
        n == 0 ==> signed_text(n) == seq!['0'],
{
    if n > 0 {
        lemma_decimal_reads_back(n as nat);
        assert(signed_text(n).skip(1) =~= decimal(n as nat));
    } else if n < 0 {
        lemma_decimal_reads_back((-n) as nat);
        assert(signed_text(n).skip(1) =~= decimal((-n) as nat));
    }
}

fn digit_str(d: u64) -> (s: &'static str)
    requires
        d < 10,
    ensures
        s@ == seq![digit_char(d as nat)],
{
    proof {
        reveal_strlit("0");
        reveal_strlit("1");
        reveal_strlit("2");
        reveal_strlit("3");
        reveal_strlit("4");
        reveal_strlit("5");
        reveal_strlit("6");
        reveal_strlit("7");
        reveal_strlit("8");
        reveal_strlit("9");
    }
    if d == 0 {
        "0"
    } else if d == 1 {
        "1"
    } else if d == 2 {
        "2"
    } else if d == 3 {
        "3"
    } else if d == 4 {
        "4"
    } else if d == 5 {
        "5"
    } else if d == 6 {
        "6"
    } else if d == 7 {
        "7"
    } else if d == 8 {
        "8"
    } else {
        "9"
    }
}

/// Appends the decimal digits of `n` to `s`.
pub fn push_decimal(s: &mut String, n: u64)
    ensures
        final(s)@ == old(s)@ + decimal(n as nat),
    decreases n,
{
    if n >= 10 {
        push_decimal(s, n / 10);
    }
    let d = digit_str(n % 10);
    s.append(d);
    assert(old(s)@ + decimal(n as nat) =~= s@);
}

/// `n` written out in decimal, as `format!("{}", n)` writes it.
pub fn decimal_string(n: u64) -> (s: String)
    ensures
        s@ == decimal(n as nat),
{
    let mut s = String::new();
    push_decimal(&mut s, n);
    assert(s@ =~= decimal(n as nat));
    s
}

/// `n` with a leading `+` when it is positive; negative numbers keep their
/// `-` and zero is written `0`.
pub fn format_signed(n: i64) -> (s: String)
    ensures
        s@ == signed_text(n as int),
{
    let mut s = String::new();
    if n > 0 {
        s.append("+");
        push_decimal(&mut s, n as u64);
        proof { reveal_strlit("+"); }
    } else if n == 0 {
        s.append("0");
        proof { reveal_strlit("0"); }
    } else {
        s.append("-");
        let magnitude: u64 = if n == i64::MIN { 9223372036854775808u64 } else { (-n) as u64 };
        push_decimal(&mut s, magnitude);
        proof { reveal_strlit("-"); }
    }
    assert(s@ =~= signed_text(n as int));
    s
}

} // verus!
