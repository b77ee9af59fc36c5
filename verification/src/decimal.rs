//! Unsigned decimal numbers as text: reading a field of digits and writing a
//! number with leading zeros.

use vstd::prelude::*;
use vstd::slice::slice_subrange;

verus! {

/// Whether `c` is one of the ten ASCII digits.
pub open spec fn is_digit(c: char) -> bool {
    0x30 <= c as u32 <= 0x39
}

/// The number that the digit `c` stands for.
pub open spec fn digit_value(c: char) -> nat {
    (c as u32 - 0x30) as nat
}

/// The digit that stands for `d`, for `d` below ten.
pub open spec fn digit_char(d: nat) -> char {
    ((0x30 + d) as u8) as char
}

/// Whether `s` holds digits and nothing else.
pub open spec fn all_digits(s: Seq<char>) -> bool {
    forall|i: int| 0 <= i < s.len() ==> is_digit(#[trigger] s[i])
}

/// The number that a sequence of digits denotes in base ten, the most
/// significant digit first.
pub open spec fn decimal_value(s: Seq<char>) -> nat
    decreases s.len(),
{
    if s.len() == 0 {
        0
    } else {
        decimal_value(s.drop_last()) * 10 + digit_value(s.last())
    }
}

/// The digits of a field: the field without the `+` that it may start with.
pub open spec fn unsigned_digits(s: Seq<char>) -> Seq<char> {
    if s.len() > 0 && s[0] == '+' {
        s.drop_first()
    } else {
        s
    }
}

/// Whether a field of text is an unsigned number: an optional `+`, then at
/// least one digit and nothing else. Leading zeros are allowed, and the
/// number may be of any size.
pub open spec fn is_numeric(s: Seq<char>) -> bool {
    unsigned_digits(s).len() > 0 && all_digits(unsigned_digits(s))
}

/// The number that a numeric field denotes.
pub open spec fn numeric_value(s: Seq<char>) -> nat {
    decimal_value(unsigned_digits(s))
}

/// What a field of text denotes as an unsigned number, if it is one.
pub open spec fn parse_unsigned(s: Seq<char>) -> Option<nat> {
    if is_numeric(s) {
        Some(numeric_value(s))
    } else {
        None
    }
}

/// `n` itself up to `cap`, and `cap` for every greater number.
pub open spec fn capped(n: nat, cap: nat) -> nat {
    if n <= cap {
        n
    } else {
        cap
    }
}

/// Reads `cs` as an unsigned decimal number. A number above `cap` is
/// reported as `cap`, so that a field of any length can be read.
pub fn parse_unsigned_slice(cs: &[char], cap: u16) -> (r: Option<u16>)
    ensures
        match r {
            Some(v) => is_numeric(cs@) && v == capped(numeric_value(cs@), cap as nat),
            None => !is_numeric(cs@),
        },
{
    let digits = if cs.len() > 0 && cs[0] == '+' {
        slice_subrange(cs, 1, cs.len())
    } else {
        cs
    };
    if digits.len() == 0 {
        return None;
    }
    let mut value: u32 = 0;
    let mut i: usize = 0;
    while i < digits.len()
        invariant
            digits@.len() > 0,
            digits@ == unsigned_digits(cs@),
            i <= digits.len(),
            all_digits(digits@.take(i as int)),
            value == capped(decimal_value(digits@.take(i as int)), cap as nat),
        decreases digits.len() - i,
    {
        let n: u32 = digits[i] as u32;
        if n < 0x30 || n > 0x39 {
            assert(!is_digit(digits@[i as int]));
            return None;
        }
        proof {
            let before = digits@.take(i as int);
            let now = digits@.take(i + 1);
            assert(now.drop_last() =~= before);
            assert(now.last() == digits@[i as int]);
            assert(decimal_value(now) == decimal_value(before) * 10 + (n - 0x30));
            assert forall|k: int| 0 <= k < now.len() implies is_digit(#[trigger] now[k]) by {
                if k < i {
                    assert(now[k] == before[k]);
                }
            }
        }
        value = value * 10 + (n - 0x30);
        if value > cap as u32 {
            value = cap as u32;
        }
        i += 1;
    }
    proof {
        assert(digits@.take(i as int) =~= digits@);
    }
    Some(value as u16)
}

/// The digits of `n` in base ten, without leading zeros.
pub open spec fn decimal_digits(n: nat) -> Seq<char>
    decreases n,
{
    if n < 10 {
        seq![digit_char(n)]
    } else {
        decimal_digits(n / 10).push(digit_char(n % 10))
    }
}

/// The digits of `n`, with zeros in front where they are fewer than `width`.
pub open spec fn zero_padded(n: nat, width: nat) -> Seq<char> {
    let digits = decimal_digits(n);
    if digits.len() >= width {
        digits
    } else {
        Seq::new((width - digits.len()) as nat, |i: int| '0') + digits
    }
}

/// The number of digits that `n` is written with.
pub fn digit_count(n: u16) -> (count: usize)
    ensures
        count == decimal_digits(n as nat).len(),
        count == if n < 10 {
            1nat
        } else if n < 100 {
            2
        } else if n < 1000 {
            3
        } else if n < 10000 {
            4
        } else {
            5
        },
    decreases n,
{
    if n < 10 {
        1
    } else {
        digit_count(n / 10) + 1
    }
}

/// Appends the digits of `n` to `out`.
pub fn push_decimal(out: &mut String, n: u16)
    ensures
        final(out)@ == old(out)@ + decimal_digits(n as nat),
    decreases n,
{
    if n >= 10 {
        push_decimal(out, n / 10);
    }
    let d: u8 = (n % 10) as u8;
    out.push((0x30 + d) as char);
}

/// Appends `n` to `out`, written with at least `width` digits.
pub fn push_zero_padded(out: &mut String, n: u16, width: usize)
    ensures
        final(out)@ == old(out)@ + zero_padded(n as nat, width as nat),
{
    let count = digit_count(n);
    let mut zeros: usize = 0;
    while zeros + count < width
        invariant
            count == decimal_digits(n as nat).len(),
            count <= 5,
            zeros == 0 || zeros + count <= width,
            out@ == old(out)@ + Seq::new(zeros as nat, |i: int| '0'),
        decreases width - zeros - count,
    {
        out.push('0');
        zeros += 1;
    }
    push_decimal(out, n);
}

/// A number is written with digits alone, with at least one, and they denote
/// the number.
pub proof fn lemma_decimal_digits(n: nat)
    ensures
        all_digits(decimal_digits(n)),
        decimal_digits(n).len() >= 1,
        decimal_value(decimal_digits(n)) == n,
    decreases n,
{
    let digits = decimal_digits(n);
    if n < 10 {
        assert(digits.drop_last() =~= Seq::<char>::empty());
        assert(decimal_value(Seq::<char>::empty()) == 0);
    } else {
        lemma_decimal_digits(n / 10);
        assert(digits.drop_last() =~= decimal_digits(n / 10));
    }
}

/// How many digits a number below 100000 is written with.
pub proof fn lemma_digit_count(n: nat)
    requires
        n < 100000,
    ensures
        decimal_digits(n).len() == if n < 10 {
            1nat
        } else if n < 100 {
            2
        } else if n < 1000 {
            3
        } else if n < 10000 {
            4
        } else {
            5
        },
    decreases n,
{
    if n >= 10 {
        lemma_digit_count(n / 10);
    }
}

/// Zeros in front of a sequence of digits do not change what it denotes.
pub proof fn lemma_leading_zeros(zeros: nat, digits: Seq<char>)
    ensures
        decimal_value(Seq::new(zeros, |i: int| '0') + digits) == decimal_value(digits),
    decreases digits.len(), zeros,
{
    let front = Seq::new(zeros, |i: int| '0');
    if digits.len() > 0 {
        assert((front + digits).drop_last() =~= front + digits.drop_last());
        lemma_leading_zeros(zeros, digits.drop_last());
    } else if zeros > 0 {
        assert(front.drop_last() =~= Seq::new((zeros - 1) as nat, |i: int| '0') + digits);
        lemma_leading_zeros((zeros - 1) as nat, digits);
    }
}

/// A number written with leading zeros is a numeric field of digits alone
/// that reads back as the number.
pub proof fn lemma_zero_padded_parses(n: nat, width: nat)
    ensures
        all_digits(zero_padded(n, width)),
        zero_padded(n, width).len() >= 1,
        zero_padded(n, width).len() >= width,
        decimal_digits(n).len() <= width ==> zero_padded(n, width).len() == width,
        parse_unsigned(zero_padded(n, width)) == Some(n),
{
    let digits = decimal_digits(n);
    let padded = zero_padded(n, width);
    lemma_decimal_digits(n);
    if digits.len() < width {
        lemma_leading_zeros((width - digits.len()) as nat, digits);
    }
    assert(is_digit(padded[0]));
    assert(unsigned_digits(padded) == padded);
}

/// A digit stands for a number below ten, and is the digit written for it.
pub proof fn lemma_digit_value(c: char)
    requires
        is_digit(c),
    ensures
        digit_value(c) < 10,
        digit_char(digit_value(c)) == c,
{
}

/// Digits that denote zero are all zeros.
pub proof fn lemma_zero_is_zeros(digits: Seq<char>)
    requires
        all_digits(digits),
        decimal_value(digits) == 0,
    ensures
        digits == Seq::new(digits.len(), |i: int| '0'),
    decreases digits.len(),
{
    if digits.len() > 0 {
        let init = digits.drop_last();
        lemma_digit_value(digits.last());
        lemma_zero_is_zeros(init);
        assert forall|i: int| 0 <= i < digits.len() implies digits[i] == '0' by {
            if i < init.len() {
                assert(digits[i] == init[i]);
            }
        }
    }
}

/// A field of digits is what its number is written as, with leading zeros
/// to the width of the field.
pub proof fn lemma_digits_read_back(digits: Seq<char>)
    requires
        digits.len() >= 1,
        all_digits(digits),
    ensures
        zero_padded(decimal_value(digits), digits.len()) == digits,
    decreases digits.len(),
{
    let init = digits.drop_last();
    let last = digits.last();
    let value = decimal_value(digits);
    lemma_digit_value(last);
    if init.len() == 0 {
        assert(decimal_value(init) == 0);
    } else if decimal_value(init) == 0 {
        lemma_zero_is_zeros(init);
    } else {
        lemma_digits_read_back(init);
        let written = decimal_digits(decimal_value(init));
        if written.len() < init.len() {
            let zeros = Seq::new((init.len() - written.len()) as nat, |i: int| '0');
            assert(zero_padded(value, digits.len()) =~= (zeros + written).push(last));
        }
    }
}

} // verus!
