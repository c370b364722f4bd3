//! Decimal rendering of integers, with the zero-padding rules the decoders
//! use: a minimum width of two for datetime components and number digit
//! pairs, and a minimum width of nine for fractional seconds.

use vstd::prelude::*;

verus! {

/// The character for one decimal digit value.
pub open spec fn digit_char(d: int) -> char {
    if d == 0 {
        '0'
    } else if d == 1 {
        '1'
    } else if d == 2 {
        '2'
    } else if d == 3 {
        '3'
    } else if d == 4 {
        '4'
    } else if d == 5 {
        '5'
    } else if d == 6 {
        '6'
    } else if d == 7 {
        '7'
    } else if d == 8 {
        '8'
    } else {
        '9'
    }
}

/// Decimal digits of `n`, most significant first, no leading zeros
/// (a single `'0'` for zero).
pub open spec fn dec_digits(n: nat) -> Seq<char>
    decreases n,
{
    if n < 10 {
        seq![digit_char(n as int)]
    } else {
        dec_digits(n / 10).push(digit_char((n % 10) as int))
    }
}

/// `k` zero characters (none when `k <= 0`).
pub open spec fn zeros(k: int) -> Seq<char> {
    Seq::new(if k <= 0 {
        0
    } else {
        k as nat
    }, |i: int| '0')
}

/// Decimal digits of `n`, left-padded with zeros to at least width `w`.
pub open spec fn pad_min(n: nat, w: int) -> Seq<char> {
    zeros(w - dec_digits(n).len()) + dec_digits(n)
}

/// Rendering of a possibly negative value with minimum total width two,
/// as the `{:02}` format does: a sign counts toward the width, so negative
/// single-digit values render as a sign and one digit.
pub open spec fn fmt_min2(v: int) -> Seq<char> {
    if v < 0 {
        seq!['-'] + dec_digits((-v) as nat)
    } else {
        pad_min(v as nat, 2)
    }
}

/// A decimal digit character.
pub open spec fn is_digit_char(c: char) -> bool {
    48 <= c as int <= 57
}

/// Every character of a decimal rendering is a digit.
pub proof fn lemma_dec_digits_are_digits(n: nat)
    ensures
        forall|i: int| 0 <= i < dec_digits(n).len() ==> is_digit_char(#[trigger] dec_digits(n)[i]),
    decreases n,
{
    assert(is_digit_char(digit_char((n % 10) as int)));
    if n >= 10 {
        lemma_dec_digits_are_digits(n / 10);
        assert forall|i: int| 0 <= i < dec_digits(n).len() implies is_digit_char(
            #[trigger] dec_digits(n)[i],
        ) by {
            if i < dec_digits(n).len() - 1 {
                assert(dec_digits(n)[i] == dec_digits(n / 10)[i]);
            } else {
                assert(dec_digits(n)[i] == digit_char((n % 10) as int));
            }
        }
    } else {
        assert(n % 10 == n);
        assert(dec_digits(n) == seq![digit_char(n as int)]);
    }
}

/// A decimal rendering has at least one digit, at least two for values of
/// ten or more, and at most two below one hundred.
pub proof fn lemma_dec_digits_len(n: nat)
    ensures
        dec_digits(n).len() >= 1,
        n >= 10 ==> dec_digits(n).len() >= 2,
        n <= 99 ==> dec_digits(n).len() <= 2,
    decreases n,
{
    if n >= 10 {
        lemma_dec_digits_len(n / 10);
    }
}

/// Powers of ten are positive.
pub proof fn lemma_pow10_pos(e: nat)
    ensures
        pow10(e) >= 1,
    decreases e,
{
    if e > 0 {
        lemma_pow10_pos((e - 1) as nat);
    }
}

/// Powers of ten grow with the exponent.
pub proof fn lemma_pow10_mono(a: nat, b: nat)
    requires
        a <= b,
    ensures
        pow10(a) <= pow10(b),
    decreases b,
{
    if a < b {
        lemma_pow10_mono(a, (b - 1) as nat);
        lemma_pow10_pos((b - 1) as nat);
    }
}

/// Twenty-eight decimal digits stay below two to the ninety-sixth.
pub proof fn lemma_pow10_28_bound()
    ensures
        pow10(28) < 0x1_0000_0000_0000_0000_0000_0000,
{
    reveal_with_fuel(pow10, 29);
    assert(pow10(28) == 10_000_000_000_000_000_000_000_000_000);
}

/// The value a digit string denotes is non-negative and below ten to the
/// string's length.
pub proof fn lemma_seq_digits_val_bound(s: Seq<char>)
    requires
        forall|i: int| 0 <= i < s.len() ==> is_digit_char(#[trigger] s[i]),
    ensures
        0 <= seq_digits_val(s) < pow10(s.len()),
    decreases s.len(),
{
    if s.len() == 0 {
    } else {
        assert(is_digit_char(s.last()));
        lemma_seq_digits_val_bound(s.drop_last());
    }
}

/// Ten to the power `e`.
pub open spec fn pow10(e: nat) -> int
    decreases e,
{
    if e == 0 {
        1
    } else {
        10 * pow10((e - 1) as nat)
    }
}

/// The integer a sequence of decimal digit characters denotes, most
/// significant first.
pub open spec fn seq_digits_val(s: Seq<char>) -> int
    decreases s.len(),
{
    if s.len() == 0 {
        0
    } else {
        seq_digits_val(s.drop_last()) * 10 + (s.last() as int - 48)
    }
}

/// A mantissa and scale with trailing fractional zeros removed: while the
/// scale is positive and the mantissa divisible by ten, both shrink.
pub open spec fn norm_parts(m: int, s: int) -> (int, int)
    decreases s,
{
    if s <= 0 || m % 10 != 0 {
        (m, s)
    } else {
        norm_parts(m / 10, s - 1)
    }
}

/// The canonical text of a scaled decimal: trailing fractional zeros are
/// dropped, and the point with them when the fraction empties.
pub open spec fn dec_canonical(m: int, s: int) -> Seq<char> {
    dec_string_spec(norm_parts(m, s).0, norm_parts(m, s).1)
}

/// The rendering of a scaled decimal as the outside decimal type prints it:
/// the magnitude's digits with a point placed `s` digits from the right
/// (fraction zero-padded to exactly `s` digits), a leading `0` before a
/// bare point, and a sign for negative mantissas. No point at all when the
/// scale is zero.
pub open spec fn dec_string_spec(m: int, s: int) -> Seq<char> {
    let mag = if m < 0 {
        -m
    } else {
        m
    };
    let ip = mag / pow10(s as nat);
    let fp = mag % pow10(s as nat);
    (if m < 0 {
        seq!['-']
    } else {
        Seq::<char>::empty()
    }) + dec_digits(ip as nat) + (if s > 0 {
        seq!['.'] + pad_min(fp as nat, s)
    } else {
        Seq::<char>::empty()
    })
}

/// A rendered decimal is never empty.
pub proof fn lemma_dec_string_spec_nonempty(m: int, s: int)
    ensures
        dec_string_spec(m, s).len() >= 1,
{
    let mag = if m < 0 {
        -m
    } else {
        m
    };
    lemma_dec_digits_len((mag / pow10(s as nat)) as nat);
}

fn append_digit(s: &mut String, d: u64)
    requires
        d < 10,
    ensures
        final(s)@ == old(s)@.push(digit_char(d as int)),
{
    let digits = "0123456789";
    proof {
        reveal_strlit("0123456789");
    }
    let one = digits.substring_ascii(d as usize, d as usize + 1);
    s.append(one);
    proof {
        assert(s@ =~= old(s)@.push(digit_char(d as int)));
    }
}

/// Append the decimal digits of `n`.
pub fn append_digits(s: &mut String, n: u64)
    ensures
        final(s)@ == old(s)@ + dec_digits(n as nat),
    decreases n,
{
    if n < 10 {
        append_digit(s, n);
        proof {
            assert(s@ =~= old(s)@ + dec_digits(n as nat));
        }
    } else {
        append_digits(s, n / 10);
        append_digit(s, n % 10);
        proof {
            assert(s@ =~= old(s)@ + dec_digits(n as nat));
        }
    }
}

/// Append `v` with minimum width two, as `{:02}` renders it.
pub fn append_min2(s: &mut String, v: i64)
    requires
        -1_000_000_000 <= v <= 1_000_000_000,
    ensures
        final(s)@ == old(s)@ + fmt_min2(v as int),
{
    if v < 0 {
        s.append("-");
        append_digits(s, (-v) as u64);
        proof {
            reveal_strlit("-");
            assert(s@ =~= old(s)@ + fmt_min2(v as int));
        }
    } else {
        if v < 10 {
            s.append("0");
            proof {
                reveal_strlit("0");
            }
        }
        append_digits(s, v as u64);
        proof {
            lemma_dec_digits_len(v as nat);
            assert(s@ =~= old(s)@ + fmt_min2(v as int));
        }
    }
}

/// Append `n` with minimum width nine, as `{:09}` renders it.
pub fn append_pad9(s: &mut String, n: u32)
    ensures
        final(s)@ == old(s)@ + pad_min(n as nat, 9),
{
    let mut t = String::new();
    append_digits(&mut t, n as u64);
    let len = t.as_str().unicode_len();
    let mut i = len;
    while i < 9
        invariant
            len == dec_digits(n as nat).len(),
            len <= i <= 9 || (len > 9 && i == len),
            t@ == dec_digits(n as nat),
            s@ == old(s)@ + zeros(i - len),
        decreases 9 - i,
    {
        s.append("0");
        i = i + 1;
        proof {
            reveal_strlit("0");
            assert(s@ =~= old(s)@ + zeros(i - len));
        }
    }
    s.append(t.as_str());
    proof {
        assert(s@ =~= old(s)@ + pad_min(n as nat, 9));
    }
}

} // verus!
