//! Decimal digits as bytes: their values, and numbers written out in them.

use vstd::prelude::*;

verus! {

/// Whether the byte is one of the ASCII digits `0` to `9`.
pub open spec fn is_digit(b: u8) -> bool {
    48 <= b <= 57
}

/// The number that an ASCII digit stands for.
pub open spec fn digit_value(b: u8) -> int {
    b - 48
}

/// The ASCII digit for a number from 0 to 9.
pub open spec fn digit_byte(d: int) -> u8 {
    (48 + d) as u8
}

/// Whether every byte of the sequence is an ASCII digit.
pub open spec fn all_digits(s: Seq<u8>) -> bool {
    forall|i: int| 0 <= i < s.len() ==> is_digit(#[trigger] s[i])
}

/// The number that a sequence of digits denotes in base ten; an empty
/// sequence denotes zero.
pub open spec fn decimal_value(s: Seq<u8>) -> int
    decreases s.len(),
{
    if s.len() == 0 {
        0
    } else {
        decimal_value(s.drop_last()) * 10 + digit_value(s.last())
    }
}

/// The digits of a number in base ten, without leading zeros.
pub open spec fn decimal_digits(n: nat) -> Seq<u8>
    decreases n,
{
    if n < 10 {
        seq![digit_byte(n as int)]
    } else {
        decimal_digits(n / 10).push(digit_byte((n % 10) as int))
    }
}

/// A number written out with its sign: a minus and the digits of the
/// magnitude for a negative one, the bare digits otherwise.
pub open spec fn signed_decimal(v: int) -> Seq<u8> {
    if v < 0 {
        seq![45u8] + decimal_digits((-v) as nat)
    } else {
        decimal_digits(v as nat)
    }
}

/// A run of `n` zero digits.
pub open spec fn zeros(n: nat) -> Seq<u8> {
    Seq::new(n, |i: int| 48u8)
}

/// A number written out with its sign and filled on the left with zero
/// digits up to `width` bytes. Text that is already as wide is left alone,
/// so the fill goes before a minus sign, not behind it.
pub open spec fn padded_decimal(v: int, width: nat) -> Seq<u8> {
    let text = signed_decimal(v);
    if text.len() >= width {
        text
    } else {
        zeros((width - text.len()) as nat) + text
    }
}

/// Reads the value of one ASCII digit.
pub fn digit_of(b: u8) -> (d: u8)
    requires
        is_digit(b),
    ensures
        d == digit_value(b),
        d <= 9,
{
    b - 48
}

/// Tests whether a byte is an ASCII digit.
pub fn byte_is_digit(b: u8) -> (r: bool)
    ensures
        r == is_digit(b),
{
    48 <= b && b <= 57
}

/// The value of digits with one more digit behind them.
pub proof fn lemma_decimal_value_push(s: Seq<u8>, b: u8)
    ensures
        decimal_value(s.push(b)) == decimal_value(s) * 10 + digit_value(b),
{
    assert(s.push(b).drop_last() =~= s);
    assert(s.push(b).last() == b);
}

/// The value of digits is not negative.
pub proof fn lemma_digits_value_bounds(s: Seq<u8>)
    requires
        all_digits(s),
    ensures
        decimal_value(s) >= 0,
    decreases s.len(),
{
    if s.len() > 0 {
        assert(all_digits(s.drop_last())) by {
            assert forall|k: int| 0 <= k < s.drop_last().len() implies is_digit(
                #[trigger] s.drop_last()[k],
            ) by {
                assert(s.drop_last()[k] == s[k]);
            }
        }
        lemma_digits_value_bounds(s.drop_last());
        assert(is_digit(s.last()));
    }
}

/// The digits of a number are digits, and there is at least one.
pub proof fn lemma_decimal_digits_are_digits(n: nat)
    ensures
        decimal_digits(n).len() >= 1,
        all_digits(decimal_digits(n)),
    decreases n,
{
    if n >= 10 {
        lemma_decimal_digits_are_digits(n / 10);
    }
}

/// Writing a number out and reading it back gives the number.
pub proof fn lemma_decimal_round_trip(n: nat)
    ensures
        decimal_value(decimal_digits(n)) == n,
    decreases n,
{
    if n < 10 {
        let s = decimal_digits(n);
        assert(s.drop_last() =~= Seq::<u8>::empty());
        assert(decimal_value(s.drop_last()) == 0);
    } else {
        lemma_decimal_round_trip(n / 10);
        let s = decimal_digits(n);
        assert(s.drop_last() =~= decimal_digits(n / 10));
    }
}

/// How many digits a number below 100 000 takes.
pub proof fn lemma_decimal_digits_len(n: nat)
    requires
        n < 100000,
    ensures
        decimal_digits(n).len() == if n < 10 {
            1nat
        } else if n < 100 {
            2nat
        } else if n < 1000 {
            3nat
        } else if n < 10000 {
            4nat
        } else {
            5nat
        },
    decreases n,
{
    if n >= 10 {
        lemma_decimal_digits_len(n / 10);
    }
}

/// Appends the digits of `n` to `out`.
pub fn push_decimal(out: &mut Vec<u8>, n: u32)
    ensures
        final(out)@ == old(out)@ + decimal_digits(n as nat),
    decreases n,
{
    if n < 10 {
        out.push(48u8 + (n as u8));
        assert(final(out)@ =~= old(out)@ + decimal_digits(n as nat));
    } else {
        push_decimal(out, n / 10);
        let d: u32 = n % 10;
        out.push(48u8 + (d as u8));
        assert(final(out)@ =~= old(out)@ + decimal_digits(n as nat));
    }
}

/// Appends `v` to `out`, written with its sign and filled on the left with
/// zero digits up to `width` bytes.
pub fn push_padded(out: &mut Vec<u8>, v: i16, width: u8)
    ensures
        final(out)@ == old(out)@ + padded_decimal(v as int, width as nat),
{
    let negative: bool = v < 0;
    let magnitude: u32 = if negative {
        (-(v as i32)) as u32
    } else {
        v as u32
    };
    let digit_count: u8 = if magnitude < 10 {
        1
    } else if magnitude < 100 {
        2
    } else if magnitude < 1000 {
        3
    } else if magnitude < 10000 {
        4
    } else {
        5
    };
    let text_len: u8 = if negative {
        digit_count + 1
    } else {
        digit_count
    };
    proof {
        lemma_decimal_digits_len(magnitude as nat);
        assert(signed_decimal(v as int).len() == text_len);
    }
    let mut filled: u8 = text_len;
    while filled < width
        invariant
            text_len <= filled,
            filled <= width || filled == text_len,
            out@ == old(out)@ + zeros((filled - text_len) as nat),
        decreases width - filled,
    {
        out.push(48u8);
        filled = filled + 1;
        assert(out@ =~= old(out)@ + zeros((filled - text_len) as nat));
    }
    let ghost before = out@;
    if negative {
        out.push(45u8);
    }
    push_decimal(out, magnitude);
    assert(out@ =~= before + signed_decimal(v as int));
    assert(final(out)@ =~= old(out)@ + padded_decimal(v as int, width as nat));
}

/// A number below a hundred, filled to two digits, is its tens and its
/// ones.
pub proof fn lemma_two_digits(v: int)
    requires
        0 <= v < 100,
    ensures
        padded_decimal(v, 2) == seq![digit_byte(v / 10), digit_byte(v % 10)],
{
    let n = v as nat;
    if n < 10 {
        assert(decimal_digits(n) =~= seq![digit_byte(v)]);
        assert(padded_decimal(v, 2) =~= seq![48u8, digit_byte(v)]);
    } else {
        assert(decimal_digits(n / 10) =~= seq![digit_byte(v / 10)]);
        assert(decimal_digits(n) =~= seq![digit_byte(v / 10), digit_byte(v % 10)]);
        assert(padded_decimal(v, 2) =~= seq![digit_byte(v / 10), digit_byte(v % 10)]);
    }
}

/// A number below a thousand, filled to three digits, is its hundreds, its
/// tens and its ones.
pub proof fn lemma_three_digits(v: int)
    requires
        0 <= v < 1000,
    ensures
        padded_decimal(v, 3) == seq![
            digit_byte(v / 100),
            digit_byte((v / 10) % 10),
            digit_byte(v % 10),
        ],
{
    let n = v as nat;
    let want = seq![digit_byte(v / 100), digit_byte((v / 10) % 10), digit_byte(v % 10)];
    if n < 10 {
        assert(decimal_digits(n) =~= seq![digit_byte(v)]);
        assert(padded_decimal(v, 3) =~= want);
    } else if n < 100 {
        assert(decimal_digits(n / 10) =~= seq![digit_byte(v / 10)]);
        assert(decimal_digits(n) =~= seq![digit_byte(v / 10), digit_byte(v % 10)]);
        assert(padded_decimal(v, 3) =~= want);
    } else {
        assert(decimal_digits(n / 100) =~= seq![digit_byte(v / 100)]);
        assert(n / 10 / 10 == n / 100);
        assert(decimal_digits(n / 10) =~= seq![digit_byte(v / 100), digit_byte((v / 10) % 10)]);
        assert(decimal_digits(n) =~= want);
        assert(padded_decimal(v, 3) =~= want);
    }
}

/// A number that is not negative is written in digits alone, however wide.
pub proof fn lemma_unsigned_text_is_digits(v: int, width: nat)
    requires
        0 <= v,
    ensures
        all_digits(padded_decimal(v, width)),
{
    lemma_decimal_digits_are_digits(v as nat);
    let text = signed_decimal(v);
    let padded = padded_decimal(v, width);
    assert forall|i: int| 0 <= i < padded.len() implies is_digit(#[trigger] padded[i]) by {
        if text.len() < width {
            let fill = (width - text.len()) as nat;
            if i >= fill {
                assert(padded[i] == text[i - fill]);
            }
        }
    }
}

} // verus!
