//! ANSI colour escape sequences: the control character `ESC`, an opening
//! bracket, a number in decimal and the letter `m`.

use vstd::prelude::*;

verus! {

/// The control character that opens every escape sequence.
pub const ESC: char = '\x1b';

/// The character that stands for the decimal digit `d`.
pub open spec fn digit(d: nat) -> char
    recommends
        d < 10,
{
    (('0' as nat) + d) as char
}

/// The decimal numeral of `n`, most significant digit first, without leading
/// zeros; the numeral of zero is `"0"`.
pub open spec fn decimal(n: nat) -> Seq<char>
    decreases n,
{
    if n < 10 {
        seq![digit(n)]
    } else {
        decimal(n / 10).push(digit(n % 10))
    }
}

/// The escape sequence that selects the rendition numbered `n`.
pub open spec fn escape(n: nat) -> Seq<char> {
    seq![ESC, '['] + decimal(n) + seq!['m']
}

/// The character of one decimal digit.
pub fn digit_char(d: u8) -> (c: char)
    requires
        d < 10,
    ensures
        c == digit(d as nat),
{
    (('0' as u8) + d) as char
}

/// Appends the decimal numeral of `n` to `out`.
pub fn push_decimal(out: &mut String, n: u8)
    ensures
        final(out)@ == old(out)@ + decimal(n as nat),
    decreases n,
{
    if n >= 10 {
        push_decimal(out, n / 10);
    }
    out.push(digit_char(n % 10));
}

/// Appends the escape sequence numbered `n` to `out`.
pub fn push_escape(out: &mut String, n: u8)
    ensures
        final(out)@ == old(out)@ + escape(n as nat),
{
    out.push(ESC);
    out.push('[');
    push_decimal(out, n);
    out.push('m');
}

/// Every character of a decimal numeral is a digit.
pub proof fn lemma_decimal_digits(n: nat)
    ensures
        decimal(n).len() >= 1,
        forall|i: int| 0 <= i < decimal(n).len() ==> '0' <= #[trigger] decimal(n)[i] <= '9',
    decreases n,
{
    if n >= 10 {
        lemma_decimal_digits(n / 10);
    }
}

/// An escape sequence opens with `ESC` and `[`, closes with `m`, and holds
/// nothing but digits in between.
pub proof fn lemma_escape_shape(n: nat)
    ensures
        escape(n).len() == decimal(n).len() + 3,
        escape(n)[0] == ESC,
        escape(n)[1] == '[',
        escape(n).last() == 'm',
        forall|i: int| 2 <= i < escape(n).len() - 1 ==> '0' <= #[trigger] escape(n)[i] <= '9',
{
    lemma_decimal_digits(n);
    assert forall|i: int| 2 <= i < escape(n).len() - 1 implies '0' <= #[trigger] escape(n)[i]
        <= '9' by {
        assert(escape(n)[i] == decimal(n)[i - 2]);
    }
}

} // verus!
