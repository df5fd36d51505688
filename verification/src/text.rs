//! Building text: characters appended to a `String`, and integers written
//! in decimal.

use vstd::prelude::*;

verus! {

/// Appends one character to a string. This is `String::push` of the
/// standard library, for which no specification is at hand; its
/// documentation says that the character is appended to the end, which is
/// all that is claimed here.
#[verifier::external_body]
pub(crate) fn push_char(s: &mut String, c: char)
    ensures
        final(s)@ == old(s)@.push(c),
{
    s.push(c)
}

/// The byte of the digit `0`; those of the other digits follow it in
/// order.
pub const DIGIT_0: u8 = 48;

/// The character that stands for the decimal digit `d`.
pub open spec fn digit_char(d: int) -> char
    recommends
        0 <= d < 10,
{
    (DIGIT_0 + d) as char
}

/// The decimal digits of a natural number, most significant first, with
/// no leading zero.
pub open spec fn decimal_nat(n: nat) -> Seq<char>
    decreases n,
{
    if n < 10 {
        seq![digit_char(n as int)]
    } else {
        decimal_nat(n / 10).push(digit_char((n % 10) as int))
    }
}

/// An integer in decimal: a minus sign for a negative one, then the digits
/// of its magnitude.
pub open spec fn decimal(i: int) -> Seq<char> {
    if i < 0 {
        seq!['-'] + decimal_nat((-i) as nat)
    } else {
        decimal_nat(i as nat)
    }
}

/// Low digits collected least significant first, as the text they end a
/// number with.
pub open spec fn low_digits_text(ds: Seq<u8>) -> Seq<char> {
    Seq::new(ds.len(), |k: int| digit_char(ds[ds.len() - 1 - k] as int))
}

/// Appends the decimal digits of `mag` to `buf`.
fn write_magnitude(buf: &mut String, mag: u128)
    ensures
        final(buf)@ == old(buf)@ + decimal_nat(mag as nat),
{
    let mut ds: Vec<u8> = Vec::new();
    let mut m: u128 = mag;
    assert(low_digits_text(ds@) =~= Seq::<char>::empty());
    while m >= 10
        invariant
            decimal_nat(mag as nat) == decimal_nat(m as nat) + low_digits_text(ds@),
            forall|k: int| 0 <= k < ds@.len() ==> ds@[k] < 10,
        decreases m,
    {
        let d: u8 = (m % 10) as u8;
        let ghost before = ds@;
        ds.push(d);
        assert(low_digits_text(ds@) =~= seq![digit_char(d as int)] + low_digits_text(before));
        assert(decimal_nat(m as nat) == decimal_nat((m / 10) as nat).push(digit_char(d as int)));
        assert(decimal_nat((m / 10) as nat).push(digit_char(d as int)) + low_digits_text(before)
            =~= decimal_nat((m / 10) as nat) + low_digits_text(ds@));
        m = m / 10;
    }
    push_char(buf, (DIGIT_0 + (m as u8)) as char);
    let mut j: usize = ds.len();
    while j > 0
        invariant
            j <= ds@.len(),
            forall|k: int| 0 <= k < ds@.len() ==> ds@[k] < 10,
            buf@ == old(buf)@ + decimal_nat(m as nat) + low_digits_text(ds@).subrange(
                0,
                ds@.len() - j,
            ),
        decreases j,
    {
        j -= 1;
        push_char(buf, (DIGIT_0 + ds[j]) as char);
        assert(low_digits_text(ds@).subrange(0, ds@.len() - j) =~= low_digits_text(ds@).subrange(
            0,
            ds@.len() - j - 1,
        ).push(digit_char(ds@[j as int] as int)));
    }
    assert(low_digits_text(ds@).subrange(0, ds@.len() as int) =~= low_digits_text(ds@));
    assert(buf@ =~= old(buf)@ + decimal_nat(mag as nat));
}

/// Appends `i` in decimal to `buf`.
pub fn write_int(buf: &mut String, i: isize)
    ensures
        final(buf)@ == old(buf)@ + decimal(i as int),
{
    let wide: i128 = i as i128;
    if wide < 0 {
        push_char(buf, '-');
        write_magnitude(buf, (-wide) as u128);
        assert(buf@ =~= old(buf)@ + decimal(i as int));
    } else {
        write_magnitude(buf, wide as u128);
    }
}

/// Appends `n` in decimal to `buf`.
pub fn write_usize(buf: &mut String, n: usize)
    ensures
        final(buf)@ == old(buf)@ + decimal(n as int),
{
    write_magnitude(buf, n as u128);
}

} // verus!
