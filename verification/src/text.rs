//! Character-level text helpers shared by the token types: appending
//! characters to strings and rendering integers in decimal and hexadecimal.

use vstd::prelude::*;

verus! {

/// Appends one character to a string: std's `String::push`, which the
/// standard library documents as appending the given `char` to the end of
/// the string. The contract says exactly that of the view.
#[verifier::external_body]
pub(crate) fn push_char(s: &mut String, c: char)
    ensures
        final(s)@ == old(s)@.push(c),
{
    s.push(c);
}

/// The character of a decimal digit `d < 10`.
pub open spec fn digit_char(d: nat) -> char {
    (48 + d) as char
}

/// The decimal rendering of a natural number, without sign or leading zeros.
pub open spec fn decimal(n: nat) -> Seq<char>
    decreases n,
{
    if n < 10 {
        seq![digit_char(n)]
    } else {
        decimal(n / 10).push(digit_char(n % 10))
    }
}

/// The decimal rendering of an integer: a `-` before the magnitude when negative.
pub open spec fn signed_decimal(n: int) -> Seq<char> {
    if n < 0 {
        seq!['-'] + decimal((-n) as nat)
    } else {
        decimal(n as nat)
    }
}

fn digit(d: u128) -> (c: char)
    requires
        d < 10,
    ensures
        c == digit_char(d as nat),
{
    let b: u8 = 48u8 + (d as u8);
    b as char
}

/// Appends the decimal rendering of `n`.
pub fn push_decimal(out: &mut String, n: u128)
    ensures
        final(out)@ == old(out)@ + decimal(n as nat),
    decreases n,
{
    if n >= 10 {
        push_decimal(out, n / 10);
    }
    push_char(out, digit(n % 10));
    assert(decimal(n as nat) == if n < 10 { seq![digit_char(n as nat)] } else { decimal((n / 10) as nat).push(digit_char((n % 10) as nat)) });
}

/// Appends the decimal rendering of a signed `n`.
pub fn push_signed_decimal(out: &mut String, n: i128)
    ensures
        final(out)@ == old(out)@ + signed_decimal(n as int),
{
    if n < 0 {
        push_char(out, '-');
        let m: i128 = -(n + 1);
        let magnitude: u128 = (m as u128) + 1;
        push_decimal(out, magnitude);
    } else {
        push_decimal(out, n as u128);
    }
}

/// The characters of `s`, in order.
pub fn chars_of(s: &str) -> (v: Vec<char>)
    ensures
        v@ == s@,
{
    let mut v: Vec<char> = Vec::new();
    for c in it: s.chars()
        invariant
            v@ == it.seq().take(it.index() as int),
            it.seq() == s@,
    {
        v.push(c);
    }
    v
}

/// An ASCII decimal digit.
pub open spec fn is_digit_char(c: char) -> bool {
    '0' <= c && c <= '9'
}

/// The number that a sequence of decimal digits spells, read in base ten.
pub open spec fn digits_value(s: Seq<char>) -> int
    decreases s.len(),
{
    if s.len() == 0 {
        0
    } else {
        digits_value(s.drop_last()) * 10 + (s.last() as int - 48)
    }
}

/// The decimal rendering of `n` spells `n`: it is nonempty, holds only
/// digits, starts with `0` only when `n` is 0, and reads back in base ten
/// as `n`.
pub proof fn lemma_decimal_spells(n: nat)
    ensures
        decimal(n).len() >= 1,
        forall|i: int| 0 <= i < decimal(n).len() ==> is_digit_char(#[trigger] decimal(n)[i]),
        decimal(n)[0] == '0' <==> n == 0,
        digits_value(decimal(n)) == n,
    decreases n,
{
    if n >= 10 {
        lemma_decimal_spells(n / 10);
        let p = decimal(n / 10);
        let d = digit_char(n % 10);
        assert(decimal(n) == p.push(d));
        assert(p.push(d).drop_last() =~= p);
        assert((d as int) == 48 + n % 10);
        assert(p.push(d)[0] == p[0]);
        assert((n / 10) * 10 + n % 10 == n);
        assert(digits_value(p.push(d)) == digits_value(p.push(d).drop_last()) * 10 + (p.push(d).last() as int - 48));
        assert(digits_value(p.push(d)) == digits_value(p) * 10 + (d as int - 48));
    } else {
        let d = digit_char(n);
        assert((d as int) == 48 + n);
        assert(decimal(n) == seq![d]);
        assert(seq![d].drop_last() =~= Seq::<char>::empty());
        assert(digits_value(Seq::<char>::empty()) == 0);
        assert(digits_value(seq![d]) == digits_value(seq![d].drop_last()) * 10 + (seq![d].last() as int - 48));
    }
}

/// The signed decimal rendering of `n`: a `-` exactly when `n` is negative,
/// then the digits of its magnitude.
pub proof fn lemma_signed_decimal_spells(n: int)
    ensures
        signed_decimal(n).len() >= 1,
        (signed_decimal(n)[0] == '-') <==> n < 0,
        n < 0 ==> digits_value(signed_decimal(n).skip(1)) == -n,
        n >= 0 ==> digits_value(signed_decimal(n)) == n,
        forall|i: int| (if n < 0 { 1int } else { 0int }) <= i < signed_decimal(n).len() ==> is_digit_char(
            #[trigger] signed_decimal(n)[i],
        ),
{
    if n < 0 {
        lemma_decimal_spells((-n) as nat);
        assert(signed_decimal(n).skip(1) =~= decimal((-n) as nat));
        assert forall|i: int| 1 <= i < signed_decimal(n).len() implies is_digit_char(#[trigger] signed_decimal(n)[i]) by {
            assert(signed_decimal(n)[i] == decimal((-n) as nat)[i - 1]);
        }
    } else {
        lemma_decimal_spells(n as nat);
    }
}

} // verus!
