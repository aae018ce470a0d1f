//! Decimal rendering of integers into `String`s (as Rust's `Display` for integers writes them).

use vstd::prelude::*;

verus! {

/// `String::push` appends one character.
pub assume_specification[ String::push ](s: &mut String, ch: char)
    ensures
        final(s)@ == old(s)@.push(ch),
;

/// The ASCII character of decimal digit `d` (`'0'..='9'`).
pub open spec fn digit_char(d: nat) -> char {
    (48 + d) as char
}

/// The decimal digits of `n`, most significant first, without leading zeros (`"0"` for zero).
pub open spec fn decimal_digits(n: nat) -> Seq<char>
    decreases n,
{
    if n < 10 {
        seq![digit_char(n)]
    } else {
        decimal_digits(n / 10) + seq![digit_char(n % 10)]
    }
}

/// The text of `v` in decimal, with a leading `'-'` when `v` is negative.
pub open spec fn int_text(v: int) -> Seq<char> {
    if v < 0 {
        seq!['-'] + decimal_digits((-v) as nat)
    } else {
        decimal_digits(v as nat)
    }
}

fn digit(d: u64) -> (c: char)
    requires
        d < 10,
    ensures
        c == digit_char(d as nat),
{
    match d {
        0 => '0',
        1 => '1',
        2 => '2',
        3 => '3',
        4 => '4',
        5 => '5',
        6 => '6',
        7 => '7',
        8 => '8',
        _ => '9',
    }
}

/// Appends the decimal digits of `n`.
pub fn push_decimal(s: &mut String, n: u64)
    ensures
        final(s)@ == old(s)@ + decimal_digits(n as nat),
    decreases n,
{
    if n >= 10 {
        push_decimal(s, n / 10);
    }
    let c = digit(n % 10);
    s.push(c);
    assert(final(s)@ =~= old(s)@ + decimal_digits(n as nat));
}

/// Appends `v` in decimal, signed.
pub fn push_i64(s: &mut String, v: i64)
    ensures
        final(s)@ == old(s)@ + int_text(v as int),
{
    if v < 0 {
        s.push('-');
        let mag: u64 = if v == i64::MIN {
            9223372036854775808u64
        } else {
            (-v) as u64
        };
        push_decimal(s, mag);
        assert(final(s)@ =~= old(s)@ + int_text(v as int));
    } else {
        push_decimal(s, v as u64);
    }
}

/// Decimal digits are the characters '0' to '9', at least one of them, and two or more for
/// numbers from 10 on.
pub proof fn lemma_decimal_digits_chars(n: nat)
    ensures
        decimal_digits(n).len() >= 1,
        n >= 10 ==> decimal_digits(n).len() >= 2,
        forall|i: int| 0 <= i < decimal_digits(n).len() ==> '0' <= #[trigger] decimal_digits(n)[i] <= '9',
    decreases n,
{
    if n >= 10 {
        lemma_decimal_digits_chars(n / 10);
    }
}

/// Different numbers have different decimal texts.
pub proof fn lemma_decimal_digits_injective(a: nat, b: nat)
    requires
        decimal_digits(a) == decimal_digits(b),
    ensures
        a == b,
    decreases a,
{
    lemma_decimal_digits_chars(a);
    lemma_decimal_digits_chars(b);
    if a >= 10 && b >= 10 {
        let da = decimal_digits(a);
        assert(da.drop_last() =~= decimal_digits(a / 10));
        assert(decimal_digits(b).drop_last() =~= decimal_digits(b / 10));
        lemma_decimal_digits_injective(a / 10, b / 10);
        assert(da.last() == digit_char(a % 10));
        assert(decimal_digits(b).last() == digit_char(b % 10));
    } else if a < 10 && b < 10 {
        assert(decimal_digits(a)[0] == digit_char(a));
        assert(decimal_digits(b)[0] == digit_char(b));
    }
}

/// Different integers have different signed decimal texts, and these hold no '.'.
pub proof fn lemma_int_text_injective(a: int, b: int)
    ensures
        int_text(a) == int_text(b) ==> a == b,
        forall|i: int| 0 <= i < int_text(a).len() ==> #[trigger] int_text(a)[i] != '.',
{
    lemma_decimal_digits_chars(if a < 0 { (-a) as nat } else { a as nat });
    lemma_decimal_digits_chars(if b < 0 { (-b) as nat } else { b as nat });
    assert forall|i: int| 0 <= i < int_text(a).len() implies #[trigger] int_text(a)[i] != '.' by {
        if a < 0 && i > 0 {
            assert(int_text(a)[i] == decimal_digits((-a) as nat)[i - 1]);
        }
    }
    if int_text(a) == int_text(b) {
        if a < 0 && b < 0 {
            assert(int_text(a).drop_first() =~= decimal_digits((-a) as nat));
            assert(int_text(b).drop_first() =~= decimal_digits((-b) as nat));
            lemma_decimal_digits_injective((-a) as nat, (-b) as nat);
        } else if a >= 0 && b >= 0 {
            lemma_decimal_digits_injective(a as nat, b as nat);
        } else if a < 0 {
            assert(int_text(a)[0] == '-');
            assert(int_text(b)[0] == decimal_digits(b as nat)[0]);
        } else {
            assert(int_text(b)[0] == '-');
            assert(int_text(a)[0] == decimal_digits(a as nat)[0]);
        }
    }
}

} // verus!
