//! How numbers are written, and which texts are numbers.
use crate::numeral::{
    all_digits, bounded_value, decimal_text, digit, digits_value, i64_value, is_digit,
    lemma_decimal_reads_back, signed_value, unsigned_value,
};
use vstd::prelude::*;

verus! {

/// A number is written with its digits, the last of them last and no zero in front.
pub proof fn numbers_are_written_digit_by_digit(n: nat, d: nat)
    requires
        d < 10,
    ensures
        decimal_text(d).len() == 1,
        decimal_text(d)[0] as int == '0' as int + d,
        n > 0 ==> decimal_text(10 * n + d) == decimal_text(n) + decimal_text(d),
        n > 0 ==> decimal_text(n)[0] != '0',
    decreases n,
{
    if n > 0 {
        let m = 10 * n + d;
        assert(m / 10 == n && m % 10 == d);
        assert(decimal_text(n).push(digit(d as int)) =~= decimal_text(n) + decimal_text(d));
        if n >= 10 {
            numbers_are_written_digit_by_digit(n / 10, 0);
            assert(decimal_text(n)[0] == decimal_text(n / 10)[0]) by {
                lemma_decimal_reads_back(n / 10);
            }
        }
    }
}

/// Digits are read from the left, each worth ten times less than the one before.
pub proof fn digits_are_read_from_the_left(s: Seq<char>, c: char)
    requires
        '0' <= c <= '9',
    ensures
        digits_value(Seq::empty()) == 0,
        digits_value(s.push(c)) == 10 * digits_value(s) + (c as int - '0' as int),
{
    assert(s.push(c).drop_last() =~= s);
}

/// A text is an unsigned number exactly where it is digits, one at least, after a `+` or not.
pub proof fn unsigned_numbers_are_digits(s: Seq<char>)
    requires
        s.len() > 0 ==> s[0] != '+',
    ensures
        s.len() == 0 ==> unsigned_value(s) is None,
        s.len() > 0 && (forall|i: int| 0 <= i < s.len() ==> '0' <= #[trigger] s[i] <= '9')
            ==> unsigned_value(s) == Some(digits_value(s)),
        (exists|i: int| 0 <= i < s.len() && !('0' <= #[trigger] s[i] <= '9')) ==> unsigned_value(
            s,
        ) is None,
        unsigned_value(seq!['+'] + s) == unsigned_value(s),
{
    let plus = seq!['+'] + s;
    assert(plus[0] == '+' && plus.skip(1) =~= s);
    if s.len() > 0 && (forall|i: int| 0 <= i < s.len() ==> '0' <= #[trigger] s[i] <= '9') {
        assert(all_digits(s));
    }
    if exists|i: int| 0 <= i < s.len() && !('0' <= #[trigger] s[i] <= '9') {
        let i = choose|i: int| 0 <= i < s.len() && !('0' <= #[trigger] s[i] <= '9');
        assert(!is_digit(s[i]));
    }
}

/// What was written is read back, with a sign as well, as far as 64 bits reach.
pub proof fn written_numbers_are_read_back(n: nat)
    ensures
        unsigned_value(decimal_text(n)) == Some(n),
        unsigned_value(seq!['+'] + decimal_text(n)) == Some(n),
        signed_value(seq!['-'] + decimal_text(n)) == Some(-(n as int)),
        n <= 0x7fff_ffff_ffff_ffff ==> i64_value(decimal_text(n)) == Some(n as i64),
        n <= 0x8000_0000_0000_0000 ==> i64_value(seq!['-'] + decimal_text(n)) == Some(
            (-(n as int)) as i64,
        ),
        n > 0x7fff_ffff_ffff_ffff ==> i64_value(decimal_text(n)) is None,
        n > 0x8000_0000_0000_0000 ==> i64_value(seq!['-'] + decimal_text(n)) is None,
{
    lemma_decimal_reads_back(n);
    let text = decimal_text(n);
    assert(is_digit(text[0]));
    let plus = seq!['+'] + text;
    let minus = seq!['-'] + text;
    assert(plus[0] == '+' && plus.skip(1) =~= text);
    assert(minus[0] == '-' && minus.skip(1) =~= text);
}

/// A text with a character in it that is neither a digit nor a sign in front is no number.
pub proof fn other_texts_are_no_numbers(s: Seq<char>, i: int)
    requires
        0 <= i < s.len(),
        !('0' <= s[i] <= '9'),
        i == 0 ==> s[0] != '+' && s[0] != '-',
    ensures
        unsigned_value(s) is None,
        i64_value(s) is None,
{
    if i > 0 {
        assert(s.skip(1)[i - 1] == s[i]);
    }
    assert(!is_digit(s[i]));
}

/// A number is accepted up to a bound and not beyond it.
pub proof fn bounds_are_kept(s: Seq<char>, max: u64)
    ensures
        bounded_value(s, max) is Some <==> unsigned_value(s) is Some && unsigned_value(s)->0 <= max,
        bounded_value(s, max) is Some ==> bounded_value(s, max)->0 == unsigned_value(s)->0,
{
}

} // verus!
