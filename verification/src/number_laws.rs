//! Which texts are numbers, and which numbers they are, said of the texts' characters.

use vstd::prelude::*;
use vstd::arithmetic::power::{lemma_pow0, lemma_pow1, lemma_pow_adds, pow};
use crate::number::{all_digits, decimal, digits_value, find_exponent, i64_value, int_text, int_value, is_digit, is_float, is_mantissa, is_number, is_word, lemma_decimal, small, u32_value, unsigned, with_point};
use crate::text::{after, before, lemma_find, lemma_find_is};
use crate::text_laws::law_first_place_parts_the_text;

verus! {

broadcast use vstd::string::group_string_axioms;

/// The digits are those of ASCII, and a digit stands for its distance from `0`.
pub proof fn law_digit(c: char)
    ensures
        is_digit(c) <==> (c == '0' || c == '1' || c == '2' || c == '3' || c == '4' || c == '5' || c
            == '6' || c == '7' || c == '8' || c == '9'),
        digits_value(seq![c]) == c as int - '0' as int,
        digits_value(Seq::empty()) == 0,
{
    assert(seq![c].drop_last() =~= Seq::<char>::empty());
    assert(seq![c].last() == c);
    reveal_with_fuel(digits_value, 2);
}

/// Digits stand for tens by their place: digits with others behind them count ten times as
/// much for each of these.
pub proof fn law_digits_count_by_place(a: Seq<char>, b: Seq<char>)
    ensures
        digits_value(a + b) == digits_value(a) * pow(10, b.len()) + digits_value(b),
    decreases b.len(),
{
    if b.len() == 0 {
        lemma_pow0(10);
        assert(a + b =~= a);
        assert(digits_value(a) * 1 == digits_value(a));
    } else {
        let c = b.drop_last();
        law_digits_count_by_place(a, c);
        assert((a + b).drop_last() =~= a + c);
        assert((a + b).last() == b.last());
        lemma_pow1(10);
        lemma_pow_adds(10, c.len(), 1);
        let v = digits_value(a);
        let p = pow(10, c.len());
        assert(v * (p * 10) == (v * p) * 10) by (nonlinear_arith);
    }
}

/// The decimal text of a number is the digits that stand for it, without zeros before them;
/// that of a negative one has a minus sign before the digits of its amount.
pub proof fn law_decimal_text(n: nat)
    ensures
        decimal(n).len() > 0,
        forall|i: int| 0 <= i < decimal(n).len() ==> '0' <= #[trigger] decimal(n)[i] <= '9',
        digits_value(decimal(n)) == n,
        decimal(n).len() > 1 ==> decimal(n)[0] != '0',
        int_text(n as int) == decimal(n),
        n > 0 ==> int_text(-n) == seq!['-'] + decimal(n),
    decreases n,
{
    lemma_decimal(n);
    assert forall|i: int| 0 <= i < decimal(n).len() implies '0' <= #[trigger] decimal(n)[i] <= '9' by {
        assert(is_digit(decimal(n)[i]));
    }
    if n >= 10 {
        law_decimal_text(n / 10);
        let d = decimal(n / 10);
        assert(decimal(n)[0] == d[0]);
        if d.len() == 1 && d[0] == '0' {
            law_digit('0');
            assert(d =~= seq!['0']);
        }
    }
}

/// Digits write an integer, with or without a sign before them.
pub proof fn law_digits_are_an_integer(d: Seq<char>)
    requires
        d.len() > 0,
        forall|i: int| 0 <= i < d.len() ==> '0' <= #[trigger] d[i] <= '9',
    ensures
        int_value(d) == Some(digits_value(d)),
        int_value(seq!['+'] + d) == Some(digits_value(d)),
        int_value(seq!['-'] + d) == Some(-digits_value(d)),
{
    assert(is_digit(d[0]));
    assert(all_digits(d));
    assert((seq!['+'] + d).drop_first() =~= d);
    assert((seq!['-'] + d).drop_first() =~= d);
}

/// No other text writes an integer: behind a sign at its start there are digits only, and
/// at least one.
pub proof fn law_integers_are_digits(s: Seq<char>)
    requires
        int_value(s) is Some,
    ensures
        s.len() > 0,
        '0' <= s[0] <= '9' || ((s[0] == '+' || s[0] == '-') && s.len() > 1),
        forall|i: int| 1 <= i < s.len() ==> '0' <= #[trigger] s[i] <= '9',
{
    let d = unsigned(s);
    assert(is_digit(d[0]));
    assert forall|i: int| 1 <= i < s.len() implies '0' <= #[trigger] s[i] <= '9' by {
        if d.len() == s.len() {
            assert(is_digit(d[i]));
        } else {
            assert(is_digit(d[i - 1]));
        }
    }
}

/// An integer of 64 bits is one that the bits can hold, and a natural number of 32 bits one
/// that has no minus sign and that the bits can hold.
pub proof fn law_integers_fit_their_bits(s: Seq<char>)
    ensures
        i64_value(s) is Some <==> int_value(s) is Some && -0x8000_0000_0000_0000 <= int_value(s)->0
            <= 0x7fff_ffff_ffff_ffff,
        i64_value(s) is Some ==> i64_value(s) == int_value(s),
        u32_value(s) is Some <==> int_value(s) is Some && s[0] != '-' && int_value(s)->0
            <= 0xffff_ffff,
        u32_value(s) is Some ==> u32_value(s) == int_value(s),
{
}

proof fn lemma_no_exponent(d: Seq<char>, e: char)
    requires
        forall|i: int| 0 <= i < d.len() ==> '0' <= #[trigger] d[i] <= '9' || d[i] == '.',
        e == 'e' || e == 'E',
    ensures
        !d.contains(e),
{
    if d.contains(e) {
        let i = choose|i: int| 0 <= i < d.len() && d[i] == e;
        assert('0' <= d[i] <= '9' || d[i] == '.');
    }
}

proof fn lemma_mantissa(a: Seq<char>, b: Seq<char>)
    requires
        forall|i: int| 0 <= i < a.len() ==> '0' <= #[trigger] a[i] <= '9',
        forall|i: int| 0 <= i < b.len() ==> '0' <= #[trigger] b[i] <= '9',
    ensures
        a.len() > 0 ==> is_mantissa(a),
        a.len() + b.len() > 0 ==> is_mantissa(a + seq!['.'] + b),
        forall|i: int|
            0 <= i < (a + seq!['.'] + b).len() ==> '0' <= #[trigger] (a + seq!['.'] + b)[i] <= '9'
                || (a + seq!['.'] + b)[i] == '.',
{
    let m = a + seq!['.'] + b;
    assert(!a.contains('.')) by {
        if a.contains('.') {
            let i = choose|i: int| 0 <= i < a.len() && a[i] == '.';
            assert('0' <= a[i] <= '9');
        }
    }
    assert(m =~= a.push('.') + b);
    law_first_place_parts_the_text(a, '.', b);
    assert(m[a.len() as int] == '.');
    assert(all_digits(a));
    assert(all_digits(b));
    assert forall|i: int| 0 <= i < m.len() implies '0' <= #[trigger] m[i] <= '9' || m[i] == '.' by {
        if i < a.len() {
            assert(m[i] == a[i]);
        } else if i > a.len() {
            assert(m[i] == b[i - a.len() - 1]);
        }
    }
}

proof fn lemma_sign(sign: Seq<char>, t: Seq<char>)
    requires
        sign == Seq::<char>::empty() || sign == seq!['+'] || sign == seq!['-'],
        t.len() > 0,
        t[0] != '+' && t[0] != '-',
    ensures
        unsigned(sign + t) == t,
{
    if sign.len() == 0 {
        assert(sign + t =~= t);
    } else {
        assert((sign + t).drop_first() =~= t);
    }
}

proof fn lemma_number(m: Seq<char>)
    requires
        is_mantissa(m),
        forall|i: int| 0 <= i < m.len() ==> '0' <= #[trigger] m[i] <= '9' || m[i] == '.',
    ensures
        is_number(m),
{
    lemma_no_exponent(m, 'e');
    lemma_no_exponent(m, 'E');
    lemma_find(m, 'e');
    lemma_find(m, 'E');
    assert(m.take(m.len() as int) =~= m);
}

proof fn lemma_number_with_exponent(m: Seq<char>, e: char, xsign: Seq<char>, x: Seq<char>)
    requires
        is_mantissa(m),
        forall|i: int| 0 <= i < m.len() ==> '0' <= #[trigger] m[i] <= '9' || m[i] == '.',
        e == 'e' || e == 'E',
        xsign == Seq::<char>::empty() || xsign == seq!['+'] || xsign == seq!['-'],
        x.len() > 0,
        forall|i: int| 0 <= i < x.len() ==> '0' <= #[trigger] x[i] <= '9',
    ensures
        is_number(m + seq![e] + xsign + x),
{
    let s = m + seq![e] + xsign + x;
    let k = m.len() as int;
    lemma_no_exponent(m, 'e');
    lemma_no_exponent(m, 'E');
    assert forall|j: int| 0 <= j < k implies s[j] != 'e' && s[j] != 'E' by {
        assert(s[j] == m[j]);
        assert(m.contains(m[j]));
    }
    assert(s[k] == e);
    lemma_find(s, 'e');
    lemma_find(s, 'E');
    lemma_find_is(s, e, k);
    assert(find_exponent(s) == k);
    assert(s.take(k) =~= m);
    assert(s.skip(k + 1) =~= xsign + x);
    assert('0' <= x[0] <= '9');
    lemma_sign(xsign, x);
    assert(all_digits(x));
}

/// Every sequence of digits is the literal of a float, with or without a sign.
pub proof fn law_digits_are_a_float(sign: Seq<char>, d: Seq<char>)
    requires
        sign == Seq::<char>::empty() || sign == seq!['+'] || sign == seq!['-'],
        d.len() > 0,
        forall|i: int| 0 <= i < d.len() ==> '0' <= #[trigger] d[i] <= '9',
    ensures
        is_float(d),
        is_float(sign + d),
{
    lemma_mantissa(d, Seq::empty());
    lemma_number(d);
    assert('0' <= d[0] <= '9');
    lemma_sign(sign, d);
    lemma_sign(Seq::empty(), d);
    assert(Seq::<char>::empty() + d =~= d);
}

/// So is every one with one point in it, at its start, at its end or between.
pub proof fn law_digits_with_a_point_are_a_float(sign: Seq<char>, a: Seq<char>, b: Seq<char>)
    requires
        sign == Seq::<char>::empty() || sign == seq!['+'] || sign == seq!['-'],
        a.len() + b.len() > 0,
        forall|i: int| 0 <= i < a.len() ==> '0' <= #[trigger] a[i] <= '9',
        forall|i: int| 0 <= i < b.len() ==> '0' <= #[trigger] b[i] <= '9',
    ensures
        is_float(a + seq!['.'] + b),
        is_float(sign + (a + seq!['.'] + b)),
{
    let m = a + seq!['.'] + b;
    lemma_mantissa(a, b);
    lemma_number(m);
    assert('0' <= m[0] <= '9' || m[0] == '.');
    lemma_sign(sign, m);
    lemma_sign(Seq::empty(), m);
    assert(Seq::<char>::empty() + m =~= m);
}

/// And so is either of these with an exponent behind it: an `e` of either case, a sign or
/// none, and digits.
pub proof fn law_exponents_are_allowed(
    sign: Seq<char>,
    a: Seq<char>,
    point: Seq<char>,
    b: Seq<char>,
    e: char,
    xsign: Seq<char>,
    x: Seq<char>,
)
    requires
        sign == Seq::<char>::empty() || sign == seq!['+'] || sign == seq!['-'],
        point == seq!['.'] || (point == Seq::<char>::empty() && b.len() == 0),
        a.len() + b.len() > 0,
        forall|i: int| 0 <= i < a.len() ==> '0' <= #[trigger] a[i] <= '9',
        forall|i: int| 0 <= i < b.len() ==> '0' <= #[trigger] b[i] <= '9',
        e == 'e' || e == 'E',
        xsign == Seq::<char>::empty() || xsign == seq!['+'] || xsign == seq!['-'],
        x.len() > 0,
        forall|i: int| 0 <= i < x.len() ==> '0' <= #[trigger] x[i] <= '9',
    ensures
        is_float(sign + (a + point + b + seq![e] + xsign + x)),
{
    let m = a + point + b;
    lemma_mantissa(a, b);
    if point.len() == 0 {
        assert(m =~= a);
    }
    assert forall|i: int| 0 <= i < m.len() implies '0' <= #[trigger] m[i] <= '9' || m[i] == '.' by {
        if point.len() == 0 {
            assert(m[i] == a[i]);
        } else {
            assert(m == a + seq!['.'] + b);
        }
    }
    lemma_number_with_exponent(m, e, xsign, x);
    let t = m + seq![e] + xsign + x;
    assert(t =~= a + point + b + seq![e] + xsign + x);
    assert(t[0] == m[0]);
    assert('0' <= m[0] <= '9' || m[0] == '.');
    lemma_sign(sign, t);
}

/// The words of the floats that are no numbers, whatever the case of their letters.
pub proof fn law_words_for_floats(s: Seq<char>, sign: Seq<char>)
    requires
        sign == Seq::<char>::empty() || sign == seq!['+'] || sign == seq!['-'],
    ensures
        is_word(s, "inf"@) <==> s.len() == 3 && (s[0] == 'i' || s[0] == 'I') && (s[1] == 'n' || s[1]
            == 'N') && (s[2] == 'f' || s[2] == 'F'),
        is_word(s, "nan"@) <==> s.len() == 3 && (s[0] == 'n' || s[0] == 'N') && (s[1] == 'a' || s[1]
            == 'A') && (s[2] == 'n' || s[2] == 'N'),
        is_word(s, "infinity"@) <==> s.len() == 8 && (s[0] == 'i' || s[0] == 'I') && (s[1] == 'n'
            || s[1] == 'N') && (s[2] == 'f' || s[2] == 'F') && (s[3] == 'i' || s[3] == 'I') && (s[4]
            == 'n' || s[4] == 'N') && (s[5] == 'i' || s[5] == 'I') && (s[6] == 't' || s[6] == 'T')
            && (s[7] == 'y' || s[7] == 'Y'),
        is_word(s, "inf"@) || is_word(s, "nan"@) || is_word(s, "infinity"@) ==> is_float(sign + s),
{
    reveal_strlit("inf");
    reveal_strlit("nan");
    reveal_strlit("infinity");
    if is_word(s, "inf"@) || is_word(s, "nan"@) || is_word(s, "infinity"@) {
        lemma_sign(sign, s);
    }
}

/// The small letter of a capital one of ASCII is 32 places on; nothing else changes.
pub proof fn law_small_letters(c: char)
    ensures
        'A' <= c <= 'Z' ==> small(c) as int == c as int + 32,
        !('A' <= c <= 'Z') ==> small(c) == c,
{
}

/// The parts of the literal of a float: sign, digits, point, digits and exponent.
#[verifier::ext_equal]
pub struct FloatParts {
    pub sign: Seq<char>,
    pub whole: Seq<char>,
    pub point: Seq<char>,
    pub fraction: Seq<char>,
    pub exponent: Seq<char>,
}

/// No other text is the literal of a float: besides the words, one is a sign or none, digits
/// with one point at most, and an exponent or none, an `e` with a sign or none and digits.
pub proof fn law_floats_have_these_parts(s: Seq<char>) -> (p: FloatParts)
    requires
        is_float(s),
        ({
            let t = if s.len() > 0 && (s[0] == '+' || s[0] == '-') {
                s.drop_first()
            } else {
                s
            };
            !is_word(t, "inf"@) && !is_word(t, "nan"@) && !is_word(t, "infinity"@)
        }),
    ensures
        s == p.sign + p.whole + p.point + p.fraction + p.exponent,
        p.sign == Seq::<char>::empty() || p.sign == seq!['+'] || p.sign == seq!['-'],
        p.point == seq!['.'] || (p.point == Seq::<char>::empty() && p.fraction.len() == 0),
        p.whole.len() + p.fraction.len() > 0,
        forall|i: int| 0 <= i < p.whole.len() ==> '0' <= #[trigger] p.whole[i] <= '9',
        forall|i: int| 0 <= i < p.fraction.len() ==> '0' <= #[trigger] p.fraction[i] <= '9',
        p.exponent.len() > 0 ==> p.exponent.len() > 1 && (p.exponent[0] == 'e' || p.exponent[0]
            == 'E') && ('0' <= p.exponent[1] <= '9' || (p.exponent.len() > 2 && (p.exponent[1] == '+'
            || p.exponent[1] == '-'))),
        forall|i: int| 2 <= i < p.exponent.len() ==> '0' <= #[trigger] p.exponent[i] <= '9',
{
    let t = unsigned(s);
    let sign = s.take(s.len() - t.len());
    if sign.len() > 0 {
        assert(sign =~= seq![s[0]]);
    } else {
        assert(sign =~= Seq::<char>::empty());
    }
    assert(s =~= sign + t);
    let k = find_exponent(t);
    lemma_exponent_parts(t);
    let m = t.take(k);
    let exponent = t.skip(k);
    let (whole, point, fraction) = lemma_mantissa_parts(m);
    let p = FloatParts { sign, whole, point, fraction, exponent };
    assert(t =~= m + exponent);
    assert(s =~= p.sign + p.whole + p.point + p.fraction + p.exponent);
    p
}

proof fn lemma_exponent_parts(t: Seq<char>)
    requires
        is_number(t),
    ensures
        ({
            let k = find_exponent(t);
            let x = t.skip(k);
            &&& 0 <= k <= t.len()
            &&& x.len() > 0 ==> x.len() > 1 && (x[0] == 'e' || x[0] == 'E') && ('0' <= x[1] <= '9'
                || (x.len() > 2 && (x[1] == '+' || x[1] == '-')))
            &&& forall|i: int| 2 <= i < x.len() ==> '0' <= #[trigger] x[i] <= '9'
        }),
{
    lemma_find(t, 'e');
    lemma_find(t, 'E');
    let k = find_exponent(t);
    let exponent = t.skip(k);
    if k < t.len() {
        let tail = t.skip(k + 1);
        let x = unsigned(tail);
        let d = tail.len() - x.len();
        assert(exponent[0] == t[k]);
        assert(exponent[1] == tail[0]);
        assert(is_digit(x[0]));
        assert(x =~= tail.skip(d));
        assert forall|i: int| 2 <= i < exponent.len() implies '0' <= #[trigger] exponent[i] <= '9' by {
            assert(exponent[i] == tail[i - 1]);
            assert(x[i - 1 - d] == tail[i - 1]);
            assert(is_digit(x[i - 1 - d]));
        }
    }
}

proof fn lemma_mantissa_parts(m: Seq<char>) -> (r: (Seq<char>, Seq<char>, Seq<char>))
    requires
        is_mantissa(m),
    ensures
        m == r.0 + r.1 + r.2,
        r.1 == seq!['.'] || (r.1 == Seq::<char>::empty() && r.2.len() == 0),
        r.0.len() + r.2.len() > 0,
        forall|i: int| 0 <= i < r.0.len() ==> '0' <= #[trigger] r.0[i] <= '9',
        forall|i: int| 0 <= i < r.2.len() ==> '0' <= #[trigger] r.2[i] <= '9',
{
    lemma_find(m, '.');
    let none = Seq::<char>::empty();
    let (a, p, b) = if m.contains('.') {
        (before(m, '.'), seq!['.'], after(m, '.'))
    } else {
        (m, none, none)
    };
    assert(m =~= a + p + b);
    assert forall|i: int| 0 <= i < a.len() implies '0' <= #[trigger] a[i] <= '9' by {
        assert(is_digit(a[i]));
    }
    assert forall|i: int| 0 <= i < b.len() implies '0' <= #[trigger] b[i] <= '9' by {
        assert(is_digit(b[i]));
    }
    (a, p, b)
}

/// Writing a float keeps its text where it has a point, and else puts a point and a zero
/// behind it.
pub proof fn law_point_is_added_once(s: Seq<char>)
    ensures
        s.contains('.') ==> with_point(s) == s,
        !s.contains('.') ==> with_point(s) == s.push('.').push('0'),
        with_point(with_point(s)) == with_point(s),
        with_point(s).contains('.'),
{
    reveal_strlit(".0");
    if !s.contains('.') {
        assert(with_point(s)[s.len() as int] == '.');
        assert(with_point(s) =~= s.push('.').push('0'));
    }
}

} // verus!
