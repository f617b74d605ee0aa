//! Numbers as text: decimal integers, and the literals of floating-point numbers.

use vstd::prelude::*;
use vstd::slice::slice_subrange;
use crate::text::{after, before, chars, find, lemma_find, lemma_find_is, position, string};

verus! {

broadcast use vstd::string::group_string_axioms;

pub open spec fn is_digit(c: char) -> bool {
    '0' <= c <= '9'
}

pub open spec fn all_digits(s: Seq<char>) -> bool {
    forall|i: int| 0 <= i < s.len() ==> is_digit(#[trigger] s[i])
}

/// The number that a digit stands for.
pub open spec fn digit_value(c: char) -> int {
    c as int - '0' as int
}

/// The digit of a number below ten.
pub open spec fn digit_char(d: int) -> char {
    ('0' as int + d) as char
}

/// The number that a sequence of digits stands for.
pub open spec fn digits_value(s: Seq<char>) -> int
    decreases s.len(),
{
    if s.len() == 0 {
        0
    } else {
        digits_value(s.drop_last()) * 10 + digit_value(s.last())
    }
}

/// The decimal digits of a number, without leading zeros.
pub open spec fn decimal(n: nat) -> Seq<char>
    decreases n,
{
    if n < 10 {
        seq![digit_char(n as int)]
    } else {
        decimal(n / 10).push(digit_char((n % 10) as int))
    }
}

/// The decimal text of an integer.
pub open spec fn int_text(i: int) -> Seq<char> {
    if i < 0 {
        seq!['-'] + decimal((-i) as nat)
    } else {
        decimal(i as nat)
    }
}

/// `s` without the sign that it may begin with.
pub open spec fn unsigned(s: Seq<char>) -> Seq<char> {
    if s.len() > 0 && (s[0] == '+' || s[0] == '-') {
        s.drop_first()
    } else {
        s
    }
}

/// The integer that `s` writes: digits, with or without a sign before them.
pub open spec fn int_value(s: Seq<char>) -> Option<int> {
    let d = unsigned(s);
    if d.len() == 0 || !all_digits(d) {
        None
    } else if s[0] == '-' {
        Some(-digits_value(d))
    } else {
        Some(digits_value(d))
    }
}

/// What `s` writes as an integer of 64 bits.
pub open spec fn i64_value(s: Seq<char>) -> Option<int> {
    match int_value(s) {
        Some(n) => if i64::MIN <= n <= i64::MAX {
            Some(n)
        } else {
            None
        },
        None => None,
    }
}

/// What `s` writes as a natural number of 32 bits. A minus sign is refused, even before zero.
pub open spec fn u32_value(s: Seq<char>) -> Option<int> {
    match int_value(s) {
        Some(n) => if s[0] != '-' && n <= u32::MAX {
            Some(n)
        } else {
            None
        },
        None => None,
    }
}

/// Digits with at most one point among them, and at least one digit.
pub open spec fn is_mantissa(s: Seq<char>) -> bool {
    if s.contains('.') {
        &&& all_digits(before(s, '.'))
        &&& all_digits(after(s, '.'))
        &&& s.len() > 1
    } else {
        all_digits(s) && s.len() > 0
    }
}

/// The position of the first `e` or `E`, or the length where there is none.
pub open spec fn find_exponent(s: Seq<char>) -> int {
    if find(s, 'e') <= find(s, 'E') {
        find(s, 'e') as int
    } else {
        find(s, 'E') as int
    }
}

/// A mantissa, with or without an exponent.
pub open spec fn is_number(s: Seq<char>) -> bool {
    let k = find_exponent(s);
    &&& is_mantissa(s.take(k))
    &&& k < s.len() ==> {
        let x = unsigned(s.skip(k + 1));
        x.len() > 0 && all_digits(x)
    }
}

/// The small letter of an ASCII letter; any other character stays.
pub open spec fn small(c: char) -> char {
    if 'A' <= c <= 'Z' {
        (c as int + 32) as char
    } else {
        c
    }
}

/// Whether `s` is `word`, whatever the case of its ASCII letters.
pub open spec fn is_word(s: Seq<char>, word: Seq<char>) -> bool {
    s.len() == word.len() && forall|i: int| 0 <= i < s.len() ==> small(#[trigger] s[i]) == word[i]
}

/// The literals of floating-point numbers: a number, an infinity or a NaN, with
/// or without a sign.
pub open spec fn is_float(s: Seq<char>) -> bool {
    let t = unsigned(s);
    ||| is_number(t)
    ||| is_word(t, "inf"@)
    ||| is_word(t, "infinity"@)
    ||| is_word(t, "nan"@)
}

/// Text of a float as a settings file holds it: with a point in it.
pub open spec fn with_point(s: Seq<char>) -> Seq<char> {
    if s.contains('.') {
        s
    } else {
        s + ".0"@
    }
}

proof fn lemma_digits_value_nonneg(s: Seq<char>)
    requires
        all_digits(s),
    ensures
        digits_value(s) >= 0,
    decreases s.len(),
{
    if s.len() > 0 {
        assert(all_digits(s.drop_last())) by {
            assert forall|i: int| 0 <= i < s.drop_last().len() implies is_digit(
                #[trigger] s.drop_last()[i],
            ) by {
                assert(s[i] == s.drop_last()[i]);
            }
        }
        lemma_digits_value_nonneg(s.drop_last());
    }
}

/// A prefix of a sequence of digits stands for no more than the whole.
proof fn lemma_digits_value_prefix(s: Seq<char>, i: int)
    requires
        all_digits(s),
        0 <= i <= s.len(),
    ensures
        0 <= digits_value(s.take(i)) <= digits_value(s),
    decreases s.len() - i,
{
    assert(all_digits(s.take(i))) by {
        assert forall|j: int| 0 <= j < i implies is_digit(#[trigger] s.take(i)[j]) by {
            assert(s[j] == s.take(i)[j]);
        }
    }
    lemma_digits_value_nonneg(s.take(i));
    if i < s.len() {
        lemma_digits_value_prefix(s, i + 1);
        assert(s.take(i + 1).drop_last() =~= s.take(i));
        assert(s.take(i + 1).last() == s[i]);
        assert(is_digit(s[i]));
    } else {
        assert(s.take(i) =~= s);
    }
}

/// The decimal digits of a number stand for it.
pub proof fn lemma_decimal(n: nat)
    ensures
        decimal(n).len() > 0,
        all_digits(decimal(n)),
        digits_value(decimal(n)) == n,
    decreases n,
{
    if n < 10 {
        let s = seq![digit_char(n as int)];
        assert(s.drop_last() =~= seq![]);
        assert(digits_value(s.drop_last()) == 0);
        assert(s.last() == digit_char(n as int));
    } else {
        lemma_decimal(n / 10);
        let d = decimal(n / 10);
        let c = digit_char((n % 10) as int);
        assert(is_digit(c));
        assert(d.push(c).drop_last() =~= d);
        assert forall|i: int| 0 <= i < d.push(c).len() implies is_digit(#[trigger] d.push(c)[i]) by {
            if i < d.len() {
                assert(d.push(c)[i] == d[i]);
            }
        }
    }
}

/// Reading the decimal text of an integer gives the integer back.
pub proof fn lemma_int_text(i: int)
    ensures
        int_value(int_text(i)) == Some(i),
        int_text(i).len() > 0,
        forall|k: int| 0 <= k < int_text(i).len() ==> is_digit(#[trigger] int_text(i)[k])
            || int_text(i)[k] == '-',
{
    let n = if i < 0 {
        (-i) as nat
    } else {
        i as nat
    };
    lemma_decimal(n);
    let s = int_text(i);
    if i < 0 {
        assert(s.drop_first() =~= decimal(n));
        assert forall|k: int| 0 <= k < s.len() implies is_digit(#[trigger] s[k]) || s[k] == '-' by {
            if k > 0 {
                assert(s[k] == decimal(n)[k - 1]);
            }
        }
    } else {
        assert(is_digit(s[0]));
    }
}

/// The decimal digits of a number.
pub fn nat_text(n: u64) -> (r: Vec<char>)
    ensures
        r@ == decimal(n as nat),
    decreases n,
{
    let d: u8 = (n % 10) as u8;
    let c: char = (48 + d) as char;
    if n < 10 {
        let mut r: Vec<char> = Vec::new();
        r.push(c);
        proof {
            assert(r@ =~= decimal(n as nat));
        }
        r
    } else {
        let mut r: Vec<char> = nat_text(n / 10);
        r.push(c);
        r
    }
}

/// The decimal text of a natural number.
pub fn u64_text(n: u64) -> (r: String)
    ensures
        r@ == int_text(n as int),
{
    let d: Vec<char> = nat_text(n);
    string(d.as_slice())
}

/// The decimal text of an integer.
pub fn i64_text(n: i64) -> (r: String)
    ensures
        r@ == int_text(n as int),
{
    if n >= 0 {
        return u64_text(n as u64);
    }
    let m: u64 = (-(n + 1)) as u64 + 1;
    let d: Vec<char> = nat_text(m);
    let mut r: String = String::new();
    r.push('-');
    let mut i: usize = 0;
    while i < d.len()
        invariant
            i <= d@.len(),
            r@ == seq!['-'] + d@.take(i as int),
        decreases d@.len() - i,
    {
        proof {
            assert(d@.take(i + 1) =~= d@.take(i as int).push(d@[i as int]));
            assert((seq!['-'] + d@.take(i as int)).push(d@[i as int]) =~= seq!['-'] + d@.take(
                i + 1,
            ));
        }
        r.push(d[i]);
        i += 1;
    }
    proof {
        assert(d@.take(i as int) =~= d@);
    }
    r
}

/// Whether the characters are all digits.
pub fn only_digits(s: &[char]) -> (r: bool)
    ensures
        r == all_digits(s@),
{
    let mut i: usize = 0;
    while i < s.len()
        invariant
            i <= s@.len(),
            forall|j: int| 0 <= j < i ==> is_digit(#[trigger] s@[j]),
        decreases s@.len() - i,
    {
        if !('0' <= s[i] && s[i] <= '9') {
            proof {
                assert(!is_digit(s@[i as int]));
            }
            return false;
        }
        i += 1;
    }
    true
}

/// `s` without its sign.
fn without_sign(s: &[char]) -> (r: &[char])
    ensures
        r@ == unsigned(s@),
{
    if s.len() > 0 && (s[0] == '+' || s[0] == '-') {
        proof {
            assert(s@.subrange(1, s@.len() as int) =~= s@.drop_first());
        }
        slice_subrange(s, 1, s.len())
    } else {
        s
    }
}

/// The number that digits stand for, where it is at most `limit`.
fn read_digits(s: &[char], limit: u64) -> (r: Option<u64>)
    requires
        all_digits(s@),
        limit <= 0x8000_0000_0000_0000,
    ensures
        match r {
            Some(n) => n == digits_value(s@) && n <= limit,
            None => digits_value(s@) > limit,
        },
{
    let mut n: u64 = 0;
    let mut i: usize = 0;
    proof {
        assert(s@.take(0) =~= seq![]);
    }
    while i < s.len()
        invariant
            all_digits(s@),
            limit <= 0x8000_0000_0000_0000,
            i <= s@.len(),
            n == digits_value(s@.take(i as int)),
            n <= limit,
        decreases s@.len() - i,
    {
        proof {
            assert(is_digit(s@[i as int]));
            assert(s@.take(i + 1).drop_last() =~= s@.take(i as int));
            assert(s@.take(i + 1).last() == s@[i as int]);
            lemma_digits_value_prefix(s@, i + 1);
        }
        let d: u64 = s[i] as u64 - 48;
        let wide: u128 = n as u128 * 10 + d as u128;
        if wide > limit as u128 {
            return None;
        }
        n = wide as u64;
        i += 1;
    }
    proof {
        assert(s@.take(i as int) =~= s@);
    }
    Some(n)
}

/// Reads an integer of 64 bits.
pub fn parse_i64(s: &[char]) -> (r: Option<i64>)
    ensures
        match r {
            Some(n) => i64_value(s@) == Some(n as int),
            None => i64_value(s@) is None,
        },
{
    let d: &[char] = without_sign(s);
    if d.len() == 0 || !only_digits(d) {
        return None;
    }
    if s[0] == '-' {
        match read_digits(d, 0x8000_0000_0000_0000) {
            Some(n) => {
                if n == 0x8000_0000_0000_0000 {
                    Some(i64::MIN)
                } else {
                    Some(-(n as i64))
                }
            },
            None => None,
        }
    } else {
        match read_digits(d, 0x7fff_ffff_ffff_ffff) {
            Some(n) => Some(n as i64),
            None => None,
        }
    }
}

/// Reads a natural number of 32 bits.
pub fn parse_u32(s: &[char]) -> (r: Option<u32>)
    ensures
        match r {
            Some(n) => u32_value(s@) == Some(n as int),
            None => u32_value(s@) is None,
        },
{
    let d: &[char] = without_sign(s);
    if d.len() == 0 || !only_digits(d) || s[0] == '-' {
        return None;
    }
    match read_digits(d, 0xffff_ffff) {
        Some(n) => Some(n as u32),
        None => None,
    }
}

/// Whether the characters are those of `word`, whatever the case of the ASCII letters.
fn word_is(s: &[char], word: &str) -> (r: bool)
    ensures
        r == is_word(s@, word@),
{
    let w: Vec<char> = chars(word);
    if s.len() != w.len() {
        return false;
    }
    let mut i: usize = 0;
    while i < s.len()
        invariant
            w@ == word@,
            s@.len() == w@.len(),
            i <= s@.len(),
            forall|j: int| 0 <= j < i ==> small(#[trigger] s@[j]) == w@[j],
        decreases s@.len() - i,
    {
        let c: char = s[i];
        let l: char = if 'A' <= c && c <= 'Z' { (c as u8 + 32) as char } else { c };
        proof {
            assert(l == small(s@[i as int]));
        }
        if l != w[i] {
            proof {
                assert(small(s@[i as int]) != word@[i as int]);
            }
            return false;
        }
        i += 1;
    }
    true
}

/// Whether the characters are a mantissa.
fn mantissa(s: &[char]) -> (r: bool)
    ensures
        r == is_mantissa(s@),
{
    let k: usize = position(s, '.');
    proof {
        lemma_find(s@, '.');
    }
    if k < s.len() {
        let a: &[char] = slice_subrange(s, 0, k);
        let b: &[char] = slice_subrange(s, k + 1, s.len());
        proof {
            assert(a@ =~= before(s@, '.'));
            assert(b@ =~= after(s@, '.'));
        }
        only_digits(a) && only_digits(b) && s.len() > 1
    } else {
        only_digits(s) && s.len() > 0
    }
}

/// Whether the characters are the literal of a floating-point number.
pub fn float_literal(s: &[char]) -> (r: bool)
    ensures
        r == is_float(s@),
{
    let t: &[char] = without_sign(s);
    if word_is(t, "inf") || word_is(t, "infinity") || word_is(t, "nan") {
        return true;
    }
    let a: usize = position(t, 'e');
    let b: usize = position(t, 'E');
    let k: usize = if a <= b { a } else { b };
    let m: &[char] = slice_subrange(t, 0, k);
    proof {
        assert(m@ =~= t@.take(find_exponent(t@)));
    }
    if !mantissa(m) {
        return false;
    }
    if k < t.len() {
        let rest: &[char] = slice_subrange(t, k + 1, t.len());
        proof {
            assert(rest@ =~= t@.skip(k + 1));
        }
        let x: &[char] = without_sign(rest);
        x.len() > 0 && only_digits(x)
    } else {
        true
    }
}

/// The text of a float as a settings file holds it: `.0` is added where there is no point.
pub fn fmt_float(s: &str) -> (r: String)
    ensures
        r@ == with_point(s@),
{
    let v: Vec<char> = chars(s);
    let k: usize = position(v.as_slice(), '.');
    proof {
        lemma_find(s@, '.');
    }
    let mut r: String = string(v.as_slice());
    if k == v.len() {
        r.push('.');
        r.push('0');
        proof {
            reveal_strlit(".0");
            assert(r@ =~= s@ + ".0"@);
        }
    }
    r
}

/// The digits of a decimal, without sign and point.
pub open spec fn digits_of(s: Seq<char>) -> Seq<char> {
    let t = unsigned(s);
    if t.contains('.') {
        before(t, '.') + after(t, '.')
    } else {
        t
    }
}

/// How many of the digits stand behind the point.
pub open spec fn decimals(s: Seq<char>) -> nat {
    let t = unsigned(s);
    if t.contains('.') {
        after(t, '.').len()
    } else {
        0
    }
}

/// The number that a decimal writes, times ten for each digit behind the point.
pub open spec fn scaled_value(s: Seq<char>) -> int {
    if s.len() > 0 && s[0] == '-' {
        -digits_value(digits_of(s))
    } else {
        digits_value(digits_of(s))
    }
}

/// A power of ten.
pub open spec fn ten_to(n: nat) -> int
    decreases n,
{
    if n == 0 {
        1
    } else {
        10 * ten_to((n - 1) as nat)
    }
}

/// Whether two decimals write the same number.
pub open spec fn same_number(a: Seq<char>, b: Seq<char>) -> bool {
    scaled_value(a) * ten_to(decimals(b)) == scaled_value(b) * ten_to(decimals(a))
}

/// A decimal without an exponent, written as a settings file holds it, has exactly one
/// point and no exponent, is a literal of a floating-point number, and writes the number
/// that it wrote before.
pub proof fn law_float_is_written_with_one_point(s: Seq<char>)
    requires
        is_mantissa(unsigned(s)),
    ensures
        ({
            let r = with_point(s);
            &&& r.contains('.')
            &&& forall|i: int, j: int|
                0 <= i < r.len() && 0 <= j < r.len() && #[trigger] r[i] == '.' && #[trigger] r[j]
                    == '.' ==> i == j
            &&& forall|i: int| 0 <= i < r.len() ==> r[i] != 'e' && r[i] != 'E'
            &&& is_mantissa(unsigned(r))
            &&& is_float(r)
            &&& same_number(r, s)
        }),
{
    reveal_strlit(".0");
    let r = with_point(s);
    let d = s.len() - unsigned(s).len();
    let t = unsigned(s);
    let u = unsigned(r);
    lemma_find(s, '.');
    lemma_find(t, '.');
    assert(t =~= s.skip(d));
    if s.contains('.') {
        let k = choose|k: int| 0 <= k < s.len() && s[k] == '.';
        assert(t[k - d] == '.');
        assert(t.contains('.'));
    } else {
        assert(!t.contains('.')) by {
            if t.contains('.') {
                let k = choose|k: int| 0 <= k < t.len() && t[k] == '.';
                assert(s[k + d] == '.');
            }
        }
        assert(r[0] == s[0]);
        assert(u =~= t + ".0"@);
        assert(u[t.len() as int] == '.');
    }
    assert(u =~= r.skip(d));
    let n = find(u, '.') as int;
    lemma_find(u, '.');
    assert(u.contains('.')) by {
        if s.contains('.') {
            assert(u == t);
        } else {
            assert(u[t.len() as int] == '.');
        }
    }
    if !s.contains('.') {
        assert forall|i: int| 0 <= i < t.len() implies u[i] != '.' by {
            assert(is_digit(t[i]));
        }
        lemma_find_is(u, '.', t.len() as int);
        assert(before(u, '.') =~= t);
        assert(after(u, '.') =~= seq!['0']);
        let ds = t.push('0');
        assert(digits_of(r) =~= ds);
        assert(ds.drop_last() =~= t);
        assert(digits_value(ds) == 10 * digits_value(t));
        reveal_with_fuel(ten_to, 2);
        assert(ten_to(1) == 10);
        assert(ten_to(0) == 1);
        assert(scaled_value(r) == 10 * scaled_value(s));
        assert(decimals(s) == 0 && decimals(r) == 1);
        assert(scaled_value(r) * ten_to(decimals(s)) == scaled_value(r) * 1);
        assert(scaled_value(s) * ten_to(decimals(r)) == scaled_value(s) * 10);
    }
    assert(r[d + n] == '.');
    assert forall|i: int| 0 <= i < r.len() && i != d + n implies #[trigger] r[i] != '.' && r[i]
        != 'e' && r[i] != 'E' by {
        if i >= d {
            let j = i - d;
            assert(r[i] == u[j]);
            if j < n {
                assert(before(u, '.')[j] == u[j]);
            } else {
                assert(after(u, '.')[j - n - 1] == u[j]);
            }
        }
    }
    assert forall|i: int| 0 <= i < u.len() implies u[i] != 'e' && u[i] != 'E' by {
        assert(u[i] == r[i + d]);
    }
    lemma_find_is(u, 'e', u.len() as int);
    lemma_find_is(u, 'E', u.len() as int);
    assert(u.take(u.len() as int) =~= u);
    assert(is_number(u));
}

} // verus!
