//! Text as a sequence of characters: trimming, splitting and joining.

use vstd::prelude::*;
use vstd::slice::slice_subrange;
use crate::number::small;

verus! {

broadcast use vstd::string::group_string_axioms;

/// `std::string::String::push` appends one character at the end of the string.
pub assume_specification[ String::push ](s: &mut String, c: char)
    ensures
        final(s)@ == old(s)@.push(c),
;

/// The text that `String::from_utf8_lossy` makes of bytes.
pub uninterp spec fn lossy_text(bytes: Seq<u8>) -> Seq<char>;

/// `String::from_utf8_lossy` reads bytes as UTF-8, with replacement characters where
/// they are not. ASCII bytes are the characters of their codes.
#[verifier::external_body]
pub(crate) fn from_utf8_lossy(bytes: &[u8]) -> (r: String)
    ensures
        r@ == lossy_text(bytes@),
        (forall|i: int| 0 <= i < bytes@.len() ==> bytes@[i] < 128) ==> r@ == bytes@.map_values(
            |b: u8| b as char,
        ),
{
    String::from_utf8_lossy(bytes).into_owned()
}

/// The text that `str::to_lowercase` makes of a text.
pub uninterp spec fn lower_text(s: Seq<char>) -> Seq<char>;

/// `str::to_lowercase` replaces each character by its lower case as Unicode has it.
/// Of ASCII characters it changes the letters.
#[verifier::external_body]
pub(crate) fn to_lowercase(s: &str) -> (r: String)
    ensures
        r@ == lower_text(s@),
        (forall|i: int| 0 <= i < s@.len() ==> (s@[i] as u32) < 128) ==> r@ == s@.map_values(
            |c: char| small(c),
        ),
{
    s.to_lowercase()
}

/// The characters with the Unicode property `White_Space`.
pub open spec fn is_space(c: char) -> bool {
    let n = c as u32;
    ||| 0x09 <= n <= 0x0d
    ||| n == 0x20
    ||| n == 0x85
    ||| n == 0xa0
    ||| n == 0x1680
    ||| 0x2000 <= n <= 0x200a
    ||| n == 0x2028
    ||| n == 0x2029
    ||| n == 0x202f
    ||| n == 0x205f
    ||| n == 0x3000
}

/// A set of characters that trimming removes.
#[derive(Clone, Copy)]
pub enum Class {
    /// White space.
    Space,
    /// One character.
    Only(char),
}

impl Class {
    pub open spec fn has(self, c: char) -> bool {
        match self {
            Class::Space => is_space(c),
            Class::Only(d) => c == d,
        }
    }

    /// Whether the class holds `c`.
    pub fn holds(self, c: char) -> (r: bool)
        ensures
            r == self.has(c),
    {
        match self {
            Class::Space => {
                let n: u32 = c as u32;
                (0x09 <= n && n <= 0x0d) || n == 0x20 || n == 0x85 || n == 0xa0 || n == 0x1680 || (
                0x2000 <= n && n <= 0x200a) || n == 0x2028 || n == 0x2029 || n == 0x202f || n
                    == 0x205f || n == 0x3000
            },
            Class::Only(d) => c == d,
        }
    }
}

/// `s` without the leading characters of `class`.
pub open spec fn trim_start(s: Seq<char>, class: Class) -> Seq<char>
    decreases s.len(),
{
    if s.len() > 0 && class.has(s[0]) {
        trim_start(s.drop_first(), class)
    } else {
        s
    }
}

/// `s` without the trailing characters of `class`.
pub open spec fn trim_end(s: Seq<char>, class: Class) -> Seq<char>
    decreases s.len(),
{
    if s.len() > 0 && class.has(s.last()) {
        trim_end(s.drop_last(), class)
    } else {
        s
    }
}

/// `s` without the leading and trailing characters of `class`.
pub open spec fn trim(s: Seq<char>, class: Class) -> Seq<char> {
    trim_end(trim_start(s, class), class)
}

/// The position of the first `c` in `s`, or the length of `s` where there is none.
pub open spec fn find(s: Seq<char>, c: char) -> nat
    decreases s.len(),
{
    if s.len() == 0 || s[0] == c {
        0
    } else {
        1 + find(s.drop_first(), c)
    }
}

/// What stands before the first `c`.
pub open spec fn before(s: Seq<char>, c: char) -> Seq<char> {
    s.take(find(s, c) as int)
}

/// What stands after the first `c`.
pub open spec fn after(s: Seq<char>, c: char) -> Seq<char>
    recommends
        s.contains(c),
{
    s.skip(find(s, c) as int + 1)
}

/// Whether `s` begins with `prefix`.
pub open spec fn has_prefix(s: Seq<char>, prefix: Seq<char>) -> bool {
    prefix.len() <= s.len() && s.take(prefix.len() as int) == prefix
}

/// The pieces of `s` between the separators `c`; one more than there are separators.
pub open spec fn split(s: Seq<char>, c: char) -> Seq<Seq<char>>
    decreases s.len(),
{
    if find(s, c) < s.len() {
        seq![before(s, c)] + split(after(s, c), c)
    } else {
        seq![s]
    }
}

/// A line without the carriage return that may stand before its line feed.
pub open spec fn without_return(s: Seq<char>) -> Seq<char> {
    if s.len() > 0 && s.last() == '\r' {
        s.drop_last()
    } else {
        s
    }
}

/// The lines of `s`. A line ends in a line feed, with or without a carriage
/// return before it, or at the end of `s`.
pub open spec fn lines(s: Seq<char>) -> Seq<Seq<char>>
    decreases s.len(),
{
    if s.len() == 0 {
        seq![]
    } else if find(s, '\n') < s.len() {
        seq![without_return(before(s, '\n'))] + lines(after(s, '\n'))
    } else {
        seq![s]
    }
}

/// `find` gives the first position.
pub proof fn lemma_find(s: Seq<char>, c: char)
    ensures
        0 <= find(s, c) <= s.len(),
        find(s, c) < s.len() ==> s[find(s, c) as int] == c,
        forall|i: int| 0 <= i < find(s, c) ==> s[i] != c,
        find(s, c) < s.len() <==> s.contains(c),
    decreases s.len(),
{
    if s.len() > 0 && s[0] != c {
        lemma_find(s.drop_first(), c);
        let k = find(s.drop_first(), c) as int;
        assert forall|i: int| 0 <= i < find(s, c) implies s[i] != c by {
            if i > 0 {
                assert(s.drop_first()[i - 1] == s[i]);
            }
        }
        if s.contains(c) {
            let i = choose|i: int| 0 <= i < s.len() && s[i] == c;
            assert(s.drop_first()[i - 1] == c);
        }
        if k < s.drop_first().len() {
            assert(s[k + 1] == c);
        }
    } else if s.len() > 0 {
        assert(s[0] == c);
    }
}

/// A position that has the character, with none before it, is what `find` gives.
pub proof fn lemma_find_is(s: Seq<char>, c: char, i: int)
    requires
        0 <= i <= s.len(),
        i < s.len() ==> s[i] == c,
        forall|j: int| 0 <= j < i ==> s[j] != c,
    ensures
        find(s, c) == i,
{
    lemma_find(s, c);
}

/// Trimming where there is nothing to trim.
pub proof fn lemma_trim_same(s: Seq<char>, class: Class)
    requires
        s.len() > 0 ==> !class.has(s[0]) && !class.has(s.last()),
    ensures
        trim(s, class) == s,
{
}

/// The characters of a string.
pub fn chars(s: &str) -> (r: Vec<char>)
    ensures
        r@ == s@,
{
    let mut r: Vec<char> = Vec::new();
    for c in it: s.chars()
        invariant
            it.seq() == s@,
            r@ == s@.take(it.index()),
    {
        proof {
            assert(s@.take(it.index() + 1) =~= s@.take(it.index()).push(c));
        }
        r.push(c);
    }
    proof {
        assert(s@.take(s@.len() as int) =~= s@);
    }
    r
}

/// A string of the given characters.
pub fn string(s: &[char]) -> (r: String)
    ensures
        r@ == s@,
{
    let mut r: String = String::new();
    let mut i: usize = 0;
    while i < s.len()
        invariant
            i <= s@.len(),
            r@ == s@.take(i as int),
        decreases s@.len() - i,
    {
        proof {
            assert(s@.take(i + 1) =~= s@.take(i as int).push(s@[i as int]));
        }
        r.push(s[i]);
        i += 1;
    }
    proof {
        assert(s@.take(s@.len() as int) =~= s@);
    }
    r
}

/// Whether two character sequences are the same.
pub fn same(a: &[char], b: &[char]) -> (r: bool)
    ensures
        r == (a@ == b@),
{
    if a.len() != b.len() {
        return false;
    }
    let mut i: usize = 0;
    while i < a.len()
        invariant
            a@.len() == b@.len(),
            i <= a@.len(),
            forall|j: int| 0 <= j < i ==> a@[j] == b@[j],
        decreases a@.len() - i,
    {
        if a[i] != b[i] {
            return false;
        }
        i += 1;
    }
    proof {
        assert(a@ =~= b@);
    }
    true
}

/// Whether two strings are the same.
pub fn equal(a: &str, b: &str) -> (r: bool)
    ensures
        r == (a@ == b@),
{
    let a: Vec<char> = chars(a);
    let b: Vec<char> = chars(b);
    same(a.as_slice(), b.as_slice())
}

/// Whether the characters are those of the string.
pub fn spells(a: &[char], b: &str) -> (r: bool)
    ensures
        r == (a@ == b@),
{
    let b: Vec<char> = chars(b);
    same(a, b.as_slice())
}

/// `s` without the leading and trailing characters of `class`.
pub fn trimmed(s: &[char], class: Class) -> (r: &[char])
    ensures
        r@ == trim(s@, class),
{
    let mut i: usize = 0;
    proof {
        assert(s@.skip(0) =~= s@);
    }
    while i < s.len() && class.holds(s[i])
        invariant
            i <= s@.len(),
            trim_start(s@.skip(i as int), class) == trim_start(s@, class),
        decreases s@.len() - i,
    {
        proof {
            assert(s@.skip(i as int).drop_first() =~= s@.skip(i + 1));
        }
        i += 1;
    }
    proof {
        if i < s@.len() {
            assert(s@.skip(i as int)[0] == s@[i as int]);
        }
        assert(trim_start(s@, class) == s@.skip(i as int));
        assert(s@.subrange(i as int, s@.len() as int) =~= s@.skip(i as int));
    }
    let mut j: usize = s.len();
    while j > i && class.holds(s[j - 1])
        invariant
            i <= j <= s@.len(),
            trim_end(s@.subrange(i as int, j as int), class) == trim(s@, class),
        decreases j - i,
    {
        proof {
            assert(s@.subrange(i as int, j as int).drop_last() =~= s@.subrange(i as int, j - 1));
        }
        j -= 1;
    }
    slice_subrange(s, i, j)
}

/// The position of the first `c`, or the length where there is none.
pub fn position(s: &[char], c: char) -> (r: usize)
    ensures
        r == find(s@, c),
        r <= s@.len(),
{
    let mut i: usize = 0;
    while i < s.len() && s[i] != c
        invariant
            i <= s@.len(),
            forall|j: int| 0 <= j < i ==> s@[j] != c,
        decreases s@.len() - i,
    {
        i += 1;
    }
    proof {
        lemma_find_is(s@, c, i as int);
    }
    i
}

/// Whether `s` begins with `prefix`.
pub fn begins(s: &[char], prefix: &str) -> (r: bool)
    ensures
        r == has_prefix(s@, prefix@),
{
    let p: Vec<char> = chars(prefix);
    if s.len() < p.len() {
        return false;
    }
    let head: &[char] = slice_subrange(s, 0, p.len());
    proof {
        assert(s@.subrange(0, p@.len() as int) =~= s@.take(p@.len() as int));
    }
    same(head, p.as_slice())
}

/// The views of a list of character slices.
pub open spec fn views(v: Seq<&[char]>) -> Seq<Seq<char>> {
    v.map_values(|x: &[char]| x@)
}

/// The views of a list of strings.
pub open spec fn string_views(v: Seq<String>) -> Seq<Seq<char>> {
    v.map_values(|x: String| x@)
}

/// The lines of `s`.
pub fn lines_of(s: &[char]) -> (r: Vec<&[char]>)
    ensures
        views(r@) == lines(s@),
{
    let mut r: Vec<&[char]> = Vec::new();
    let mut i: usize = 0;
    proof {
        assert(s@.skip(0) =~= s@);
        assert(views(r@) + lines(s@) =~= lines(s@));
    }
    while i < s.len()
        invariant
            i <= s@.len(),
            views(r@) + lines(s@.skip(i as int)) == lines(s@),
        decreases s@.len() - i,
    {
        let rest: &[char] = slice_subrange(s, i, s.len());
        let k: usize = position(rest, '\n');
        let ghost before_r = views(r@);
        proof {
            lemma_find(rest@, '\n');
            assert(rest@ =~= s@.skip(i as int));
        }
        if k < rest.len() {
            let end: usize = if k > 0 && rest[k - 1] == '\r' { k - 1 } else { k };
            let line: &[char] = slice_subrange(rest, 0, end);
            proof {
                assert(line@ =~= without_return(before(rest@, '\n')));
                assert(after(rest@, '\n') =~= s@.skip(i + k + 1));
                assert(views(r@.push(line)) =~= before_r.push(line@));
                assert(before_r + (seq![line@] + lines(s@.skip(i + k + 1))) =~= before_r.push(line@)
                    + lines(s@.skip(i + k + 1)));
            }
            r.push(line);
            i = i + k + 1;
        } else {
            proof {
                assert(views(r@.push(rest)) =~= before_r.push(rest@));
                assert(s@.skip(s@.len() as int) =~= seq![]);
                assert(before_r + seq![rest@] =~= before_r.push(rest@) + lines(seq![]));
            }
            r.push(rest);
            i = s.len();
        }
    }
    proof {
        assert(s@.skip(i as int) =~= seq![]);
        assert(views(r@) + lines(s@.skip(i as int)) =~= views(r@));
    }
    r
}

/// The pieces of `s` between the separators `c`.
pub fn split_of(s: &[char], c: char) -> (r: Vec<&[char]>)
    ensures
        views(r@) == split(s@, c),
{
    let mut r: Vec<&[char]> = Vec::new();
    let mut rest: &[char] = s;
    proof {
        assert(views(r@) + split(s@, c) =~= split(s@, c));
    }
    loop
        invariant
            views(r@) + split(rest@, c) == split(s@, c),
        decreases rest@.len(),
    {
        let k: usize = position(rest, c);
        let ghost before_r = views(r@);
        proof {
            lemma_find(rest@, c);
        }
        if k < rest.len() {
            let piece: &[char] = slice_subrange(rest, 0, k);
            let tail: &[char] = slice_subrange(rest, k + 1, rest.len());
            proof {
                assert(piece@ =~= before(rest@, c));
                assert(tail@ =~= after(rest@, c));
                assert(views(r@.push(piece)) =~= before_r.push(piece@));
                assert(before_r + (seq![piece@] + split(tail@, c)) =~= before_r.push(piece@)
                    + split(tail@, c));
            }
            r.push(piece);
            rest = tail;
        } else {
            proof {
                assert(views(r@.push(rest)) =~= before_r.push(rest@));
                assert(before_r + seq![rest@] =~= before_r.push(rest@));
            }
            r.push(rest);
            return r;
        }
    }
}

/// The position of the first white space in `s`, or the length of `s`.
pub open spec fn find_space(s: Seq<char>) -> nat
    decreases s.len(),
{
    if s.len() == 0 || is_space(s[0]) {
        0
    } else {
        1 + find_space(s.drop_first())
    }
}

/// The words of `s`, which white space parts.
pub open spec fn words(s: Seq<char>) -> Seq<Seq<char>>
    decreases s.len(),
{
    if s.len() == 0 {
        seq![]
    } else if is_space(s[0]) {
        words(s.drop_first())
    } else {
        proof {
            lemma_find_space_within(s);
        }
        seq![s.take(find_space(s) as int)] + words(s.skip(find_space(s) as int))
    }
}

/// The first white space is within the text, or at its end.
pub proof fn lemma_find_space_within(s: Seq<char>)
    ensures
        find_space(s) <= s.len(),
    decreases s.len(),
{
    if s.len() > 0 && !is_space(s[0]) {
        lemma_find_space_within(s.drop_first());
    }
}

proof fn lemma_find_space_is(s: Seq<char>, i: int)
    requires
        0 <= i <= s.len(),
        i < s.len() ==> is_space(s[i]),
        forall|j: int| 0 <= j < i ==> !is_space(s[j]),
    ensures
        find_space(s) == i,
    decreases s.len(),
{
    if i > 0 {
        lemma_find_space_is(s.drop_first(), i - 1);
    }
}

/// The words of `s`.
pub fn words_of(s: &[char]) -> (r: Vec<&[char]>)
    ensures
        views(r@) == words(s@),
{
    let mut r: Vec<&[char]> = Vec::new();
    let mut i: usize = 0;
    proof {
        assert(s@.skip(0) =~= s@);
        assert(views(r@) + words(s@) =~= words(s@));
    }
    while i < s.len()
        invariant
            i <= s@.len(),
            views(r@) + words(s@.skip(i as int)) == words(s@),
        decreases s@.len() - i,
    {
        let ghost rest = s@.skip(i as int);
        if Class::Space.holds(s[i]) {
            proof {
                assert(rest.drop_first() =~= s@.skip(i + 1));
            }
            i += 1;
        } else {
            let mut j: usize = i + 1;
            while j < s.len() && !Class::Space.holds(s[j])
                invariant
                    i < j <= s@.len(),
                    forall|k: int| i <= k < j ==> !is_space(s@[k]),
                decreases s@.len() - j,
            {
                j += 1;
            }
            let word: &[char] = slice_subrange(s, i, j);
            let ghost earlier = views(r@);
            proof {
                lemma_find_space_is(rest, j - i);
                assert(word@ =~= rest.take(j - i));
                assert(rest.skip(j - i) =~= s@.skip(j as int));
                assert(views(r@.push(word)) =~= earlier.push(word@));
                assert(earlier + (seq![word@] + words(s@.skip(j as int))) =~= earlier.push(word@)
                    + words(s@.skip(j as int)));
            }
            r.push(word);
            i = j;
        }
    }
    proof {
        assert(s@.skip(i as int) =~= seq![]);
        assert(views(r@) + words(s@.skip(i as int)) =~= views(r@));
    }
    r
}

/// Whether `a` stands before `b` in the order of code points.
pub open spec fn precedes(a: Seq<char>, b: Seq<char>) -> bool
    decreases a.len(),
{
    if b.len() == 0 {
        false
    } else if a.len() == 0 {
        true
    } else if a[0] == b[0] {
        precedes(a.drop_first(), b.drop_first())
    } else {
        a[0] < b[0]
    }
}

/// Whether `a` stands before `b` in the order of code points.
pub fn is_before(a: &[char], b: &[char]) -> (r: bool)
    ensures
        r == precedes(a@, b@),
{
    let mut i: usize = 0;
    proof {
        assert(a@.skip(0) =~= a@);
        assert(b@.skip(0) =~= b@);
    }
    while i < a.len() && i < b.len() && a[i] == b[i]
        invariant
            i <= a@.len(),
            i <= b@.len(),
            precedes(a@.skip(i as int), b@.skip(i as int)) == precedes(a@, b@),
        decreases a@.len() - i,
    {
        proof {
            assert(a@.skip(i as int).drop_first() =~= a@.skip(i + 1));
            assert(b@.skip(i as int).drop_first() =~= b@.skip(i + 1));
        }
        i += 1;
    }
    if i >= b.len() {
        return false;
    }
    if i >= a.len() {
        return true;
    }
    a[i] < b[i]
}

/// The order of code points is transitive.
pub proof fn lemma_precedes_transitive(a: Seq<char>, b: Seq<char>, c: Seq<char>)
    requires
        precedes(a, b),
        precedes(b, c),
    ensures
        precedes(a, c),
    decreases a.len(),
{
    if a.len() > 0 && b.len() > 0 && c.len() > 0 && a[0] == b[0] && b[0] == c[0] {
        lemma_precedes_transitive(a.drop_first(), b.drop_first(), c.drop_first());
    }
}

/// The order of code points is total: of two texts one stands before the other,
/// unless they are the same.
pub proof fn lemma_precedes_total(a: Seq<char>, b: Seq<char>)
    ensures
        !(precedes(a, b) && precedes(b, a)),
        !precedes(a, b) && !precedes(b, a) ==> a == b,
        a == b ==> !precedes(a, b),
    decreases a.len(),
{
    if a.len() > 0 && b.len() > 0 && a[0] == b[0] {
        lemma_precedes_total(a.drop_first(), b.drop_first());
        if a.drop_first() == b.drop_first() {
            assert(a =~= seq![a[0]] + a.drop_first());
            assert(b =~= seq![b[0]] + b.drop_first());
        }
    } else if a.len() == 0 && b.len() == 0 {
        assert(a =~= b);
    }
}

} // verus!
