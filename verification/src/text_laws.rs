//! What trimming, splitting and searching do to a text, said of the text's characters.

use vstd::prelude::*;
use crate::text::{after, before, find, find_space, has_prefix, is_space, lemma_find_is, lines, precedes, split, string_views, trim, trim_end, trim_start, views, words, Class};

verus! {

/// White space is a blank, what moves on a line or to the next one, and the blanks of
/// Unicode; no letter, digit or sign of ASCII is.
pub proof fn law_white_space(c: char)
    ensures
        is_space(c) <==> (c == ' ' || c == '\t' || c == '\n' || c == '\u{b}' || c == '\u{c}' || c
            == '\r' || c == '\u{85}' || c == '\u{a0}' || c == '\u{1680}' || '\u{2000}' <= c
            <= '\u{200a}' || c == '\u{2028}' || c == '\u{2029}' || c == '\u{202f}' || c == '\u{205f}'
            || c == '\u{3000}'),
        '!' <= c <= '~' ==> !is_space(c),
        Class::Space.has(c) <==> is_space(c),
{
}

/// A class of one character holds that character and no other.
pub proof fn law_class_of_one(c: char, d: char)
    ensures
        Class::Only(d).has(c) <==> c == d,
{
}

proof fn lemma_trim_start(s: Seq<char>, class: Class) -> (i: int)
    ensures
        0 <= i <= s.len(),
        trim_start(s, class) == s.skip(i),
        forall|k: int| 0 <= k < i ==> class.has(#[trigger] s[k]),
        i < s.len() ==> !class.has(s[i]),
    decreases s.len(),
{
    if s.len() > 0 && class.has(s[0]) {
        let t = s.drop_first();
        let i = lemma_trim_start(t, class);
        assert(t.skip(i) =~= s.skip(i + 1));
        assert forall|k: int| 0 <= k < i + 1 implies class.has(#[trigger] s[k]) by {
            if k > 0 {
                assert(t[k - 1] == s[k]);
            }
        }
        i + 1
    } else {
        assert(s.skip(0) =~= s);
        0
    }
}

proof fn lemma_trim_end(s: Seq<char>, class: Class) -> (j: int)
    ensures
        0 <= j <= s.len(),
        trim_end(s, class) == s.take(j),
        forall|k: int| j <= k < s.len() ==> class.has(#[trigger] s[k]),
        j > 0 ==> !class.has(s[j - 1]),
    decreases s.len(),
{
    if s.len() > 0 && class.has(s.last()) {
        let t = s.drop_last();
        let j = lemma_trim_end(t, class);
        assert(t.take(j) =~= s.take(j));
        assert forall|k: int| j <= k < s.len() implies class.has(#[trigger] s[k]) by {
            if k < t.len() {
                assert(t[k] == s[k]);
            }
        }
        j
    } else {
        assert(s.take(s.len() as int) =~= s);
        s.len() as int
    }
}

/// Trimming takes characters off both ends and touches nothing between: what it takes is of
/// the class, and what stays neither begins nor ends with a character of the class.
pub proof fn law_trimming_takes_only_the_ends(s: Seq<char>, class: Class) -> (r: (int, int))
    ensures
        0 <= r.0 <= r.1 <= s.len(),
        trim(s, class) == s.subrange(r.0, r.1),
        forall|k: int| 0 <= k < r.0 ==> class.has(#[trigger] s[k]),
        forall|k: int| r.1 <= k < s.len() ==> class.has(#[trigger] s[k]),
        r.0 < r.1 ==> !class.has(s[r.0]) && !class.has(s[r.1 - 1]),
{
    let i = lemma_trim_start(s, class);
    let t = s.skip(i);
    let j = lemma_trim_end(t, class);
    assert(t.take(j) =~= s.subrange(i, i + j));
    assert forall|k: int| i + j <= k < s.len() implies class.has(#[trigger] s[k]) by {
        assert(t[k - i] == s[k]);
    }
    if j > 0 {
        assert(t[j - 1] == s[i + j - 1]);
    }
    (i, i + j)
}

/// What stands between characters of the class is what trimming gives, where it neither
/// begins nor ends with one.
pub proof fn law_trimming_gives_the_middle(
    left: Seq<char>,
    middle: Seq<char>,
    right: Seq<char>,
    class: Class,
)
    requires
        forall|k: int| 0 <= k < left.len() ==> class.has(#[trigger] left[k]),
        forall|k: int| 0 <= k < right.len() ==> class.has(#[trigger] right[k]),
        middle.len() > 0 ==> !class.has(middle[0]) && !class.has(middle.last()),
    ensures
        trim(left + middle + right, class) == middle,
{
    let s = left + middle + right;
    let (i, j) = law_trimming_takes_only_the_ends(s, class);
    let m = left.len() as int;
    let n = m + middle.len();
    assert forall|k: int| 0 <= k < m implies class.has(#[trigger] s[k]) by {
        assert(s[k] == left[k]);
    }
    assert forall|k: int| n <= k < s.len() implies class.has(#[trigger] s[k]) by {
        assert(s[k] == right[k - n]);
    }
    if middle.len() > 0 {
        assert(s[m] == middle[0]);
        assert(s[n - 1] == middle.last());
        assert(i <= m && n <= j);
        assert(i == m && j == n);
    } else {
        if i < j {
            assert(class.has(s[i]));
        }
    }
    assert(s.subrange(i, j) =~= middle);
}

/// Searching a text finds the first place, and parts the text there.
pub proof fn law_first_place_parts_the_text(a: Seq<char>, c: char, b: Seq<char>)
    requires
        !a.contains(c),
    ensures
        find(a.push(c) + b, c) == a.len(),
        before(a.push(c) + b, c) == a,
        after(a.push(c) + b, c) == b,
        find(a, c) == a.len(),
        before(a, c) == a,
{
    let s = a.push(c) + b;
    assert forall|i: int| 0 <= i < a.len() implies s[i] != c && a[i] != c by {
        assert(a[i] == s[i]);
        assert(a.contains(a[i]));
    }
    lemma_find_is(s, c, a.len() as int);
    lemma_find_is(a, c, a.len() as int);
    assert(s.take(a.len() as int) =~= a);
    assert(s.skip(a.len() as int + 1) =~= b);
    assert(a.take(a.len() as int) =~= a);
}

/// A text begins with a prefix where it is the prefix with something behind it.
pub proof fn law_prefix(s: Seq<char>, prefix: Seq<char>)
    ensures
        has_prefix(s, prefix) <==> exists|rest: Seq<char>| s == #[trigger] (prefix + rest),
        forall|rest: Seq<char>| has_prefix(#[trigger] (prefix + rest), prefix),
{
    if has_prefix(s, prefix) {
        assert(s =~= prefix + s.skip(prefix.len() as int));
    }
    assert forall|rest: Seq<char>| has_prefix(#[trigger] (prefix + rest), prefix) by {
        assert((prefix + rest).take(prefix.len() as int) =~= prefix);
    }
}

/// A text without the separator is one piece; up to its first separator a text is the first
/// piece, and the other pieces are those of the rest.
pub proof fn law_separators_part_the_pieces(a: Seq<char>, c: char, b: Seq<char>)
    requires
        !a.contains(c),
    ensures
        split(a, c) == seq![a],
        split(a.push(c) + b, c) == seq![a] + split(b, c),
{
    law_first_place_parts_the_text(a, c, b);
}

/// Up to its first line feed a text is the first line, without the carriage return that may
/// stand there, and the other lines are those of the rest; a last line needs no line feed.
pub proof fn law_line_feeds_part_the_lines(a: Seq<char>, b: Seq<char>)
    requires
        !a.contains('\n'),
    ensures
        lines(Seq::empty()) == Seq::<Seq<char>>::empty(),
        a.len() > 0 ==> lines(a) == seq![a],
        a.len() == 0 || a.last() != '\r' ==> lines(a.push('\n') + b) == seq![a] + lines(b),
        lines(a.push('\r').push('\n') + b) == seq![a] + lines(b),
{
    law_first_place_parts_the_text(a, '\n', b);
    let r = a.push('\r');
    assert(!r.contains('\n')) by {
        if r.contains('\n') {
            let i = choose|i: int| 0 <= i < r.len() && r[i] == '\n';
            assert(a[i] == '\n');
        }
    }
    law_first_place_parts_the_text(r, '\n', b);
    assert(r.drop_last() =~= a);
}

proof fn lemma_word_ends(w: Seq<char>, b: Seq<char>)
    requires
        forall|i: int| 0 <= i < w.len() ==> !is_space(#[trigger] w[i]),
        b.len() > 0 ==> is_space(b[0]),
    ensures
        find_space(w + b) == w.len(),
    decreases w.len(),
{
    let s = w + b;
    if w.len() > 0 {
        assert(s[0] == w[0]);
        let v = w.drop_first();
        assert(s.drop_first() =~= v + b);
        assert forall|i: int| 0 <= i < v.len() implies !is_space(#[trigger] v[i]) by {
            assert(v[i] == w[i + 1]);
        }
        lemma_word_ends(v, b);
    } else {
        assert(s =~= b);
    }
}

proof fn lemma_first_word(w: Seq<char>, b: Seq<char>)
    requires
        w.len() > 0,
        forall|i: int| 0 <= i < w.len() ==> !is_space(#[trigger] w[i]),
        b.len() > 0 ==> is_space(b[0]),
    ensures
        words(w + b) == seq![w] + words(b),
{
    let s = w + b;
    lemma_word_ends(w, b);
    assert(s[0] == w[0]);
    assert(!is_space(s[0]));
    assert(s.take(w.len() as int) =~= w);
    assert(s.skip(w.len() as int) =~= b);
}

/// White space parts words: a text without white space is one word, white space before a
/// text adds none, and a word that white space follows is the first, before the words of
/// the rest.
pub proof fn law_white_space_parts_the_words(w: Seq<char>, c: char, b: Seq<char>)
    requires
        w.len() > 0,
        forall|i: int| 0 <= i < w.len() ==> !is_space(#[trigger] w[i]),
        is_space(c),
    ensures
        words(Seq::empty()) == Seq::<Seq<char>>::empty(),
        words(w) == seq![w],
        words(seq![c] + b) == words(b),
        words(w + (seq![c] + b)) == seq![w] + words(b),
{
    let e = Seq::<char>::empty();
    let none = Seq::<Seq<char>>::empty();
    assert(words(e) == none);
    lemma_first_word(w, e);
    assert(w + e =~= w);
    assert(seq![w] + none =~= seq![w]);
    let t = seq![c] + b;
    assert(t[0] == c);
    assert(t.drop_first() =~= b);
    assert(words(t) == words(b));
    lemma_first_word(w, t);
}

/// The order of code points goes by the first place at which two texts differ, and a text
/// stands before those that go on behind it.
pub proof fn law_first_difference_decides(p: Seq<char>, x: char, y: char, a: Seq<char>, b: Seq<char>)
    requires
        x < y,
    ensures
        precedes(p + (seq![x] + a), p + (seq![y] + b)),
        precedes(p, p + (seq![y] + b)),
        !precedes(p, p),
        !precedes(p + (seq![y] + b), p + (seq![x] + a)),
        !precedes(p + (seq![y] + b), p),
    decreases p.len(),
{
    let s = p + (seq![x] + a);
    let t = p + (seq![y] + b);
    if p.len() > 0 {
        let q = p.drop_first();
        law_first_difference_decides(q, x, y, a, b);
        assert(s.drop_first() =~= q + (seq![x] + a));
        assert(t.drop_first() =~= q + (seq![y] + b));
    }
}

/// The views of a list are the texts of its items, one for one and in their order.
pub proof fn law_views_are_item_by_item(strings: Seq<String>, slices: Seq<&[char]>)
    ensures
        string_views(strings).len() == strings.len(),
        forall|i: int| 0 <= i < strings.len() ==> #[trigger] string_views(strings)[i] == strings[i]@,
        views(slices).len() == slices.len(),
        forall|i: int| 0 <= i < slices.len() ==> #[trigger] views(slices)[i] == slices[i]@,
{
}

} // verus!
