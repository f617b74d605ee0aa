//! What a line of a configuration file does, said of the line's characters and of the
//! lines around it.

use vstd::prelude::*;
use crate::config::{assignment, assignments, bare, config_entries, entry_views, flag_or, int_or, is_header, last_value, unquoted, value_or, Assignment, Dialect, Entry, Kind};
use crate::number::{i64_value, is_float};
use crate::text::{before, lemma_trim_same, lines, trim, Class};
use crate::text_laws::{law_first_place_parts_the_text, law_trimming_gives_the_middle};

verus! {

broadcast use vstd::string::group_string_axioms;

/// A header is a line that begins with a bracket.
pub proof fn law_headers_begin_with_a_bracket(rest: Seq<char>, c: char)
    ensures
        is_header(seq![c] + rest) <==> c == '[',
        !is_header(Seq::empty()),
{
}

/// A line assigns what stands behind its first equals sign to what stands before it, without
/// the white space around that. A line without an equals sign assigns nothing, nor does a
/// comment where there are comments.
pub proof fn law_equals_sign_assigns(a: Seq<char>, b: Seq<char>)
    requires
        !a.contains('='),
    ensures
        assignment(a.push('=') + b, Dialect::Plain) == Some(
            (trim(a, Class::Space), unquoted(b, Dialect::Plain)),
        ),
        a.len() == 0 || a[0] != '#' ==> assignment(a.push('=') + b, Dialect::Commented) == Some(
            (trim(a, Class::Space), unquoted(b, Dialect::Commented)),
        ),
        a.len() > 0 && a[0] == '#' ==> assignment(a.push('=') + b, Dialect::Commented) is None,
        forall|d: Dialect| #[trigger] assignment(a, d) is None,
{
    law_first_place_parts_the_text(a, '=', b);
    let s = a.push('=') + b;
    assert(s[a.len() as int] == '=');
    assert(s.contains('='));
    assert(s[0] == if a.len() > 0 {
        a[0]
    } else {
        '='
    });
}

/// A value without quotes and comment is what stands between the white space around it.
pub proof fn law_bare_value(left: Seq<char>, value: Seq<char>, right: Seq<char>, d: Dialect)
    requires
        forall|k: int| 0 <= k < left.len() ==> Class::Space.has(#[trigger] left[k]),
        forall|k: int| 0 <= k < right.len() ==> Class::Space.has(#[trigger] right[k]),
        value.len() > 0 ==> !Class::Space.has(value[0]) && value[0] != '"' && value[0] != '\'',
        value.len() > 0 ==> !Class::Space.has(value.last()) && value.last() != '"' && value.last()
            != '\'',
        d == Dialect::Commented ==> !value.contains('#'),
    ensures
        unquoted(left + value + right, d) == value,
{
    law_trimming_gives_the_middle(left, value, right, Class::Space);
    lemma_trim_same(value, Class::Only('"'));
    lemma_trim_same(value, Class::Only('\''));
    if d == Dialect::Commented {
        lemma_no_comment(left, value, right);
    }
}

proof fn lemma_no_comment(left: Seq<char>, value: Seq<char>, right: Seq<char>)
    requires
        forall|k: int| 0 <= k < left.len() ==> Class::Space.has(#[trigger] left[k]),
        forall|k: int| 0 <= k < right.len() ==> Class::Space.has(#[trigger] right[k]),
        !value.contains('#'),
    ensures
        before(left + value + right, '#') == left + value + right,
{
    let s = left + value + right;
    assert(!s.contains('#')) by {
        if s.contains('#') {
            let i = choose|i: int| 0 <= i < s.len() && s[i] == '#';
            if i < left.len() {
                assert(left[i] == '#');
            } else if i < left.len() + value.len() {
                assert(value[i - left.len()] == '#');
            } else {
                assert(right[i - left.len() - value.len()] == '#');
            }
        }
    }
    law_first_place_parts_the_text(s, '#', Seq::empty());
}

/// The same holds of a value that no comment can follow: white space and one pair of quotes
/// of either kind come off, whatever stands between.
pub proof fn law_value_without_comments(
    left: Seq<char>,
    quote: char,
    value: Seq<char>,
    right: Seq<char>,
)
    requires
        forall|k: int| 0 <= k < left.len() ==> Class::Space.has(#[trigger] left[k]),
        forall|k: int| 0 <= k < right.len() ==> Class::Space.has(#[trigger] right[k]),
        quote == '"' || quote == '\'',
        value.len() > 0 ==> value[0] != '"' && value[0] != '\'',
        value.len() > 0 ==> value.last() != '"' && value.last() != '\'',
    ensures
        bare(left + (seq![quote] + value + seq![quote]) + right) == value,
        (value.len() > 0 ==> !Class::Space.has(value[0]) && !Class::Space.has(value.last()))
            ==> bare(left + value + right) == value,
{
    let q = seq![quote] + value + seq![quote];
    let other = if quote == '"' {
        '\''
    } else {
        '"'
    };
    law_trimming_gives_the_middle(left, q, right, Class::Space);
    law_trimming_gives_the_middle(seq![quote], value, seq![quote], Class::Only(quote));
    lemma_trim_same(q, Class::Only(other));
    lemma_trim_same(value, Class::Only(other));
    lemma_trim_same(value, Class::Only(quote));
    if value.len() > 0 ==> !Class::Space.has(value[0]) && !Class::Space.has(value.last()) {
        law_trimming_gives_the_middle(left, value, right, Class::Space);
    }
}

/// One pair of quotes of either kind comes off a value; the white space inside them stays.
pub proof fn law_quotes_come_off(
    left: Seq<char>,
    quote: char,
    value: Seq<char>,
    right: Seq<char>,
    d: Dialect,
)
    requires
        forall|k: int| 0 <= k < left.len() ==> Class::Space.has(#[trigger] left[k]),
        forall|k: int| 0 <= k < right.len() ==> Class::Space.has(#[trigger] right[k]),
        quote == '"' || quote == '\'',
        value.len() > 0 ==> value[0] != '"' && value[0] != '\'',
        value.len() > 0 ==> value.last() != '"' && value.last() != '\'',
        d == Dialect::Commented ==> !value.contains('#'),
    ensures
        unquoted(left + (seq![quote] + value + seq![quote]) + right, d) == value,
{
    let q = seq![quote] + value + seq![quote];
    let other = if quote == '"' {
        '\''
    } else {
        '"'
    };
    law_trimming_gives_the_middle(left, q, right, Class::Space);
    law_trimming_gives_the_middle(seq![quote], value, seq![quote], Class::Only(quote));
    lemma_trim_same(q, Class::Only(other));
    lemma_trim_same(value, Class::Only(other));
    if d == Dialect::Commented {
        assert(!q.contains('#')) by {
            if q.contains('#') {
                let i = choose|i: int| 0 <= i < q.len() && q[i] == '#';
                assert(value[i - 1] == '#');
            }
        }
        lemma_no_comment(left, q, right);
    }
}

/// Where two pairs of quotes stand round a value, the order counts: the plain dialect takes
/// single quotes off first, the one with comments double quotes.
pub proof fn law_quotes_have_an_order(value: Seq<char>)
    requires
        value.len() > 0,
        value[0] != '"' && value[0] != '\'',
        value.last() != '"' && value.last() != '\'',
        !value.contains('#'),
    ensures
        unquoted(seq!['\'', '"'] + value + seq!['"', '\''], Dialect::Plain) == value,
        unquoted(seq!['"', '\''] + value + seq!['\'', '"'], Dialect::Commented) == value,
        unquoted(seq!['"', '\''] + value + seq!['\'', '"'], Dialect::Plain) == seq!['\''] + value
            + seq!['\''],
        unquoted(seq!['\'', '"'] + value + seq!['"', '\''], Dialect::Commented) == seq!['"'] + value
            + seq!['"'],
{
    let s = seq!['\''] + value + seq!['\''];
    let t = seq!['"'] + value + seq!['"'];
    let st = seq!['\''] + t + seq!['\''];
    let ts = seq!['"'] + s + seq!['"'];
    let e = Seq::<char>::empty();
    assert(st =~= seq!['\'', '"'] + value + seq!['"', '\'']);
    assert(ts =~= seq!['"', '\''] + value + seq!['\'', '"']);
    law_trimming_gives_the_middle(seq!['\''], value, seq!['\''], Class::Only('\''));
    law_trimming_gives_the_middle(seq!['"'], value, seq!['"'], Class::Only('"'));
    law_trimming_gives_the_middle(seq!['\''], t, seq!['\''], Class::Only('\''));
    law_trimming_gives_the_middle(seq!['"'], s, seq!['"'], Class::Only('"'));
    lemma_trim_same(st, Class::Space);
    lemma_trim_same(ts, Class::Space);
    lemma_trim_same(st, Class::Only('"'));
    lemma_trim_same(ts, Class::Only('\''));
    lemma_trim_same(s, Class::Only('"'));
    lemma_trim_same(t, Class::Only('\''));
    assert(!st.contains('#') && !ts.contains('#')) by {
        if st.contains('#') {
            let i = choose|i: int| 0 <= i < st.len() && st[i] == '#';
            assert(value[i - 2] == '#');
        }
        if ts.contains('#') {
            let i = choose|i: int| 0 <= i < ts.len() && ts[i] == '#';
            assert(value[i - 2] == '#');
        }
    }
    law_first_place_parts_the_text(st, '#', e);
    law_first_place_parts_the_text(ts, '#', e);
}

/// Where there are comments, what stands behind a `#` does not count; elsewhere it is part
/// of the value.
pub proof fn law_comments_do_not_count(value: Seq<char>, comment: Seq<char>)
    requires
        !value.contains('#'),
    ensures
        unquoted(value.push('#') + comment, Dialect::Commented) == unquoted(
            value,
            Dialect::Commented,
        ),
        value.len() > 0 && comment.len() > 0 && !Class::Space.has(value[0]) && !Class::Space.has(
            comment.last(),
        ) && value[0] != '"' && value[0] != '\'' && comment.last() != '"' && comment.last() != '\''
            ==> unquoted(value.push('#') + comment, Dialect::Plain) == value.push('#') + comment,
{
    law_first_place_parts_the_text(value, '#', comment);
    let s = value.push('#') + comment;
    if value.len() > 0 && comment.len() > 0 && !Class::Space.has(value[0]) && !Class::Space.has(
        comment.last(),
    ) && value[0] != '"' && value[0] != '\'' && comment.last() != '"' && comment.last() != '\'' {
        assert(s[0] == value[0] && s.last() == comment.last());
        lemma_trim_same(s, Class::Space);
        lemma_trim_same(s, Class::Only('\''));
        lemma_trim_same(s, Class::Only('"'));
    }
}

/// The section that the lines behind `ls` stand in.
spec fn section_behind(ls: Seq<Seq<char>>, section: Seq<char>) -> Seq<char>
    decreases ls.len(),
{
    if ls.len() == 0 {
        section
    } else {
        let line = trim(ls.last(), Class::Space);
        if is_header(line) {
            line
        } else {
            section_behind(ls.drop_last(), section)
        }
    }
}

/// What one line adds.
spec fn added(line: Seq<char>, section: Seq<char>, d: Dialect) -> Seq<Assignment> {
    let t = trim(line, Class::Space);
    if is_header(t) {
        seq![]
    } else {
        match assignment(t, d) {
            Some((key, value)) => seq![Assignment { section, key, value }],
            None => seq![],
        }
    }
}

proof fn lemma_section_first(ls: Seq<Seq<char>>, section: Seq<char>)
    requires
        ls.len() > 0,
    ensures
        section_behind(ls, section) == section_behind(
            ls.drop_first(),
            if is_header(trim(ls[0], Class::Space)) {
                trim(ls[0], Class::Space)
            } else {
                section
            },
        ),
    decreases ls.len(),
{
    reveal_with_fuel(section_behind, 2);
    if ls.len() == 1 {
        assert(ls.last() == ls[0]);
        assert(ls.drop_last() =~= Seq::<Seq<char>>::empty());
    } else {
        let t = ls.drop_first();
        assert(t.last() == ls.last());
        if !is_header(trim(ls.last(), Class::Space)) {
            lemma_section_first(ls.drop_last(), section);
            assert(ls.drop_last().drop_first() =~= t.drop_last());
        }
    }
}

proof fn lemma_push(ls: Seq<Seq<char>>, line: Seq<char>, section: Seq<char>, d: Dialect)
    ensures
        assignments(ls.push(line), section, d) == assignments(ls, section, d) + added(
            line,
            section_behind(ls, section),
            d,
        ),
    decreases ls.len(),
{
    let all = ls.push(line);
    if ls.len() == 0 {
        assert(all.drop_first() =~= Seq::<Seq<char>>::empty());
        reveal_with_fuel(assignments, 2);
        assert(assignments(all, section, d) =~= assignments(ls, section, d) + added(
            line,
            section,
            d,
        ));
    } else {
        let first = trim(ls[0], Class::Space);
        let next = if is_header(first) {
            first
        } else {
            section
        };
        lemma_push(ls.drop_first(), line, next, d);
        lemma_section_first(ls, section);
        assert(all[0] == ls[0]);
        assert(all.drop_first() =~= ls.drop_first().push(line));
        assert(assignments(all, section, d) =~= assignments(ls, section, d) + added(
            line,
            section_behind(ls, section),
            d,
        ));
    }
}

proof fn lemma_section_is(ls: Seq<Seq<char>>, section: Seq<char>, h: int)
    requires
        -1 <= h < ls.len(),
        h >= 0 ==> trim(ls[h], Class::Space).len() > 0 && trim(ls[h], Class::Space)[0] == '[',
        forall|j: int|
            h < j < ls.len() ==> trim(#[trigger] ls[j], Class::Space).len() == 0 || trim(
                ls[j],
                Class::Space,
            )[0] != '[',
    ensures
        section_behind(ls, section) == if h >= 0 {
            trim(ls[h], Class::Space)
        } else {
            section
        },
    decreases ls.len(),
{
    if ls.len() > 0 {
        assert(ls.last() == ls[ls.len() - 1]);
        if h < ls.len() - 1 {
            let init = ls.drop_last();
            assert forall|j: int| h < j < init.len() implies trim(
                #[trigger] init[j],
                Class::Space,
            ).len() == 0 || trim(init[j], Class::Space)[0] != '[' by {
                assert(init[j] == ls[j]);
            }
            lemma_section_is(init, section, h);
        }
    }
}

/// A further line adds at most one assignment, behind the others: none where it begins with
/// a bracket, and else what it assigns, in the section of the last header, at place `h`,
/// before it (in `section`, where `h` is -1 and there is none).
pub proof fn law_each_line_adds_its_assignment(
    ls: Seq<Seq<char>>,
    line: Seq<char>,
    section: Seq<char>,
    h: int,
    d: Dialect,
)
    requires
        -1 <= h < ls.len(),
        h >= 0 ==> trim(ls[h], Class::Space).len() > 0 && trim(ls[h], Class::Space)[0] == '[',
        forall|j: int|
            h < j < ls.len() ==> trim(#[trigger] ls[j], Class::Space).len() == 0 || trim(
                ls[j],
                Class::Space,
            )[0] != '[',
    ensures
        assignments(Seq::empty(), section, d) == Seq::<Assignment>::empty(),
        ({
            let old_ones = assignments(ls, section, d);
            let new_ones = assignments(ls.push(line), section, d);
            let t = trim(line, Class::Space);
            &&& t.len() > 0 && t[0] == '[' ==> new_ones == old_ones
            &&& (t.len() == 0 || t[0] != '[') && assignment(t, d) is None ==> new_ones == old_ones
            &&& (t.len() == 0 || t[0] != '[') && assignment(t, d) is Some ==> new_ones
                == old_ones.push(
                Assignment {
                    section: if h >= 0 {
                        trim(ls[h], Class::Space)
                    } else {
                        section
                    },
                    key: (assignment(t, d)->0).0,
                    value: (assignment(t, d)->0).1,
                },
            )
        }),
{
    lemma_push(ls, line, section, d);
    lemma_section_is(ls, section, h);
    let old_ones = assignments(ls, section, d);
    let none = Seq::<Assignment>::empty();
    assert(old_ones + none =~= old_ones);
}

/// The last value is that of the last assignment that is to the key, in the section, and of
/// the kind, at place `i`; there is none only where no assignment is.
pub proof fn law_last_assignment_wins(
    es: Seq<Assignment>,
    section: Seq<char>,
    key: Seq<char>,
    kind: Kind,
    i: int,
)
    requires
        -1 <= i < es.len(),
        i >= 0 ==> es[i].section == section && es[i].key == key && kind.admits(es[i].value),
        forall|j: int|
            i < j < es.len() ==> (#[trigger] es[j]).section != section || es[j].key != key
                || !kind.admits(es[j].value),
    ensures
        i >= 0 ==> last_value(es, section, key, kind) == Some(es[i].value),
        i == -1 ==> last_value(es, section, key, kind) is None,
    decreases es.len(),
{
    if es.len() > 0 {
        assert(es.last() == es[es.len() - 1]);
        if i < es.len() - 1 {
            let init = es.drop_last();
            assert forall|j: int| i < j < init.len() implies (#[trigger] init[j]).section != section
                || init[j].key != key || !kind.admits(init[j].value) by {
                assert(init[j] == es[j]);
            }
            law_last_assignment_wins(init, section, key, kind, i);
        }
    }
}

/// Any text counts where no kind is asked for; an integer is one of 64 bits, and a float a
/// literal.
pub proof fn law_kinds(v: Seq<char>)
    ensures
        Kind::Any.admits(v),
        Kind::Integer.admits(v) <==> i64_value(v) is Some,
        Kind::Float.admits(v) <==> is_float(v),
{
}

/// A setting is the last value where there is one, and the default where there is none: a
/// text as it stands, a flag that is set by the word `true` alone, and an integer.
pub proof fn law_defaults_are_for_keys_without_value(
    es: Seq<Assignment>,
    section: Seq<char>,
    key: Seq<char>,
    kind: Kind,
    text: Seq<char>,
    flag: bool,
    number: int,
)
    ensures
        last_value(es, section, key, kind) is None ==> value_or(es, section, key, kind, text)
            == text,
        last_value(es, section, key, kind) is Some ==> value_or(es, section, key, kind, text)
            == last_value(es, section, key, kind)->0,
        last_value(es, section, key, Kind::Any) is None ==> flag_or(es, section, key, flag) == flag,
        last_value(es, section, key, Kind::Any) is Some ==> (flag_or(es, section, key, flag) <==>
            last_value(es, section, key, Kind::Any)->0 == seq!['t', 'r', 'u', 'e']),
        last_value(es, section, key, Kind::Integer) is None ==> int_or(es, section, key, number)
            == number,
        last_value(es, section, key, Kind::Integer) is Some ==> i64_value(
            last_value(es, section, key, Kind::Integer)->0,
        ) == Some(int_or(es, section, key, number)),
{
    reveal_strlit("true");
    assert("true"@ =~= seq!['t', 'r', 'u', 'e']);
    crate::config::lemma_last_value_admitted(es, section, key, Kind::Integer);
}

proof fn lemma_tail(
    a: Seq<Seq<char>>,
    b: Seq<Seq<char>>,
    section: Seq<char>,
    key: Seq<char>,
    d: Dialect,
) -> (more: Seq<Assignment>)
    requires
        forall|j: int|
            0 <= j < b.len() ==> !trim(#[trigger] b[j], Class::Space).contains('=') || trim(
                before(trim(b[j], Class::Space), '='),
                Class::Space,
            ) != key,
    ensures
        assignments(a + b, section, d) == assignments(a, section, d) + more,
        forall|j: int| 0 <= j < more.len() ==> (#[trigger] more[j]).key != key,
    decreases b.len(),
{
    if b.len() == 0 {
        assert(a + b =~= a);
        let more = Seq::<Assignment>::empty();
        assert(assignments(a, section, d) + more =~= assignments(a, section, d));
        more
    } else {
        let c = b.drop_last();
        assert forall|j: int| 0 <= j < c.len() implies !trim(
            #[trigger] c[j],
            Class::Space,
        ).contains('=') || trim(before(trim(c[j], Class::Space), '='), Class::Space) != key by {
            assert(c[j] == b[j]);
        }
        let less = lemma_tail(a, c, section, key, d);
        lemma_push(a + c, b.last(), section, d);
        assert((a + c).push(b.last()) =~= a + b);
        let one = added(b.last(), section_behind(a + c, section), d);
        assert(b.last() == b[b.len() - 1]);
        let more = less + one;
        assert(assignments(a, section, d) + less + one =~= assignments(a, section, d) + more);
        more
    }
}

/// What a line assigns is what is read, where it stands behind a header, at place `h`, with no
/// header between, its value is of the kind that is asked for, and no line behind it assigns
/// to the key.
pub proof fn law_assigned_value_is_read(
    text: Seq<char>,
    d: Dialect,
    h: int,
    i: int,
    name: Seq<char>,
    value: Seq<char>,
    kind: Kind,
)
    requires
        0 <= h < i < lines(text).len(),
        trim(lines(text)[h], Class::Space).len() > 0,
        trim(lines(text)[h], Class::Space)[0] == '[',
        forall|j: int|
            h < j < i ==> trim(#[trigger] lines(text)[j], Class::Space).len() == 0 || trim(
                lines(text)[j],
                Class::Space,
            )[0] != '[',
        !name.contains('='),
        name.len() > 0 ==> name[0] != '[' && name[0] != '#',
        trim(lines(text)[i], Class::Space) == name.push('=') + value,
        kind.admits(unquoted(value, d)),
        forall|j: int|
            i < j < lines(text).len() ==> !trim(#[trigger] lines(text)[j], Class::Space).contains(
                '=',
            ) || trim(before(trim(lines(text)[j], Class::Space), '='), Class::Space) != trim(
                name,
                Class::Space,
            ),
    ensures
        last_value(
            config_entries(text, d),
            trim(lines(text)[h], Class::Space),
            trim(name, Class::Space),
            kind,
        ) == Some(unquoted(value, d)),
{
    let ls = lines(text);
    let line = ls[i];
    let t = trim(line, Class::Space);
    let section = trim(ls[h], Class::Space);
    let key = trim(name, Class::Space);
    let head = ls.take(i);
    let none = Seq::<char>::empty();
    assert forall|j: int| h < j < head.len() implies trim(#[trigger] head[j], Class::Space).len()
        == 0 || trim(head[j], Class::Space)[0] != '[' by {
        assert(head[j] == ls[j]);
    }
    assert(head[h] == ls[h]);
    law_equals_sign_assigns(name, value);
    assert(t[0] == if name.len() > 0 {
        name[0]
    } else {
        '='
    });
    law_each_line_adds_its_assignment(head, line, none, h, d);
    let upto = head.push(line);
    let rest = ls.skip(i + 1);
    assert forall|j: int| 0 <= j < rest.len() implies !trim(#[trigger] rest[j], Class::Space).contains(
        '=',
    ) || trim(before(trim(rest[j], Class::Space), '='), Class::Space) != key by {
        assert(rest[j] == ls[j + i + 1]);
    }
    let more = lemma_tail(upto, rest, none, key, d);
    assert(upto + rest =~= ls);
    let es = config_entries(text, d);
    assert(es == assignments(ls, none, d));
    let n = assignments(head, none, d).len() as int;
    assert(es[n] == Assignment { section, key, value: unquoted(value, d) });
    assert forall|j: int| n < j < es.len() implies (#[trigger] es[j]).section != section || es[j].key
        != key || !kind.admits(es[j].value) by {
        assert(es[j] == more[j - n - 1]);
    }
    law_last_assignment_wins(es, section, key, kind, n);
}

/// What comes off a value, and in which order, whatever it is: white space, and behind it the
/// two kinds of quotes, single ones first in the plain dialect. The one with comments ends the
/// value at the first `#`, and takes double quotes off first.
pub proof fn law_what_comes_off_a_value(v: Seq<char>, comment: Seq<char>)
    ensures
        ({
            let t = trim(trim(v, Class::Space), Class::Only('\''));
            unquoted(v, Dialect::Plain) == trim(t, Class::Only('"'))
        }),
        !v.contains('#') ==> ({
            let t = trim(trim(v, Class::Space), Class::Only('"'));
            unquoted(v.push('#') + comment, Dialect::Commented) == trim(t, Class::Only('\''))
                && unquoted(v, Dialect::Commented) == trim(t, Class::Only('\''))
        }),
        ({
            let t = trim(trim(v, Class::Space), Class::Only('"'));
            bare(v) == trim(t, Class::Only('\''))
        }),
{
    if !v.contains('#') {
        law_first_place_parts_the_text(v, '#', comment);
    }
}

/// The entries that are read have the section, the key and the value of the assignments, in
/// their order.
pub proof fn law_entries_are_the_assignments(es: Seq<Entry>)
    ensures
        entry_views(es).len() == es.len(),
        forall|i: int|
            0 <= i < es.len() ==> (#[trigger] entry_views(es)[i]).section == es[i].section@
                && entry_views(es)[i].key == es[i].key@ && entry_views(es)[i].value == es[i].value@,
{
}

/// The entries of a file are the assignments of its lines, which at its start stand in no
/// section.
pub proof fn law_file_starts_outside_sections(text: Seq<char>, d: Dialect)
    ensures
        config_entries(text, d) == assignments(lines(text), Seq::empty(), d),
{
}

} // verus!
