//! The configuration file: sections of `key = value` lines, and what the
//! programs read out of them.

use vstd::prelude::*;
use vstd::slice::slice_subrange;
use crate::number::{float_literal, i64_value, is_float, parse_i64};
use crate::text::{after, before, chars, equal, lemma_find, lines, lines_of, position, string, trim, trimmed, views, Class};

verus! {

broadcast use vstd::string::group_string_axioms;

/// How a value is cut out of its line.
#[derive(Clone, Copy, Debug, PartialEq, Eq, Structural)]
pub enum Dialect {
    /// The value is the rest of the line.
    Plain,
    /// The value ends where a comment begins, and comment lines are skipped.
    Commented,
}

/// One assignment of a configuration file, as mathematics sees it.
#[verifier::ext_equal]
pub struct Assignment {
    /// The header line that the assignment stands under, with its brackets.
    pub section: Seq<char>,
    pub key: Seq<char>,
    pub value: Seq<char>,
}

/// One assignment of a configuration file.
pub struct Entry {
    pub section: String,
    pub key: String,
    pub value: String,
}

impl View for Entry {
    type V = Assignment;

    open spec fn view(&self) -> Assignment {
        Assignment { section: self.section@, key: self.key@, value: self.value@ }
    }
}

/// The views of a list of entries.
pub open spec fn entry_views(v: Seq<Entry>) -> Seq<Assignment> {
    v.map_values(|e: Entry| e@)
}

/// A value without white space, double quotes and single quotes around it, taken
/// off in this order.
pub open spec fn bare(v: Seq<char>) -> Seq<char> {
    trim(trim(trim(v, Class::Space), Class::Only('"')), Class::Only('\''))
}

/// A value without white space and quotes around it.
pub open spec fn unquoted(v: Seq<char>, d: Dialect) -> Seq<char> {
    match d {
        Dialect::Plain => trim(trim(trim(v, Class::Space), Class::Only('\'')), Class::Only('"')),
        Dialect::Commented => bare(before(v, '#')),
    }
}

/// Whether a trimmed line is the header of a section.
pub open spec fn is_header(line: Seq<char>) -> bool {
    line.len() > 0 && line[0] == '['
}

/// The key and the value that a trimmed line assigns.
pub open spec fn assignment(line: Seq<char>, d: Dialect) -> Option<(Seq<char>, Seq<char>)> {
    if d == Dialect::Commented && line.len() > 0 && line[0] == '#' {
        None
    } else if line.contains('=') {
        Some((trim(before(line, '='), Class::Space), unquoted(after(line, '='), d)))
    } else {
        None
    }
}

/// The assignments of `ls`, the first of which stand under `section`.
pub open spec fn assignments(ls: Seq<Seq<char>>, section: Seq<char>, d: Dialect) -> Seq<Assignment>
    decreases ls.len(),
{
    if ls.len() == 0 {
        seq![]
    } else {
        let line = trim(ls[0], Class::Space);
        let rest = ls.drop_first();
        if is_header(line) {
            assignments(rest, line, d)
        } else {
            match assignment(line, d) {
                Some((key, value)) => seq![Assignment { section, key, value }] + assignments(
                    rest,
                    section,
                    d,
                ),
                None => assignments(rest, section, d),
            }
        }
    }
}

/// The assignments of a configuration file.
pub open spec fn config_entries(text: Seq<char>, d: Dialect) -> Seq<Assignment> {
    assignments(lines(text), seq![], d)
}

/// What a value has to be to count.
#[derive(Clone, Copy, Debug, PartialEq, Eq, Structural)]
pub enum Kind {
    /// Any text.
    Any,
    /// The decimal text of an integer of 64 bits.
    Integer,
    /// The literal of a floating-point number.
    Float,
}

impl Kind {
    pub open spec fn admits(self, v: Seq<char>) -> bool {
        match self {
            Kind::Any => true,
            Kind::Integer => i64_value(v) is Some,
            Kind::Float => is_float(v),
        }
    }

    /// Whether a value counts.
    pub fn accepts(self, v: &str) -> (r: bool)
        ensures
            r == self.admits(v@),
    {
        match self {
            Kind::Any => true,
            Kind::Integer => {
                let c: Vec<char> = chars(v);
                parse_i64(c.as_slice()).is_some()
            },
            Kind::Float => {
                let c: Vec<char> = chars(v);
                float_literal(c.as_slice())
            },
        }
    }
}

/// The last value of the given kind that `es` assigns to a key of a section.
pub open spec fn last_value(
    es: Seq<Assignment>,
    section: Seq<char>,
    key: Seq<char>,
    kind: Kind,
) -> Option<Seq<char>>
    decreases es.len(),
{
    if es.len() == 0 {
        None
    } else if es.last().section == section && es.last().key == key && kind.admits(es.last().value) {
        Some(es.last().value)
    } else {
        last_value(es.drop_last(), section, key, kind)
    }
}

/// The last value that `es` assigns to a key of a section, or `default` where there is none.
pub open spec fn value_or(
    es: Seq<Assignment>,
    section: Seq<char>,
    key: Seq<char>,
    kind: Kind,
    default: Seq<char>,
) -> Seq<char> {
    match last_value(es, section, key, kind) {
        Some(v) => v,
        None => default,
    }
}

/// Whether the last value that `es` assigns to a key of a section is `true`;
/// `default` where there is none.
pub open spec fn flag_or(
    es: Seq<Assignment>,
    section: Seq<char>,
    key: Seq<char>,
    default: bool,
) -> bool {
    match last_value(es, section, key, Kind::Any) {
        Some(v) => v == "true"@,
        None => default,
    }
}

/// The integer that the last value of a key of a section writes; `default` where
/// no value writes one.
pub open spec fn int_or(
    es: Seq<Assignment>,
    section: Seq<char>,
    key: Seq<char>,
    default: int,
) -> int {
    match last_value(es, section, key, Kind::Integer) {
        Some(v) => i64_value(v)->0,
        None => default,
    }
}

/// A value without white space and quotes around it.
fn unquote(v: &[char], d: Dialect) -> (r: String)
    ensures
        r@ == unquoted(v@, d),
{
    match d {
        Dialect::Plain => string(
            trimmed(trimmed(trimmed(v, Class::Space), Class::Only('\'')), Class::Only('"')),
        ),
        Dialect::Commented => {
            let k: usize = position(v, '#');
            let head: &[char] = slice_subrange(v, 0, k);
            proof {
                assert(head@ =~= before(v@, '#'));
            }
            strip(head)
        },
    }
}

/// A value without white space, double quotes and single quotes around it.
pub fn strip(v: &[char]) -> (r: String)
    ensures
        r@ == bare(v@),
{
    string(trimmed(trimmed(trimmed(v, Class::Space), Class::Only('"')), Class::Only('\'')))
}

/// The assignments of a configuration file.
pub fn entries(text: &str, d: Dialect) -> (r: Vec<Entry>)
    ensures
        entry_views(r@) == config_entries(text@, d),
{
    let cs: Vec<char> = chars(text);
    let ls: Vec<&[char]> = lines_of(cs.as_slice());
    let ghost all = views(ls@);
    let mut section: Vec<char> = Vec::new();
    let mut r: Vec<Entry> = Vec::new();
    let mut i: usize = 0;
    proof {
        assert(all.skip(0) =~= all);
        assert(section@ =~= seq![]);
        assert(entry_views(r@) + config_entries(text@, d) =~= config_entries(text@, d));
    }
    while i < ls.len()
        invariant
            all == views(ls@),
            all == lines(text@),
            i <= ls@.len(),
            entry_views(r@) + assignments(all.skip(i as int), section@, d) == config_entries(
                text@,
                d,
            ),
        decreases ls@.len() - i,
    {
        let line: &[char] = trimmed(ls[i], Class::Space);
        let ghost done = entry_views(r@);
        proof {
            assert(all.skip(i as int)[0] == ls@[i as int]@);
            assert(all.skip(i as int).drop_first() =~= all.skip(i + 1));
        }
        if line.len() > 0 && line[0] == '[' {
            section = chars(string(line).as_str());
        } else if d == Dialect::Commented && line.len() > 0 && line[0] == '#' {
        } else {
            let k: usize = position(line, '=');
            proof {
                lemma_find(line@, '=');
            }
            if k < line.len() {
                let head: &[char] = slice_subrange(line, 0, k);
                let tail: &[char] = slice_subrange(line, k + 1, line.len());
                proof {
                    assert(head@ =~= before(line@, '='));
                    assert(tail@ =~= after(line@, '='));
                }
                let e: Entry = Entry {
                    section: string(section.as_slice()),
                    key: string(trimmed(head, Class::Space)),
                    value: unquote(tail, d),
                };
                proof {
                    assert(entry_views(r@.push(e)) =~= done.push(e@));
                    assert(done + (seq![e@] + assignments(all.skip(i + 1), section@, d))
                        =~= done.push(e@) + assignments(all.skip(i + 1), section@, d));
                }
                r.push(e);
            }
        }
        i += 1;
    }
    proof {
        assert(all.skip(i as int) =~= seq![]);
        assert(entry_views(r@) + assignments(all.skip(i as int), section@, d) =~= entry_views(r@));
    }
    r
}

/// The last value of the given kind that the entries assign to a key of a section.
pub fn lookup(es: &Vec<Entry>, section: &str, key: &str, kind: Kind) -> (r: Option<String>)
    ensures
        match r {
            Some(v) => last_value(entry_views(es@), section@, key@, kind) == Some(v@),
            None => last_value(entry_views(es@), section@, key@, kind) is None,
        },
{
    let ghost all = entry_views(es@);
    let mut i: usize = es.len();
    proof {
        assert(all.take(all.len() as int) =~= all);
    }
    while i > 0
        invariant
            all == entry_views(es@),
            i <= es@.len(),
            last_value(all.take(i as int), section@, key@, kind) == last_value(
                all,
                section@,
                key@,
                kind,
            ),
        decreases i,
    {
        proof {
            assert(all.take(i as int).last() == es@[i - 1]@);
            assert(all.take(i as int).drop_last() =~= all.take(i - 1));
        }
        let e: &Entry = &es[i - 1];
        if equal(e.section.as_str(), section) && equal(e.key.as_str(), key) && kind.accepts(
            e.value.as_str(),
        ) {
            return Some(e.value.clone());
        }
        i -= 1;
    }
    proof {
        assert(all.take(0) =~= seq![]);
    }
    None
}

/// The last value of a key of a section, or `default`.
pub fn lookup_or(
    es: &Vec<Entry>,
    section: &str,
    key: &str,
    kind: Kind,
    default: &str,
) -> (r: String)
    ensures
        r@ == value_or(entry_views(es@), section@, key@, kind, default@),
{
    match lookup(es, section, key, kind) {
        Some(v) => v,
        None => default.to_owned(),
    }
}

/// Whether the last value of a key of a section is `true`, or `default`.
pub fn lookup_flag(es: &Vec<Entry>, section: &str, key: &str, default: bool) -> (r: bool)
    ensures
        r == flag_or(entry_views(es@), section@, key@, default),
{
    match lookup(es, section, key, Kind::Any) {
        Some(v) => equal(v.as_str(), "true"),
        None => default,
    }
}

/// The integer that the last value of a key of a section writes, or `default`.
pub fn lookup_int(es: &Vec<Entry>, section: &str, key: &str, default: i64) -> (r: i64)
    ensures
        r == int_or(entry_views(es@), section@, key@, default as int),
{
    match lookup(es, section, key, Kind::Integer) {
        Some(v) => {
            let c: Vec<char> = chars(v.as_str());
            proof {
                lemma_last_value_admitted(entry_views(es@), section@, key@, Kind::Integer);
            }
            match parse_i64(c.as_slice()) {
                Some(n) => n,
                None => default,
            }
        },
        None => default,
    }
}

/// The last value of a kind is of that kind.
pub proof fn lemma_last_value_admitted(
    es: Seq<Assignment>,
    section: Seq<char>,
    key: Seq<char>,
    kind: Kind,
)
    ensures
        last_value(es, section, key, kind) matches Some(v) ==> kind.admits(v),
    decreases es.len(),
{
    if es.len() > 0 {
        lemma_last_value_admitted(es.drop_last(), section, key, kind);
    }
}

} // verus!
