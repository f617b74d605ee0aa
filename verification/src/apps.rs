//! The applications whose sound is recorded: how they are listed, chosen and named
//! on a command line.

use std::collections::HashSet;
use vstd::prelude::*;
use vstd::string::StringExecFns;
use crate::processes::{app_views, Named};
use crate::text::{chars, equal, has_prefix, lemma_find_is, split, split_of, string, string_views, trim, trimmed, views, Class};

verus! {

broadcast use {vstd::string::group_string_axioms, vstd::std_specs::hash::group_hash_axioms};

/// The parts, with the separator between them.
pub open spec fn join(parts: Seq<Seq<char>>, sep: Seq<char>) -> Seq<char>
    decreases parts.len(),
{
    if parts.len() == 0 {
        seq![]
    } else if parts.len() == 1 {
        parts[0]
    } else {
        parts[0] + sep + join(parts.drop_first(), sep)
    }
}

/// The parts, with the separator between them.
pub fn joined_with(parts: &Vec<String>, sep: &str) -> (r: String)
    ensures
        r@ == join(string_views(parts@), sep@),
{
    let ghost all = string_views(parts@);
    let mut r: String = String::new();
    if parts.len() == 0 {
        proof {
            assert(all =~= seq![]);
        }
        return r;
    }
    r.append(parts[0].as_str());
    let mut i: usize = 1;
    proof {
        assert(all.skip(1) =~= all.drop_first());
        if all.len() == 1 {
            assert(r@ + Seq::<char>::empty() =~= join(all, sep@));
        } else {
            assert(r@ + (sep@ + join(all.skip(1), sep@)) =~= join(all, sep@));
        }
    }
    while i < parts.len()
        invariant
            1 <= i <= parts@.len(),
            all == string_views(parts@),
            r@ + (if i < parts@.len() {
                sep@ + join(all.skip(i as int), sep@)
            } else {
                seq![]
            }) == join(all, sep@),
        decreases parts@.len() - i,
    {
        let ghost earlier = r@;
        proof {
            let rest = all.skip(i as int);
            assert(rest.drop_first() =~= all.skip(i + 1));
            assert(rest[0] == parts@[i as int]@);
        }
        r.append(sep);
        r.append(parts[i].as_str());
        proof {
            let part = parts@[i as int]@;
            if i + 1 < parts@.len() {
                let rest = join(all.skip(i + 1), sep@);
                assert(earlier + (sep@ + (part + sep@ + rest)) =~= r@ + (sep@ + rest));
            } else {
                assert(earlier + (sep@ + part) =~= r@ + Seq::<char>::empty());
            }
        }
        i += 1;
    }
    proof {
        assert(r@ + Seq::<char>::empty() =~= r@);
    }
    r
}

/// The pieces that are not blank, without the white space around them.
pub open spec fn not_blank(pieces: Seq<Seq<char>>) -> Seq<Seq<char>>
    decreases pieces.len(),
{
    if pieces.len() == 0 {
        seq![]
    } else {
        let t = trim(pieces.last(), Class::Space);
        if t.len() > 0 {
            not_blank(pieces.drop_last()).push(t)
        } else {
            not_blank(pieces.drop_last())
        }
    }
}

/// The identifiers in a list that commas part.
pub open spec fn ids_in(list: Seq<char>) -> Seq<Seq<char>> {
    not_blank(split(list, ','))
}

/// The identifiers in a list that commas part.
pub fn loopback_ids(list: &str) -> (r: Vec<String>)
    ensures
        string_views(r@) == ids_in(list@),
{
    let text: Vec<char> = chars(list);
    let pieces: Vec<&[char]> = split_of(text.as_slice(), ',');
    let ghost all = views(pieces@);
    let mut r: Vec<String> = Vec::new();
    let mut i: usize = 0;
    proof {
        assert(all.take(0) =~= seq![]);
        assert(string_views(r@) =~= seq![]);
    }
    while i < pieces.len()
        invariant
            i <= pieces@.len(),
            all == views(pieces@),
            string_views(r@) == not_blank(all.take(i as int)),
        decreases pieces@.len() - i,
    {
        let id: &[char] = trimmed(pieces[i], Class::Space);
        proof {
            let t = all.take(i + 1);
            assert(t.drop_last() =~= all.take(i as int));
            assert(t.last() == pieces@[i as int]@);
        }
        if id.len() > 0 {
            let s: String = string(id);
            proof {
                assert(string_views(r@.push(s)) =~= string_views(r@).push(s@));
            }
            r.push(s);
        }
        i += 1;
    }
    proof {
        assert(all.take(i as int) =~= all);
    }
    r
}

/// What is recorded of the speakers.
pub struct LoopbackTargets {
    /// Whether the mix of the display is recorded.
    pub display: bool,
    /// The applications that are recorded alongside it, each in a stream of its own.
    pub apps: Vec<String>,
}

/// What is recorded of the speakers: the mix of the display in any case, and alongside it
/// the applications that were chosen, if any were.
pub fn loopback_targets(target_bundles: Option<Vec<String>>) -> (r: LoopbackTargets)
    ensures
        r.display,
        string_views(r.apps@) == (match target_bundles {
            Some(v) => string_views(v@),
            None => seq![],
        }),
{
    match target_bundles {
        Some(apps) => LoopbackTargets { display: true, apps },
        None => {
            let apps: Vec<String> = Vec::new();
            proof {
                assert(string_views(apps@) =~= seq![]);
            }
            LoopbackTargets { display: true, apps }
        },
    }
}

/// The processes whose sound is being recorded.
pub struct Streams {
    pids: HashSet<i32>,
}

impl View for Streams {
    type V = Set<i32>;

    closed spec fn view(&self) -> Set<i32> {
        self.pids@
    }
}

impl Streams {
    /// No process.
    pub fn new() -> (r: Streams)
        ensures
            r@ == Set::<i32>::empty(),
    {
        Streams { pids: HashSet::new() }
    }

    /// Whether a stream is to be started for a running application: it was chosen, and
    /// its process has no stream yet.
    pub fn wants(&self, ids: &Vec<String>, bundle_id: &str, pid: i32) -> (r: bool)
        ensures
            r == (string_views(ids@).contains(bundle_id@) && !self@.contains(pid)),
    {
        let mut i: usize = 0;
        while i < ids.len()
            invariant
                i <= ids@.len(),
                forall|j: int| 0 <= j < i ==> #[trigger] string_views(ids@)[j] != bundle_id@,
            decreases ids@.len() - i,
        {
            if equal(ids[i].as_str(), bundle_id) {
                proof {
                    assert(string_views(ids@)[i as int] == bundle_id@);
                }
                return !self.pids.contains(&pid);
            }
            i += 1;
        }
        false
    }

    /// A stream was started for a process.
    pub fn started(&mut self, pid: i32)
        ensures
            final(self)@ == old(self)@.insert(pid),
    {
        self.pids.insert(pid);
    }
}

/// A running application, as the window server of macOS tells of it.
pub struct RunningApp {
    pub name: String,
    pub bundle_id: String,
    /// Whether the application has a place in the Dock.
    pub regular: bool,
}

/// How the applications are listed: those in the Dock that have a name and an
/// identifier.
pub open spec fn listed(apps: Seq<RunningApp>) -> Seq<Named>
    decreases apps.len(),
{
    if apps.len() == 0 {
        seq![]
    } else {
        let a = apps.last();
        if a.name@.len() > 0 && a.bundle_id@.len() > 0 && a.regular {
            listed(apps.drop_last()).push((a.name@, a.bundle_id@))
        } else {
            listed(apps.drop_last())
        }
    }
}

/// The applications that a user can choose from on macOS: name and bundle identifier.
pub fn list_running_apps(apps: Vec<RunningApp>) -> (r: Vec<(String, String)>)
    ensures
        app_views(r@) == listed(apps@),
{
    let mut r: Vec<(String, String)> = Vec::new();
    proof {
        assert(apps@.take(0) =~= seq![]);
        assert(app_views(r@) =~= seq![]);
    }
    for a in it: apps
        invariant
            it.seq() == apps@,
            app_views(r@) == listed(apps@.take(it.index() as int)),
    {
        proof {
            let t = apps@.take(it.index() + 1);
            assert(t.drop_last() =~= apps@.take(it.index() as int));
            assert(t.last() == a);
        }
        let named: bool = chars(a.name.as_str()).len() > 0 && chars(a.bundle_id.as_str()).len() > 0;
        if named && a.regular {
            let shown: (String, String) = (a.name, a.bundle_id);
            proof {
                assert(app_views(r@.push(shown)) =~= app_views(r@).push((shown.0@, shown.1@)));
            }
            r.push(shown);
        }
    }
    proof {
        assert(apps@.take(apps@.len() as int) =~= apps@);
    }
    r
}

/// The lower-case hexadecimal digit of a number below sixteen.
pub open spec fn hex_char(d: int) -> char {
    if d < 10 {
        ('0' as int + d) as char
    } else {
        ('a' as int + d - 10) as char
    }
}

/// A character as it stands in a JSON string: quotation marks and backslashes have a
/// backslash before them, and control characters are given by their codes.
pub open spec fn escaped_char(c: char) -> Seq<char> {
    if c == '"' || c == '\\' {
        seq!['\\', c]
    } else if (c as u32) < 0x20 {
        seq!['\\', 'u', '0', '0', hex_char(c as int / 16), hex_char(c as int % 16)]
    } else {
        seq![c]
    }
}

/// A text as it stands in a JSON string.
pub open spec fn escaped(s: Seq<char>) -> Seq<char>
    decreases s.len(),
{
    if s.len() == 0 {
        seq![]
    } else {
        escaped_char(s[0]) + escaped(s.drop_first())
    }
}

/// An application in the printed list.
pub open spec fn app_text(a: Named) -> Seq<char> {
    "{\"name\":\""@ + escaped(a.0) + "\",\"bundle_id\":\""@ + escaped(a.1) + "\"}"@
}

/// The printed list of applications.
pub open spec fn apps_text(apps: Seq<Named>) -> Seq<char> {
    "["@ + join(apps.map_values(|a: Named| app_text(a)), ","@) + "]"@
}

fn hex(d: u8) -> (r: char)
    requires
        d < 16,
    ensures
        r == hex_char(d as int),
{
    if d < 10 {
        (48 + d) as char
    } else {
        (87 + d) as char
    }
}

fn push_escaped_char(out: &mut String, c: char)
    ensures
        final(out)@ == old(out)@ + escaped_char(c),
{
    let n: u32 = c as u32;
    if c == '"' || c == '\\' {
        out.push('\\');
        out.push(c);
    } else if n < 0x20 {
        let b: u8 = n as u8;
        out.push('\\');
        out.push('u');
        out.push('0');
        out.push('0');
        out.push(hex(b / 16));
        out.push(hex(b % 16));
    } else {
        out.push(c);
    }
    proof {
        assert(out@ =~= old(out)@ + escaped_char(c));
    }
}

fn push_escaped(out: &mut String, s: &str)
    ensures
        final(out)@ == old(out)@ + escaped(s@),
{
    let cs: Vec<char> = chars(s);
    let mut i: usize = 0;
    proof {
        assert(cs@.skip(0) =~= s@);
    }
    while i < cs.len()
        invariant
            i <= cs@.len(),
            out@ + escaped(cs@.skip(i as int)) == old(out)@ + escaped(s@),
        decreases cs@.len() - i,
    {
        let ghost earlier = out@;
        push_escaped_char(out, cs[i]);
        proof {
            let rest = cs@.skip(i as int);
            assert(rest.drop_first() =~= cs@.skip(i + 1));
            assert(earlier + (escaped_char(rest[0]) + escaped(cs@.skip(i + 1))) =~= out@
                + escaped(cs@.skip(i + 1)));
        }
        i += 1;
    }
    proof {
        assert(cs@.skip(i as int).len() == 0);
        assert(out@ + escaped(cs@.skip(i as int)) =~= out@);
    }
}

/// The text that a list of applications is printed as: an array of objects with the
/// name and the identifier of each.
pub fn apps_json(apps: &Vec<(String, String)>) -> (r: String)
    ensures
        r@ == apps_text(app_views(apps@)),
{
    let mut items: Vec<String> = Vec::new();
    let mut i: usize = 0;
    while i < apps.len()
        invariant
            i <= apps@.len(),
            items@.len() == i,
            forall|j: int|
                0 <= j < i ==> (#[trigger] items@[j])@ == app_text((apps@[j].0@, apps@[j].1@)),
        decreases apps@.len() - i,
    {
        let mut item: String = "{\"name\":\"".to_owned();
        push_escaped(&mut item, apps[i].0.as_str());
        item.append("\",\"bundle_id\":\"");
        push_escaped(&mut item, apps[i].1.as_str());
        item.append("\"}");
        items.push(item);
        i += 1;
    }
    proof {
        assert(string_views(items@) =~= app_views(apps@).map_values(|a: Named| app_text(a)));
    }
    let mut r: String = "[".to_owned();
    r.append(joined_with(&items, ",").as_str());
    r.append("]");
    r
}

proof fn lemma_split_join(ids: Seq<Seq<char>>)
    requires
        ids.len() > 0,
        forall|i: int| 0 <= i < ids.len() ==> !(#[trigger] ids[i]).contains(','),
    ensures
        split(join(ids, seq![',']), ',') == ids,
    decreases ids.len(),
{
    let s = join(ids, seq![',']);
    let first = ids[0];
    assert forall|j: int| 0 <= j < first.len() implies first[j] != ',' by {
        if first[j] == ',' {
            assert(first.contains(','));
        }
    }
    if ids.len() == 1 {
        lemma_find_is(s, ',', s.len() as int);
        assert(ids =~= seq![s]);
    } else {
        let rest = ids.drop_first();
        assert forall|i: int| 0 <= i < rest.len() implies !(#[trigger] rest[i]).contains(',') by {
            assert(rest[i] == ids[i + 1]);
        }
        lemma_split_join(rest);
        let n = first.len() as int;
        lemma_find_is(s, ',', n);
        assert(s.take(n) =~= first);
        assert(s.skip(n + 1) =~= join(rest, seq![',']));
        assert(seq![first] + rest =~= ids);
    }
}

proof fn lemma_not_blank(ids: Seq<Seq<char>>)
    requires
        forall|i: int|
            0 <= i < ids.len() ==> (#[trigger] ids[i]).len() > 0 && trim(ids[i], Class::Space)
                == ids[i],
    ensures
        not_blank(ids) == ids,
    decreases ids.len(),
{
    if ids.len() > 0 {
        let rest = ids.drop_last();
        assert forall|i: int| 0 <= i < rest.len() implies (#[trigger] rest[i]).len() > 0 && trim(
            rest[i],
            Class::Space,
        ) == rest[i] by {
            assert(rest[i] == ids[i]);
        }
        lemma_not_blank(rest);
        assert(ids.last() == ids[ids.len() - 1]);
        assert(rest.push(ids.last()) =~= ids);
    } else {
        assert(ids =~= seq![]);
    }
}

/// The identifiers that a list was made of are read from the list, unless one is blank
/// at an end or has a comma in it.
pub proof fn law_chosen_apps_are_read_back(ids: Seq<Seq<char>>)
    requires
        ids.len() > 0,
        forall|i: int|
            0 <= i < ids.len() ==> {
                &&& (#[trigger] ids[i]).len() > 0
                &&& !ids[i].contains(',')
                &&& trim(ids[i], Class::Space) == ids[i]
            },
    ensures
        ids_in(join(ids, ","@)) == ids,
{
    reveal_strlit(",");
    assert(","@ =~= seq![',']);
    lemma_split_join(ids);
    lemma_not_blank(ids);
}

// ---- The printed list, read as JSON ----
/// The number that a hexadecimal digit stands for.
pub open spec fn hex_value(c: char) -> Option<int> {
    if '0' <= c <= '9' {
        Some(c as int - '0' as int)
    } else if 'a' <= c <= 'f' {
        Some(c as int - 'a' as int + 10)
    } else if 'A' <= c <= 'F' {
        Some(c as int - 'A' as int + 10)
    } else {
        None
    }
}

/// The character that four hexadecimal digits give the code of, below the surrogates.
pub open spec fn coded_char(t: Seq<char>) -> Option<char> {
    if t.len() < 4 {
        None
    } else {
        match (hex_value(t[0]), hex_value(t[1]), hex_value(t[2]), hex_value(t[3])) {
            (Some(a), Some(b), Some(c), Some(d)) => {
                let n = 4096 * a + 256 * b + 16 * c + d;
                if n < 0xd800 {
                    Some(n as char)
                } else {
                    None
                }
            },
            _ => None,
        }
    }
}

/// The character that a letter behind a backslash stands for.
pub open spec fn short_escape(c: char) -> Option<char> {
    if c == '"' || c == '\\' || c == '/' {
        Some(c)
    } else if c == 'b' {
        Some('\x08')
    } else if c == 'f' {
        Some('\x0c')
    } else if c == 'n' {
        Some('\n')
    } else if c == 'r' {
        Some('\r')
    } else if c == 't' {
        Some('\t')
    } else {
        None
    }
}

/// The first character of the contents of a JSON string, and how many characters it is
/// written with.
pub open spec fn read_char(t: Seq<char>) -> Option<(char, int)> {
    if t.len() == 0 || t[0] == '"' || (t[0] as u32) < 0x20 {
        None
    } else if t[0] != '\\' {
        Some((t[0], 1))
    } else if t.len() == 1 {
        None
    } else if t[1] == 'u' {
        match coded_char(t.skip(2)) {
            Some(c) => Some((c, 6)),
            None => None,
        }
    } else {
        match short_escape(t[1]) {
            Some(c) => Some((c, 2)),
            None => None,
        }
    }
}

/// The contents of a JSON string up to the quotation mark that ends it, and what stands
/// behind that.
pub open spec fn read_text(t: Seq<char>) -> Option<(Seq<char>, Seq<char>)>
    decreases t.len(),
{
    if t.len() > 0 && t[0] == '"' {
        Some((seq![], t.skip(1)))
    } else {
        match read_char(t) {
            Some((c, n)) => if 0 < n <= t.len() {
                match read_text(t.skip(n)) {
                    Some((s, rest)) => Some((seq![c] + s, rest)),
                    None => None,
                }
            } else {
                None
            },
            None => None,
        }
    }
}

/// What stands behind a prefix.
pub open spec fn behind(t: Seq<char>, prefix: Seq<char>) -> Option<Seq<char>> {
    if has_prefix(t, prefix) {
        Some(t.skip(prefix.len() as int))
    } else {
        None
    }
}

/// An object with a name and an identifier, and what stands behind it.
#[verifier::opaque]
pub open spec fn read_app(t: Seq<char>) -> Option<(Named, Seq<char>)> {
    match behind(t, "{\"name\":\""@) {
        Some(t) => match read_text(t) {
            Some((name, t)) => match behind(t, ",\"bundle_id\":\""@) {
                Some(t) => match read_text(t) {
                    Some((id, t)) => match behind(t, "}"@) {
                        Some(t) => Some(((name, id), t)),
                        None => None,
                    },
                    None => None,
                },
                None => None,
            },
            None => None,
        },
        None => None,
    }
}

/// The objects of an array, with commas between them, up to the bracket that ends it at
/// the end of the text.
pub open spec fn read_items(t: Seq<char>) -> Option<Seq<Named>>
    decreases t.len(),
{
    match read_app(t) {
        Some((a, rest)) => if rest == "]"@ {
            Some(seq![a])
        } else if rest.len() < t.len() && rest.len() > 0 && rest[0] == ',' {
            match read_items(rest.skip(1)) {
                Some(more) => Some(seq![a] + more),
                None => None,
            }
        } else {
            None
        },
        None => None,
    }
}

/// The applications in a printed list.
pub open spec fn read_apps(t: Seq<char>) -> Option<Seq<Named>> {
    if t == "[]"@ {
        Some(seq![])
    } else {
        match behind(t, "["@) {
            Some(t) => read_items(t),
            None => None,
        }
    }
}

proof fn lemma_read_char(c: char, rest: Seq<char>)
    ensures
        read_char(escaped_char(c) + rest) == Some((c, escaped_char(c).len() as int)),
        escaped_char(c)[0] != '"',
        escaped_char(c).len() > 0,
{
    let e = escaped_char(c);
    let t = e + rest;
    assert(t[0] == e[0]);
    if c == '"' || c == '\\' {
        assert(t[1] == c);
    } else if (c as u32) < 0x20 {
        assert(t[1] == 'u');
        let d = t.skip(2);
        assert(d[0] == '0' && d[1] == '0');
        assert(d[2] == hex_char(c as int / 16));
        assert(d[3] == hex_char(c as int % 16));
        assert(hex_value(d[2]) == Some(c as int / 16));
        assert(hex_value(d[3]) == Some(c as int % 16));
        assert(16 * (c as int / 16) + c as int % 16 == c as int);
    }
}

proof fn lemma_read_text(s: Seq<char>, rest: Seq<char>)
    ensures
        read_text(escaped(s) + (seq!['"'] + rest)) == Some((s, rest)),
    decreases s.len(),
{
    let end = seq!['"'] + rest;
    let t = escaped(s) + end;
    if s.len() == 0 {
        assert(t =~= end);
        assert(t.skip(1) =~= rest);
        assert(s =~= seq![]);
    } else {
        let tail = s.drop_first();
        let e = escaped_char(s[0]);
        lemma_read_text(tail, rest);
        lemma_read_char(s[0], escaped(tail) + end);
        assert(t =~= e + (escaped(tail) + end));
        assert(t[0] == e[0]);
        assert(t.skip(e.len() as int) =~= escaped(tail) + end);
        assert(seq![s[0]] + tail =~= s);
    }
}

proof fn lemma_behind(prefix: Seq<char>, rest: Seq<char>)
    ensures
        behind(prefix + rest, prefix) == Some(rest),
{
    assert((prefix + rest).take(prefix.len() as int) =~= prefix);
    assert((prefix + rest).skip(prefix.len() as int) =~= rest);
}

proof fn lemma_read_app(a: Named, rest: Seq<char>)
    ensures
        read_app(app_text(a) + rest) == Some((a, rest)),
        app_text(a).len() > 0,
{
    reveal(read_app);
    reveal_strlit("{\"name\":\"");
    reveal_strlit("\",\"bundle_id\":\"");
    reveal_strlit(",\"bundle_id\":\"");
    reveal_strlit("\"}");
    reveal_strlit("}");
    let open = "{\"name\":\""@;
    let middle = ",\"bundle_id\":\""@;
    let close = "}"@;
    let t4 = close + rest;
    let t3 = escaped(a.1) + (seq!['"'] + t4);
    let t2 = middle + t3;
    let t1 = escaped(a.0) + (seq!['"'] + t2);
    assert("\",\"bundle_id\":\""@ =~= seq!['"'] + middle);
    assert("\"}"@ =~= seq!['"'] + close);
    assert(app_text(a) + rest =~= open + t1);
    lemma_behind(open, t1);
    lemma_read_text(a.0, t2);
    lemma_behind(middle, t3);
    lemma_read_text(a.1, t4);
    lemma_behind(close, rest);
}

proof fn lemma_read_items(apps: Seq<Named>)
    requires
        apps.len() > 0,
    ensures
        read_items(join(apps.map_values(|a: Named| app_text(a)), ","@) + "]"@) == Some(apps),
    decreases apps.len(),
{
    reveal_strlit(",");
    reveal_strlit("]");
    let f = |a: Named| app_text(a);
    let parts = apps.map_values(f);
    let t = join(parts, ","@) + "]"@;
    assert(parts[0] == app_text(apps[0]));
    if apps.len() == 1 {
        lemma_read_app(apps[0], "]"@);
        assert(apps =~= seq![apps[0]]);
    } else {
        let more = apps.drop_first();
        lemma_read_items(more);
        assert(parts.drop_first() =~= more.map_values(f));
        let tail = join(more.map_values(f), ","@) + "]"@;
        let rest = ","@ + tail;
        assert(t =~= app_text(apps[0]) + rest);
        lemma_read_app(apps[0], rest);
        assert(rest[0] == ',');
        assert("]"@[0] == ']');
        assert(rest != "]"@);
        assert(rest.skip(1) =~= tail);
        assert(seq![apps[0]] + more =~= apps);
    }
}

/// The printed list of applications is a JSON array that reads as those applications,
/// whatever their names are.
pub proof fn law_printed_apps_are_read_back(apps: Seq<Named>)
    ensures
        read_apps(apps_text(apps)) == Some(apps),
{
    reveal_strlit("[");
    reveal_strlit("]");
    reveal_strlit("[]");
    let parts = apps.map_values(|a: Named| app_text(a));
    let t = apps_text(apps);
    if apps.len() == 0 {
        assert(join(parts, ","@) =~= seq![]);
        assert(t =~= "[]"@);
        assert(apps =~= seq![]);
    } else {
        lemma_read_items(apps);
        let tail = join(parts, ","@) + "]"@;
        assert(t =~= "["@ + tail);
        lemma_behind("["@, tail);
        if t == "[]"@ {
            assert(tail =~= "]"@) by {
                assert(t.skip(1) =~= tail);
                assert("[]"@.skip(1) =~= "]"@);
            }
            assert(read_items("]"@) == Some(apps));
            reveal(read_app);
            reveal_strlit("{\"name\":\"");
        }
    }
}

} // verus!
