//! The running applications, as the process file system of Linux tells of them.

use vstd::prelude::*;
use vstd::slice::slice_subrange;
use crate::number::{all_digits, decimal, lemma_decimal, only_digits, parse_u32, u32_value, u64_text};
use crate::text::{begins, chars, equal, from_utf8_lossy, has_prefix, is_before, is_space, lemma_precedes_total, lemma_precedes_transitive, lines, lines_of, lossy_text, lower_text, precedes, same, spells, split, split_of, string, to_lowercase, trim, trim_end, trim_start, trimmed, views, words, words_of, Class};

verus! {

broadcast use vstd::string::group_string_axioms;

/// Whether `bytes` begin with the ASCII characters `prefix`.
pub open spec fn has_ascii_prefix(bytes: Seq<u8>, prefix: Seq<char>) -> bool {
    prefix.len() <= bytes.len() && forall|i: int|
        0 <= i < prefix.len() ==> bytes[i] as char == #[trigger] prefix[i]
}

/// Whether `bytes[i..j]` is an entry of a list whose entries NUL bytes part.
pub open spec fn is_entry(bytes: Seq<u8>, i: int, j: int) -> bool {
    &&& 0 <= i <= j <= bytes.len()
    &&& i == 0 || bytes[i - 1] == 0
    &&& j == bytes.len() || bytes[j] == 0
    &&& forall|k: int| i <= k < j ==> bytes[k] != 0
}

/// Whether an entry of an environment gives a variable a value that is not empty.
pub open spec fn sets(entry: Seq<u8>, assignment: Seq<char>) -> bool {
    entry.len() > assignment.len() && has_ascii_prefix(entry, assignment)
}

/// Whether an entry of an environment names a display.
pub open spec fn names_display(entry: Seq<u8>) -> bool {
    sets(entry, "DISPLAY="@) || sets(entry, "WAYLAND_DISPLAY="@)
}

/// Whether an environment names a display.
pub open spec fn has_display(environ: Seq<u8>) -> bool {
    exists|i: int, j: int| #[trigger]
        is_entry(environ, i, j) && names_display(environ.subrange(i, j))
}

fn begins_with(bytes: &[u8], prefix: &str) -> (r: bool)
    ensures
        r == has_ascii_prefix(bytes@, prefix@),
{
    let p: Vec<char> = chars(prefix);
    if bytes.len() < p.len() {
        return false;
    }
    let mut i: usize = 0;
    while i < p.len()
        invariant
            p@ == prefix@,
            i <= p@.len() <= bytes@.len(),
            forall|k: int| 0 <= k < i ==> bytes@[k] as char == #[trigger] p@[k],
        decreases p@.len() - i,
    {
        if bytes[i] as char != p[i] {
            return false;
        }
        i += 1;
    }
    true
}

fn is_set(entry: &[u8], assignment: &str) -> (r: bool)
    ensures
        r == sets(entry@, assignment@),
{
    let n: usize = chars(assignment).len();
    entry.len() > n && begins_with(entry, assignment)
}

/// Whether an environment, as `environ` of a process holds it, names an X11 or a
/// Wayland display.
pub fn linux_proc_environ_has_display(environ: &[u8]) -> (r: bool)
    ensures
        r == has_display(environ@),
{
    let mut i: usize = 0;
    while i < environ.len()
        invariant
            i <= environ@.len(),
            i == 0 || i == environ@.len() || environ@[i - 1] == 0,
            forall|a: int, b: int| #[trigger]
                is_entry(environ@, a, b) && a < i ==> !names_display(environ@.subrange(a, b)),
        decreases environ@.len() - i,
    {
        let start: usize = i;
        while i < environ.len() && environ[i] != 0
            invariant
                start <= i <= environ@.len(),
                forall|k: int| start <= k < i ==> environ@[k] != 0,
            decreases environ@.len() - i,
        {
            i += 1;
        }
        let entry: &[u8] = slice_subrange(environ, start, i);
        proof {
            assert(is_entry(environ@, start as int, i as int));
        }
        if is_set(entry, "DISPLAY=") || is_set(entry, "WAYLAND_DISPLAY=") {
            return true;
        }
        proof {
            assert forall|a: int, b: int| #[trigger]
                is_entry(environ@, a, b) && a < i + 1 implies !names_display(
                environ@.subrange(a, b),
            ) by {
                if a == start {
                    if b < i {
                        assert(environ@[b] != 0);
                    }
                    if b > i {
                        assert(environ@[i as int] != 0);
                    }
                } else if start < a <= i {
                    assert(environ@[a - 1] != 0);
                }
            }
        }
        if i == environ.len() {
            proof {
                assert forall|a: int, b: int| #[trigger]
                    is_entry(environ@, a, b) implies !names_display(environ@.subrange(a, b)) by {
                    if a == environ@.len() {
                        reveal_strlit("DISPLAY=");
                        reveal_strlit("WAYLAND_DISPLAY=");
                    }
                }
            }
            return false;
        }
        i += 1;
    }
    proof {
        assert forall|a: int, b: int| #[trigger] is_entry(environ@, a, b) implies !names_display(
            environ@.subrange(a, b),
        ) by {
            if a == environ@.len() {
                reveal_strlit("DISPLAY=");
                reveal_strlit("WAYLAND_DISPLAY=");
            }
        }
    }
    false
}

/// What follows the key in the last of the lines that begin with it.
pub open spec fn last_field(ls: Seq<Seq<char>>, key: Seq<char>) -> Option<Seq<char>>
    decreases ls.len(),
{
    if ls.len() == 0 {
        None
    } else if has_prefix(ls.last(), key) {
        Some(ls.last().skip(key.len() as int))
    } else {
        last_field(ls.drop_last(), key)
    }
}

/// The effective user: the second number of the last line `Uid:` that has a second
/// word. There is none where that word is no number.
pub open spec fn effective_uid(ls: Seq<Seq<char>>) -> Option<int>
    decreases ls.len(),
{
    if ls.len() == 0 {
        None
    } else if has_prefix(ls.last(), "Uid:"@) && words(ls.last().skip(4)).len() > 1 {
        u32_value(words(ls.last().skip(4))[1])
    } else {
        effective_uid(ls.drop_last())
    }
}

/// Whether the state of a process is that of a zombie.
pub open spec fn is_zombie(ls: Seq<Seq<char>>) -> bool {
    match last_field(ls, "State:"@) {
        Some(s) => has_prefix(trim_start(s, Class::Space), "Z"@),
        None => false,
    }
}

/// The effective user, the name, and whether the process is a zombie, in the text of a
/// process's `status`.
pub open spec fn status_in(text: Seq<char>) -> Option<(int, Seq<char>, bool)> {
    let ls = lines(text);
    match (effective_uid(ls), last_field(ls, "Name:"@)) {
        (Some(uid), Some(name)) => Some((uid, trim(name, Class::Space), is_zombie(ls))),
        _ => None,
    }
}

proof fn lemma_trim_start_begins(s: Seq<char>, c: char)
    requires
        !is_space(c),
    ensures
        has_prefix(trim_start(s, Class::Space), seq![c]) == has_prefix(
            trim(s, Class::Space),
            seq![c],
        ),
{
    let t = trim_start(s, Class::Space);
    lemma_trim_end_begins(t, c);
}

proof fn lemma_trim_end_begins(t: Seq<char>, c: char)
    requires
        !is_space(c),
    ensures
        has_prefix(t, seq![c]) == has_prefix(trim_end(t, Class::Space), seq![c]),
    decreases t.len(),
{
    if t.len() > 0 && is_space(t.last()) {
        lemma_trim_end_begins(t.drop_last(), c);
        if t.len() > 1 {
            assert(t.drop_last().take(1) =~= t.take(1));
        } else {
            assert(t.take(1)[0] == t[0]);
            assert(t.take(1) != seq![c]) by {
                assert(seq![c][0] == c);
            }
            assert(trim_end(t, Class::Space).len() == 0);
        }
    }
}

/// What a process's `status` tells: the effective user, the name, and whether the
/// process is a zombie. There is nothing where the user or the name is missing.
pub fn linux_parse_status(status: &str) -> (r: Option<(u32, String, bool)>)
    ensures
        match r {
            Some(t) => status_in(status@) == Some((t.0 as int, t.1@, t.2)),
            None => status_in(status@) is None,
        },
{
    let text: Vec<char> = chars(status);
    let ls: Vec<&[char]> = lines_of(text.as_slice());
    let ghost all = views(ls@);
    let mut name: Option<String> = None;
    let mut euid: Option<u32> = None;
    let mut zombie: bool = false;
    let mut i: usize = 0;
    proof {
        assert(all.take(0) =~= seq![]);
        reveal_strlit("Name:");
        reveal_strlit("Uid:");
        reveal_strlit("State:");
        reveal_strlit("Z");
        assert("Z"@ =~= seq!['Z']);
    }
    while i < ls.len()
        invariant
            i <= ls@.len(),
            all == views(ls@),
            "Name:"@.len() == 5,
            "Name:"@[0] == 'N',
            "Uid:"@.len() == 4,
            "Uid:"@[0] == 'U',
            "State:"@.len() == 6,
            "State:"@[0] == 'S',
            "Z"@ == seq!['Z'],
            match name {
                Some(n) => last_field(all.take(i as int), "Name:"@) matches Some(f) && n@ == trim(
                    f,
                    Class::Space,
                ),
                None => last_field(all.take(i as int), "Name:"@) is None,
            },
            match euid {
                Some(u) => effective_uid(all.take(i as int)) == Some(u as int),
                None => effective_uid(all.take(i as int)) is None,
            },
            zombie == is_zombie(all.take(i as int)),
        decreases ls@.len() - i,
    {
        let line: &[char] = ls[i];
        proof {
            let t = all.take(i + 1);
            assert(t.drop_last() =~= all.take(i as int));
            assert(t.last() == line@);
            if has_prefix(line@, "Name:"@) {
                assert(line@.take(5)[0] == line@[0]);
            }
            if has_prefix(line@, "Uid:"@) {
                assert(line@.take(4)[0] == line@[0]);
            }
            if has_prefix(line@, "State:"@) {
                assert(line@.take(6)[0] == line@[0]);
            }
        }
        if begins(line, "Name:") {
            let rest: &[char] = slice_subrange(line, 5, line.len());
            proof {
                assert(rest@ =~= line@.skip(5));
            }
            name = Some(string(trimmed(rest, Class::Space)));
        } else if begins(line, "Uid:") {
            let rest: &[char] = slice_subrange(line, 4, line.len());
            proof {
                assert(rest@ =~= line@.skip(4));
            }
            let parts: Vec<&[char]> = words_of(rest);
            proof {
                assert(parts@.len() == views(parts@).len());
            }
            if parts.len() > 1 {
                proof {
                    assert(views(parts@)[1] == parts@[1]@);
                }
                euid = parse_u32(parts[1]);
            }
        } else if begins(line, "State:") {
            let rest: &[char] = slice_subrange(line, 6, line.len());
            proof {
                assert(rest@ =~= line@.skip(6));
                lemma_trim_start_begins(rest@, 'Z');
            }
            zombie = begins(trimmed(rest, Class::Space), "Z");
        }
        i += 1;
    }
    proof {
        assert(all.take(i as int) =~= all);
    }
    match (euid, name) {
        (Some(u), Some(n)) => Some((u, n, zombie)),
        _ => None,
    }
}

/// The last of the pieces of a path that is neither empty nor the directory itself.
pub open spec fn last_component(pieces: Seq<Seq<char>>) -> Option<Seq<char>>
    decreases pieces.len(),
{
    if pieces.len() == 0 {
        None
    } else if pieces.last().len() == 0 || pieces.last() == "."@ {
        last_component(pieces.drop_last())
    } else {
        Some(pieces.last())
    }
}

/// The file name at the end of a path, if the path ends in one: `..` is none.
pub open spec fn file_name(path: Seq<char>) -> Option<Seq<char>> {
    match last_component(split(path, '/')) {
        Some(c) => if c == ".."@ {
            None
        } else {
            Some(c)
        },
        None => None,
    }
}

fn file_name_of(path: &[char]) -> (r: Option<String>)
    ensures
        match r {
            Some(n) => file_name(path@) == Some(n@),
            None => file_name(path@) is None,
        },
{
    let pieces: Vec<&[char]> = split_of(path, '/');
    let ghost all = views(pieces@);
    let mut n: usize = pieces.len();
    proof {
        assert(all.take(n as int) =~= all);
    }
    while n > 0
        invariant
            n <= pieces@.len(),
            all == views(pieces@),
            last_component(all.take(n as int)) == last_component(split(path@, '/')),
        decreases n,
    {
        let piece: &[char] = pieces[n - 1];
        proof {
            assert(all.take(n as int).drop_last() =~= all.take(n - 1));
            assert(all.take(n as int).last() == piece@);
        }
        if piece.len() > 0 && !spells(piece, ".") {
            return if spells(piece, "..") {
                None
            } else {
                Some(string(piece))
            };
        }
        n -= 1;
    }
    None
}

/// The position of the first NUL byte, or the number of bytes.
pub open spec fn find_nul(bytes: Seq<u8>) -> nat
    decreases bytes.len(),
{
    if bytes.len() == 0 || bytes[0] == 0 {
        0
    } else {
        1 + find_nul(bytes.drop_first())
    }
}

proof fn lemma_find_nul_is(bytes: Seq<u8>, i: int)
    requires
        0 <= i <= bytes.len(),
        i < bytes.len() ==> bytes[i] == 0,
        forall|j: int| 0 <= j < i ==> bytes[j] != 0,
    ensures
        find_nul(bytes) == i,
    decreases bytes.len(),
{
    if i > 0 {
        lemma_find_nul_is(bytes.drop_first(), i - 1);
    }
}

/// The program of a command line, whose arguments NUL bytes part.
pub open spec fn program(cmdline: Seq<u8>) -> Seq<u8> {
    cmdline.take(find_nul(cmdline) as int)
}

/// The name under which a process is shown: the file name of its program, or the
/// name in its status where the command line gives none.
pub open spec fn display_name(cmdline: Option<Seq<u8>>, comm: Seq<char>) -> Seq<char> {
    match cmdline {
        Some(raw) => if program(raw).len() == 0 {
            comm
        } else {
            match file_name(lossy_text(program(raw))) {
                Some(n) => n,
                None => comm,
            }
        },
        None => comm,
    }
}

/// The view of bytes that may be missing.
pub open spec fn bytes_view(bytes: Option<Vec<u8>>) -> Option<Seq<u8>> {
    match bytes {
        Some(b) => Some(b@),
        None => None,
    }
}

/// The name under which a process is shown. The command line is missing where it
/// could not be read.
pub fn linux_display_name_for_pid(cmdline: &Option<Vec<u8>>, comm: &str) -> (r: String)
    ensures
        r@ == display_name(bytes_view(*cmdline), comm@),
{
    match cmdline {
        Some(raw) => {
            let mut k: usize = 0;
            while k < raw.len() && raw[k] != 0
                invariant
                    k <= raw@.len(),
                    forall|j: int| 0 <= j < k ==> raw@[j] != 0,
                decreases raw@.len() - k,
            {
                k += 1;
            }
            let first: &[u8] = slice_subrange(raw.as_slice(), 0, k);
            proof {
                lemma_find_nul_is(raw@, k as int);
                assert(first@ =~= program(raw@));
            }
            if first.len() == 0 {
                return comm.to_owned();
            }
            let s: String = from_utf8_lossy(first);
            let path: Vec<char> = chars(s.as_str());
            match file_name_of(path.as_slice()) {
                Some(n) => n,
                None => comm.to_owned(),
            }
        },
        None => comm.to_owned(),
    }
}

/// Whether a process of that name is a shell.
pub open spec fn is_shell(comm: Seq<char>) -> bool {
    ||| comm == "bash"@
    ||| comm == "sh"@
    ||| comm == "dash"@
    ||| comm == "zsh"@
    ||| comm == "fish"@
    ||| comm == "tcsh"@
    ||| comm == "ksh"@
    ||| comm == "mksh"@
}

/// Whether a process of that name is left out of the list: the shells are.
pub fn linux_skip_comm(comm: &str) -> (r: bool)
    ensures
        r == is_shell(comm@),
{
    equal(comm, "bash") || equal(comm, "sh") || equal(comm, "dash") || equal(comm, "zsh") || equal(
        comm,
        "fish",
    ) || equal(comm, "tcsh") || equal(comm, "ksh") || equal(comm, "mksh")
}

/// The process that an entry of the process file system is the directory of.
pub open spec fn pid_in(name: Seq<char>) -> Option<int> {
    if all_digits(name) {
        u32_value(name)
    } else {
        None
    }
}

/// The process that an entry of the process file system is the directory of, if it is
/// the directory of one.
pub fn linux_pid(name: &str) -> (r: Option<u32>)
    ensures
        match r {
            Some(pid) => pid_in(name@) == Some(pid as int),
            None => pid_in(name@) is None,
        },
{
    let s: Vec<char> = chars(name);
    if only_digits(s.as_slice()) {
        parse_u32(s.as_slice())
    } else {
        None
    }
}

/// What the process file system tells of a process. What could not be read is missing.
pub struct Process {
    pub pid: u32,
    pub status: Option<String>,
    pub environ: Option<Vec<u8>>,
    /// Whether the link to the executable could be read.
    pub has_exe: bool,
    pub cmdline: Option<Vec<u8>>,
}

/// A name and an identifier.
pub type Named = (Seq<char>, Seq<char>);

/// How a process is shown to a user, if it is: a live process of the user, no shell,
/// with an executable and a display.
pub open spec fn shown(p: Process, euid: int) -> Option<Named> {
    match p.status {
        Some(text) => match status_in(text@) {
            Some((uid, comm, zombie)) => {
                if !zombie && uid == euid && !is_shell(comm) && (p.environ matches Some(e)
                    && has_display(e@)) && p.has_exe {
                    Some((display_name(bytes_view(p.cmdline), comm), decimal(p.pid as nat)))
                } else {
                    None
                }
            },
            None => None,
        },
        None => None,
    }
}

/// How the processes are shown that are, in the order in which they are given.
pub open spec fn all_shown(ps: Seq<Process>, euid: int) -> Seq<Named>
    decreases ps.len(),
{
    if ps.len() == 0 {
        seq![]
    } else {
        match shown(ps.last(), euid) {
            Some(a) => all_shown(ps.drop_last(), euid).push(a),
            None => all_shown(ps.drop_last(), euid),
        }
    }
}

/// The order of the list: by name without regard to case, then by identifier.
pub open spec fn app_precedes(a: Named, b: Named) -> bool {
    ||| precedes(lower_text(a.0), lower_text(b.0))
    ||| lower_text(a.0) == lower_text(b.0) && precedes(a.1, b.1)
}

/// The number of leading items that do not stand after `a`, where the items are in order.
pub open spec fn place(s: Seq<Named>, a: Named) -> nat
    decreases s.len(),
{
    if s.len() == 0 {
        0
    } else if app_precedes(a, s.last()) {
        place(s.drop_last(), a)
    } else {
        s.len()
    }
}

/// The items in order. Items of which neither stands before the other keep their order.
pub open spec fn in_order(s: Seq<Named>) -> Seq<Named>
    decreases s.len(),
{
    if s.len() == 0 {
        seq![]
    } else {
        let t = in_order(s.drop_last());
        t.insert(place(t, s.last()) as int, s.last())
    }
}

/// The items without those whose identifier is that of the item before them.
pub open spec fn without_repeats(s: Seq<Named>) -> Seq<Named>
    decreases s.len(),
{
    if s.len() == 0 {
        seq![]
    } else {
        let t = without_repeats(s.drop_last());
        if t.len() > 0 && t.last().1 == s.last().1 {
            t
        } else {
            t.push(s.last())
        }
    }
}

/// The views of a list of applications.
pub open spec fn app_views(v: Seq<(String, String)>) -> Seq<Named> {
    v.map_values(|a: (String, String)| (a.0@, a.1@))
}

fn show(p: &Process, euid: u32) -> (r: Option<(String, String)>)
    ensures
        match r {
            Some(a) => shown(*p, euid as int) == Some((a.0@, a.1@)),
            None => shown(*p, euid as int) is None,
        },
{
    let parsed: Option<(u32, String, bool)> = match &p.status {
        Some(text) => linux_parse_status(text.as_str()),
        None => None,
    };
    match parsed {
        Some((uid, comm, zombie)) => {
            if zombie || uid != euid || linux_skip_comm(comm.as_str()) {
                return None;
            }
            let display: bool = match &p.environ {
                Some(e) => linux_proc_environ_has_display(e.as_slice()),
                None => false,
            };
            if !display || !p.has_exe {
                return None;
            }
            Some((linux_display_name_for_pid(&p.cmdline, comm.as_str()), u64_text(p.pid as u64)))
        },
        None => None,
    }
}

fn stands_before(a: &(String, String), b: &(String, String)) -> (r: bool)
    ensures
        r == app_precedes((a.0@, a.1@), (b.0@, b.1@)),
{
    let ka: Vec<char> = chars(to_lowercase(a.0.as_str()).as_str());
    let kb: Vec<char> = chars(to_lowercase(b.0.as_str()).as_str());
    if is_before(ka.as_slice(), kb.as_slice()) {
        return true;
    }
    if !same(ka.as_slice(), kb.as_slice()) {
        return false;
    }
    let ia: Vec<char> = chars(a.1.as_str());
    let ib: Vec<char> = chars(b.1.as_str());
    is_before(ia.as_slice(), ib.as_slice())
}

fn insert_in_order(v: &mut Vec<(String, String)>, a: (String, String))
    ensures
        app_views(final(v)@) == app_views(old(v)@).insert(
            place(app_views(old(v)@), (a.0@, a.1@)) as int,
            (a.0@, a.1@),
        ),
{
    let ghost s = app_views(v@);
    let ghost x = (a.0@, a.1@);
    let mut i: usize = v.len();
    proof {
        assert(s.take(i as int) =~= s);
    }
    while i > 0 && stands_before(&a, &v[i - 1])
        invariant
            i <= v@.len(),
            s == app_views(v@),
            x == (a.0@, a.1@),
            place(s.take(i as int), x) == place(s, x),
        decreases i,
    {
        proof {
            assert(s.take(i as int).drop_last() =~= s.take(i - 1));
            assert(s.take(i as int).last() == s[i - 1]);
        }
        i -= 1;
    }
    proof {
        if i > 0 {
            assert(s.take(i as int).last() == s[i - 1]);
        }
        assert(place(s, x) == i);
    }
    v.insert(i, a);
    proof {
        assert(app_views(v@) =~= s.insert(i as int, x));
    }
}

/// The list of a user's running applications, in order: name and process identifier.
pub fn list_apps(processes: Vec<Process>, my_euid: u32) -> (r: Vec<(String, String)>)
    ensures
        app_views(r@) == without_repeats(in_order(all_shown(processes@, my_euid as int))),
{
    let mut out: Vec<(String, String)> = Vec::new();
    let mut i: usize = 0;
    proof {
        assert(processes@.take(0) =~= seq![]);
        assert(app_views(out@) =~= seq![]);
    }
    while i < processes.len()
        invariant
            i <= processes@.len(),
            app_views(out@) == in_order(all_shown(processes@.take(i as int), my_euid as int)),
        decreases processes@.len() - i,
    {
        proof {
            let t = processes@.take(i + 1);
            assert(t.drop_last() =~= processes@.take(i as int));
            assert(t.last() == processes@[i as int]);
            let sh = all_shown(processes@.take(i as int), my_euid as int);
            if let Some(a) = shown(processes@[i as int], my_euid as int) {
                assert(sh.push(a).drop_last() =~= sh);
            }
        }
        if let Some(a) = show(&processes[i], my_euid) {
            insert_in_order(&mut out, a);
        }
        i += 1;
    }
    proof {
        assert(processes@.take(i as int) =~= processes@);
    }
    dedup(out)
}

fn dedup(v: Vec<(String, String)>) -> (r: Vec<(String, String)>)
    ensures
        app_views(r@) == without_repeats(app_views(v@)),
{
    let ghost all = app_views(v@);
    let mut r: Vec<(String, String)> = Vec::new();
    proof {
        assert(app_views(r@) =~= seq![]);
        assert(all.take(0) =~= seq![]);
    }
    for a in it: v
        invariant
            it.seq() == v@,
            all == app_views(v@),
            app_views(r@) == without_repeats(all.take(it.index() as int)),
    {
        proof {
            let t = all.take(it.index() + 1);
            assert(t.drop_last() =~= all.take(it.index() as int));
            assert(t.last() == (a.0@, a.1@));
        }
        let repeated: bool = r.len() > 0 && equal(r[r.len() - 1].1.as_str(), a.1.as_str());
        proof {
            assert(app_views(r@.push(a)) =~= app_views(r@).push((a.0@, a.1@)));
        }
        if !repeated {
            r.push(a);
        }
    }
    proof {
        assert(all.take(v@.len() as int) =~= all);
    }
    r
}

/// Whether no item stands before an earlier one.
pub open spec fn is_ordered(s: Seq<Named>) -> bool {
    forall|i: int, j: int| 0 <= i < j < s.len() ==> !app_precedes(#[trigger] s[j], #[trigger] s[i])
}

/// Whether no two items have the same identifier.
pub open spec fn are_distinct(s: Seq<Named>) -> bool {
    forall|i: int, j: int| 0 <= i < j < s.len() ==> (#[trigger] s[i]).1 != (#[trigger] s[j]).1
}

proof fn lemma_app_order(a: Named, b: Named, c: Named)
    ensures
        !(app_precedes(a, b) && app_precedes(b, a)),
        app_precedes(a, b) && app_precedes(b, c) ==> app_precedes(a, c),
        app_precedes(a, b) && !app_precedes(c, b) ==> app_precedes(a, c),
{
    let (x, y, z) = (lower_text(a.0), lower_text(b.0), lower_text(c.0));
    lemma_precedes_total(x, y);
    lemma_precedes_total(y, z);
    lemma_precedes_total(x, z);
    lemma_precedes_total(a.1, b.1);
    lemma_precedes_total(b.1, c.1);
    lemma_precedes_total(a.1, c.1);
    if precedes(x, y) && precedes(y, z) {
        lemma_precedes_transitive(x, y, z);
    }
    if precedes(a.1, b.1) && precedes(b.1, c.1) {
        lemma_precedes_transitive(a.1, b.1, c.1);
    }
}

proof fn lemma_place(s: Seq<Named>, a: Named)
    requires
        is_ordered(s),
    ensures
        place(s, a) <= s.len(),
        forall|i: int| 0 <= i < place(s, a) ==> !app_precedes(a, #[trigger] s[i]),
        forall|i: int| place(s, a) <= i < s.len() ==> app_precedes(a, #[trigger] s[i]),
    decreases s.len(),
{
    if s.len() > 0 {
        if app_precedes(a, s.last()) {
            let t = s.drop_last();
            lemma_place(t, a);
            assert forall|i: int| 0 <= i < s.len() implies (i < place(s, a)) == !app_precedes(
                a,
                #[trigger] s[i],
            ) by {
                if i < t.len() {
                    assert(t[i] == s[i]);
                }
            }
        } else {
            assert forall|i: int| 0 <= i < s.len() implies !app_precedes(a, #[trigger] s[i]) by {
                if i < s.len() - 1 && app_precedes(a, s[i]) {
                    lemma_app_order(a, s[i], s.last());
                }
            }
        }
    }
}

proof fn lemma_in_order(s: Seq<Named>)
    ensures
        is_ordered(in_order(s)),
        in_order(s).len() == s.len(),
        in_order(s).to_multiset() == s.to_multiset(),
    decreases s.len(),
{
    if s.len() > 0 {
        let t = in_order(s.drop_last());
        let a = s.last();
        lemma_in_order(s.drop_last());
        lemma_place(t, a);
        let k = place(t, a) as int;
        let u = t.insert(k, a);
        assert forall|i: int, j: int| 0 <= i < j < u.len() implies !app_precedes(
            #[trigger] u[j],
            #[trigger] u[i],
        ) by {
            if j == k {
                assert(u[i] == t[i]);
            } else if i == k {
                assert(u[j] == t[j - 1]);
                lemma_app_order(a, t[j - 1], a);
            } else {
                let i2 = if i < k { i } else { i - 1 };
                let j2 = if j < k { j } else { j - 1 };
                assert(u[i] == t[i2] && u[j] == t[j2]);
            }
        }
        t.to_multiset_ensures();
        vstd::seq_lib::to_multiset_insert(t, k, a);
        vstd::seq_lib::to_multiset_build(s.drop_last(), a);
        assert(s.drop_last().push(a) =~= s);
    } else {
        assert(s =~= seq![]);
    }
}

proof fn lemma_without_repeats(s: Seq<Named>)
    ensures
        are_distinct(s) ==> without_repeats(s) == s,
        is_ordered(s) ==> is_ordered(without_repeats(s)),
        forall|i: int|
            0 <= i < without_repeats(s).len() ==> s.contains(#[trigger] without_repeats(s)[i]),
        without_repeats(s).len() <= s.len(),
    decreases s.len(),
{
    if s.len() > 0 {
        lemma_without_repeats(s.drop_last());
        let t = without_repeats(s.drop_last());
        let u = without_repeats(s);
        assert forall|i: int| 0 <= i < u.len() implies s.contains(#[trigger] u[i]) by {
            if i < t.len() {
                assert(s.drop_last().contains(t[i]));
                let k = choose|k: int| 0 <= k < s.drop_last().len() && s.drop_last()[k] == t[i];
                assert(s[k] == u[i]);
            } else {
                assert(s[s.len() - 1] == u[i]);
            }
        }
        if is_ordered(s) {
            assert(is_ordered(s.drop_last()));
            assert forall|i: int, j: int| 0 <= i < j < u.len() implies !app_precedes(
                #[trigger] u[j],
                #[trigger] u[i],
            ) by {
                if j == t.len() {
                    assert(s.drop_last().contains(t[i]));
                    let k = choose|k: int|
                        0 <= k < s.drop_last().len() && s.drop_last()[k] == t[i];
                    assert(s[k] == u[i]);
                    assert(u[j] == s[s.len() - 1]);
                }
            }
        }
        if are_distinct(s) {
            assert(are_distinct(s.drop_last()));
            assert(t == s.drop_last());
            if t.len() > 0 {
                assert(t.last() == s[s.len() - 2]);
            }
            assert(u =~= s);
        }
    }
}

/// An item more stands behind all those that it does not stand before, and before the
/// others: so items of which neither stands before the other keep their order.
pub proof fn law_order_is_stable(s: Seq<Named>, a: Named) -> (k: int)
    ensures
        0 <= k <= in_order(s).len(),
        in_order(s.push(a)) == in_order(s).insert(k, a),
        forall|i: int| 0 <= i < k ==> !app_precedes(a, #[trigger] in_order(s)[i]),
        forall|i: int| k <= i < in_order(s).len() ==> app_precedes(a, #[trigger] in_order(s)[i]),
        in_order(Seq::empty()) == Seq::<Named>::empty(),
{
    lemma_in_order(s);
    lemma_place(in_order(s), a);
    assert(s.push(a).drop_last() =~= s);
    assert(s.push(a).last() == a);
    place(in_order(s), a) as int
}

/// The list of applications is in order.
pub proof fn law_list_is_ordered(ps: Seq<Process>, euid: int)
    ensures
        is_ordered(without_repeats(in_order(all_shown(ps, euid)))),
{
    lemma_in_order(all_shown(ps, euid));
    lemma_without_repeats(in_order(all_shown(ps, euid)));
}

/// The list of applications shows each application of the user once, and nothing else,
/// where each process is told of once.
pub proof fn law_list_shows_each_application(ps: Seq<Process>, euid: int)
    requires
        forall|i: int, j: int|
            0 <= i < j < ps.len() ==> (#[trigger] ps[i]).pid != (#[trigger] ps[j]).pid,
    ensures
        without_repeats(in_order(all_shown(ps, euid))).to_multiset() == all_shown(
            ps,
            euid,
        ).to_multiset(),
{
    let s = all_shown(ps, euid);
    lemma_shown_distinct(ps, euid);
    lemma_in_order(s);
    lemma_distinct_in_order(s);
    lemma_without_repeats(in_order(s));
}

proof fn lemma_shown_distinct(ps: Seq<Process>, euid: int)
    requires
        forall|i: int, j: int|
            0 <= i < j < ps.len() ==> (#[trigger] ps[i]).pid != (#[trigger] ps[j]).pid,
    ensures
        are_distinct(all_shown(ps, euid)),
        forall|i: int|
            0 <= i < all_shown(ps, euid).len() ==> exists|k: int|
                0 <= k < ps.len() && (#[trigger] all_shown(ps, euid)[i]).1 == decimal(
                    (#[trigger] ps[k]).pid as nat,
                ),
    decreases ps.len(),
{
    if ps.len() > 0 {
        let rest = ps.drop_last();
        lemma_shown_distinct(rest, euid);
        let t = all_shown(rest, euid);
        let s = all_shown(ps, euid);
        assert forall|i: int| 0 <= i < s.len() implies exists|k: int|
            0 <= k < ps.len() && (#[trigger] s[i]).1 == decimal((#[trigger] ps[k]).pid as nat) by {
            if i < t.len() {
                assert(s[i] == t[i]);
                let k = choose|k: int|
                    0 <= k < rest.len() && t[i].1 == decimal((#[trigger] rest[k]).pid as nat);
                assert(ps[k] == rest[k]);
            } else {
                assert(s[i].1 == decimal(ps[ps.len() - 1].pid as nat));
            }
        }
        assert forall|i: int, j: int| 0 <= i < j < s.len() implies (#[trigger] s[i]).1 != (
        #[trigger] s[j]).1 by {
            assert(s[i] == t[i]);
            if j < t.len() {
                assert(s[j] == t[j]);
            } else {
                let k = choose|k: int|
                    0 <= k < rest.len() && t[i].1 == decimal((#[trigger] rest[k]).pid as nat);
                assert(ps[k] == rest[k]);
                assert(ps[k].pid != ps[ps.len() - 1].pid);
                lemma_decimal(ps[k].pid as nat);
                lemma_decimal(ps[ps.len() - 1].pid as nat);
            }
        }
    }
}

proof fn lemma_distinct_in_order(s: Seq<Named>)
    requires
        are_distinct(s),
    ensures
        are_distinct(in_order(s)),
        forall|i: int| 0 <= i < in_order(s).len() ==> s.contains(#[trigger] in_order(s)[i]),
    decreases s.len(),
{
    if s.len() > 0 {
        let rest = s.drop_last();
        assert(are_distinct(rest));
        lemma_distinct_in_order(rest);
        lemma_in_order(rest);
        let t = in_order(rest);
        let a = s.last();
        lemma_place(t, a);
        let k = place(t, a) as int;
        let u = t.insert(k, a);
        assert forall|i: int| 0 <= i < t.len() implies s.contains(#[trigger] t[i]) && t[i].1
            != a.1 by {
            assert(rest.contains(t[i]));
            let m = choose|m: int| 0 <= m < rest.len() && rest[m] == t[i];
            assert(s[m] == t[i]);
            assert(s[s.len() - 1] == a);
        }
        assert forall|i: int| 0 <= i < u.len() implies s.contains(#[trigger] u[i]) by {
            if i < k {
                assert(u[i] == t[i]);
            } else if i == k {
                assert(s[s.len() - 1] == u[i]);
            } else {
                assert(u[i] == t[i - 1]);
            }
        }
        assert forall|i: int, j: int| 0 <= i < j < u.len() implies (#[trigger] u[i]).1 != (
        #[trigger] u[j]).1 by {
            if j == k {
                assert(u[i] == t[i]);
            } else if i == k {
                assert(u[j] == t[j - 1]);
            } else {
                let i2 = if i < k { i } else { i - 1 };
                let j2 = if j < k { j } else { j - 1 };
                assert(u[i] == t[i2] && u[j] == t[j2]);
            }
        }
    }
}

} // verus!
