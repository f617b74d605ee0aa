//! Which processes are shown as applications, and how, said of what the process file system
//! holds.

use vstd::prelude::*;
use crate::number::{all_digits, decimal, digits_value, is_digit, u32_value};
use crate::number_laws::{law_digits_are_an_integer, law_integers_are_digits};
use crate::processes::{all_shown, app_precedes, app_views, bytes_view, display_name, effective_uid, file_name, find_nul, has_ascii_prefix, has_display, is_entry, is_shell, is_zombie, last_component, last_field, names_display, pid_in, program, shown, status_in, without_repeats, Named, Process};
use crate::text::{find, has_prefix, lemma_find, lemma_precedes_total, lines, lossy_text, lower_text, precedes, split, trim, trim_start, words, Class};
use crate::text_laws::law_separators_part_the_pieces;

verus! {

broadcast use vstd::string::group_string_axioms;

/// Whether these bytes stand at a place.
pub open spec fn stands_at(bytes: Seq<u8>, i: int, part: Seq<u8>) -> bool {
    0 <= i && i + part.len() <= bytes.len() && bytes.subrange(i, i + part.len()) == part
}

/// The bytes of `DISPLAY=`.
pub open spec fn display_bytes() -> Seq<u8> {
    seq![68u8, 73, 83, 80, 76, 65, 89, 61]
}

/// The bytes of `WAYLAND_DISPLAY=`.
pub open spec fn wayland_display_bytes() -> Seq<u8> {
    seq![87u8, 65, 89, 76, 65, 78, 68, 95] + display_bytes()
}

proof fn lemma_entry_end(bytes: Seq<u8>, i: int, k: int) -> (j: int)
    requires
        0 <= i <= k <= bytes.len(),
        i == 0 || bytes[i - 1] == 0,
        forall|n: int| i <= n < k ==> bytes[n] != 0,
    ensures
        k <= j,
        is_entry(bytes, i, j),
    decreases bytes.len() - k,
{
    if k == bytes.len() || bytes[k] == 0 {
        k
    } else {
        lemma_entry_end(bytes, i, k + 1)
    }
}

proof fn lemma_prefix_bytes(bytes: Seq<u8>, i: int, j: int, name: Seq<char>, part: Seq<u8>)
    requires
        0 <= i <= j <= bytes.len(),
        name.len() == part.len(),
        forall|k: int| 0 <= k < part.len() ==> #[trigger] name[k] == part[k] as char && part[k] < 128,
    ensures
        has_ascii_prefix(bytes.subrange(i, j), name) <==> i + part.len() <= j && stands_at(
            bytes,
            i,
            part,
        ),
{
    let e = bytes.subrange(i, j);
    if has_ascii_prefix(e, name) {
        assert forall|k: int| 0 <= k < part.len() implies bytes[i + k] == #[trigger] part[k] by {
            assert(e[k] as char == name[k]);
            assert(e[k] == bytes[i + k]);
        }
        assert(bytes.subrange(i, i + part.len()) =~= part);
    }
    if i + part.len() <= j && stands_at(bytes, i, part) {
        assert forall|k: int| 0 <= k < name.len() implies e[k] as char == #[trigger] name[k] by {
            assert(bytes.subrange(i, i + part.len())[k] == part[k]);
            assert(e[k] == bytes[i + k]);
        }
    }
}

proof fn lemma_names()
    ensures
        "DISPLAY="@.len() == 8,
        forall|k: int|
            0 <= k < 8 ==> #[trigger] "DISPLAY="@[k] == display_bytes()[k] as char
                && display_bytes()[k] < 128,
        "WAYLAND_DISPLAY="@.len() == 16,
        forall|k: int|
            0 <= k < 16 ==> #[trigger] "WAYLAND_DISPLAY="@[k] == wayland_display_bytes()[k] as char
                && wayland_display_bytes()[k] < 128,
{
    reveal_strlit("DISPLAY=");
    reveal_strlit("WAYLAND_DISPLAY=");
}

/// Whether an entry starts at a place that sets the display: at the start or behind a NUL
/// byte, `DISPLAY=` or `WAYLAND_DISPLAY=` with a byte of a value behind it.
pub open spec fn display_at(environ: Seq<u8>, i: int) -> bool {
    &&& 0 <= i < environ.len()
    &&& i == 0 || environ[i - 1] == 0
    &&& (stands_at(environ, i, display_bytes()) && i + 8 < environ.len() && environ[i + 8] != 0) || (
    stands_at(environ, i, wayland_display_bytes()) && i + 16 < environ.len() && environ[i + 16] != 0)
}

proof fn lemma_display_at(environ: Seq<u8>, i: int)
    requires
        display_at(environ, i),
    ensures
        has_display(environ),
{
    lemma_names();
    let d = display_bytes();
    let w = wayland_display_bytes();
    let part = if stands_at(environ, i, d) && i + 8 < environ.len() && environ[i + 8] != 0 {
        d
    } else {
        w
    };
    let n = i + part.len() + 1;
    assert forall|k: int| i <= k < n implies environ[k] != 0 by {
        if k < i + part.len() {
            assert(environ.subrange(i, i + part.len())[k - i] == environ[k]);
        }
    }
    let j = lemma_entry_end(environ, i, n);
    lemma_prefix_bytes(environ, i, j, "DISPLAY="@, d);
    lemma_prefix_bytes(environ, i, j, "WAYLAND_DISPLAY="@, w);
    assert(names_display(environ.subrange(i, j)));
}

/// An environment names a display where an entry of it sets one, byte for byte.
pub proof fn law_display_is_named_in_an_entry(environ: Seq<u8>)
    ensures
        has_display(environ) <==> exists|i: int| display_at(environ, i),
{
    lemma_names();
    let d = display_bytes();
    let w = wayland_display_bytes();
    if has_display(environ) {
        let (i, j) = choose|i: int, j: int| #[trigger]
            is_entry(environ, i, j) && names_display(environ.subrange(i, j));
        lemma_prefix_bytes(environ, i, j, "DISPLAY="@, d);
        lemma_prefix_bytes(environ, i, j, "WAYLAND_DISPLAY="@, w);
        assert(display_at(environ, i));
    }
    if exists|i: int| display_at(environ, i) {
        let i = choose|i: int| display_at(environ, i);
        lemma_display_at(environ, i);
    }
}

/// A field of a status is what stands behind its key in the last line that begins with the
/// key, at place `i`; there is none where no line does.
pub proof fn law_last_line_has_the_field(
    ls: Seq<Seq<char>>,
    key: Seq<char>,
    i: int,
    value: Seq<char>,
)
    requires
        -1 <= i < ls.len(),
        i >= 0 ==> ls[i] == key + value,
        forall|j: int| i < j < ls.len() ==> !has_prefix(#[trigger] ls[j], key),
    ensures
        i >= 0 ==> last_field(ls, key) == Some(value),
        i == -1 ==> last_field(ls, key) is None,
    decreases ls.len(),
{
    if ls.len() > 0 {
        assert(ls.last() == ls[ls.len() - 1]);
        if i == ls.len() - 1 {
            assert(ls.last().take(key.len() as int) =~= key);
            assert(ls.last().skip(key.len() as int) =~= value);
        } else {
            let init = ls.drop_last();
            assert forall|j: int| i < j < init.len() implies !has_prefix(#[trigger] init[j], key) by {
                assert(init[j] == ls[j]);
            }
            law_last_line_has_the_field(init, key, i, value);
        }
    }
}

/// The effective user is the second word behind `Uid:` in the last such line that has two, at
/// place `i`, where that word is a number.
pub proof fn law_second_number_is_the_user(ls: Seq<Seq<char>>, i: int, value: Seq<char>)
    requires
        -1 <= i < ls.len(),
        i >= 0 ==> ls[i] == "Uid:"@ + value && words(value).len() >= 2,
        forall|j: int|
            i < j < ls.len() ==> !has_prefix(#[trigger] ls[j], "Uid:"@) || words(ls[j].skip(4)).len()
                < 2,
    ensures
        i >= 0 ==> effective_uid(ls) == u32_value(words(value)[1]),
        i == -1 ==> effective_uid(ls) is None,
    decreases ls.len(),
{
    reveal_strlit("Uid:");
    if ls.len() > 0 {
        assert(ls.last() == ls[ls.len() - 1]);
        if i == ls.len() - 1 {
            assert(ls.last().take(4) =~= "Uid:"@);
            assert(ls.last().skip(4) =~= value);
        } else {
            let init = ls.drop_last();
            assert forall|j: int| i < j < init.len() implies !has_prefix(
                #[trigger] init[j],
                "Uid:"@,
            ) || words(init[j].skip(4)).len() < 2 by {
                assert(init[j] == ls[j]);
            }
            law_second_number_is_the_user(init, i, value);
        }
    }
}

proof fn lemma_start_of(s: Seq<char>, k: int)
    requires
        0 <= k <= s.len(),
        forall|j: int| 0 <= j < k ==> Class::Space.has(#[trigger] s[j]),
        k < s.len() ==> !Class::Space.has(s[k]),
    ensures
        trim_start(s, Class::Space) == s.skip(k),
    decreases k,
{
    if k > 0 {
        let t = s.drop_first();
        assert(Class::Space.has(s[0]));
        assert forall|j: int| 0 <= j < k - 1 implies Class::Space.has(#[trigger] t[j]) by {
            assert(t[j] == s[j + 1]);
        }
        lemma_start_of(t, k - 1);
        assert(t.skip(k - 1) =~= s.skip(k));
    } else {
        assert(s.skip(0) =~= s);
    }
}

/// A process is a zombie where the first character of its state, at place `k` behind white
/// space, is a `Z`; one without a state is none.
pub proof fn law_zombies_are_in_state_z(ls: Seq<Seq<char>>, state: Seq<char>, k: int)
    requires
        0 <= k <= state.len(),
        forall|j: int| 0 <= j < k ==> Class::Space.has(#[trigger] state[j]),
        k < state.len() ==> !Class::Space.has(state[k]),
    ensures
        last_field(ls, "State:"@) == Some(state) ==> (is_zombie(ls) <==> k < state.len() && state[k]
            == 'Z'),
        last_field(ls, "State:"@) is None ==> !is_zombie(ls),
{
    reveal_strlit("Z");
    lemma_start_of(state, k);
    let t = state.skip(k);
    if k < state.len() {
        assert(t[0] == state[k]);
        if state[k] == 'Z' {
            assert(t.take(1) =~= "Z"@);
        } else if has_prefix(t, "Z"@) {
            assert(t.take(1)[0] == t[0]);
        }
    }
}

/// A status is understood where it gives a user and a name; the name comes without the white
/// space around it.
pub proof fn law_status_gives_user_and_name(text: Seq<char>)
    ensures
        status_in(text) is Some <==> effective_uid(lines(text)) is Some && last_field(
            lines(text),
            "Name:"@,
        ) is Some,
        status_in(text) matches Some((uid, name, zombie)) ==> Some(uid) == effective_uid(
            lines(text),
        ) && name == trim(last_field(lines(text), "Name:"@)->0, Class::Space) && zombie == is_zombie(
            lines(text),
        ),
{
}

proof fn lemma_split_last(path: Seq<char>, name: Seq<char>)
    requires
        !name.contains('/'),
    ensures
        split(path.push('/') + name, '/') == split(path, '/').push(name),
    decreases path.len(),
{
    lemma_find(path, '/');
    let k = find(path, '/') as int;
    let all = path.push('/') + name;
    if k < path.len() {
        let head = path.take(k);
        let tail = path.skip(k + 1);
        assert(!head.contains('/')) by {
            if head.contains('/') {
                let i = choose|i: int| 0 <= i < head.len() && head[i] == '/';
                assert(path[i] == '/');
            }
        }
        lemma_split_last(tail, name);
        law_separators_part_the_pieces(head, '/', tail);
        law_separators_part_the_pieces(head, '/', tail.push('/') + name);
        assert(head.push('/') + tail =~= path);
        assert(head.push('/') + (tail.push('/') + name) =~= all);
        assert(seq![head] + split(tail, '/').push(name) =~= (seq![head] + split(tail, '/')).push(
            name,
        ));
    } else {
        law_separators_part_the_pieces(path, '/', name);
        law_separators_part_the_pieces(name, '/', Seq::empty());
        assert(seq![path] + seq![name] =~= seq![path].push(name));
    }
}

/// The file name of a path is what stands behind its last slash, or all of it where it has
/// none. A slash or a `.` at the end does not count, and a path that ends in `..`, or names
/// nothing, has no file name.
pub proof fn law_file_name_is_behind_the_last_slash(path: Seq<char>, name: Seq<char>)
    requires
        !name.contains('/'),
        name.len() > 0,
        name != seq!['.'],
        name != seq!['.', '.'],
    ensures
        file_name(name) == Some(name),
        file_name(path.push('/') + name) == Some(name),
        file_name(path.push('/')) == file_name(path),
        file_name(path.push('/').push('.')) == file_name(path),
        file_name(path.push('/').push('.').push('.')) is None,
        file_name(Seq::empty()) is None,
{
    reveal_strlit(".");
    reveal_strlit("..");
    assert("."@ =~= seq!['.']);
    assert(".."@ =~= seq!['.', '.']);
    let e = Seq::<char>::empty();
    let none = Seq::<Seq<char>>::empty();
    law_separators_part_the_pieces(name, '/', e);
    law_separators_part_the_pieces(e, '/', e);
    assert(seq![name].drop_last() =~= none);
    assert(seq![e].drop_last() =~= none);
    assert(seq![name].last() == name);
    assert(seq![e].last() == e);
    lemma_split_last(path, name);
    assert(split(path, '/').push(name).last() == name);
    lemma_split_last(path, e);
    assert(path.push('/') + e =~= path.push('/'));
    assert(split(path, '/').push(e).drop_last() =~= split(path, '/'));
    assert(!seq!['.'].contains('/'));
    lemma_split_last(path, seq!['.']);
    assert(path.push('/') + seq!['.'] =~= path.push('/').push('.'));
    assert(split(path, '/').push(seq!['.']).drop_last() =~= split(path, '/'));
    assert(!seq!['.', '.'].contains('/'));
    lemma_split_last(path, seq!['.', '.']);
    assert(path.push('/') + seq!['.', '.'] =~= path.push('/').push('.').push('.'));
    assert(split(path, '/').push(seq!['.', '.']).last() == seq!['.', '.']);
    assert(last_component(none) is None);
}

proof fn lemma_nul(a: Seq<u8>, b: Seq<u8>)
    requires
        forall|i: int| 0 <= i < a.len() ==> #[trigger] a[i] != 0,
        b.len() > 0 ==> b[0] == 0,
    ensures
        find_nul(a + b) == a.len(),
    decreases a.len(),
{
    let s = a + b;
    if a.len() > 0 {
        let c = a.drop_first();
        assert(s[0] == a[0]);
        assert(s.drop_first() =~= c + b);
        assert forall|i: int| 0 <= i < c.len() implies #[trigger] c[i] != 0 by {
            assert(c[i] == a[i + 1]);
        }
        lemma_nul(c, b);
    } else {
        assert(s =~= b);
    }
}

/// The program of a command line is what stands before its first NUL byte.
pub proof fn law_program_is_the_first_argument(a: Seq<u8>, b: Seq<u8>)
    requires
        forall|i: int| 0 <= i < a.len() ==> #[trigger] a[i] != 0,
    ensures
        program(a) == a,
        program(a.push(0) + b) == a,
{
    let rest = seq![0u8] + b;
    lemma_nul(a, Seq::empty());
    lemma_nul(a, rest);
    assert(a + Seq::<u8>::empty() =~= a);
    assert(a + rest =~= a.push(0) + b);
    assert(a.take(a.len() as int) =~= a);
    assert((a + rest).take(a.len() as int) =~= a);
}

/// A process is shown under the file name of its program; without a command line, a program or
/// a file name, under the name in its status.
pub proof fn law_name_of_the_program_is_shown(cmdline: Seq<u8>, comm: Seq<char>)
    ensures
        display_name(None, comm) == comm,
        program(cmdline).len() == 0 ==> display_name(Some(cmdline), comm) == comm,
        program(cmdline).len() > 0 && file_name(lossy_text(program(cmdline))) is None
            ==> display_name(Some(cmdline), comm) == comm,
        program(cmdline).len() > 0 && file_name(lossy_text(program(cmdline))) is Some
            ==> display_name(Some(cmdline), comm) == file_name(lossy_text(program(cmdline)))->0,
{
}

/// The shells that are not shown, letter by letter.
pub proof fn law_shells(comm: Seq<char>)
    ensures
        is_shell(comm) <==> comm == seq!['s', 'h'] || comm == seq!['z', 's', 'h'] || comm == seq![
            'k',
            's',
            'h',
        ] || comm == seq!['b', 'a', 's', 'h'] || comm == seq!['d', 'a', 's', 'h'] || comm == seq![
            'f',
            'i',
            's',
            'h',
        ] || comm == seq!['t', 'c', 's', 'h'] || comm == seq!['m', 'k', 's', 'h'],
{
    reveal_strlit("sh");
    reveal_strlit("zsh");
    reveal_strlit("ksh");
    reveal_strlit("bash");
    reveal_strlit("dash");
    reveal_strlit("fish");
    reveal_strlit("tcsh");
    reveal_strlit("mksh");
    assert("sh"@ =~= seq!['s', 'h']);
    assert("zsh"@ =~= seq!['z', 's', 'h']);
    assert("ksh"@ =~= seq!['k', 's', 'h']);
    assert("bash"@ =~= seq!['b', 'a', 's', 'h']);
    assert("dash"@ =~= seq!['d', 'a', 's', 'h']);
    assert("fish"@ =~= seq!['f', 'i', 's', 'h']);
    assert("tcsh"@ =~= seq!['t', 'c', 's', 'h']);
    assert("mksh"@ =~= seq!['m', 'k', 's', 'h']);
}

/// The directory of a process has a name of digits, which is the number of the process; no
/// other name is that of a process.
pub proof fn law_processes_have_names_of_digits(name: Seq<char>)
    ensures
        pid_in(name) is Some <==> name.len() > 0 && (forall|i: int|
            0 <= i < name.len() ==> '0' <= #[trigger] name[i] <= '9') && digits_value(name)
            <= 0xffff_ffff,
        pid_in(name) is Some ==> pid_in(name) == Some(digits_value(name)),
{
    if forall|i: int| 0 <= i < name.len() ==> '0' <= #[trigger] name[i] <= '9' {
        if name.len() > 0 {
            law_digits_are_an_integer(name);
            assert('0' <= name[0] <= '9');
        }
        assert(all_digits(name));
    } else {
        if pid_in(name) is Some {
            assert forall|i: int| 0 <= i < name.len() implies '0' <= #[trigger] name[i] <= '9' by {
                assert(is_digit(name[i]));
            }
        }
    }
    if pid_in(name) is Some {
        law_integers_are_digits(name);
    }
}

/// A process is shown to a user exactly where it is the user's, no zombie and no shell, has an
/// executable, and names a display; it is shown with its name, and its number in decimals.
pub proof fn law_shown_processes(p: Process, euid: int)
    ensures
        shown(p, euid) is Some <==> {
            &&& p.status is Some
            &&& status_in(p.status->0@) is Some
            &&& (status_in(p.status->0@)->0).0 == euid
            &&& !is_shell((status_in(p.status->0@)->0).1)
            &&& !(status_in(p.status->0@)->0).2
            &&& p.environ is Some
            &&& has_display(p.environ->0@)
            &&& p.has_exe
        },
        shown(p, euid) matches Some(a) ==> a.1 == decimal(p.pid as nat) && a.0 == display_name(
            bytes_view(p.cmdline),
            (status_in(p.status->0@)->0).1,
        ),
        p.cmdline is None <==> bytes_view(p.cmdline) is None,
        p.cmdline matches Some(b) ==> bytes_view(p.cmdline) == Some(b@),
{
}

/// Each process adds its application, where it is shown, behind those of the processes before
/// it.
pub proof fn law_each_process_adds_its_application(ps: Seq<Process>, p: Process, euid: int)
    ensures
        all_shown(Seq::empty(), euid) == Seq::<Named>::empty(),
        shown(p, euid) is None ==> all_shown(ps.push(p), euid) == all_shown(ps, euid),
        shown(p, euid) matches Some(a) ==> all_shown(ps.push(p), euid) == all_shown(ps, euid).push(
            a,
        ),
{
    assert(ps.push(p).drop_last() =~= ps);
    assert(ps.push(p).last() == p);
}

/// The list goes by the names in lower case, and where these are the same, by the identifiers.
pub proof fn law_names_order_the_list(a: Named, b: Named)
    ensures
        precedes(lower_text(a.0), lower_text(b.0)) ==> app_precedes(a, b),
        lower_text(a.0) == lower_text(b.0) ==> (app_precedes(a, b) <==> precedes(a.1, b.1)),
        app_precedes(a, b) && lower_text(a.0) != lower_text(b.0) ==> precedes(
            lower_text(a.0),
            lower_text(b.0),
        ),
{
    lemma_precedes_total(lower_text(a.0), lower_text(b.0));
}

/// An item goes where its identifier is that of the item before it, and stays elsewhere.
pub proof fn law_repeats_go(s: Seq<Named>, a: Named)
    ensures
        without_repeats(Seq::empty()) == Seq::<Named>::empty(),
        ({
            let t = without_repeats(s);
            &&& t.len() > 0 && t.last().1 == a.1 ==> without_repeats(s.push(a)) == t
            &&& t.len() == 0 || t.last().1 != a.1 ==> without_repeats(s.push(a)) == t.push(a)
        }),
{
    assert(s.push(a).drop_last() =~= s);
    assert(s.push(a).last() == a);
}

/// The list that is handed out has the name and the identifier of each item, in their order.
pub proof fn law_applications_are_handed_out(v: Seq<(String, String)>)
    ensures
        app_views(v).len() == v.len(),
        forall|i: int|
            0 <= i < v.len() ==> (#[trigger] app_views(v)[i]).0 == v[i].0@ && app_views(v)[i].1
                == v[i].1@,
{
}

/// A path that is only `.` or `..` has no file name.
pub proof fn law_dots_are_no_file_name()
    ensures
        file_name(seq!['.']) is None,
        file_name(seq!['.', '.']) is None,
{
    reveal_strlit(".");
    reveal_strlit("..");
    assert("."@ =~= seq!['.']);
    assert(".."@ =~= seq!['.', '.']);
    let e = Seq::<char>::empty();
    assert(!seq!['.'].contains('/'));
    assert(!seq!['.', '.'].contains('/'));
    law_separators_part_the_pieces(seq!['.'], '/', e);
    law_separators_part_the_pieces(seq!['.', '.'], '/', e);
    assert(seq![seq!['.']].drop_last() =~= Seq::<Seq<char>>::empty());
    assert(seq![seq!['.']].last() == seq!['.']);
    assert(seq![seq!['.', '.']].last() == seq!['.', '.']);
    assert(last_component(Seq::<Seq<char>>::empty()) is None);
}

} // verus!
