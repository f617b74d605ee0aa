//! Joining, choosing, listing and printing applications, said of the texts' characters.

use vstd::prelude::*;
use crate::apps::{app_text, apps_text, escaped, escaped_char, ids_in, join, listed, not_blank, RunningApp};
use crate::processes::Named;
use crate::text::{split, trim, Class};
use crate::text_laws::law_separators_part_the_pieces;

verus! {

broadcast use vstd::string::group_string_axioms;

/// One part stands alone, and each further one comes behind a separator.
pub proof fn law_separators_stand_between(parts: Seq<Seq<char>>, part: Seq<char>, sep: Seq<char>)
    ensures
        join(Seq::empty(), sep) == Seq::<char>::empty(),
        join(seq![part], sep) == part,
        parts.len() > 0 ==> join(parts.push(part), sep) == join(parts, sep) + sep + part,
    decreases parts.len(),
{
    if parts.len() > 0 {
        let all = parts.push(part);
        let rest = parts.drop_first();
        assert(all.drop_first() =~= rest.push(part));
        law_separators_stand_between(rest, part, sep);
        if parts.len() == 1 {
            assert(rest =~= Seq::<Seq<char>>::empty());
            assert(rest.push(part) =~= seq![part]);
        }
        assert(join(all, sep) =~= join(parts, sep) + sep + part);
    }
}

/// A piece counts where something is left of it without the white space around it, and that
/// is what counts.
pub proof fn law_blank_pieces_do_not_count(pieces: Seq<Seq<char>>, piece: Seq<char>)
    ensures
        not_blank(Seq::empty()) == Seq::<Seq<char>>::empty(),
        trim(piece, Class::Space).len() == 0 ==> not_blank(pieces.push(piece)) == not_blank(pieces),
        trim(piece, Class::Space).len() > 0 ==> not_blank(pieces.push(piece)) == not_blank(
            pieces,
        ).push(trim(piece, Class::Space)),
{
    assert(pieces.push(piece).drop_last() =~= pieces);
    assert(pieces.push(piece).last() == piece);
}

proof fn lemma_not_blank_first(piece: Seq<char>, pieces: Seq<Seq<char>>)
    ensures
        not_blank(seq![piece] + pieces) == not_blank(seq![piece]) + not_blank(pieces),
    decreases pieces.len(),
{
    let all = seq![piece] + pieces;
    if pieces.len() == 0 {
        assert(all =~= seq![piece]);
        assert(not_blank(seq![piece]) + not_blank(pieces) =~= not_blank(seq![piece]));
    } else {
        lemma_not_blank_first(piece, pieces.drop_last());
        assert(all.drop_last() =~= seq![piece] + pieces.drop_last());
        assert(all.last() == pieces.last());
        assert(not_blank(all) =~= not_blank(seq![piece]) + not_blank(pieces));
    }
}

/// Commas part the identifiers of a list: up to the first comma stands one, unless it is
/// blank, and the others are those of the rest.
pub proof fn law_commas_part_the_identifiers(a: Seq<char>, b: Seq<char>)
    requires
        !a.contains(','),
    ensures
        trim(a, Class::Space).len() > 0 ==> ids_in(a) == seq![trim(a, Class::Space)],
        trim(a, Class::Space).len() == 0 ==> ids_in(a) == Seq::<Seq<char>>::empty(),
        ids_in(a.push(',') + b) == ids_in(a) + ids_in(b),
{
    law_separators_part_the_pieces(a, ',', b);
    law_blank_pieces_do_not_count(Seq::empty(), a);
    assert(Seq::empty().push(a) =~= seq![a]);
    let e = Seq::<Seq<char>>::empty();
    assert(e.push(trim(a, Class::Space)) =~= seq![trim(a, Class::Space)]);
    lemma_not_blank_first(a, split(b, ','));
}

/// An application is listed, behind those before it, where it has a place in the Dock, a name
/// and an identifier.
pub proof fn law_listed_applications(apps: Seq<RunningApp>, a: RunningApp)
    ensures
        listed(Seq::empty()) == Seq::<Named>::empty(),
        a.regular && a.name@.len() > 0 && a.bundle_id@.len() > 0 ==> listed(apps.push(a)) == listed(
            apps,
        ).push((a.name@, a.bundle_id@)),
        !a.regular || a.name@.len() == 0 || a.bundle_id@.len() == 0 ==> listed(apps.push(a))
            == listed(apps),
{
    assert(apps.push(a).drop_last() =~= apps);
    assert(apps.push(a).last() == a);
}

/// A text is escaped character by character: quotation marks and backslashes get a backslash,
/// and a character that is no control character stays.
pub proof fn law_characters_are_escaped(s: Seq<char>, c: char)
    requires
        c >= ' ',
        c != '"',
        c != '\\',
    ensures
        escaped(Seq::empty()) == Seq::<char>::empty(),
        escaped_char('"') == seq!['\\', '"'],
        escaped_char('\\') == seq!['\\', '\\'],
        escaped_char(c) == seq![c],
{
}

/// What is escaped is escaped at its place.
pub proof fn law_escaping_keeps_the_order(c: char, s: Seq<char>)
    ensures
        escaped(seq![c] + s) == escaped_char(c) + escaped(s),
{
    assert((seq![c] + s).drop_first() =~= s);
    assert((seq![c] + s)[0] == c);
}

/// A control character becomes its code in four hexadecimal digits.
pub proof fn law_control_characters_are_coded(c: char)
    requires
        c as int <= 31,
    ensures
        escaped_char(c).len() == 6,
        escaped_char(c).take(4) == seq!['\\', 'u', '0', '0'],
        escaped_char(c)[4] == if c as int >= 16 {
            '1'
        } else {
            '0'
        },
        escaped_char(c)[5] as int == if c as int % 16 >= 10 {
            'a' as int + c as int % 16 - 10
        } else {
            '0' as int + c as int % 16
        },
{
    assert(escaped_char(c).take(4) =~= seq!['\\', 'u', '0', '0']);
}

/// An application is printed as an object of its name and its identifier, and a list as an
/// array of these.
pub proof fn law_printed_applications(apps: Seq<Named>, a: Named)
    ensures
        app_text(a) == "{\"name\":\""@ + escaped(a.0) + "\",\"bundle_id\":\""@ + escaped(a.1)
            + seq!['"', '}'],
        apps_text(Seq::empty()) == seq!['[', ']'],
        apps_text(seq![a]) == seq!['['] + app_text(a) + seq![']'],
        apps.len() > 0 ==> apps_text(apps.push(a)) == apps_text(apps).drop_last() + seq![',']
            + app_text(a) + seq![']'],
{
    reveal_strlit("\"}");
    reveal_strlit("[");
    reveal_strlit("]");
    reveal_strlit(",");
    assert("\"}"@ =~= seq!['"', '}']);
    assert("["@ =~= seq!['[']);
    assert("]"@ =~= seq![']']);
    assert(","@ =~= seq![',']);
    let texts = apps.map_values(|x: Named| app_text(x));
    let none = Seq::<Named>::empty();
    assert(none.map_values(|x: Named| app_text(x)) =~= Seq::<Seq<char>>::empty());
    assert(seq![a].map_values(|x: Named| app_text(x)) =~= seq![app_text(a)]);
    assert(apps.push(a).map_values(|x: Named| app_text(x)) =~= texts.push(app_text(a)));
    law_separators_stand_between(texts, app_text(a), ","@);
    assert(apps_text(none) =~= seq!['[', ']']);
    if apps.len() > 0 {
        assert(apps_text(apps.push(a)) =~= apps_text(apps).drop_last() + seq![','] + app_text(a)
            + seq![']']);
    }
}

} // verus!
