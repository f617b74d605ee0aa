//! The records of speakers: the database of enrolled voices, and the list of the
//! names that a session's speakers were given.

use vstd::prelude::*;
use serde_json::Value;
use crate::ids::{id_text, is_random_id, random_id, text_of_id};
use crate::json::{alike_within, array_value, bool_value, compact, get, get_mut, index_mut, json, json_parsed, json_pretty, json_seq, json_text, lemma_readable, map_get_mut, map_remove, may_read_as, member, member_or_null, members, moderate_within, nat_value, nested_within, object_members, object_value, parse, pretty, readable_within, reads_as, text_value, with, with_text, Json, Members, Parsed};
use crate::messages::{ok_json, ok_reply};
use crate::text::equal;

verus! {

broadcast use vstd::string::group_string_axioms;

/// A database without persons.
pub open spec fn empty_db() -> Json {
    Json::Object(map!["version"@ => Json::Int(1), "persons"@ => Json::Object(map![])])
}

/// What a database's file holds; an empty database where there is no file, or one
/// that is not JSON.
pub open spec fn db_in(text: Option<Seq<char>>) -> Json {
    match text {
        Some(t) => match json_parsed(t) {
            Parsed::Holds(v) => v,
            Parsed::Refused(_) => empty_db(),
        },
        None => empty_db(),
    }
}

/// The view of a text that may be missing.
pub open spec fn text_view(text: Option<&str>) -> Option<Seq<char>> {
    match text {
        Some(t) => Some(t@),
        None => None,
    }
}

/// Whether a text is that of a value, and reads as the value.
pub open spec fn stores(text: Seq<char>, v: Json) -> bool {
    &&& text == json_text(v)
    &&& may_read_as(text, v)
    &&& readable_within(v, 127) ==> reads_as(text, v)
}

/// Whether members can be set in the value: it is an object, or `null`, which
/// becomes one.
pub open spec fn takes_members(v: Json) -> bool {
    v is Object || v is Null
}

/// The persons of a database.
pub open spec fn persons(db: Json) -> Json {
    member_or_null(db, "persons"@)
}

/// The database with other persons.
pub open spec fn with_persons(db: Json, ps: Json) -> Json {
    Json::Object(object_members(db).insert("persons"@, ps))
}

/// A person who was enrolled once.
pub open spec fn new_person(name: Seq<char>, embedding: Json) -> Json {
    Json::Object(
        map!["name"@ => Json::Text(name), "embeddings"@ => Json::Array(seq![embedding])],
    )
}

/// A person with one more embedding.
pub open spec fn with_embedding(person: Json, embedding: Json) -> Json {
    Json::Object(
        object_members(person).insert(
            "embeddings"@,
            match member_or_null(person, "embeddings"@) {
                Json::Array(a) => Json::Array(a.push(embedding)),
                v => v,
            },
        ),
    )
}

/// A person under another name.
pub open spec fn with_name(person: Json, name: Seq<char>) -> Json {
    Json::Object(object_members(person).insert("name"@, Json::Text(name)))
}

/// Whether the record of a person in the database, where there is one, takes members,
/// and the database does.
pub open spec fn is_usable(db: Json, person_id: Seq<char>) -> bool {
    &&& takes_members(db)
    &&& match member(persons(db), person_id) {
        Some(person) => takes_members(person),
        None => true,
    }
}

/// The database after an enrolment. A person who is in it keeps the name and gets
/// the embedding; any other becomes a person with that name.
pub open spec fn enrolled(
    db: Json,
    name: Seq<char>,
    person_id: Seq<char>,
    embedding: Json,
) -> Json {
    with_persons(
        db,
        match persons(db) {
            Json::Object(m) => Json::Object(
                m.insert(
                    person_id,
                    if m.contains_key(person_id) {
                        with_embedding(m[person_id], embedding)
                    } else {
                        new_person(name, embedding)
                    },
                ),
            ),
            v => v,
        },
    )
}

/// The database without a person.
pub open spec fn without_person(db: Json, person_id: Seq<char>) -> Json {
    with_persons(db, Json::Object(object_members(persons(db)).remove(person_id)))
}

/// The database with a person under another name.
pub open spec fn renamed(db: Json, person_id: Seq<char>, name: Seq<char>) -> Json {
    with_persons(
        db,
        Json::Object(
            object_members(persons(db)).insert(
                person_id,
                with_name(object_members(persons(db))[person_id], name),
            ),
        ),
    )
}

fn no_persons() -> (r: Value)
    ensures
        json(r) == empty_db(),
        nested_within(json(r), 127),
{
    let m: Members = with(Members::new(), "version", nat_value(1));
    let m: Members = with(m, "persons", object_value(Members::new()));
    proof {
        assert(members(m) =~= map!["version"@ => Json::Int(1), "persons"@ => Json::Object(map![])]);
        assert(nested_within(Json::Object(map![]), 126));
        assert(nested_within(Json::Int(1), 126));
    }
    object_value(m)
}

/// The database in the text of its file; none is given where the file is missing or
/// unreadable.
pub fn read_speakers_db(text: Option<&str>) -> (r: Value)
    ensures
        json(r) == db_in(text_view(text)),
        nested_within(json(r), 127),
{
    match text {
        Some(t) => match parse(t) {
            Ok(v) => v,
            Err(_) => no_persons(),
        },
        None => no_persons(),
    }
}

/// The text of a database's file.
pub fn write_speakers_db(data: &Value) -> (r: String)
    ensures
        stores(r@, json(*data)),
{
    compact(data)
}

/// Enrols a voice under an identifier.
pub fn enroll_person(db: &mut Value, name: &str, person_id: &str, embedding: Value)
    requires
        is_usable(json(*old(db)), person_id@),
    ensures
        json(*final(db)) == enrolled(json(*old(db)), name@, person_id@, json(embedding)),
{
    let ghost e = json(embedding);
    if let Some(ps) = index_mut(db, "persons").as_object_mut() {
        if let Some(person) = map_get_mut(ps, person_id) {
            if let Some(a) = index_mut(person, "embeddings").as_array_mut() {
                let ghost earlier = a@;
                a.push(embedding);
                proof {
                    assert(json_seq(a@) =~= json_seq(earlier).push(e));
                }
            }
        } else {
            let mut list: Vec<Value> = Vec::new();
            list.push(embedding);
            proof {
                assert(json_seq(list@) =~= seq![e]);
            }
            let m: Members = with_text(Members::new(), "name", name);
            let m: Members = with(m, "embeddings", array_value(list));
            proof {
                assert(members(m) =~= map![
                    "name"@ => Json::Text(name@),
                    "embeddings"@ => Json::Array(seq![e]),
                ]);
            }
            ps.insert(person_id.to_owned(), object_value(m));
        }
    }
}

/// Takes a person out of the database, and tells whether the person was in it.
pub fn delete_person(db: &mut Value, person_id: &str) -> (r: bool)
    requires
        takes_members(json(*old(db))),
    ensures
        r == (member(persons(json(*old(db))), person_id@) is Some),
        r ==> json(*final(db)) == without_person(json(*old(db)), person_id@),
        !r ==> json(*final(db)) == with_persons(json(*old(db)), persons(json(*old(db)))),
{
    match index_mut(db, "persons").as_object_mut() {
        Some(ps) => {
            let ghost earlier = members(*ps);
            let removed: bool = map_remove(ps, person_id).is_some();
            proof {
                if !removed {
                    assert(earlier.remove(person_id@) =~= earlier);
                }
            }
            removed
        },
        None => false,
    }
}

/// Gives a person another name, and tells whether the person is in the database.
pub fn rename_person(db: &mut Value, person_id: &str, name: &str) -> (r: bool)
    requires
        is_usable(json(*old(db)), person_id@),
    ensures
        r == (member(persons(json(*old(db))), person_id@) is Some),
        r ==> json(*final(db)) == renamed(json(*old(db)), person_id@, name@),
        !r ==> json(*final(db)) == with_persons(json(*old(db)), persons(json(*old(db)))),
{
    if let Some(person) = get_mut(index_mut(db, "persons"), person_id) {
        let entry: &mut Value = index_mut(person, "name");
        *entry = text_value(name.to_owned());
        true
    } else {
        false
    }
}

/// Whether the record of a person in the database, where there is one, takes members,
/// and the database does.
pub fn usable(db: &Value, person_id: &str) -> (r: bool)
    ensures
        r == is_usable(json(*db), person_id@),
{
    if !(db.is_object() || db.is_null()) {
        return false;
    }
    match get(db, "persons") {
        Some(ps) => match get(ps, person_id) {
            Some(person) => person.is_object() || person.is_null(),
            None => true,
        },
        None => true,
    }
}

/// A change of the database: the new text of its file, where it is to be written,
/// and the reply.
pub struct Change {
    pub text: Option<String>,
    pub reply: Value,
}

/// Whether a change is what enrolling a voice under an identifier gives.
pub open spec fn is_enrolment(
    change: Option<Change>,
    db: Json,
    name: Seq<char>,
    person_id: Seq<char>,
    embedding: Json,
) -> bool {
    match change {
        Some(c) => {
            &&& is_usable(db, person_id)
            &&& c.text matches Some(t) && stores(t@, enrolled(db, name, person_id, embedding))
            &&& json(c.reply) == Json::Object(
                map!["ok"@ => Json::Bool(true), "person_id"@ => Json::Text(person_id)],
            )
        },
        None => !is_usable(db, person_id),
    }
}

/// Enrols a voice under an identifier in the database of a file. There is no result
/// where the file holds JSON in which the record cannot stand.
pub fn enroll_speaker_as(
    text: Option<&str>,
    name: &str,
    person_id: &str,
    embedding: Value,
) -> (r: Option<Change>)
    ensures
        is_enrolment(r, db_in(text_view(text)), name@, person_id@, json(embedding)),
{
    let mut db: Value = read_speakers_db(text);
    if !usable(&db, person_id) {
        return None;
    }
    enroll_person(&mut db, name, person_id, embedding);
    let m: Members = with(Members::new(), "ok", bool_value(true));
    let m: Members = with_text(m, "person_id", person_id);
    proof {
        assert(members(m) =~= map![
            "ok"@ => Json::Bool(true),
            "person_id"@ => Json::Text(person_id@),
        ]);
    }
    Some(Change { text: Some(write_speakers_db(&db)), reply: object_value(m) })
}

/// Enrols a voice in the database of a file: under the identifier that is given, or
/// else under a random one.
pub fn enroll_speaker(
    text: Option<&str>,
    name: &str,
    person_id: Option<&str>,
    embedding: Value,
) -> (r: Option<Change>)
    ensures
        match person_id {
            Some(p) => is_enrolment(r, db_in(text_view(text)), name@, p@, json(embedding)),
            None => exists|id: u128|
                is_random_id(id) && is_enrolment(
                    r,
                    db_in(text_view(text)),
                    name@,
                    #[trigger] id_text(id),
                    json(embedding),
                ),
        },
{
    match person_id {
        Some(p) => enroll_speaker_as(text, name, p, embedding),
        None => {
            let id: u128 = random_id();
            let p: String = text_of_id(id);
            let r: Option<Change> = enroll_speaker_as(text, name, p.as_str(), embedding);
            proof {
                assert(is_enrolment(r, db_in(text_view(text)), name@, id_text(id), json(embedding)));
            }
            r
        },
    }
}

/// Takes a person out of the database of a file. The file is written only where the
/// person was in it. There is no result where the file holds JSON that is neither an
/// object nor `null`.
pub fn delete_speaker(text: Option<&str>, person_id: &str) -> (r: Option<Change>)
    ensures
        match r {
            Some(c) => {
                let db = db_in(text_view(text));
                let known = member(persons(db), person_id@) is Some;
                &&& takes_members(db)
                &&& json(c.reply) == ok_json(known)
                &&& match c.text {
                    Some(t) => known && stores(t@, without_person(db, person_id@)),
                    None => !known,
                }
            },
            None => !takes_members(db_in(text_view(text))),
        },
{
    let mut db: Value = read_speakers_db(text);
    if !(db.is_object() || db.is_null()) {
        return None;
    }
    let removed: bool = delete_person(&mut db, person_id);
    let text: Option<String> = if removed {
        Some(write_speakers_db(&db))
    } else {
        None
    };
    Some(Change { text, reply: ok_reply(removed) })
}

/// Gives a person in the database of a file another name. The file is written only
/// where the person is in it. There is no result where the file holds JSON in which
/// the name cannot stand.
pub fn rename_speaker(text: Option<&str>, person_id: &str, name: &str) -> (r: Option<Change>)
    ensures
        match r {
            Some(c) => {
                let db = db_in(text_view(text));
                let known = member(persons(db), person_id@) is Some;
                &&& is_usable(db, person_id@)
                &&& json(c.reply) == ok_json(known)
                &&& match c.text {
                    Some(t) => known && stores(t@, renamed(db, person_id@, name@)),
                    None => !known,
                }
            },
            None => !is_usable(db_in(text_view(text)), person_id@),
        },
{
    let mut db: Value = read_speakers_db(text);
    if !usable(&db, person_id) {
        return None;
    }
    let ok: bool = rename_person(&mut db, person_id, name);
    let text: Option<String> = if ok {
        Some(write_speakers_db(&db))
    } else {
        None
    };
    Some(Change { text, reply: ok_reply(ok) })
}

/// The position of the first entry with the identifier, or the number of entries.
pub open spec fn find_entry(entries: Seq<Json>, id: Seq<char>) -> nat
    decreases entries.len(),
{
    if entries.len() == 0 || member(entries[0], "id"@) == Some(Json::Text(id)) {
        0
    } else {
        1 + find_entry(entries.drop_first(), id)
    }
}

/// The entry of a speaker in the list of names.
pub open spec fn entry(id: Seq<char>, name: Seq<char>) -> Json {
    Json::Object(map!["id"@ => Json::Text(id), "name"@ => Json::Text(name)])
}

/// The list with the name of a speaker: set in the first entry of the speaker, or in
/// a new one at the end.
pub open spec fn named(entries: Seq<Json>, id: Seq<char>, name: Seq<char>) -> Seq<Json> {
    let i = find_entry(entries, id) as int;
    if i < entries.len() {
        entries.update(i, with_name(entries[i], name))
    } else {
        entries.push(entry(id, name))
    }
}

/// Whether a text is that of a list of entries, and reads as the list.
pub open spec fn lists(text: Seq<char>, entries: Seq<Json>) -> bool {
    let v = Json::Array(entries);
    &&& text == json_pretty(v)
    &&& may_read_as(text, v)
    &&& readable_within(v, 127) ==> reads_as(text, v)
}

proof fn lemma_find_entry(entries: Seq<Json>, id: Seq<char>, i: int)
    requires
        0 <= i <= entries.len(),
        forall|j: int| 0 <= j < i ==> member(#[trigger] entries[j], "id"@) != Some(Json::Text(id)),
        i < entries.len() ==> member(entries[i], "id"@) == Some(Json::Text(id)),
    ensures
        find_entry(entries, id) == i,
    decreases entries.len(),
{
    if i > 0 {
        let rest = entries.drop_first();
        assert(member(entries[0], "id"@) != Some(Json::Text(id)));
        assert forall|j: int| 0 <= j < i - 1 implies member(#[trigger] rest[j], "id"@) != Some(
            Json::Text(id),
        ) by {
            assert(rest[j] == entries[j + 1]);
        }
        lemma_find_entry(rest, id, i - 1);
    }
}

fn has_id(e: &Value, id: &str) -> (r: bool)
    ensures
        r == (member(json(*e), "id"@) == Some(Json::Text(id@))),
{
    match get(e, "id") {
        Some(v) => match v.as_str() {
            Some(s) => equal(s, id),
            None => false,
        },
        None => false,
    }
}

/// Sets the name of a speaker in the list of names.
pub fn name_speaker(entries: &mut Vec<Value>, speaker_id: &str, name: &str)
    ensures
        json_seq(final(entries)@) == named(json_seq(old(entries)@), speaker_id@, name@),
{
    let ghost earlier = json_seq(entries@);
    let mut i: usize = 0;
    while i < entries.len() && !has_id(&entries[i], speaker_id)
        invariant
            i <= entries@.len(),
            json_seq(entries@) == earlier,
            forall|j: int|
                0 <= j < i ==> member(#[trigger] earlier[j], "id"@) != Some(Json::Text(speaker_id@)),
        decreases entries@.len() - i,
    {
        i += 1;
    }
    proof {
        lemma_find_entry(earlier, speaker_id@, i as int);
    }
    if i < entries.len() {
        let e: &mut Value = &mut entries[i];
        if let Some(obj) = e.as_object_mut() {
            obj.insert("name".to_owned(), text_value(name.to_owned()));
        }
        proof {
            assert(json_seq(entries@) =~= named(earlier, speaker_id@, name@));
        }
    } else {
        let m: Members = with_text(Members::new(), "id", speaker_id);
        let m: Members = with_text(m, "name", name);
        proof {
            assert(members(m) =~= map![
                "id"@ => Json::Text(speaker_id@),
                "name"@ => Json::Text(name@),
            ]);
        }
        entries.push(object_value(m));
        proof {
            assert(json_seq(entries@) =~= named(earlier, speaker_id@, name@));
        }
    }
}

/// Sets the name of a speaker in the list of names of a file, and gives the new text
/// of the file. A file that is missing, or that is no JSON array, is left alone.
pub fn update_speaker(text: Option<&str>, speaker_id: &str, name: &str) -> (r: Option<String>)
    ensures
        match r {
            Some(t) => {
                &&& text matches Some(s) && json_parsed(s@) matches Parsed::Holds(Json::Array(a))
                    && lists(t@, named(a, speaker_id@, name@))
            },
            None => !(text matches Some(s) && json_parsed(s@) matches Parsed::Holds(
                Json::Array(_),
            )),
        },
{
    match text {
        Some(s) => match parse(s) {
            Ok(v) => {
                let mut v: Value = v;
                if let Some(entries) = v.as_array_mut() {
                    name_speaker(entries, speaker_id, name);
                    Some(pretty(&v))
                } else {
                    None
                }
            },
            Err(_) => None,
        },
        None => None,
    }
}

/// Two databases that differ in the record of one person at most.
pub open spec fn same_but_for(db: Json, other: Json, person_id: Seq<char>) -> bool {
    &&& forall|k: Seq<char>|
        k != person_id ==> #[trigger] member(persons(other), k) == member(persons(db), k)
    &&& forall|k: Seq<char>| k != "persons"@ ==> #[trigger] member(other, k) == member(db, k)
}

/// Enrolling an unknown person adds a record with the name and the embedding, and
/// changes nothing else.
pub proof fn law_enrolling_adds_the_person(
    db: Json,
    name: Seq<char>,
    person_id: Seq<char>,
    embedding: Json,
)
    requires
        persons(db) is Object,
        member(persons(db), person_id) is None,
    ensures
        member(persons(enrolled(db, name, person_id, embedding)), person_id) == Some(
            new_person(name, embedding),
        ),
        member(
            member_or_null(
                member_or_null(enrolled(db, name, person_id, embedding), "persons"@),
                person_id,
            ),
            "embeddings"@,
        ) == Some(Json::Array(seq![embedding])),
        member(
            member_or_null(
                member_or_null(enrolled(db, name, person_id, embedding), "persons"@),
                person_id,
            ),
            "name"@,
        ) == Some(Json::Text(name)),
        same_but_for(db, enrolled(db, name, person_id, embedding), person_id),
{
    reveal_strlit("name");
    reveal_strlit("embeddings");
    assert("name"@.len() != "embeddings"@.len());
}

/// Enrolling a known person again keeps the name and every embedding, adds the new
/// one at the end, and changes nothing else.
pub proof fn law_enrolling_again_keeps_the_name(
    db: Json,
    name: Seq<char>,
    person_id: Seq<char>,
    embedding: Json,
    earlier: Seq<Json>,
)
    requires
        member(persons(db), person_id) matches Some(p) && member(p, "embeddings"@) == Some(
            Json::Array(earlier),
        ),
    ensures
        member(persons(enrolled(db, name, person_id, embedding)), person_id) matches Some(p)
            && member(p, "embeddings"@) == Some(Json::Array(earlier.push(embedding))) && member(
            p,
            "name"@,
        ) == member(member_or_null(persons(db), person_id), "name"@),
        same_but_for(db, enrolled(db, name, person_id, embedding), person_id),
{
    reveal_strlit("name");
    reveal_strlit("embeddings");
    assert("name"@.len() != "embeddings"@.len());
}

/// Deleting a person who was just enrolled for the first time gives the database back.
pub proof fn law_deleting_undoes_enrolling(
    db: Json,
    name: Seq<char>,
    person_id: Seq<char>,
    embedding: Json,
)
    requires
        persons(db) is Object,
        member(persons(db), person_id) is None,
    ensures
        without_person(enrolled(db, name, person_id, embedding), person_id) == db,
{
    let e = enrolled(db, name, person_id, embedding);
    let m = object_members(persons(db));
    assert(m.insert(person_id, new_person(name, embedding)).remove(person_id) =~= m);
    assert(object_members(without_person(e, person_id)) =~= object_members(db));
}

/// Deleting a person leaves no record of the person, and changes nothing else.
pub proof fn law_deleting_removes_the_person(db: Json, person_id: Seq<char>)
    requires
        member(persons(db), person_id) is Some,
    ensures
        member(persons(without_person(db, person_id)), person_id) is None,
        same_but_for(db, without_person(db, person_id), person_id),
{
}

/// Renaming a person sets the name, keeps the rest of the record, and changes nothing
/// else.
pub proof fn law_renaming_sets_only_the_name(db: Json, person_id: Seq<char>, name: Seq<char>)
    requires
        member(persons(db), person_id) is Some,
    ensures
        member(persons(renamed(db, person_id, name)), person_id) matches Some(p) && member(
            p,
            "name"@,
        ) == Some(Json::Text(name)) && forall|k: Seq<char>|
            k != "name"@ ==> #[trigger] member(p, k) == member(
                member_or_null(persons(db), person_id),
                k,
            ),
        same_but_for(db, renamed(db, person_id, name), person_id),
{
}

/// An enrolment in a readable database leaves it readable.
pub proof fn law_enrolling_keeps_the_database_readable(
    db: Json,
    name: Seq<char>,
    person_id: Seq<char>,
    embedding: Json,
)
    requires
        readable_within(db, 127),
        readable_within(embedding, 123),
    ensures
        readable_within(enrolled(db, name, person_id, embedding), 127),
{
    let e = enrolled(db, name, person_id, embedding);
    let ps = persons(e);
    assert(readable_within(persons(db), 126));
    if let Json::Object(m) = persons(db) {
        let p = object_members(ps)[person_id];
        if m.contains_key(person_id) {
            let old_p = m[person_id];
            assert(readable_within(old_p, 125));
            let em = member_or_null(old_p, "embeddings"@);
            assert(readable_within(em, 124));
            let new_em = object_members(p)["embeddings"@];
            assert(readable_within(new_em, 124)) by {
                if let Json::Array(a) = em {
                    assert forall|i: int| 0 <= i < a.push(embedding).len() implies readable_within(
                        #[trigger] a.push(embedding)[i],
                        123,
                    ) by {
                        if i < a.len() {
                            assert(readable_within(a[i], 123));
                        }
                    }
                }
            }
            let pm = object_members(p);
            assert forall|k: Seq<char>| pm.contains_key(k) implies readable_within(
                #[trigger] pm[k],
                124,
            ) by {
                if k != "embeddings"@ {
                    assert(object_members(old_p).contains_key(k));
                    assert(readable_within(object_members(old_p)[k], 124));
                }
            }
        } else {
            let em = Json::Array(seq![embedding]);
            assert(readable_within(em, 124));
            let pm = object_members(p);
            assert forall|k: Seq<char>| pm.contains_key(k) implies readable_within(
                #[trigger] pm[k],
                124,
            ) by {
                if k != "embeddings"@ {
                    assert(pm[k] == Json::Text(name));
                }
            }
        }
        assert(readable_within(p, 125));
        let m2 = object_members(ps);
        assert forall|k: Seq<char>| m2.contains_key(k) implies readable_within(
            #[trigger] m2[k],
            125,
        ) by {
            if k != person_id {
                assert(readable_within(m[k], 125));
            }
        }
        assert(readable_within(ps, 126));
    }
    let em = object_members(e);
    assert forall|k: Seq<char>| em.contains_key(k) implies readable_within(
        #[trigger] em[k],
        126,
    ) by {
        if k != "persons"@ {
            assert(readable_within(object_members(db)[k], 126));
        }
    }
}

/// The name that a person was enrolled under is read from the stored database: it is
/// the person's name in later sessions.
pub proof fn law_enrolled_name_is_read_back(
    text: Seq<char>,
    db: Json,
    name: Seq<char>,
    person_id: Seq<char>,
    embedding: Json,
)
    requires
        persons(db) is Object,
        member(persons(db), person_id) is None,
        nested_within(db, 127),
        moderate_within(db, 127),
        readable_within(embedding, 123),
        stores(text, enrolled(db, name, person_id, embedding)),
    ensures
        member(
            member_or_null(persons(db_in(Some(text))), person_id),
            "name"@,
        ) == Some(Json::Text(name)),
{
    lemma_readable(db, 127);
    law_enrolling_keeps_the_database_readable(db, name, person_id, embedding);
    let e = enrolled(db, name, person_id, embedding);
    let w = db_in(Some(text));
    assert(alike_within(e, w, 127));
    assert(object_members(e).contains_key("persons"@));
    assert(alike_within(persons(e), persons(w), 126));
    let p = new_person(name, embedding);
    assert(object_members(persons(e)).contains_key(person_id));
    let q = object_members(persons(w))[person_id];
    assert(object_members(persons(e))[person_id] == p);
    assert(alike_within(p, q, 125));
    assert(object_members(p).contains_key("name"@));
    reveal_strlit("name");
    reveal_strlit("embeddings");
    assert("name"@.len() != "embeddings"@.len());
    assert(alike_within(object_members(p)["name"@], object_members(q)["name"@], 124));
}

/// The name that a person was given is read from the stored database.
pub proof fn law_new_name_is_read_back(
    text: Seq<char>,
    db: Json,
    person_id: Seq<char>,
    name: Seq<char>,
)
    requires
        member(persons(db), person_id) is Some,
        readable_within(renamed(db, person_id, name), 127),
        stores(text, renamed(db, person_id, name)),
    ensures
        member(
            member_or_null(persons(db_in(Some(text))), person_id),
            "name"@,
        ) == Some(Json::Text(name)),
{
    let e = renamed(db, person_id, name);
    let w = db_in(Some(text));
    assert(alike_within(e, w, 127));
    assert(object_members(e).contains_key("persons"@));
    assert(alike_within(persons(e), persons(w), 126));
    assert(object_members(persons(e)).contains_key(person_id));
    let p = object_members(persons(e))[person_id];
    let q = object_members(persons(w))[person_id];
    assert(alike_within(p, q, 125));
    assert(object_members(p).contains_key("name"@));
    assert(alike_within(object_members(p)["name"@], object_members(q)["name"@], 124));
}

/// A person who was deleted is not read from the stored database, so that deleting the
/// person once more is refused: the request is answered, with `false`, and nothing is
/// written.
pub proof fn law_second_delete_is_refused(text: Seq<char>, db: Json, person_id: Seq<char>)
    requires
        takes_members(db),
        member(persons(db), person_id) is Some,
        stores(text, without_person(db, person_id)),
    ensures
        takes_members(db_in(Some(text))),
        member(persons(db_in(Some(text))), person_id) is None,
{
    let e = without_person(db, person_id);
    assert(object_members(e).contains_key("persons"@));
    match json_parsed(text) {
        Parsed::Holds(w) => {
            assert(alike_within(e, w, 127));
            assert(alike_within(persons(e), persons(w), 126));
        },
        Parsed::Refused(_) => {
            reveal_strlit("version");
            reveal_strlit("persons");
            assert(persons(empty_db()) == Json::Object(map![]));
        },
    }
}

/// The list of names has the name that a speaker was given, in the first entry of the
/// speaker; the other entries stay.
pub proof fn law_named_speaker_has_the_name(entries: Seq<Json>, id: Seq<char>, name: Seq<char>)
    ensures
        ({
            let i = find_entry(entries, id) as int;
            let after = named(entries, id, name);
            &&& find_entry(after, id) == i
            &&& i < after.len()
            &&& member(after[i], "id"@) == Some(Json::Text(id))
            &&& member(after[i], "name"@) == Some(Json::Text(name))
            &&& forall|j: int| 0 <= j < entries.len() && j != i ==> after[j] == entries[j]
        }),
{
    reveal_strlit("id");
    reveal_strlit("name");
    assert("id"@.len() != "name"@.len());
    lemma_first_entry(entries, id);
    let i = find_entry(entries, id) as int;
    lemma_find_entry(named(entries, id, name), id, i);
}

/// The name that a speaker was given is read from the stored list, in the first entry of
/// the speaker.
pub proof fn law_listed_name_is_read_back(
    text: Seq<char>,
    entries: Seq<Json>,
    id: Seq<char>,
    name: Seq<char>,
)
    requires
        lists(text, named(entries, id, name)),
        readable_within(Json::Array(named(entries, id, name)), 127),
    ensures
        json_parsed(text) matches Parsed::Holds(Json::Array(read)) && find_entry(entries, id)
            < read.len() && member(read[find_entry(entries, id) as int], "name"@) == Some(
            Json::Text(name),
        ),
{
    law_named_speaker_has_the_name(entries, id, name);
    let after = named(entries, id, name);
    let i = find_entry(entries, id) as int;
    if let Parsed::Holds(Json::Array(read)) = json_parsed(text) {
        assert(alike_within(Json::Array(after), Json::Array(read), 127));
        assert(alike_within(after[i], read[i], 126));
        let m = object_members(after[i]);
        assert(m.contains_key("name"@));
        assert(alike_within(m["name"@], object_members(read[i])["name"@], 125));
    }
}

proof fn lemma_first_entry(entries: Seq<Json>, id: Seq<char>)
    ensures
        find_entry(entries, id) <= entries.len(),
        forall|j: int|
            0 <= j < find_entry(entries, id) ==> member(#[trigger] entries[j], "id"@) != Some(
                Json::Text(id),
            ),
        find_entry(entries, id) < entries.len() ==> member(
            entries[find_entry(entries, id) as int],
            "id"@,
        ) == Some(Json::Text(id)),
    decreases entries.len(),
{
    if entries.len() > 0 && member(entries[0], "id"@) != Some(Json::Text(id)) {
        let rest = entries.drop_first();
        lemma_first_entry(rest, id);
        assert forall|j: int| 0 <= j < find_entry(entries, id) implies member(
            #[trigger] entries[j],
            "id"@,
        ) != Some(Json::Text(id)) by {
            if j > 0 {
                assert(rest[j - 1] == entries[j]);
            }
        }
    }
}

} // verus!
