//! What enrolling, renaming and deleting do to the records, said of the records' members.

use vstd::prelude::*;
use crate::json::{json, json_parsed, json_pretty, json_text, member, member_or_null, object_members, Json, Parsed};
use crate::messages::ok_json;
use crate::speakers::{db_in, enrolled, find_entry, is_enrolment, is_usable, lists, named, persons, renamed, stores, takes_members, text_view, with_persons, without_person, Change};

verus! {

broadcast use vstd::string::group_string_axioms;

/// An object has the members that it was made of, and nothing else has members.
pub proof fn law_members_of_objects(m: Map<Seq<char>, Json>, v: Json, key: Seq<char>)
    ensures
        m.contains_key(key) ==> member(Json::Object(m), key) == Some(m[key]) && member_or_null(
            Json::Object(m),
            key,
        ) == m[key],
        !m.contains_key(key) ==> member(Json::Object(m), key) is None && member_or_null(
            Json::Object(m),
            key,
        ) is Null,
        !(v is Object) ==> member(v, key) is None && member_or_null(v, key) is Null,
        object_members(Json::Object(m)) == m,
{
}

/// A person who was not in the database has a record after the enrolment: with the name, and
/// with the embedding that was given as the only one, whatever it is. Nothing else changes.
pub proof fn law_new_person_has_the_embedding(
    db: Json,
    m: Map<Seq<char>, Json>,
    name: Seq<char>,
    person_id: Seq<char>,
    embedding: Json,
)
    requires
        member(db, "persons"@) == Some(Json::Object(m)),
        !m.contains_key(person_id),
    ensures
        ({
            let after = enrolled(db, name, person_id, embedding);
            let person = member_or_null(member_or_null(after, "persons"@), person_id);
            &&& member(member_or_null(after, "persons"@), person_id) == Some(person)
            &&& member(person, "embeddings"@) == Some(Json::Array(seq![embedding]))
            &&& member(person, "name"@) == Some(Json::Text(name))
            &&& forall|k: Seq<char>|
                k != "name"@ && k != "embeddings"@ ==> #[trigger] member(person, k) is None
            &&& forall|k: Seq<char>|
                k != person_id ==> #[trigger] member(member_or_null(after, "persons"@), k)
                    == member(Json::Object(m), k)
            &&& forall|k: Seq<char>| k != "persons"@ ==> #[trigger] member(after, k) == member(db, k)
        }),
{
    reveal_strlit("name");
    reveal_strlit("embeddings");
    assert("name"@.len() != "embeddings"@.len());
}

/// A person who is in the database keeps the name and the rest of the record, and the list
/// of embeddings gets the new one at its end; where the record has no such list, none is made.
/// Nothing else changes.
pub proof fn law_known_person_gets_the_embedding(
    db: Json,
    m: Map<Seq<char>, Json>,
    name: Seq<char>,
    person_id: Seq<char>,
    embedding: Json,
)
    requires
        member(db, "persons"@) == Some(Json::Object(m)),
        m.contains_key(person_id),
    ensures
        ({
            let after = enrolled(db, name, person_id, embedding);
            let person = member_or_null(member_or_null(after, "persons"@), person_id);
            &&& member(member_or_null(after, "persons"@), person_id) == Some(person)
            &&& match member_or_null(m[person_id], "embeddings"@) {
                Json::Array(a) => member(person, "embeddings"@) == Some(
                    Json::Array(a.push(embedding)),
                ),
                v => member(person, "embeddings"@) == Some(v),
            }
            &&& forall|k: Seq<char>|
                k != "embeddings"@ ==> #[trigger] member(person, k) == member(m[person_id], k)
            &&& forall|k: Seq<char>|
                k != person_id ==> #[trigger] member(member_or_null(after, "persons"@), k)
                    == member(Json::Object(m), k)
            &&& forall|k: Seq<char>| k != "persons"@ ==> #[trigger] member(after, k) == member(db, k)
        }),
{
}

/// Where the database has no object of persons, an enrolment makes none.
pub proof fn law_no_persons_are_made_up(
    db: Json,
    name: Seq<char>,
    person_id: Seq<char>,
    embedding: Json,
)
    requires
        !(member(db, "persons"@) matches Some(Json::Object(_))),
    ensures
        ({
            let after = enrolled(db, name, person_id, embedding);
            &&& member(after, "persons"@) == Some(member_or_null(db, "persons"@))
            &&& forall|k: Seq<char>| k != "persons"@ ==> #[trigger] member(after, k) == member(db, k)
        }),
{
}

/// Deleting takes the one record out; renaming sets the one name. Nothing else changes.
pub proof fn law_one_record_changes(
    db: Json,
    m: Map<Seq<char>, Json>,
    person_id: Seq<char>,
    name: Seq<char>,
)
    requires
        member(db, "persons"@) == Some(Json::Object(m)),
        m.contains_key(person_id),
    ensures
        ({
            let less = without_person(db, person_id);
            &&& member(less, "persons"@) == Some(Json::Object(m.remove(person_id)))
            &&& forall|k: Seq<char>| k != "persons"@ ==> #[trigger] member(less, k) == member(db, k)
        }),
        ({
            let after = renamed(db, person_id, name);
            let person = member_or_null(member_or_null(after, "persons"@), person_id);
            &&& member(member_or_null(after, "persons"@), person_id) == Some(person)
            &&& member(person, "name"@) == Some(Json::Text(name))
            &&& forall|k: Seq<char>|
                k != "name"@ ==> #[trigger] member(person, k) == member(m[person_id], k)
            &&& forall|k: Seq<char>|
                k != person_id ==> #[trigger] member(member_or_null(after, "persons"@), k)
                    == member(Json::Object(m), k)
            &&& forall|k: Seq<char>| k != "persons"@ ==> #[trigger] member(after, k) == member(db, k)
        }),
{
}

/// A database that cannot be read has the version 1 and no persons; one that can be read is
/// what its file holds.
pub proof fn law_unreadable_database_is_empty(text: Seq<char>)
    ensures
        json_parsed(text) matches Parsed::Holds(v) ==> db_in(Some(text)) == v,
        json_parsed(text) matches Parsed::Refused(_) ==> db_in(Some(text)) == db_in(None),
        member(db_in(None), "version"@) == Some(Json::Int(1)),
        member(db_in(None), "persons"@) == Some(Json::Object(Map::empty())),
        forall|k: Seq<char>|
            k != "version"@ && k != "persons"@ ==> #[trigger] member(db_in(None), k) is None,
{
    reveal_strlit("version");
    reveal_strlit("persons");
    assert("version"@[0] != "persons"@[0]);
}

/// A record can stand in a database that is an object or `null`, unless something else than an
/// object or `null` stands in its place.
pub proof fn law_where_a_record_can_stand(db: Json, person_id: Seq<char>)
    ensures
        takes_members(db) <==> db is Object || db is Null,
        is_usable(db, person_id) <==> (db is Object || db is Null) && (member(
            member_or_null(db, "persons"@),
            person_id,
        ) is None || member_or_null(member_or_null(db, "persons"@), person_id) is Object
            || member_or_null(member_or_null(db, "persons"@), person_id) is Null),
{
}

/// An enrolment is written, as the text of the database after it, and answered with `ok` and
/// the identifier; it fails only where the record cannot stand.
pub proof fn law_enrolment_is_written_and_answered(
    change: Option<Change>,
    db: Json,
    name: Seq<char>,
    person_id: Seq<char>,
    embedding: Json,
)
    requires
        is_enrolment(change, db, name, person_id, embedding),
    ensures
        change is Some <==> is_usable(db, person_id),
        change matches Some(c) ==> {
            &&& c.text is Some
            &&& c.text->0@ == json_text(enrolled(db, name, person_id, embedding))
            &&& member(json(c.reply), "ok"@) == Some(Json::Bool(true))
            &&& member(json(c.reply), "person_id"@) == Some(Json::Text(person_id))
            &&& forall|k: Seq<char>|
                k != "ok"@ && k != "person_id"@ ==> #[trigger] member(json(c.reply), k) is None
        },
{
    reveal_strlit("ok");
    reveal_strlit("person_id");
    assert("ok"@.len() != "person_id"@.len());
}

/// What is stored is the text of the value; a list is stored with its lines indented.
pub proof fn law_stored_text(text: Seq<char>, v: Json, entries: Seq<Json>)
    ensures
        stores(text, v) ==> text == json_text(v),
        lists(text, entries) ==> text == json_pretty(Json::Array(entries)),
{
}

/// Naming a speaker sets the name in the speaker's first entry, at place `i`, and keeps the
/// rest of it; where no entry is the speaker's, and `i` is their number, one more with the
/// identifier and the name comes behind them. The other entries stay.
pub proof fn law_first_entry_gets_the_name(
    entries: Seq<Json>,
    id: Seq<char>,
    name: Seq<char>,
    i: int,
)
    requires
        0 <= i <= entries.len(),
        forall|j: int| 0 <= j < i ==> member(#[trigger] entries[j], "id"@) != Some(Json::Text(id)),
        i < entries.len() ==> member(entries[i], "id"@) == Some(Json::Text(id)),
    ensures
        ({
            let after = named(entries, id, name);
            &&& after.len() == if i < entries.len() {
                entries.len()
            } else {
                entries.len() + 1
            }
            &&& member(after[i], "name"@) == Some(Json::Text(name))
            &&& member(after[i], "id"@) == Some(Json::Text(id))
            &&& i < entries.len() ==> forall|k: Seq<char>|
                k != "name"@ ==> #[trigger] member(after[i], k) == member(entries[i], k)
            &&& i == entries.len() ==> forall|k: Seq<char>|
                k != "name"@ && k != "id"@ ==> #[trigger] member(after[i], k) is None
            &&& forall|j: int|
                0 <= j < entries.len() && j != i ==> #[trigger] after[j] == entries[j]
        }),
{
    reveal_strlit("id");
    reveal_strlit("name");
    assert("id"@.len() != "name"@.len());
    lemma_found(entries, id, i);
}

proof fn lemma_found(entries: Seq<Json>, id: Seq<char>, i: int)
    requires
        0 <= i <= entries.len(),
        forall|j: int| 0 <= j < i ==> member(#[trigger] entries[j], "id"@) != Some(Json::Text(id)),
        i < entries.len() ==> member(entries[i], "id"@) == Some(Json::Text(id)),
    ensures
        find_entry(entries, id) == i,
    decreases entries.len(),
{
    if i > 0 {
        let rest = entries.drop_first();
        assert(member(entries[0], "id"@) != Some(Json::Text(id)));
        assert forall|j: int| 0 <= j < i - 1 implies member(#[trigger] rest[j], "id"@) != Some(
            Json::Text(id),
        ) by {
            assert(rest[j] == entries[j + 1]);
        }
        lemma_found(rest, id, i - 1);
    }
}

/// The answer to a deletion and to a renaming is `ok` with whether the person was there, and
/// nothing else.
pub proof fn law_answer_says_whether(b: bool, k: Seq<char>)
    ensures
        member(ok_json(b), "ok"@) == Some(Json::Bool(b)),
        k != "ok"@ ==> member(ok_json(b), k) is None,
{
}

/// A deletion or a renaming of a person who is not there leaves the persons as they are.
pub proof fn law_unknown_person_changes_nothing(db: Json)
    ensures
        ({
            let after = with_persons(db, persons(db));
            &&& member(after, "persons"@) == Some(member_or_null(db, "persons"@))
            &&& forall|k: Seq<char>| k != "persons"@ ==> #[trigger] member(after, k) == member(db, k)
        }),
        persons(db) == member_or_null(db, "persons"@),
{
}

/// The text of a database that may be missing is that of its file.
pub proof fn law_text_of_the_database(text: &str)
    ensures
        text_view(None) is None,
        text_view(Some(text)) == Some(text@),
{
}

} // verus!
