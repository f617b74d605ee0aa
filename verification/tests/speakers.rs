use corpo_drone::speakers::{
    delete_person, delete_speaker, enroll_person, enroll_speaker, enroll_speaker_as, name_speaker,
    read_speakers_db, rename_person, rename_speaker, update_speaker, usable, write_speakers_db,
};
use serde_json::Value;

fn value(text: &str) -> Value {
    serde_json::from_str(text).unwrap()
}

const DB: &str =
    r#"{"persons":{"p1":{"embeddings":[[0.25,1.5]],"name":"Ann"},"p2":{"embeddings":[],"name":"Bob"}},"version":1}"#;

#[test]
fn a_missing_database_is_empty() {
    assert_eq!(read_speakers_db(None), value(r#"{"version":1,"persons":{}}"#));
}

#[test]
fn a_broken_database_is_empty() {
    assert_eq!(read_speakers_db(Some("{")), value(r#"{"version":1,"persons":{}}"#));
}

#[test]
fn a_database_is_what_its_file_holds() {
    assert_eq!(read_speakers_db(Some(DB)), value(DB));
    assert_eq!(read_speakers_db(Some("[1]")), value("[1]"));
}

#[test]
fn the_text_of_a_database_is_compact() {
    assert_eq!(write_speakers_db(&value(DB)), DB);
}

#[test]
fn enrolling_an_unknown_person_adds_it() {
    let c = enroll_speaker_as(Some(DB), "Cleo", "p3", value("[0.5]")).unwrap();
    let after = value(c.text.as_ref().unwrap());
    assert_eq!(after["persons"]["p3"], value(r#"{"name":"Cleo","embeddings":[[0.5]]}"#));
    assert_eq!(after["persons"]["p1"], value(DB)["persons"]["p1"]);
    assert_eq!(c.reply, value(r#"{"ok":true,"person_id":"p3"}"#));
}

#[test]
fn enrolling_a_known_person_keeps_the_name() {
    let c = enroll_speaker(Some(DB), "Other", Some("p1"), value("[2.0,3.0]")).unwrap();
    let after = value(c.text.as_ref().unwrap());
    assert_eq!(
        after["persons"]["p1"],
        value(r#"{"name":"Ann","embeddings":[[0.25,1.5],[2.0,3.0]]}"#)
    );
}

#[test]
fn enrolling_without_an_identifier_makes_one() {
    let c = enroll_speaker(None, "Ann", None, value("[0.5]")).unwrap();
    let id = c.reply["person_id"].as_str().unwrap().to_string();
    assert_eq!(id.len(), 36);
    let cs: Vec<char> = id.chars().collect();
    assert_eq!(cs[8], '-');
    assert_eq!(cs[13], '-');
    assert_eq!(cs[14], '4');
    assert_eq!(cs[18], '-');
    assert!("89ab".contains(cs[19]));
    assert_eq!(cs[23], '-');
    assert!(id.chars().all(|c| c == '-' || c.is_ascii_digit() || ('a'..='f').contains(&c)));
    let after = value(c.text.as_ref().unwrap());
    assert_eq!(after["persons"][&id]["name"], value("\"Ann\""));
    let d = enroll_speaker(None, "Ann", None, value("[0.5]")).unwrap();
    assert_ne!(d.reply["person_id"].as_str().unwrap(), id);
}

#[test]
fn an_enrolled_name_is_read_back() {
    let c = enroll_speaker_as(None, "Ann \"the\" \\ é\n", "p", value("[0.1,-2.5e-7]")).unwrap();
    let text = c.text.unwrap();
    let db = read_speakers_db(Some(&text));
    assert_eq!(db["persons"]["p"]["name"].as_str(), Some("Ann \"the\" \\ é\n"));
    assert_eq!(db["version"], value("1"));
}

#[test]
fn deleting_undoes_enrolling() {
    let c = enroll_speaker_as(Some(DB), "Cleo", "p3", value("[0.5]")).unwrap();
    let d = delete_speaker(Some(c.text.unwrap().as_str()), "p3").unwrap();
    assert_eq!(d.text.as_deref(), Some(DB));
    assert_eq!(d.reply, value(r#"{"ok":true}"#));
}

#[test]
fn deleting_a_stranger_writes_nothing() {
    let d = delete_speaker(Some(DB), "p9").unwrap();
    assert!(d.text.is_none());
    assert_eq!(d.reply, value(r#"{"ok":false}"#));
}

#[test]
fn deleting_removes_only_the_person() {
    let d = delete_speaker(Some(DB), "p1").unwrap();
    let after = value(&d.text.unwrap());
    assert!(after["persons"].get("p1").is_none());
    assert_eq!(after["persons"]["p2"], value(DB)["persons"]["p2"]);
}

#[test]
fn renaming_sets_only_the_name() {
    let c = rename_speaker(Some(DB), "p1", "Anna").unwrap();
    assert_eq!(c.reply, value(r#"{"ok":true}"#));
    let after = value(&c.text.unwrap());
    assert_eq!(after["persons"]["p1"], value(r#"{"name":"Anna","embeddings":[[0.25,1.5]]}"#));
    assert_eq!(after["persons"]["p2"], value(DB)["persons"]["p2"]);
}

#[test]
fn renaming_a_stranger_writes_nothing() {
    let c = rename_speaker(Some(DB), "p9", "X").unwrap();
    assert!(c.text.is_none());
    assert_eq!(c.reply, value(r#"{"ok":false}"#));
}

#[test]
fn a_database_of_another_shape_has_no_result() {
    assert!(enroll_speaker_as(Some("[1]"), "A", "p", value("[]")).is_none());
    assert!(delete_speaker(Some("7"), "p").is_none());
    assert!(rename_speaker(Some("\"x\""), "p", "A").is_none());
    let odd = r#"{"persons":{"p":5}}"#;
    assert!(!usable(&value(odd), "p"));
    assert!(usable(&value(odd), "q"));
    assert!(enroll_speaker_as(Some(odd), "A", "p", value("[]")).is_none());
    assert!(rename_speaker(Some(odd), "p", "A").is_none());
    assert!(delete_speaker(Some(odd), "p").is_some());
}

#[test]
fn a_database_without_persons_keeps_the_voice_out() {
    let c = enroll_speaker_as(Some("{}"), "A", "p", value("[]")).unwrap();
    assert_eq!(c.text.as_deref(), Some(r#"{"persons":null}"#));
    let c = enroll_speaker_as(Some("null"), "A", "p", value("[]")).unwrap();
    assert_eq!(c.text.as_deref(), Some(r#"{"persons":null}"#));
}

#[test]
fn a_person_without_a_list_gets_none() {
    let mut db = value(r#"{"persons":{"p":{"name":"A"}}}"#);
    enroll_person(&mut db, "B", "p", value("[1]"));
    assert_eq!(db, value(r#"{"persons":{"p":{"name":"A","embeddings":null}}}"#));
}

#[test]
fn persons_change_in_place() {
    let mut db = value(DB);
    assert!(rename_person(&mut db, "p2", "Rob"));
    assert_eq!(db["persons"]["p2"]["name"].as_str(), Some("Rob"));
    assert!(!rename_person(&mut db, "p7", "Rob"));
    assert!(delete_person(&mut db, "p2"));
    assert!(!delete_person(&mut db, "p2"));
    assert!(db["persons"].get("p2").is_none());
}

#[test]
fn a_missing_list_is_left_alone() {
    assert!(update_speaker(None, "s1", "Ann").is_none());
    assert!(update_speaker(Some("{}"), "s1", "Ann").is_none());
    assert!(update_speaker(Some("[1"), "s1", "Ann").is_none());
}

#[test]
fn the_first_entry_of_a_speaker_gets_the_name() {
    let text = r#"[{"id":"s0"},{"id":"s1","name":"S","x":1},{"id":"s1"},5]"#;
    let out = update_speaker(Some(text), "s1", "Ann").unwrap();
    assert_eq!(value(&out), value(r#"[{"id":"s0"},{"id":"s1","name":"Ann","x":1},{"id":"s1"},5]"#));
    assert!(out.contains("\n    \"id\": \"s0\""));
}

#[test]
fn a_new_speaker_gets_an_entry_at_the_end() {
    let out = update_speaker(Some("[]"), "s1", "Ann").unwrap();
    assert_eq!(out, "[\n  {\n    \"id\": \"s1\",\n    \"name\": \"Ann\"\n  }\n]");
    let again = update_speaker(Some(&out), "s1", "Bo").unwrap();
    assert_eq!(value(&again), value(r#"[{"id":"s1","name":"Bo"}]"#));
    let mut entries = vec![value("null")];
    name_speaker(&mut entries, "s2", "Cy");
    assert_eq!(entries, vec![value("null"), value(r#"{"id":"s2","name":"Cy"}"#)]);
}

#[test]
fn a_second_delete_is_refused() {
    let once = delete_speaker(Some(DB), "p1").unwrap();
    let again = delete_speaker(once.text.as_deref(), "p1").unwrap();
    assert_eq!(again.reply, value(r#"{"ok":false}"#));
    assert!(again.text.is_none());
}
