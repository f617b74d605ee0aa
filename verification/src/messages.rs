//! The JSON messages that the programs exchange with the user interface and
//! with the pipeline.

use vstd::prelude::*;
use vstd::string::StringExecFns;
use serde_json::Value;
use std::time::SystemTime;
use crate::clock::epoch_secs;
use crate::json::{bool_value, compact, exact_within, json, json_parsed, json_text, lemma_exact, member, members, object_value, with, with_text, Json, Members, Parsed};
use crate::number::digit_char;

verus! {

broadcast use vstd::string::group_string_axioms;

/// A request of a client to rename a speaker.
pub struct SpeakerUpdate {
    pub speaker_id: String,
    pub name: String,
}

/// A reply that tells whether a request was granted.
pub open spec fn ok_json(ok: bool) -> Json {
    Json::Object(map!["ok"@ => Json::Bool(ok)])
}

/// The reply that tells whether a request was granted.
pub fn ok_reply(ok: bool) -> (r: Value)
    ensures
        json(r) == ok_json(ok),
{
    let m: Members = with(Members::new(), "ok", bool_value(ok));
    proof {
        assert(members(m) =~= map!["ok"@ => Json::Bool(ok)]);
    }
    object_value(m)
}

/// How much an entry of the log matters.
#[derive(Clone, Copy)]
pub enum Level {
    Info,
    Warning,
}

impl Level {
    pub open spec fn text(self) -> Seq<char> {
        match self {
            Level::Info => "info"@,
            Level::Warning => "warning"@,
        }
    }

    /// The name of the level.
    pub fn name(self) -> (r: &'static str)
        ensures
            r@ == self.text(),
    {
        match self {
            Level::Info => "info",
            Level::Warning => "warning",
        }
    }
}

/// An entry of the system's log.
pub struct Log {
    pub level: Level,
    pub event: String,
}

impl Log {
    /// Whether the entry has this level and this text.
    pub open spec fn says(self, level: Level, event: Seq<char>) -> bool {
        self.level == level && self.event@ == event
    }
}

/// An entry of a fixed text.
pub(crate) fn log(level: Level, event: &str) -> (r: Log)
    ensures
        r.says(level, event@),
{
    Log { level, event: event.to_owned() }
}

/// An entry of a fixed text and a detail after it.
pub(crate) fn log_with(level: Level, event: &str, detail: &str) -> (r: Log)
    ensures
        r.says(level, event@ + detail@),
{
    let mut s: String = event.to_owned();
    s.append(detail);
    Log { level, event: s }
}

/// A line of a log, and the program that it comes from.
pub open spec fn log_json(process: Seq<char>, line: Seq<char>) -> Json {
    Json::Object(map!["process"@ => Json::Text(process), "line"@ => Json::Text(line)])
}

/// The event that hands a line of a log to the user interface.
pub fn log_event(process: &str, line: &str) -> (r: Value)
    ensures
        json(r) == log_json(process@, line@),
{
    let m: Members = with_text(Members::new(), "process", process);
    let m: Members = with_text(m, "line", line);
    proof {
        assert(members(m) =~= map!["process"@ => Json::Text(process@), "line"@ => Json::Text(line@)]);
    }
    object_value(m)
}

/// Two decimal digits.
pub open spec fn two_digits(n: int) -> Seq<char> {
    seq![digit_char(n / 10), digit_char(n % 10)]
}

/// The time of day, `hh:mm:ss`, at a number of seconds since midnight of some day.
pub open spec fn clock_text(secs: int) -> Seq<char> {
    two_digits(secs / 3600 % 24) + seq![':'] + two_digits(secs / 60 % 60) + seq![':'] + two_digits(
        secs % 60,
    )
}

fn push_two_digits(s: &mut String, n: u64)
    requires
        n < 100,
    ensures
        final(s)@ == old(s)@ + two_digits(n as int),
{
    let a: u8 = (n / 10) as u8;
    let b: u8 = (n % 10) as u8;
    s.push((48 + a) as char);
    s.push((48 + b) as char);
    proof {
        assert(s@ =~= old(s)@ + two_digits(n as int));
    }
}

/// The time of day, `hh:mm:ss`.
pub fn clock(secs: u64) -> (r: String)
    ensures
        r@ == clock_text(secs as int),
{
    let mut s: String = String::new();
    push_two_digits(&mut s, secs / 3600 % 24);
    s.push(':');
    push_two_digits(&mut s, secs / 60 % 60);
    s.push(':');
    push_two_digits(&mut s, secs % 60);
    proof {
        assert(s@ =~= clock_text(secs as int));
    }
    s
}

/// An entry of the system's log.
pub open spec fn system_json(level: Seq<char>, secs: int, event: Seq<char>) -> Json {
    Json::Object(
        map![
            "level"@ => Json::Text(level),
            "timestamp"@ => Json::Text(clock_text(secs)),
            "event"@ => Json::Text(event),
        ],
    )
}

/// The event that hands an entry of the system's log to the user interface: a log
/// line of the process `system` whose text is itself an object.
pub fn system_event(level: &str, secs: u64, event: &str) -> (r: Value)
    ensures
        json(r) == log_json("system"@, json_text(system_json(level@, secs as int, event@))),
{
    let m: Members = with_text(Members::new(), "level", level);
    let m: Members = with_text(m, "timestamp", clock(secs).as_str());
    let m: Members = with_text(m, "event", event);
    proof {
        assert(members(m) =~= map![
            "level"@ => Json::Text(level@),
            "timestamp"@ => Json::Text(clock_text(secs as int)),
            "event"@ => Json::Text(event@),
        ]);
    }
    let v: Value = object_value(m);
    log_event("system", compact(&v).as_str())
}

/// The event that hands an entry of the system's log to the user interface, with the
/// time of the present moment.
pub fn emit_system(entry: &Log) -> (r: Value)
    ensures
        exists|secs: u64|
            json(r) == log_json(
                "system"@,
                json_text(#[trigger] system_json(entry.level.text(), secs as int, entry.event@)),
            ),
{
    let secs: u64 = epoch_secs(&SystemTime::now());
    system_event(entry.level.name(), secs, entry.event.as_str())
}

/// A change of the recorder's state.
pub open spec fn status_json(state: Seq<char>) -> Json {
    Json::Object(map!["type"@ => Json::Text("status"@), "state"@ => Json::Text(state)])
}

/// The event that tells clients of a change of the recorder's state.
pub fn status_event(state: &str) -> (r: Value)
    ensures
        json(r) == status_json(state@),
{
    let m: Members = with_text(Members::new(), "type", "status");
    let m: Members = with_text(m, "state", state);
    proof {
        assert(members(m) =~= map![
            "type"@ => Json::Text("status"@),
            "state"@ => Json::Text(state@),
        ]);
    }
    object_value(m)
}

/// A speaker's new name.
pub open spec fn speaker_update_json(speaker_id: Seq<char>, name: Seq<char>) -> Json {
    Json::Object(
        map![
            "type"@ => Json::Text("speaker_update"@),
            "speaker_id"@ => Json::Text(speaker_id),
            "name"@ => Json::Text(name),
        ],
    )
}

/// The event that tells clients of a speaker's new name.
pub fn speaker_update_event(u: &SpeakerUpdate) -> (r: Value)
    ensures
        json(r) == speaker_update_json(u.speaker_id@, u.name@),
{
    let m: Members = with_text(Members::new(), "type", "speaker_update");
    let m: Members = with_text(m, "speaker_id", u.speaker_id.as_str());
    let m: Members = with_text(m, "name", u.name.as_str());
    proof {
        assert(members(m) =~= map![
            "type"@ => Json::Text("speaker_update"@),
            "speaker_id"@ => Json::Text(u.speaker_id@),
            "name"@ => Json::Text(u.name@),
        ]);
    }
    object_value(m)
}

/// A command of the pipeline with one argument.
pub open spec fn command_json(cmd: Seq<char>, key: Seq<char>, argument: Seq<char>) -> Json {
    Json::Object(map!["cmd"@ => Json::Text(cmd)].insert(key, Json::Text(argument)))
}

fn command(cmd: &str, key: &str, argument: &str) -> (r: Value)
    ensures
        json(r) == command_json(cmd@, key@, argument@),
{
    let m: Members = with_text(Members::new(), "cmd", cmd);
    let m: Members = with_text(m, key, argument);
    proof {
        assert(members(m) =~= map!["cmd"@ => Json::Text(cmd@)].insert(key@, Json::Text(argument@)));
    }
    object_value(m)
}

/// Asks the pipeline to fetch the diarization model.
pub fn prefetch_command(hf_token: &str) -> (r: Value)
    ensures
        json(r) == command_json("prefetch_diarizer"@, "hf_token"@, hf_token@),
{
    command("prefetch_diarizer", "hf_token", hf_token)
}

/// Asks the pipeline to work in a mode.
pub fn set_pipeline_mode(mode: &str) -> (r: Value)
    ensures
        json(r) == command_json("set_mode"@, "mode"@, mode@),
{
    command("set_mode", "mode", mode)
}

/// Asks the pipeline to process an audio file.
pub fn import_audio_file(path: &str) -> (r: Value)
    ensures
        json(r) == command_json("process_audio_file"@, "path"@, path@),
{
    command("process_audio_file", "path", path)
}

/// A command as a line of the pipeline's standard input. It is one line: the only
/// line feed ends it. What stands before the line feed reads as the command.
pub fn command_line(cmd: &Value) -> (r: String)
    ensures
        r@ == json_text(json(*cmd)).push('\n'),
        forall|i: int| 0 <= i < r@.len() - 1 ==> r@[i] != '\n',
        exact_within(json(*cmd), 127) ==> json_parsed(r@.drop_last()) == Parsed::Holds(json(*cmd)),
{
    let mut s: String = compact(cmd);
    let ghost body = s@;
    proof {
        if exact_within(json(*cmd), 127) {
            lemma_exact(json(*cmd), json(*cmd), 127);
            if let Parsed::Holds(w) = json_parsed(body) {
                lemma_exact(json(*cmd), w, 127);
            }
        }
    }
    s.push('\n');
    proof {
        assert(s@.drop_last() =~= body);
        assert forall|i: int| 0 <= i < s@.len() - 1 implies s@[i] != '\n' by {
            assert(s@[i] == body[i]);
            assert(body.contains(body[i]));
        }
    }
    s
}

/// The commands of the pipeline are exact, so each is read back from its line as it
/// was sent.
pub proof fn law_commands_are_exact(cmd: Seq<char>, key: Seq<char>, argument: Seq<char>)
    ensures
        exact_within(command_json(cmd, key, argument), 127),
{
    let m = map!["cmd"@ => Json::Text(cmd)].insert(key, Json::Text(argument));
    assert forall|k: Seq<char>| m.contains_key(k) implies exact_within(#[trigger] m[k], 126) by {
        assert(m[k] is Text);
    }
}

/// The time of day is written as hours, minutes and seconds of two digits each, with colons
/// between them: read again, they are the hour of the day, the minute of the hour and the
/// second of the minute.
pub proof fn law_clock_reads_the_time(secs: int)
    requires
        secs >= 0,
    ensures
        ({
            let t = clock_text(secs);
            &&& t.len() == 8
            &&& t[2] == ':' && t[5] == ':'
            &&& forall|i: int|
                0 <= i < 8 && i != 2 && i != 5 ==> '0' <= #[trigger] t[i] <= '9'
            &&& 10 * (t[0] as int - 48) + (t[1] as int - 48) == (secs / 3600) % 24
            &&& 10 * (t[3] as int - 48) + (t[4] as int - 48) == (secs / 60) % 60
            &&& 10 * (t[6] as int - 48) + (t[7] as int - 48) == secs % 60
        }),
{
}

/// The messages say what they are about under their keys, and nothing else.
pub proof fn law_messages_have_their_members(a: Seq<char>, b: Seq<char>, secs: int, k: Seq<char>)
    ensures
        member(log_json(a, b), "process"@) == Some(Json::Text(a)),
        member(log_json(a, b), "line"@) == Some(Json::Text(b)),
        k != "process"@ && k != "line"@ ==> member(log_json(a, b), k) is None,
        member(system_json(a, secs, b), "level"@) == Some(Json::Text(a)),
        member(system_json(a, secs, b), "timestamp"@) == Some(Json::Text(clock_text(secs))),
        member(system_json(a, secs, b), "event"@) == Some(Json::Text(b)),
        k != "level"@ && k != "timestamp"@ && k != "event"@ ==> member(
            system_json(a, secs, b),
            k,
        ) is None,
        member(status_json(a), "type"@) == Some(Json::Text("status"@)),
        member(status_json(a), "state"@) == Some(Json::Text(a)),
        k != "type"@ && k != "state"@ ==> member(status_json(a), k) is None,
        member(speaker_update_json(a, b), "type"@) == Some(Json::Text("speaker_update"@)),
        member(speaker_update_json(a, b), "speaker_id"@) == Some(Json::Text(a)),
        member(speaker_update_json(a, b), "name"@) == Some(Json::Text(b)),
        k != "type"@ && k != "speaker_id"@ && k != "name"@ ==> member(
            speaker_update_json(a, b),
            k,
        ) is None,
{
    reveal_strlit("process");
    reveal_strlit("line");
    reveal_strlit("level");
    reveal_strlit("timestamp");
    reveal_strlit("event");
    reveal_strlit("type");
    reveal_strlit("state");
    reveal_strlit("speaker_id");
    reveal_strlit("name");
    assert("process"@[0] != "line"@[0]);
    assert("level"@[0] != "event"@[0]);
    assert("timestamp"@[0] != "event"@[0] && "timestamp"@[0] != "level"@[0]);
    assert("type"@[0] != "state"@[0]);
    assert("type"@[0] != "speaker_id"@[0]);
    assert("name"@[0] != "type"@[0] && "name"@[0] != "speaker_id"@[0]);
}

/// A command has its name and its one argument, and nothing else.
pub proof fn law_command_has_its_argument(
    cmd: Seq<char>,
    key: Seq<char>,
    argument: Seq<char>,
    k: Seq<char>,
)
    ensures
        key != "cmd"@ ==> member(command_json(cmd, key, argument), "cmd"@) == Some(Json::Text(cmd)),
        member(command_json(cmd, key, argument), key) == Some(Json::Text(argument)),
        k != "cmd"@ && k != key ==> member(command_json(cmd, key, argument), k) is None,
{
}

/// An entry of the log says what its level and its text are, and the levels have their names.
pub proof fn law_entries_say_their_text(l: Log, level: Level, event: Seq<char>)
    ensures
        l.says(level, event) <==> l.level == level && l.event@ == event,
        Level::Info.text() == "info"@,
        Level::Warning.text() == "warning"@,
{
}

} // verus!
