//! The web server: what a request does, and what it is answered.

use vstd::prelude::*;
use serde_json::Value;
use vstd::string::StringExecFns;
use crate::desktop_config::Platform;
use crate::json::{bool_value, json, member, members, nat_value, object_value, with, Json, Members};
use crate::messages::{ok_json, ok_reply, speaker_update_event, speaker_update_json, status_event, status_json, SpeakerUpdate};
use crate::recorder::{and, kill_capture_command, kill_capture_spec, kill_command, kill_spec, one, ProcessCommand, Refusal};
use crate::server_config::Args;
use crate::text::string_views;

verus! {

broadcast use vstd::string::group_string_axioms;

/// The body of an answer.
pub enum Body {
    Json(Value),
    Text(String),
}

/// An answer: its HTTP status, and its body.
pub struct Answer {
    pub status: u16,
    pub body: Body,
}

impl Answer {
    /// Whether the answer is that JSON value, with status 200.
    pub open spec fn gives(self, v: Json) -> bool {
        self.status == 200 && (self.body matches Body::Json(b) && json(b) == v)
    }

    /// Whether the answer is that text, with that status.
    pub open spec fn fails(self, status: int, text: Seq<char>) -> bool {
        self.status == status && (self.body matches Body::Text(b) && b@ == text)
    }
}

fn give(v: Value) -> (r: Answer)
    ensures
        r.gives(json(v)),
{
    Answer { status: 200, body: Body::Json(v) }
}

/// What the server knows of the processes around it.
#[derive(Clone, Copy)]
pub struct Server {
    pub recording: bool,
    /// The process of the pipeline; zero where none was started.
    pub python_pid: u32,
}

/// The state that is told to a client.
pub open spec fn server_json(recording: bool, ws_clients: int) -> Json {
    Json::Object(map!["recording"@ => Json::Bool(recording), "ws_clients"@ => Json::Int(ws_clients)])
}

impl Server {
    /// Nothing runs.
    pub fn new() -> (r: Server)
        ensures
            r == (Server { recording: false, python_pid: 0 }),
    {
        Server { recording: false, python_pid: 0 }
    }

    /// The answer to a question for the state.
    pub fn status(&self, ws_clients: usize) -> (r: Answer)
        ensures
            r.gives(server_json(self.recording, ws_clients as int)),
    {
        let m: Members = with(Members::new(), "recording", bool_value(self.recording));
        let m: Members = with(m, "ws_clients", nat_value(ws_clients as u64));
        proof {
            assert(members(m) =~= map![
                "recording"@ => Json::Bool(self.recording),
                "ws_clients"@ => Json::Int(ws_clients as int),
            ]);
        }
        give(object_value(m))
    }

    /// The capture that a request to record starts; while one runs, the answer that
    /// refuses the request.
    pub fn start(&self, args: &Args) -> (r: Result<ProcessCommand, Answer>)
        ensures
            match r {
                Ok(c) => !self.recording && c.runs(
                    args.capture_bin@,
                    seq!["--pipe"@, args.audio_pipe@],
                ),
                Err(a) => self.recording && a.fails(409, Refusal::AlreadyRecording.text()),
            },
    {
        if self.recording {
            let text: String = Refusal::AlreadyRecording.message();
            return Err(Answer { status: 409, body: Body::Text(text) });
        }
        let list: Vec<String> = and(one("--pipe"), args.audio_pipe.as_str());
        proof {
            assert(string_views(list@) =~= seq!["--pipe"@, args.audio_pipe@]);
        }
        Ok(ProcessCommand { program: args.capture_bin.as_str().to_owned(), args: list })
    }

    /// The capture was started: the message for the clients, and the answer.
    pub fn started(&mut self) -> (r: (Value, Answer))
        ensures
            *final(self) == (Server { recording: true, ..*old(self) }),
            json(r.0) == status_json("recording"@),
            r.1.gives(ok_json(true)),
    {
        self.recording = true;
        (status_event("recording"), give(ok_reply(true)))
    }

    /// The capture ended.
    pub fn capture_exited(&mut self)
        ensures
            *final(self) == (Server { recording: false, ..*old(self) }),
    {
        self.recording = false;
    }

    /// The command that ends the recording; while none runs, the answer that refuses the
    /// request.
    pub fn stop(&self) -> (r: Result<ProcessCommand, Answer>)
        ensures
            match r {
                Ok(c) => self.recording && c.runs(
                    kill_capture_spec(Platform::Windows).0,
                    kill_capture_spec(Platform::Windows).1,
                ),
                Err(a) => !self.recording && a.fails(409, Refusal::NotRecording.text()),
            },
    {
        if !self.recording {
            let text: String = Refusal::NotRecording.message();
            return Err(Answer { status: 409, body: Body::Text(text) });
        }
        Ok(kill_capture_command(Platform::Windows))
    }

    /// The recording was ended: the message for the clients, and the answer.
    pub fn stopped(&mut self) -> (r: (Value, Answer))
        ensures
            *final(self) == (Server { recording: false, ..*old(self) }),
            json(r.0) == status_json("stopped"@),
            r.1.gives(ok_json(true)),
    {
        self.recording = false;
        (status_event("stopped"), give(ok_reply(true)))
    }

    /// The pipeline was started.
    pub fn pipeline_started(&mut self, pid: u32)
        ensures
            *final(self) == (Server { python_pid: pid, ..*old(self) }),
    {
        self.python_pid = pid;
    }

    /// The commands that end what the server started: the pipeline, if one was started,
    /// and every capture.
    pub fn kill_subprocesses(&self) -> (r: Vec<ProcessCommand>)
        ensures
            r@.len() == if self.python_pid != 0 {
                2int
            } else {
                1int
            },
            r@.last().runs(
                kill_capture_spec(Platform::Windows).0,
                kill_capture_spec(Platform::Windows).1,
            ),
            self.python_pid != 0 ==> r@[0].runs(
                kill_spec(Platform::Windows, self.python_pid as nat).0,
                kill_spec(Platform::Windows, self.python_pid as nat).1,
            ),
    {
        let mut commands: Vec<ProcessCommand> = Vec::new();
        if self.python_pid != 0 {
            commands.push(kill_command(Platform::Windows, self.python_pid));
        }
        commands.push(kill_capture_command(Platform::Windows));
        commands
    }
}

/// The answer where the capture could not be started.
pub fn start_failed(error: &str) -> (r: Answer)
    ensures
        r.fails(500, "Failed to start capture: "@ + error@),
{
    let mut s: String = "Failed to start capture: ".to_owned();
    s.append(error);
    Answer { status: 500, body: Body::Text(s) }
}

/// A client gave a speaker a name: the message for the clients, and the answer.
pub fn update_speaker(update: &SpeakerUpdate) -> (r: (Value, Answer))
    ensures
        json(r.0) == speaker_update_json(update.speaker_id@, update.name@),
        r.1.gives(ok_json(true)),
{
    (speaker_update_event(update), give(ok_reply(true)))
}

/// The command that starts the pipeline. A script that does not exist is refused.
pub fn spawn_python(args: &Args, script_exists: bool) -> (r: Result<ProcessCommand, String>)
    ensures
        match r {
            Ok(c) => script_exists && c.runs(args.python_exe@, seq![args.python_script@]),
            Err(e) => !script_exists && e@ == "Python script not found: "@ + args.python_script@,
        },
{
    if !script_exists {
        let mut e: String = "Python script not found: ".to_owned();
        e.append(args.python_script.as_str());
        return Err(e);
    }
    Ok(
        ProcessCommand {
            program: args.python_exe.as_str().to_owned(),
            args: one(args.python_script.as_str()),
        },
    )
}

/// The address of the user interface.
pub fn ui_url(bind: &str) -> (r: String)
    ensures
        r@ == "http://"@ + bind@,
{
    let mut s: String = "http://".to_owned();
    s.append(bind);
    s
}

/// A client is told of the recording and of the number of clients, and of nothing else.
pub proof fn law_clients_are_told_the_state(recording: bool, clients: int, k: Seq<char>)
    ensures
        member(server_json(recording, clients), "recording"@) == Some(Json::Bool(recording)),
        member(server_json(recording, clients), "ws_clients"@) == Some(Json::Int(clients)),
        k != "recording"@ && k != "ws_clients"@ ==> member(server_json(recording, clients), k) is None,
{
    reveal_strlit("recording");
    reveal_strlit("ws_clients");
    assert("recording"@.len() != "ws_clients"@.len());
}

/// An answer that gives a value has the status of success and that value; one that fails has
/// its own status and a text.
pub proof fn law_answers(a: Answer, v: Json, status: int, text: Seq<char>)
    ensures
        a.gives(v) ==> a.status == 200 && a.body is Json && json(a.body->Json_0) == v,
        a.fails(status, text) ==> a.status == status && a.body is Text && a.body->Text_0@ == text,
{
}

} // verus!
