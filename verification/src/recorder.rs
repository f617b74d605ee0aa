//! The desktop program's recorder: what is running, what a request of the user does
//! to it, and what it replies.

use vstd::prelude::*;
use serde_json::Value;
use crate::apps::{join, joined_with};
use crate::desktop_config::{mic_device, read_mic_device_from_config, text_of, Platform};
use crate::json::{bool_value, json, member, members, object_value, with, with_text, Json, Members};
use crate::messages::{log, log_with, ok_json, ok_reply, Level, Log};
use crate::number::{decimal, int_text, int_value, lemma_int_text, u64_text};
use crate::text::{chars, string, string_views, trim, trimmed, Class};

verus! {

broadcast use vstd::string::group_string_axioms;

/// A command line.
pub struct ProcessCommand {
    pub program: String,
    pub args: Vec<String>,
}

impl ProcessCommand {
    /// Whether this is the program with these arguments.
    pub open spec fn runs(self, program: Seq<char>, args: Seq<Seq<char>>) -> bool {
        self.program@ == program && string_views(self.args@) == args
    }
}

pub(crate) fn one(a: &str) -> (r: Vec<String>)
    ensures
        string_views(r@) == seq![a@],
{
    let mut v: Vec<String> = Vec::new();
    v.push(a.to_owned());
    proof {
        assert(string_views(v@) =~= seq![a@]);
    }
    v
}

pub(crate) fn and(v: Vec<String>, a: &str) -> (r: Vec<String>)
    ensures
        string_views(r@) == string_views(v@).push(a@),
{
    let ghost earlier = string_views(v@);
    let mut v: Vec<String> = v;
    v.push(a.to_owned());
    proof {
        assert(string_views(v@) =~= earlier.push(a@));
    }
    v
}

/// The command that ends a process: the program, and the arguments.
pub open spec fn kill_spec(platform: Platform, pid: nat) -> (Seq<char>, Seq<Seq<char>>) {
    match platform {
        Platform::Windows => ("taskkill"@, seq!["/F"@, "/PID"@, decimal(pid)]),
        Platform::Unix => ("kill"@, seq!["-9"@, decimal(pid)]),
    }
}

/// The command that ends every running capture: the program, and the arguments.
pub open spec fn kill_capture_spec(platform: Platform) -> (Seq<char>, Seq<Seq<char>>) {
    match platform {
        Platform::Windows => ("taskkill"@, seq!["/F"@, "/IM"@, "audio-capture.exe"@]),
        Platform::Unix => ("pkill"@, seq!["-f"@, "audio-capture"@]),
    }
}

/// The command that ends a process.
pub fn kill_command(platform: Platform, pid: u32) -> (r: ProcessCommand)
    ensures
        r.runs(kill_spec(platform, pid as nat).0, kill_spec(platform, pid as nat).1),
{
    let n: String = u64_text(pid as u64);
    match platform {
        Platform::Windows => {
            let args: Vec<String> = and(and(one("/F"), "/PID"), n.as_str());
            proof {
                assert(string_views(args@) =~= seq!["/F"@, "/PID"@, decimal(pid as nat)]);
            }
            ProcessCommand { program: "taskkill".to_owned(), args }
        },
        Platform::Unix => {
            let args: Vec<String> = and(one("-9"), n.as_str());
            proof {
                assert(string_views(args@) =~= seq!["-9"@, decimal(pid as nat)]);
            }
            ProcessCommand { program: "kill".to_owned(), args }
        },
    }
}

/// The command that ends every running capture.
pub fn kill_capture_command(platform: Platform) -> (r: ProcessCommand)
    ensures
        r.runs(kill_capture_spec(platform).0, kill_capture_spec(platform).1),
{
    match platform {
        Platform::Windows => {
            let args: Vec<String> = and(and(one("/F"), "/IM"), "audio-capture.exe");
            proof {
                assert(string_views(args@) =~= seq!["/F"@, "/IM"@, "audio-capture.exe"@]);
            }
            ProcessCommand { program: "taskkill".to_owned(), args }
        },
        Platform::Unix => {
            let args: Vec<String> = and(one("-f"), "audio-capture");
            proof {
                assert(string_views(args@) =~= seq!["-f"@, "audio-capture"@]);
            }
            ProcessCommand { program: "pkill".to_owned(), args }
        },
    }
}

/// The arguments of a capture: where the sound goes, which applications are recorded
/// beside the microphone, and which microphone.
pub open spec fn capture_spec(
    audio_pipe: Seq<char>,
    apps: Seq<Seq<char>>,
    mic: Seq<char>,
) -> Seq<Seq<char>> {
    let pipe = seq!["--pipe"@, audio_pipe];
    let with_apps = if apps.len() > 0 {
        pipe + seq!["--loopback-apps"@, join(apps, ","@)]
    } else {
        pipe
    };
    if trim(mic, Class::Space).len() > 0 {
        with_apps + seq!["--mic-device"@, trim(mic, Class::Space)]
    } else {
        with_apps
    }
}

/// The applications that were chosen; none where there was no choice.
pub open spec fn chosen(apps: Option<Vec<String>>) -> Seq<Seq<char>> {
    match apps {
        Some(ids) => string_views(ids@),
        None => seq![],
    }
}

/// The arguments of a capture. The microphone is that of the settings in the text of
/// the configuration, which is missing where it could not be read.
pub fn capture_args(
    audio_pipe: &str,
    loopback_apps: &Option<Vec<String>>,
    config: Option<&str>,
) -> (r: Vec<String>)
    ensures
        string_views(r@) == capture_spec(
            audio_pipe@,
            chosen(*loopback_apps),
            mic_device(text_of(config)),
        ),
{
    let mut args: Vec<String> = and(one("--pipe"), audio_pipe);
    let ghost pipe = seq!["--pipe"@, audio_pipe@];
    proof {
        assert(string_views(args@) =~= pipe);
    }
    if let Some(ids) = loopback_apps {
        if ids.len() > 0 {
            let list: String = joined_with(ids, ",");
            args = and(and(args, "--loopback-apps"), list.as_str());
            proof {
                assert(string_views(args@) =~= pipe + seq![
                    "--loopback-apps"@,
                    join(string_views(ids@), ","@),
                ]);
            }
        }
    }
    let ghost with_apps = string_views(args@);
    let mic: String = read_mic_device_from_config(config);
    let mic: Vec<char> = chars(mic.as_str());
    let mic: &[char] = trimmed(mic.as_slice(), Class::Space);
    if mic.len() > 0 {
        args = and(and(args, "--mic-device"), string(mic).as_str());
        proof {
            assert(string_views(args@) =~= with_apps + seq!["--mic-device"@, mic@]);
        }
    }
    args
}

/// Why a request of the recorder is refused.
#[derive(Clone, Copy, Debug, PartialEq, Eq, Structural)]
pub enum Refusal {
    AlreadyRecording,
    NotRecording,
}

impl Refusal {
    pub open spec fn text(self) -> Seq<char> {
        match self {
            Refusal::AlreadyRecording => "Already recording"@,
            Refusal::NotRecording => "Not recording"@,
        }
    }

    /// What the user is told.
    pub fn message(self) -> (r: String)
        ensures
            r@ == self.text(),
    {
        match self {
            Refusal::AlreadyRecording => "Already recording".to_owned(),
            Refusal::NotRecording => "Not recording".to_owned(),
        }
    }
}

/// What is to be done with the file that tells the pipeline of a muted microphone.
#[derive(Clone, Copy, Debug, PartialEq, Eq, Structural)]
pub enum MuteFile {
    /// It is written.
    Write,
    /// It is removed.
    Remove,
}

/// The name of the file that tells the pipeline of a muted microphone.
pub fn mute_file_name() -> (r: String)
    ensures
        r@ == ".mic_muted"@,
{
    ".mic_muted".to_owned()
}

/// What the file holds while the microphone is muted.
pub fn mute_file_text() -> (r: String)
    ensures
        r@ == "1"@,
{
    "1".to_owned()
}

/// What the recorder knows of itself and of the processes around it.
#[derive(Clone, Copy)]
pub struct Recorder {
    pub recording: bool,
    pub muted: bool,
    /// The process of the pipeline; zero where none was started.
    pub python_pid: u32,
    pub shutting_down: bool,
}

/// What happens to the recorder.
pub enum Change {
    Mute(bool),
    CaptureStarted,
    CaptureExited,
    /// The user's request to stop was carried out.
    Stopped,
    PipelineStarted(u32),
    ShutDown,
}

impl Recorder {
    /// The recorder after a change.
    pub open spec fn after(self, c: Change) -> Recorder {
        match c {
            Change::Mute(muted) => Recorder { muted, ..self },
            Change::CaptureStarted => Recorder { recording: true, ..self },
            Change::CaptureExited => Recorder { recording: false, ..self },
            Change::Stopped => Recorder { recording: false, muted: false, ..self },
            Change::PipelineStarted(pid) => Recorder { python_pid: pid, ..self },
            Change::ShutDown => Recorder { shutting_down: true, ..self },
        }
    }

    /// The recorder after several changes.
    pub open spec fn after_all(self, cs: Seq<Change>) -> Recorder
        decreases cs.len(),
    {
        if cs.len() == 0 {
            self
        } else {
            self.after_all(cs.drop_last()).after(cs.last())
        }
    }
}

/// The state that is told to the user interface.
pub open spec fn recorder_json(recording: bool, muted: bool) -> Json {
    Json::Object(map!["recording"@ => Json::Bool(recording), "muted"@ => Json::Bool(muted)])
}

/// What ending the pipeline takes: the log, the command, and the reply.
pub struct Kill {
    pub log: Option<Log>,
    pub command: Option<ProcessCommand>,
    pub reply: Value,
}

impl Recorder {
    /// Nothing runs.
    pub fn new() -> (r: Recorder)
        ensures
            r == (Recorder { recording: false, muted: false, python_pid: 0, shutting_down: false }),
    {
        Recorder { recording: false, muted: false, python_pid: 0, shutting_down: false }
    }

    /// The state that is told to the user interface.
    pub fn get_status(&self) -> (r: Value)
        ensures
            json(r) == recorder_json(self.recording, self.muted),
    {
        let m: Members = with(Members::new(), "recording", bool_value(self.recording));
        let m: Members = with(m, "muted", bool_value(self.muted));
        proof {
            assert(members(m) =~= map![
                "recording"@ => Json::Bool(self.recording),
                "muted"@ => Json::Bool(self.muted),
            ]);
        }
        object_value(m)
    }

    /// Mutes the microphone, or takes it back.
    pub fn set_mute(&mut self, muted: bool) -> (r: (MuteFile, Value))
        ensures
            *final(self) == old(self).after(Change::Mute(muted)),
            r.0 == if muted {
                MuteFile::Write
            } else {
                MuteFile::Remove
            },
            json(r.1) == Json::Object(
                map!["ok"@ => Json::Bool(true), "muted"@ => Json::Bool(muted)],
            ),
    {
        self.muted = muted;
        let m: Members = with(Members::new(), "ok", bool_value(true));
        let m: Members = with(m, "muted", bool_value(muted));
        proof {
            assert(members(m) =~= map!["ok"@ => Json::Bool(true), "muted"@ => Json::Bool(muted)]);
        }
        let file: MuteFile = if muted {
            MuteFile::Write
        } else {
            MuteFile::Remove
        };
        (file, object_value(m))
    }

    /// The arguments of the capture that a recording starts; refused while one runs.
    pub fn start_recording(
        &self,
        audio_pipe: &str,
        loopback_apps: &Option<Vec<String>>,
        config: Option<&str>,
    ) -> (r: Result<Vec<String>, Refusal>)
        ensures
            match r {
                Ok(args) => !self.recording && string_views(args@) == capture_spec(
                    audio_pipe@,
                    chosen(*loopback_apps),
                    mic_device(text_of(config)),
                ),
                Err(e) => self.recording && e == Refusal::AlreadyRecording,
            },
    {
        if self.recording {
            return Err(Refusal::AlreadyRecording);
        }
        Ok(capture_args(audio_pipe, loopback_apps, config))
    }

    /// The capture was started, as a process that is zero where it is not known.
    pub fn capture_started(&mut self, pid: u32) -> (r: (Log, Value))
        ensures
            *final(self) == old(self).after(Change::CaptureStarted),
            r.0.says(Level::Info, "audio_capture_started pid="@ + decimal(pid as nat)),
            json(r.1) == ok_json(true),
    {
        self.recording = true;
        let n: String = u64_text(pid as u64);
        (log_with(Level::Info, "audio_capture_started pid=", n.as_str()), ok_reply(true))
    }

    /// The capture ended.
    pub fn capture_exited(&mut self) -> (r: Log)
        ensures
            *final(self) == old(self).after(Change::CaptureExited),
            r.says(Level::Info, "audio_capture_stopped"@),
    {
        self.recording = false;
        log(Level::Info, "audio_capture_stopped")
    }

    /// The command that ends the recording; refused while none runs.
    pub fn stop_recording(&self, platform: Platform) -> (r: Result<ProcessCommand, Refusal>)
        ensures
            match r {
                Ok(c) => self.recording && c.runs(
                    kill_capture_spec(platform).0,
                    kill_capture_spec(platform).1,
                ),
                Err(e) => !self.recording && e == Refusal::NotRecording,
            },
    {
        if !self.recording {
            return Err(Refusal::NotRecording);
        }
        Ok(kill_capture_command(platform))
    }

    /// The recording was ended: the microphone is no longer muted, and its file is to be
    /// removed.
    pub fn recording_stopped(&mut self) -> (r: (MuteFile, Log, Value))
        ensures
            *final(self) == old(self).after(Change::Stopped),
            r.0 == MuteFile::Remove,
            r.1.says(Level::Info, "recording_stopped"@),
            json(r.2) == ok_json(true),
    {
        self.recording = false;
        self.muted = false;
        (MuteFile::Remove, log(Level::Info, "recording_stopped"), ok_reply(true))
    }

    /// What ending the pipeline takes.
    pub fn kill_pipeline(&self, platform: Platform) -> (r: Kill)
        ensures
            self.python_pid == 0 ==> {
                &&& r.log is None
                &&& r.command is None
                &&& json(r.reply) == Json::Object(
                    map![
                        "ok"@ => Json::Bool(false),
                        "reason"@ => Json::Text("no pipeline running"@),
                    ],
                )
            },
            self.python_pid != 0 ==> {
                &&& r.log matches Some(l) && l.says(
                    Level::Warning,
                    "killing_pipeline_by_user pid="@ + decimal(self.python_pid as nat),
                )
                &&& r.command matches Some(c) && c.runs(
                    kill_spec(platform, self.python_pid as nat).0,
                    kill_spec(platform, self.python_pid as nat).1,
                )
                &&& json(r.reply) == ok_json(true)
            },
    {
        let pid: u32 = self.python_pid;
        if pid == 0 {
            let m: Members = with(Members::new(), "ok", bool_value(false));
            let m: Members = with_text(m, "reason", "no pipeline running");
            proof {
                assert(members(m) =~= map![
                    "ok"@ => Json::Bool(false),
                    "reason"@ => Json::Text("no pipeline running"@),
                ]);
            }
            return Kill { log: None, command: None, reply: object_value(m) };
        }
        let n: String = u64_text(pid as u64);
        Kill {
            log: Some(log_with(Level::Warning, "killing_pipeline_by_user pid=", n.as_str())),
            command: Some(kill_command(platform, pid)),
            reply: ok_reply(true),
        }
    }

    /// The pipeline was started.
    pub fn pipeline_started(&mut self, pid: u32) -> (r: Log)
        ensures
            *final(self) == old(self).after(Change::PipelineStarted(pid)),
            r.says(Level::Info, "python_pipeline_started pid="@ + decimal(pid as nat)),
    {
        self.python_pid = pid;
        let n: String = u64_text(pid as u64);
        log_with(Level::Info, "python_pipeline_started pid=", n.as_str())
    }

    /// The program shuts down. These commands end what it started: the pipeline, if one
    /// was started, and every capture.
    pub fn kill_subprocesses(&mut self, platform: Platform) -> (r: Vec<ProcessCommand>)
        ensures
            *final(self) == old(self).after(Change::ShutDown),
            r@.len() == if old(self).python_pid != 0 {
                2int
            } else {
                1int
            },
            r@.last().runs(kill_capture_spec(platform).0, kill_capture_spec(platform).1),
            old(self).python_pid != 0 ==> r@[0].runs(
                kill_spec(platform, old(self).python_pid as nat).0,
                kill_spec(platform, old(self).python_pid as nat).1,
            ),
    {
        self.shutting_down = true;
        let mut commands: Vec<ProcessCommand> = Vec::new();
        if self.python_pid != 0 {
            commands.push(kill_command(platform, self.python_pid));
        }
        commands.push(kill_capture_command(platform));
        commands
    }
}

/// A shutdown is final.
pub proof fn law_shutdown_lasts(r: Recorder, cs: Seq<Change>)
    requires
        r.shutting_down,
    ensures
        r.after_all(cs).shutting_down,
    decreases cs.len(),
{
    if cs.len() > 0 {
        law_shutdown_lasts(r, cs.drop_last());
    }
}

/// From the start of a capture until it exits or is stopped, the recorder is recording:
/// whatever else happens, a second start is refused, and a stop is not.
pub proof fn law_recording_lasts(r: Recorder, cs: Seq<Change>)
    requires
        forall|i: int|
            0 <= i < cs.len() ==> !((#[trigger] cs[i]) is CaptureExited) && !(cs[i] is Stopped),
    ensures
        r.after(Change::CaptureStarted).after_all(cs).recording,
    decreases cs.len(),
{
    if cs.len() > 0 {
        let rest = cs.drop_last();
        assert forall|i: int| 0 <= i < rest.len() implies !((#[trigger] rest[i]) is CaptureExited)
            && !(rest[i] is Stopped) by {
            assert(rest[i] == cs[i]);
        }
        law_recording_lasts(r, rest);
        assert(cs.last() == cs[cs.len() - 1]);
    }
}

/// The microphone stays as the user set it until the user sets it again or stops the
/// recording.
pub proof fn law_mute_lasts(r: Recorder, muted: bool, cs: Seq<Change>)
    requires
        forall|i: int| 0 <= i < cs.len() ==> !((#[trigger] cs[i]) is Mute) && !(cs[i] is Stopped),
    ensures
        r.after(Change::Mute(muted)).after_all(cs).muted == muted,
    decreases cs.len(),
{
    if cs.len() > 0 {
        let rest = cs.drop_last();
        assert forall|i: int| 0 <= i < rest.len() implies !((#[trigger] rest[i]) is Mute)
            && !(rest[i] is Stopped) by {
            assert(rest[i] == cs[i]);
        }
        law_mute_lasts(r, muted, rest);
        assert(cs.last() == cs[cs.len() - 1]);
    }
}

proof fn lemma_flags_differ()
    ensures
        "--pipe"@ != "--loopback-apps"@,
        "--pipe"@ != "--mic-device"@,
        "--loopback-apps"@ != "--mic-device"@,
{
    reveal_strlit("--pipe");
    reveal_strlit("--loopback-apps");
    reveal_strlit("--mic-device");
    assert("--pipe"@.len() == 6);
    assert("--loopback-apps"@.len() == 15);
    assert("--mic-device"@.len() == 12);
}

/// Whatever applications are chosen, none included, the arguments end in `--mic-device` and
/// the trimmed name of the microphone where that is not empty; where it is, `--mic-device`
/// is not among the flags, which stand at the even places.
pub proof fn law_microphone_ends_the_arguments(
    audio_pipe: Seq<char>,
    apps: Seq<Seq<char>>,
    mic: Seq<char>,
)
    ensures
        ({
            let args = capture_spec(audio_pipe, apps, mic);
            let name = trim(mic, Class::Space);
            &&& name.len() > 0 ==> args.len() >= 4 && args[args.len() - 2] == "--mic-device"@
                && args.last() == name
            &&& name.len() == 0 ==> forall|i: int|
                0 <= i < args.len() && i % 2 == 0 ==> #[trigger] args[i] != "--mic-device"@
        }),
{
    lemma_flags_differ();
    let args = capture_spec(audio_pipe, apps, mic);
    if trim(mic, Class::Space).len() == 0 {
        assert forall|i: int| 0 <= i < args.len() && i % 2 == 0 implies #[trigger] args[i]
            != "--mic-device"@ by {
            assert(i == 0 || i == 2);
        }
    }
}

/// The arguments begin with `--pipe` and the pipe. Where applications are chosen,
/// `--loopback-apps` and their list with commas follow, and elsewhere that is not among the
/// flags. There is nothing but these, and the microphone.
pub proof fn law_arguments_name_the_pipe_and_the_applications(
    audio_pipe: Seq<char>,
    apps: Seq<Seq<char>>,
    mic: Seq<char>,
)
    ensures
        ({
            let args = capture_spec(audio_pipe, apps, mic);
            let apps_len: int = if apps.len() > 0 {
                2
            } else {
                0
            };
            let mic_len: int = if trim(mic, Class::Space).len() > 0 {
                2
            } else {
                0
            };
            &&& args.len() == 2 + apps_len + mic_len
            &&& args[0] == "--pipe"@
            &&& args[1] == audio_pipe
            &&& apps.len() > 0 ==> args[2] == "--loopback-apps"@ && args[3] == join(
                apps,
                seq![','],
            )
            &&& apps.len() == 0 ==> forall|i: int|
                0 <= i < args.len() && i % 2 == 0 ==> #[trigger] args[i] != "--loopback-apps"@
        }),
{
    lemma_flags_differ();
    reveal_strlit(",");
    assert(","@ =~= seq![',']);
    let args = capture_spec(audio_pipe, apps, mic);
    if apps.len() == 0 {
        assert forall|i: int| 0 <= i < args.len() && i % 2 == 0 implies #[trigger] args[i]
            != "--loopback-apps"@ by {
            assert(i == 0 || i == 2);
        }
    }
}

/// What is chosen is the list as it was given, and nothing where none was.
pub proof fn law_choice_is_taken_as_given(ids: Vec<String>)
    ensures
        chosen(None).len() == 0,
        chosen(Some(ids)).len() == ids@.len(),
        forall|i: int| 0 <= i < ids@.len() ==> #[trigger] chosen(Some(ids))[i] == ids@[i]@,
{
}

/// A change touches what it is about and nothing else: muting only the microphone, a capture
/// only the recording, a stop both of these, the start of the pipeline only its process, and a
/// shutdown only itself.
pub proof fn law_changes_touch_what_they_are_about(r: Recorder, muted: bool, pid: u32)
    ensures
        ({
            let s = r.after(Change::Mute(muted));
            s.muted == muted && s.recording == r.recording && s.python_pid == r.python_pid
                && s.shutting_down == r.shutting_down
        }),
        ({
            let s = r.after(Change::CaptureStarted);
            s.recording && s.muted == r.muted && s.python_pid == r.python_pid && s.shutting_down
                == r.shutting_down
        }),
        ({
            let s = r.after(Change::CaptureExited);
            !s.recording && s.muted == r.muted && s.python_pid == r.python_pid && s.shutting_down
                == r.shutting_down
        }),
        ({
            let s = r.after(Change::Stopped);
            !s.recording && !s.muted && s.python_pid == r.python_pid && s.shutting_down
                == r.shutting_down
        }),
        ({
            let s = r.after(Change::PipelineStarted(pid));
            s.python_pid == pid && s.recording == r.recording && s.muted == r.muted
                && s.shutting_down == r.shutting_down
        }),
        ({
            let s = r.after(Change::ShutDown);
            s.shutting_down && s.recording == r.recording && s.muted == r.muted && s.python_pid
                == r.python_pid
        }),
{
}

/// Changes come one after the other.
pub proof fn law_changes_come_in_order(r: Recorder, cs: Seq<Change>, c: Change)
    ensures
        r.after_all(Seq::empty()) == r,
        r.after_all(cs.push(c)) == r.after_all(cs).after(c),
{
    assert(cs.push(c).drop_last() =~= cs);
}

/// The command that ends a process names the process by its number, behind the flags that
/// force it: no other number ends up there.
pub proof fn law_process_is_ended_by_its_number(platform: Platform, pid: nat)
    ensures
        int_value(kill_spec(platform, pid).1.last()) == Some(pid as int),
        kill_spec(platform, pid).1.last() == int_text(pid as int),
        kill_spec(Platform::Unix, pid).0 == "kill"@,
        kill_spec(Platform::Unix, pid).1.drop_last() == seq!["-9"@],
        kill_spec(Platform::Windows, pid).0 == "taskkill"@,
        kill_spec(Platform::Windows, pid).1.drop_last() == seq!["/F"@, "/PID"@],
{
    lemma_int_text(pid as int);
    assert(kill_spec(Platform::Unix, pid).1.drop_last() =~= seq!["-9"@]);
    assert(kill_spec(Platform::Windows, pid).1.drop_last() =~= seq!["/F"@, "/PID"@]);
}

/// Captures are ended by the name of their program, which on Windows is that of its file.
pub proof fn law_captures_are_ended_by_name()
    ensures
        kill_capture_spec(Platform::Unix).0 == "pkill"@,
        kill_capture_spec(Platform::Unix).1 == seq!["-f"@, "audio-capture"@],
        kill_capture_spec(Platform::Windows).0 == "taskkill"@,
        kill_capture_spec(Platform::Windows).1 == seq!["/F"@, "/IM"@, "audio-capture.exe"@],
{
}

/// The user interface is told of the recording and of the microphone, and of nothing else.
pub proof fn law_status_tells_both(recording: bool, muted: bool, k: Seq<char>)
    ensures
        member(recorder_json(recording, muted), "recording"@) == Some(Json::Bool(recording)),
        member(recorder_json(recording, muted), "muted"@) == Some(Json::Bool(muted)),
        k != "recording"@ && k != "muted"@ ==> member(recorder_json(recording, muted), k) is None,
{
    reveal_strlit("recording");
    reveal_strlit("muted");
    assert("recording"@.len() != "muted"@.len());
}

/// A refused start and a refused stop are told apart.
pub proof fn law_refusals_are_told(r: Refusal)
    ensures
        r == Refusal::AlreadyRecording <==> r.text() == "Already recording"@,
        r == Refusal::NotRecording <==> r.text() == "Not recording"@,
{
    reveal_strlit("Already recording");
    reveal_strlit("Not recording");
    assert("Already recording"@.len() != "Not recording"@.len());
}

/// A command runs a program with arguments where it has that program and those arguments, in
/// their order.
pub proof fn law_commands_run_their_program(
    c: ProcessCommand,
    program: Seq<char>,
    args: Seq<Seq<char>>,
)
    requires
        c.runs(program, args),
    ensures
        c.program@ == program,
        c.args@.len() == args.len(),
        forall|i: int| 0 <= i < args.len() ==> #[trigger] c.args@[i]@ == args[i],
{
    assert forall|i: int| 0 <= i < args.len() implies #[trigger] c.args@[i]@ == args[i] by {
        assert(string_views(c.args@)[i] == args[i]);
    }
}

} // verus!
