//! What the desktop program reads from the configuration file when it starts.

use vstd::prelude::*;
use crate::config::{config_entries, entries, entry_views, flag_or, last_value, lookup_flag, lookup_or, value_or, Dialect, Entry, Kind};

verus! {

broadcast use vstd::string::group_string_axioms;

/// The two families of systems on which pipes and paths differ.
#[derive(Clone, Copy, Debug, PartialEq, Eq, Structural)]
pub enum Platform {
    Windows,
    Unix,
}

/// Where the programs and pipes are, and how to reach the language model.
pub struct Config {
    pub transcript_pipe: String,
    pub audio_pipe: String,
    pub capture_bin: String,
    pub python_exe: String,
    pub python_script: String,
    pub speakers_file: String,
    pub ollama_host: String,
    pub ollama_model: String,
    pub summarize: bool,
}

/// The text of a file that may be missing: a missing file reads as an empty one.
pub open spec fn text_of(text: Option<&str>) -> Seq<char> {
    match text {
        Some(t) => t@,
        None => seq![],
    }
}

/// The entries of a file that may be missing.
pub fn entries_of(text: Option<&str>, d: Dialect) -> (r: Vec<Entry>)
    ensures
        entry_views(r@) == config_entries(text_of(text), d),
{
    match text {
        Some(t) => entries(t, d),
        None => {
            let r: Vec<Entry> = Vec::new();
            proof {
                assert(entry_views(r@) =~= config_entries(seq![], d));
            }
            r
        },
    }
}

/// The path of the pipe that transcripts come through.
pub open spec fn transcript_pipe_path(platform: Platform) -> Seq<char> {
    match platform {
        Platform::Windows => "\\\\.\\pipe\\corpodrone-transcript"@,
        Platform::Unix => "/tmp/corpodrone-transcript"@,
    }
}

/// The path of the pipe that audio goes through.
pub open spec fn audio_pipe_path(platform: Platform) -> Seq<char> {
    match platform {
        Platform::Windows => "\\\\.\\pipe\\corpodrone-audio"@,
        Platform::Unix => "/tmp/corpodrone-audio"@,
    }
}

/// The Python interpreter of the project's own environment.
pub open spec fn python_exe_path(platform: Platform) -> Seq<char> {
    match platform {
        Platform::Windows => ".venv/Scripts/python.exe"@,
        Platform::Unix => ".venv/bin/python"@,
    }
}

/// The script of the transcription pipeline.
pub open spec fn python_script_path(platform: Platform) -> Seq<char> {
    match platform {
        Platform::Windows => "pipeline\\pipeline.py"@,
        Platform::Unix => "pipeline/pipeline.py"@,
    }
}

/// The path of the audio pipe where none is given.
pub fn default_pipe(platform: Platform) -> (r: String)
    ensures
        r@ == audio_pipe_path(platform),
{
    match platform {
        Platform::Windows => "\\\\.\\pipe\\corpodrone-audio".to_owned(),
        Platform::Unix => "/tmp/corpodrone-audio".to_owned(),
    }
}

/// The name of the capture program's file.
pub fn capture_bin_name(platform: Platform) -> (r: String)
    ensures
        r@ == match platform {
            Platform::Windows => "audio-capture.exe"@,
            Platform::Unix => "audio-capture"@,
        },
{
    match platform {
        Platform::Windows => "audio-capture.exe".to_owned(),
        Platform::Unix => "audio-capture".to_owned(),
    }
}

/// Reads the configuration. Each field is the last value that the file assigns to
/// its key, in `[server]` for the programs and in `[python]` for the rest; a key
/// that the file does not assign keeps its default. `capture_bin` is the default
/// path of the capture program.
pub fn load_config(text: Option<&str>, platform: Platform, capture_bin: &str) -> (r: Config)
    ensures
        ({
            let es = config_entries(text_of(text), Dialect::Plain);
            let server = |key: Seq<char>, default: Seq<char>|
                value_or(es, "[server]"@, key, Kind::Any, default);
            let python = |key: Seq<char>, default: Seq<char>|
                value_or(es, "[python]"@, key, Kind::Any, default);
            &&& r.python_exe@ == server("python_exe"@, python_exe_path(platform))
            &&& r.python_script@ == server("python_script"@, python_script_path(platform))
            &&& r.capture_bin@ == server("capture_bin"@, capture_bin@)
            &&& r.transcript_pipe@ == python("transcript_pipe"@, transcript_pipe_path(platform))
            &&& r.audio_pipe@ == python("audio_pipe"@, audio_pipe_path(platform))
            &&& r.speakers_file@ == python("speakers_file"@, "speakers.json"@)
            &&& r.ollama_host@ == python("ollama_host"@, "http://localhost:11434"@)
            &&& r.ollama_model@ == python("ollama_model"@, "mistral"@)
            &&& r.summarize == flag_or(es, "[python]"@, "summarize"@, true)
        }),
{
    let es: Vec<Entry> = entries_of(text, Dialect::Plain);
    let transcript: &str = match platform {
        Platform::Windows => "\\\\.\\pipe\\corpodrone-transcript",
        Platform::Unix => "/tmp/corpodrone-transcript",
    };
    let audio: String = default_pipe(platform);
    let exe: &str = match platform {
        Platform::Windows => ".venv/Scripts/python.exe",
        Platform::Unix => ".venv/bin/python",
    };
    let script: &str = match platform {
        Platform::Windows => "pipeline\\pipeline.py",
        Platform::Unix => "pipeline/pipeline.py",
    };
    Config {
        transcript_pipe: lookup_or(&es, "[python]", "transcript_pipe", Kind::Any, transcript),
        audio_pipe: lookup_or(&es, "[python]", "audio_pipe", Kind::Any, audio.as_str()),
        capture_bin: lookup_or(&es, "[server]", "capture_bin", Kind::Any, capture_bin),
        python_exe: lookup_or(&es, "[server]", "python_exe", Kind::Any, exe),
        python_script: lookup_or(&es, "[server]", "python_script", Kind::Any, script),
        speakers_file: lookup_or(&es, "[python]", "speakers_file", Kind::Any, "speakers.json"),
        ollama_host: lookup_or(
            &es,
            "[python]",
            "ollama_host",
            Kind::Any,
            "http://localhost:11434",
        ),
        ollama_model: lookup_or(&es, "[python]", "ollama_model", Kind::Any, "mistral"),
        summarize: lookup_flag(&es, "[python]", "summarize", true),
    }
}

/// The microphone's name in the configuration; empty where there is none.
pub open spec fn mic_device(text: Seq<char>) -> Seq<char> {
    value_or(
        config_entries(text, Dialect::Commented),
        "[python]"@,
        "audio_input_device"@,
        Kind::Any,
        ""@,
    )
}

/// Reads the microphone's name from the configuration.
pub fn read_mic_device_from_config(text: Option<&str>) -> (r: String)
    ensures
        r@ == mic_device(text_of(text)),
{
    let es: Vec<Entry> = entries_of(text, Dialect::Commented);
    lookup_or(&es, "[python]", "audio_input_device", Kind::Any, "")
}

/// The directory that the program works in: that of its executable where the
/// configuration is there, and else the directory two levels up, where there is one.
pub fn working_dir<P>(exe_dir: P, has_config: bool, two_up: Option<P>) -> (r: P)
    ensures
        r == if has_config {
            exe_dir
        } else {
            match two_up {
                Some(d) => d,
                None => exe_dir,
            }
        },
{
    if has_config {
        return exe_dir;
    }
    match two_up {
        Some(d) => d,
        None => exe_dir,
    }
}

/// Where the programs and the pipes are by default, on each platform; the two pipes differ.
pub proof fn law_default_places()
    ensures
        audio_pipe_path(Platform::Unix) == "/tmp/corpodrone-audio"@,
        audio_pipe_path(Platform::Windows) == "\\\\.\\pipe\\corpodrone-audio"@,
        transcript_pipe_path(Platform::Unix) == "/tmp/corpodrone-transcript"@,
        transcript_pipe_path(Platform::Windows) == "\\\\.\\pipe\\corpodrone-transcript"@,
        python_exe_path(Platform::Unix) == ".venv/bin/python"@,
        python_exe_path(Platform::Windows) == ".venv/Scripts/python.exe"@,
        python_script_path(Platform::Unix) == "pipeline/pipeline.py"@,
        python_script_path(Platform::Windows) == "pipeline\\pipeline.py"@,
{
}

/// The microphone is the last value of its key in `[python]`, and no name where there is none.
pub proof fn law_microphone_is_read(text: Seq<char>, v: Seq<char>)
    ensures
        last_value(
            config_entries(text, Dialect::Commented),
            "[python]"@,
            "audio_input_device"@,
            Kind::Any,
        ) == Some(v) ==> mic_device(text) == v,
        last_value(
            config_entries(text, Dialect::Commented),
            "[python]"@,
            "audio_input_device"@,
            Kind::Any,
        ) is None ==> mic_device(text).len() == 0,
{
    reveal_strlit("");
}

/// A missing file reads as an empty one, and a file that is there as it is.
pub proof fn law_missing_file_is_empty(text: &str)
    ensures
        text_of(None).len() == 0,
        text_of(Some(text)) == text@,
{
}

} // verus!
