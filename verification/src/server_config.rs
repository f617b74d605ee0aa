//! The command line of the web server, and the configuration file under it.

use vstd::prelude::*;
use crate::config::{config_entries, entry_views, last_value, lookup, Assignment, Dialect, Entry, Kind};
use crate::desktop_config::{entries_of, text_of};
use crate::text::equal;

verus! {

broadcast use vstd::string::group_string_axioms;

/// The web server's settings.
pub struct Args {
    /// HTTP listen address.
    pub bind: String,
    /// Pipe that transcripts come through.
    pub transcript_pipe: String,
    /// Pipe that commands go through.
    pub control_pipe: String,
    /// Pipe that audio goes through.
    pub audio_pipe: String,
    /// Path of the capture program.
    pub capture_bin: String,
    /// Path of the pipeline's script.
    pub python_script: String,
    /// Python interpreter.
    pub python_exe: String,
}

/// The settings of a command line without options.
pub fn default_args() -> (r: Args)
    ensures
        r.bind@ == "127.0.0.1:8080"@,
        r.transcript_pipe@ == "\\\\.\\pipe\\corpodrone-transcript"@,
        r.control_pipe@ == "\\\\.\\pipe\\corpodrone-control"@,
        r.audio_pipe@ == "\\\\.\\pipe\\corpodrone-audio"@,
        r.capture_bin@ == "target\\release\\audio-capture.exe"@,
        r.python_script@ == "python\\pipeline.py"@,
        r.python_exe@ == "python"@,
{
    Args {
        bind: "127.0.0.1:8080".to_owned(),
        transcript_pipe: "\\\\.\\pipe\\corpodrone-transcript".to_owned(),
        control_pipe: "\\\\.\\pipe\\corpodrone-control".to_owned(),
        audio_pipe: "\\\\.\\pipe\\corpodrone-audio".to_owned(),
        capture_bin: "target\\release\\audio-capture.exe".to_owned(),
        python_script: "python\\pipeline.py".to_owned(),
        python_exe: "python".to_owned(),
    }
}

/// A field under the configuration file: a value other than the default stays,
/// the default gives way to the last value that `[server]` assigns to the key.
pub open spec fn overlaid(
    es: Seq<Assignment>,
    key: Seq<char>,
    default: Seq<char>,
    value: Seq<char>,
) -> Seq<char> {
    match last_value(es, "[server]"@, key, Kind::Any) {
        Some(v) => if value == default {
            v
        } else {
            value
        },
        None => value,
    }
}

/// A field under the configuration file.
fn overlay(es: &Vec<Entry>, key: &str, default: &str, value: &mut String)
    ensures
        final(value)@ == overlaid(entry_views(es@), key@, default@, old(value)@),
{
    if equal(value.as_str(), default) {
        match lookup(es, "[server]", key, Kind::Any) {
            Some(v) => {
                *value = v;
            },
            None => {},
        }
    }
}

/// Lays the `[server]` section of the configuration file under the command line:
/// only fields that still hold their default are updated, so that options win.
pub fn load_config(args: &mut Args, text: Option<&str>)
    ensures
        ({
            let es = config_entries(text_of(text), Dialect::Plain);
            &&& final(args).python_exe@ == overlaid(
                es,
                "python_exe"@,
                "python"@,
                old(args).python_exe@,
            )
            &&& final(args).python_script@ == overlaid(
                es,
                "python_script"@,
                "python\\pipeline.py"@,
                old(args).python_script@,
            )
            &&& final(args).capture_bin@ == overlaid(
                es,
                "capture_bin"@,
                "target\\release\\audio-capture.exe"@,
                old(args).capture_bin@,
            )
            &&& final(args).bind@ == overlaid(es, "bind"@, "127.0.0.1:8080"@, old(args).bind@)
            &&& final(args).transcript_pipe == old(args).transcript_pipe
            &&& final(args).control_pipe == old(args).control_pipe
            &&& final(args).audio_pipe == old(args).audio_pipe
        }),
{
    let es: Vec<Entry> = entries_of(text, Dialect::Plain);
    overlay(&es, "python_exe", "python", &mut args.python_exe);
    overlay(&es, "python_script", "python\\pipeline.py", &mut args.python_script);
    overlay(&es, "capture_bin", "target\\release\\audio-capture.exe", &mut args.capture_bin);
    overlay(&es, "bind", "127.0.0.1:8080", &mut args.bind);
}

/// Options win: a field that the command line set stays as it was set.
pub proof fn law_options_win(
    es: Seq<Assignment>,
    key: Seq<char>,
    default: Seq<char>,
    value: Seq<char>,
)
    requires
        value != default,
    ensures
        overlaid(es, key, default, value) == value,
{
}

/// A field that the command line left at its default is the last value that the file assigns
/// to its key in `[server]`, and its default where there is none.
pub proof fn law_file_fills_the_defaults(
    es: Seq<Assignment>,
    key: Seq<char>,
    default: Seq<char>,
    v: Seq<char>,
)
    ensures
        last_value(es, "[server]"@, key, Kind::Any) == Some(v) ==> overlaid(es, key, default, default)
            == v,
        last_value(es, "[server]"@, key, Kind::Any) is None ==> overlaid(es, key, default, default)
            == default,
{
}

} // verus!
