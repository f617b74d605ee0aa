//! Writing the settings to the configuration file.

use vstd::prelude::*;
use serde_json::Value;
use vstd::string::StringExecFns;
use crate::config::is_header;
use crate::desktop_config::text_of;
use crate::json::json;
use crate::messages::{command_json, prefetch_command};
use crate::number::{i64_text, int_text};
use crate::settings::{settings_from, settings_from_value, Settings, SettingsView};
use crate::text::{chars, lines, lines_of, spells, string, trim, trimmed, views, Class};

verus! {

broadcast use vstd::string::group_string_axioms;

/// Lines as the text of a file, each with a line feed after it.
pub open spec fn joined(ls: Seq<Seq<char>>) -> Seq<char>
    decreases ls.len(),
{
    if ls.len() == 0 {
        seq![]
    } else {
        ls[0] + seq!['\n'] + joined(ls.drop_first())
    }
}

/// The lines of the `[server]` sections, their headers included. `inside` says
/// whether the first line stands in such a section.
pub open spec fn server_lines(ls: Seq<Seq<char>>, inside: bool) -> Seq<Seq<char>>
    decreases ls.len(),
{
    if ls.len() == 0 {
        seq![]
    } else {
        let line = trim(ls[0], Class::Space);
        let now = if is_header(line) {
            line == "[server]"@
        } else {
            inside
        };
        if now {
            seq![ls[0]] + server_lines(ls.drop_first(), now)
        } else {
            server_lines(ls.drop_first(), now)
        }
    }
}

/// A line that assigns a text.
pub open spec fn text_line(key: Seq<char>, value: Seq<char>) -> Seq<char> {
    key + " = "@ + (seq!['"'] + value + seq!['"'])
}

/// A line that assigns something that needs no quotes.
pub open spec fn plain_line(key: Seq<char>, value: Seq<char>) -> Seq<char> {
    key + " = "@ + value
}

/// The text of a truth value.
pub open spec fn bool_text(b: bool) -> Seq<char> {
    if b {
        "true"@
    } else {
        "false"@
    }
}

/// The lines that the settings are written as.
pub open spec fn config_lines(s: SettingsView) -> Seq<Seq<char>> {
    seq![
        "# CorpoDrone configuration"@,
        "# Edit this file to configure the pipeline without recompiling."@,
        ""@,
        "[python]"@,
        "# Whisper model size: tiny / base / small / medium / large-v3"@,
        text_line("whisper_model"@, s.whisper_model),
        text_line("whisper_device"@, s.whisper_device),
        text_line("whisper_compute_type"@, s.whisper_compute_type),
        ""@,
        "# Speaker diarization (requires HuggingFace token)"@,
        plain_line("diarize"@, bool_text(s.diarize)),
        text_line("hf_token"@, s.hf_token),
        plain_line("min_speakers"@, int_text(s.min_speakers)),
        plain_line("max_speakers"@, int_text(s.max_speakers)),
        ""@,
        "# Sliding window config (seconds)"@,
        plain_line("window_seconds"@, s.window_seconds),
        plain_line("step_seconds"@, s.step_seconds),
        ""@,
        "# Silence filtering before Whisper (RMS + Silero VAD)"@,
        plain_line("speech_gate_enabled"@, bool_text(s.speech_gate_enabled)),
        plain_line("speech_gate_rms_db_floor"@, s.speech_gate_rms_db_floor),
        plain_line("speech_gate_min_speech_fraction"@, s.speech_gate_min_speech_fraction),
        plain_line("speech_gate_silero_threshold"@, s.speech_gate_silero_threshold),
        ""@,
        "# Summarization via Ollama"@,
        plain_line("summarize"@, bool_text(s.summarize)),
        text_line("ollama_model"@, s.ollama_model),
        text_line("ollama_host"@, s.ollama_host),
        ""@,
        "# Speaker recognition"@,
        plain_line("speaker_enroll"@, bool_text(s.speaker_enroll)),
        plain_line("speaker_identify_threshold"@, s.speaker_identify_threshold),
        ""@,
        "# Microphone (empty = OS default; applies next recording)"@,
        text_line("audio_input_device"@, s.audio_input_device),
    ]
}

/// The lines of the configuration file after the settings were saved: the
/// settings, and behind a blank line the `[server]` sections of the file before.
pub open spec fn saved_lines(s: SettingsView, existing: Seq<char>) -> Seq<Seq<char>> {
    let server = server_lines(lines(existing), false);
    if server.len() == 0 {
        config_lines(s)
    } else {
        config_lines(s) + (seq![seq![]] + server)
    }
}

/// The configuration file after the settings were saved.
pub open spec fn saved_text(s: SettingsView, existing: Seq<char>) -> Seq<char> {
    joined(saved_lines(s, existing))
}

/// A line more at the end.
pub proof fn lemma_joined_push(ls: Seq<Seq<char>>, line: Seq<char>)
    ensures
        joined(ls.push(line)) == joined(ls) + (line + seq!['\n']),
    decreases ls.len(),
{
    if ls.len() == 0 {
        assert(ls.push(line).drop_first() =~= ls);
        assert(ls.push(line)[0] == line);
        assert(joined(ls.push(line)) =~= joined(ls) + (line + seq!['\n']));
    } else {
        lemma_joined_push(ls.drop_first(), line);
        assert(ls.push(line).drop_first() =~= ls.drop_first().push(line));
        assert(joined(ls.push(line)) =~= joined(ls) + (line + seq!['\n']));
    }
}

/// A text under construction, line by line.
struct Page {
    out: String,
    lines: Ghost<Seq<Seq<char>>>,
}

impl Page {
    #[verifier::opaque]
    spec fn wf(self) -> bool {
        self.out@ == joined(self.lines@)
    }

    fn new() -> (r: Page)
        ensures
            r.wf(),
            r.lines@ == Seq::<Seq<char>>::empty(),
    {
        let none: Ghost<Seq<Seq<char>>> = Ghost(Seq::empty());
        let r: Page = Page { out: String::new(), lines: none };
        proof {
            reveal(Page::wf);
            assert(r.out@ =~= joined(r.lines@));
        }
        r
    }

    /// Adds a line.
    fn line(&mut self, line: &str)
        requires
            old(self).wf(),
        ensures
            final(self).wf(),
            final(self).lines@ == old(self).lines@.push(line@),
    {
        proof {
            reveal(Page::wf);
            lemma_joined_push(self.lines@, line@);
        }
        self.out.append(line);
        self.out.push('\n');
        self.lines = Ghost(self.lines@.push(line@));
        proof {
            assert(self.out@ =~= joined(old(self).lines@) + (line@ + seq!['\n']));
        }
    }

    /// Adds a line that assigns a text.
    fn text(&mut self, key: &str, value: &str)
        requires
            old(self).wf(),
        ensures
            final(self).wf(),
            final(self).lines@ == old(self).lines@.push(text_line(key@, value@)),
    {
        let mut l: String = key.to_owned();
        l.append(" = ");
        l.push('"');
        l.append(value);
        l.push('"');
        proof {
            assert(l@ =~= text_line(key@, value@));
        }
        self.line(l.as_str());
    }

    /// Adds a line that assigns something without quotes.
    fn plain(&mut self, key: &str, value: &str)
        requires
            old(self).wf(),
        ensures
            final(self).wf(),
            final(self).lines@ == old(self).lines@.push(plain_line(key@, value@)),
    {
        let mut l: String = key.to_owned();
        l.append(" = ");
        l.append(value);
        self.line(l.as_str());
    }

    /// Adds a line that assigns a truth value.
    fn flag(&mut self, key: &str, value: bool)
        requires
            old(self).wf(),
        ensures
            final(self).wf(),
            final(self).lines@ == old(self).lines@.push(plain_line(key@, bool_text(value))),
    {
        if value {
            self.plain(key, "true");
        } else {
            self.plain(key, "false");
        }
    }
}

/// Writes the settings.
fn write_settings(s: &Settings) -> (p: Page)
    ensures
        p.wf(),
        p.lines@ == config_lines(s@),
{
    let mut p: Page = Page::new();
    p.line("# CorpoDrone configuration");
    p.line("# Edit this file to configure the pipeline without recompiling.");
    p.line("");
    p.line("[python]");
    p.line("# Whisper model size: tiny / base / small / medium / large-v3");
    p.text("whisper_model", s.whisper_model.as_str());
    p.text("whisper_device", s.whisper_device.as_str());
    p.text("whisper_compute_type", s.whisper_compute_type.as_str());
    p.line("");
    p.line("# Speaker diarization (requires HuggingFace token)");
    p.flag("diarize", s.diarize);
    p.text("hf_token", s.hf_token.as_str());
    p.plain("min_speakers", i64_text(s.min_speakers).as_str());
    p.plain("max_speakers", i64_text(s.max_speakers).as_str());
    p.line("");
    p.line("# Sliding window config (seconds)");
    p.plain("window_seconds", s.window_seconds.as_str());
    p.plain("step_seconds", s.step_seconds.as_str());
    p.line("");
    p.line("# Silence filtering before Whisper (RMS + Silero VAD)");
    p.flag("speech_gate_enabled", s.speech_gate_enabled);
    p.plain("speech_gate_rms_db_floor", s.speech_gate_rms_db_floor.as_str());
    p.plain("speech_gate_min_speech_fraction", s.speech_gate_min_speech_fraction.as_str());
    p.plain("speech_gate_silero_threshold", s.speech_gate_silero_threshold.as_str());
    p.line("");
    p.line("# Summarization via Ollama");
    p.flag("summarize", s.summarize);
    p.text("ollama_model", s.ollama_model.as_str());
    p.text("ollama_host", s.ollama_host.as_str());
    p.line("");
    p.line("# Speaker recognition");
    p.flag("speaker_enroll", s.speaker_enroll);
    p.plain("speaker_identify_threshold", s.speaker_identify_threshold.as_str());
    p.line("");
    p.line("# Microphone (empty = OS default; applies next recording)");
    p.text("audio_input_device", s.audio_input_device.as_str());
    proof {
        assert(p.lines@ =~= config_lines(s@));
    }
    p
}

/// Writes the settings over the configuration file, preserving its `[server]` sections.
pub fn render(s: &Settings, existing: &str) -> (r: String)
    ensures
        r@ == saved_text(s@, existing@),
{
    let mut p: Page = write_settings(s);
    let cs: Vec<char> = chars(existing);
    let ls: Vec<&[char]> = lines_of(cs.as_slice());
    let ghost all = views(ls@);
    let ghost server = server_lines(all, false);
    let ghost head = config_lines(s@);
    let mut inside: bool = false;
    let mut started: bool = false;
    let mut i: usize = 0;
    let ghost mut done: Seq<Seq<char>> = seq![];
    proof {
        assert(all.skip(0) =~= all);
        assert(done + server =~= server);
    }
    while i < ls.len()
        invariant
            p.wf(),
            all == views(ls@),
            i <= ls@.len(),
            done + server_lines(all.skip(i as int), inside) == server,
            started == (done.len() > 0),
            p.lines@ == (if started {
                head + (seq![seq![]] + done)
            } else {
                head
            }),
        decreases ls@.len() - i,
    {
        proof {
            assert(all.skip(i as int)[0] == ls@[i as int]@);
            assert(all.skip(i as int).drop_first() =~= all.skip(i + 1));
        }
        let line: &[char] = trimmed(ls[i], Class::Space);
        if line.len() > 0 && line[0] == '[' {
            inside = spells(line, "[server]");
        }
        if inside {
            if !started {
                p.line("");
                started = true;
                proof {
                    reveal_strlit("");
                    assert(""@ =~= seq![]);
                    assert(p.lines@ =~= head + (seq![seq![]] + done));
                }
            }
            let l: String = string(ls[i]);
            p.line(l.as_str());
            proof {
                let now = done.push(l@);
                assert(now + server_lines(all.skip(i + 1), inside) =~= done + (seq![l@]
                    + server_lines(all.skip(i + 1), inside)));
                assert(p.lines@ =~= head + (seq![seq![]] + now));
                done = now;
            }
        }
        i += 1;
    }
    proof {
        assert(all.skip(i as int) =~= seq![]);
        assert(done + server_lines(all.skip(i as int), inside) =~= done);
        reveal(Page::wf);
        assert(p.lines@ =~= saved_lines(s@, existing@));
    }
    p.out
}

/// Why settings were not saved.
#[derive(Clone, Copy, PartialEq, Eq, Structural, Debug)]
pub enum SaveError {
    /// The settings are not an object.
    NotAnObject,
}

impl SaveError {
    /// What the user is told.
    pub fn message(self) -> (r: String)
        ensures
            r@ == "expected object"@,
    {
        "expected object".to_owned()
    }
}

/// What saving the settings comes to.
pub struct Saved {
    /// The new text of the configuration file.
    pub text: String,
    /// The command to send to the pipeline once the file is written.
    pub command: Option<Value>,
}

/// Saves the settings that the user interface sends: the new configuration file,
/// which preserves any `[server]` section, and, where there is a HuggingFace token,
/// the command that has the pipeline fetch the diarization model. Refused where the
/// settings are not an object.
pub fn save_settings(settings: &Value, existing: Option<&str>) -> (r: Result<Saved, SaveError>)
    ensures
        match r {
            Ok(saved) => {
                let s = settings_from(json(*settings));
                &&& json(*settings) is Object
                &&& saved.text@ == saved_text(s, text_of(existing))
                &&& match saved.command {
                    Some(c) => s.hf_token.len() > 0 && json(c) == command_json(
                        "prefetch_diarizer"@,
                        "hf_token"@,
                        s.hf_token,
                    ),
                    None => s.hf_token.len() == 0,
                }
            },
            Err(e) => e == SaveError::NotAnObject && !(json(*settings) is Object),
        },
{
    if !settings.is_object() {
        return Err(SaveError::NotAnObject);
    }
    let s: Settings = settings_from_value(settings);
    let text: String = match existing {
        Some(t) => render(&s, t),
        None => {
            proof {
                reveal_strlit("");
                assert(""@ =~= seq![]);
            }
            render(&s, "")
        },
    };
    let command: Option<Value> = if s.hf_token.as_str().is_empty() {
        None
    } else {
        Some(prefetch_command(s.hf_token.as_str()))
    };
    Ok(Saved { text, command })
}

} // verus!
