//! What saving and reading the configuration file promise together.

use vstd::prelude::*;
use crate::config::{assignment, assignments, config_entries, is_header, last_value, Assignment, Dialect, Kind};
use crate::desktop_config::mic_device;
use crate::json::{double_text, literal_json, object_members, Json};
use crate::number::{int_text, is_digit, is_float, is_number, is_word, lemma_int_text, small, unsigned, with_point};
use crate::settings::{flag_setting, float_setting, int_setting, is_settings_object, setting_types, settings_from, settings_json, settings_of, text_setting, with_env_token, SettingsView};
use crate::settings_file::{bool_text, config_lines, joined, plain_line, saved_lines, saved_text, server_lines, text_line};
use crate::text::{after, before, find, is_space, lemma_find, lemma_find_is, lemma_trim_same, lines, trim, trim_end, trim_start, without_return, Class};

verus! {

broadcast use vstd::string::group_string_axioms;

// ---- Lines ----
/// Whether a text has no line feed in it.
pub open spec fn one_line(s: Seq<char>) -> bool {
    forall|i: int| 0 <= i < s.len() ==> s[i] != '\n'
}

/// No line has a line feed in it.
proof fn lemma_lines_one_line(s: Seq<char>, i: int)
    requires
        0 <= i < lines(s).len(),
    ensures
        one_line(lines(s)[i]),
    decreases s.len(),
{
    lemma_find(s, '\n');
    if s.len() > 0 && find(s, '\n') < s.len() {
        let first = without_return(before(s, '\n'));
        if i == 0 {
            assert(lines(s)[0] == first);
        } else {
            lemma_lines_one_line(after(s, '\n'), i - 1);
            assert(lines(s)[i] == lines(after(s, '\n'))[i - 1]);
        }
    } else if s.len() > 0 {
        assert(lines(s)[0] == s);
    }
}

/// The lines of joined lines are those lines.
proof fn lemma_lines_joined(ls: Seq<Seq<char>>)
    requires
        forall|i: int| 0 <= i < ls.len() ==> one_line(#[trigger] ls[i]),
    ensures
        lines(joined(ls)) == ls.map_values(|l: Seq<char>| without_return(l)),
    decreases ls.len(),
{
    let f = |l: Seq<char>| without_return(l);
    if ls.len() == 0 {
        assert(lines(joined(ls)) =~= ls.map_values(f));
    } else {
        let rest = ls.drop_first();
        assert forall|i: int| 0 <= i < rest.len() implies one_line(#[trigger] rest[i]) by {
            assert(rest[i] == ls[i + 1]);
        }
        lemma_lines_joined(rest);
        let t = joined(ls);
        let n = ls[0].len() as int;
        assert(t[n] == '\n');
        assert(one_line(ls[0]));
        assert forall|j: int| 0 <= j < n implies t[j] != '\n' by {
            assert(t[j] == ls[0][j]);
        }
        lemma_find_is(t, '\n', n);
        assert(before(t, '\n') =~= ls[0]);
        assert(after(t, '\n') =~= joined(rest));
        assert(ls.map_values(f) =~= seq![f(ls[0])] + rest.map_values(f));
    }
}

/// A carriage return at the end of a line is white space.
proof fn lemma_trim_without_return(s: Seq<char>)
    ensures
        trim(without_return(s), Class::Space) == trim(s, Class::Space),
{
    if s.len() > 0 && s.last() == '\r' {
        lemma_trim_drop_space(s);
    }
}

proof fn lemma_trim_drop_space(s: Seq<char>)
    requires
        s.len() > 0,
        is_space(s.last()),
    ensures
        trim(s.drop_last(), Class::Space) == trim(s, Class::Space),
    decreases s.len(),
{
    if is_space(s[0]) {
        if s.len() == 1 {
            assert(s.drop_last() =~= s.drop_first());
        } else {
            lemma_trim_drop_space(s.drop_first());
            assert(s.drop_first().drop_last() =~= s.drop_last().drop_first());
            assert(s.drop_last()[0] == s[0]);
            assert(trim_start(s, Class::Space) == trim_start(s.drop_first(), Class::Space));
            assert(trim_start(s.drop_last(), Class::Space) == trim_start(
                s.drop_last().drop_first(),
                Class::Space,
            ));
        }
    } else {
        assert(s.len() > 1);
        assert(s.drop_last()[0] == s[0]);
        assert(trim_start(s, Class::Space) == s);
        assert(trim_start(s.drop_last(), Class::Space) == s.drop_last());
        assert(trim_end(s, Class::Space) == trim_end(s.drop_last(), Class::Space));
    }
}

// ---- Assignments ----
/// Lines that are the same when trimmed assign the same.
proof fn lemma_assignments_trimmed(
    a: Seq<Seq<char>>,
    b: Seq<Seq<char>>,
    section: Seq<char>,
    d: Dialect,
)
    requires
        a.len() == b.len(),
        forall|i: int|
            0 <= i < a.len() ==> trim(#[trigger] a[i], Class::Space) == trim(b[i], Class::Space),
    ensures
        assignments(a, section, d) == assignments(b, section, d),
    decreases a.len(),
{
    if a.len() > 0 {
        let line = trim(a[0], Class::Space);
        assert(line == trim(b[0], Class::Space));
        assert forall|i: int| 0 <= i < a.drop_first().len() implies trim(
            #[trigger] a.drop_first()[i],
            Class::Space,
        ) == trim(b.drop_first()[i], Class::Space) by {
            assert(a.drop_first()[i] == a[i + 1]);
            assert(b.drop_first()[i] == b[i + 1]);
        }
        let next = if is_header(line) {
            line
        } else {
            section
        };
        lemma_assignments_trimmed(a.drop_first(), b.drop_first(), next, d);
    }
}

/// The section that lines end in.
spec fn section_after(ls: Seq<Seq<char>>, section: Seq<char>) -> Seq<char>
    decreases ls.len(),
{
    if ls.len() == 0 {
        section
    } else {
        let line = trim(ls[0], Class::Space);
        section_after(
            ls.drop_first(),
            if is_header(line) {
                line
            } else {
                section
            },
        )
    }
}

/// The assignments of lines and more lines.
proof fn lemma_assignments_concat(
    a: Seq<Seq<char>>,
    b: Seq<Seq<char>>,
    section: Seq<char>,
    d: Dialect,
)
    ensures
        assignments(a + b, section, d) == assignments(a, section, d) + assignments(
            b,
            section_after(a, section),
            d,
        ),
    decreases a.len(),
{
    if a.len() == 0 {
        assert(a + b =~= b);
        assert(assignments(a, section, d) + assignments(b, section, d) =~= assignments(
            b,
            section,
            d,
        ));
    } else {
        let line = trim(a[0], Class::Space);
        assert((a + b)[0] == a[0]);
        assert((a + b).drop_first() =~= a.drop_first() + b);
        let next = if is_header(line) {
            line
        } else {
            section
        };
        lemma_assignments_concat(a.drop_first(), b, next, d);
        assert(assignments(a + b, section, d) =~= assignments(a, section, d) + assignments(
            b,
            section_after(a, section),
            d,
        ));
    }
}

/// Lines that are no header of a section assign nothing in it.
proof fn lemma_sections_avoid(
    ls: Seq<Seq<char>>,
    section: Seq<char>,
    d: Dialect,
    other: Seq<char>,
)
    requires
        section != other,
        forall|i: int| 0 <= i < ls.len() ==> trim(#[trigger] ls[i], Class::Space) != other,
    ensures
        forall|i: int|
            0 <= i < assignments(ls, section, d).len() ==> (#[trigger] assignments(
                ls,
                section,
                d,
            )[i]).section != other,
    decreases ls.len(),
{
    if ls.len() > 0 {
        let line = trim(ls[0], Class::Space);
        let rest = ls.drop_first();
        assert forall|i: int| 0 <= i < rest.len() implies trim(#[trigger] rest[i], Class::Space)
            != other by {
            assert(rest[i] == ls[i + 1]);
        }
        let next = if is_header(line) {
            line
        } else {
            section
        };
        lemma_sections_avoid(rest, next, d, other);
        assert forall|i: int| 0 <= i < assignments(ls, section, d).len() implies (
        #[trigger] assignments(ls, section, d)[i]).section != other by {
            let tail = assignments(rest, next, d);
            if is_header(line) || assignment(line, d) is None {
                assert(assignments(ls, section, d) == tail);
                assert(tail[i].section != other);
            } else if i > 0 {
                assert(assignments(ls, section, d)[i] == tail[i - 1]);
            }
        }
    }
}

spec fn in_server() -> spec_fn(Assignment) -> bool {
    |a: Assignment| a.section == "[server]"@
}

/// The lines of the `[server]` sections assign what the file assigns in them.
proof fn lemma_server_lines(
    ls: Seq<Seq<char>>,
    inside: bool,
    section: Seq<char>,
    other: Seq<char>,
    d: Dialect,
)
    requires
        inside ==> section == "[server]"@ && other == section,
        !inside ==> section != "[server]"@,
    ensures
        assignments(server_lines(ls, inside), other, d) == assignments(ls, section, d).filter(
            in_server(),
        ),
    decreases ls.len(),
{
    reveal(Seq::filter);
    broadcast use vstd::seq_lib::group_filter_ensures;

    if ls.len() == 0 {
        assert(assignments(server_lines(ls, inside), other, d) =~= assignments(
            ls,
            section,
            d,
        ).filter(in_server()));
    } else {
        let line = trim(ls[0], Class::Space);
        let rest = ls.drop_first();
        let now = if is_header(line) {
            line == "[server]"@
        } else {
            inside
        };
        let next = if is_header(line) {
            line
        } else {
            section
        };
        if now {
            lemma_server_lines(rest, true, next, next, d);
            let out = seq![ls[0]] + server_lines(rest, true);
            assert(out[0] == ls[0]);
            assert(out.drop_first() =~= server_lines(rest, true));
        } else {
            lemma_server_lines(rest, false, next, other, d);
        }
        if !is_header(line) {
            match assignment(line, d) {
                Some((key, value)) => {
                    let a = Assignment { section, key, value };
                    let tail = assignments(rest, section, d);
                    lemma_filter_cons(a, tail);
                },
                None => {},
            }
        }
    }
}

proof fn lemma_filter_cons(a: Assignment, tail: Seq<Assignment>)
    ensures
        (seq![a] + tail).filter(in_server()) == if in_server()(a) {
            seq![a] + tail.filter(in_server())
        } else {
            tail.filter(in_server())
        },
    decreases tail.len(),
{
    reveal(Seq::filter);
    let p = in_server();
    let all = seq![a] + tail;
    if tail.len() == 0 {
        assert(all.drop_last() =~= tail);
        assert(tail.filter(p) =~= Seq::<Assignment>::empty());
        assert(all.last() == a);
        assert(all.filter(p) =~= if p(a) {
            seq![a] + tail.filter(p)
        } else {
            tail.filter(p)
        });
    } else {
        lemma_filter_cons(a, tail.drop_last());
        assert(all.drop_last() =~= seq![a] + tail.drop_last());
        assert(all.last() == tail.last());
        assert(all.filter(p) =~= if p(a) {
            seq![a] + tail.filter(p)
        } else {
            tail.filter(p)
        });
    }
}

/// The last value of a key of a section depends on the assignments of the section alone.
proof fn lemma_last_value_filter(es: Seq<Assignment>, key: Seq<char>, kind: Kind)
    ensures
        last_value(es, "[server]"@, key, kind) == last_value(
            es.filter(in_server()),
            "[server]"@,
            key,
            kind,
        ),
    decreases es.len(),
{
    reveal(Seq::filter);
    if es.len() > 0 {
        lemma_last_value_filter(es.drop_last(), key, kind);
        if in_server()(es.last()) {
            let f = es.drop_last().filter(in_server());
            assert(es.filter(in_server()) == f.push(es.last()));
            assert(f.push(es.last()).drop_last() =~= f);
        }
    }
}

proof fn lemma_filter_none(es: Seq<Assignment>)
    requires
        forall|i: int| 0 <= i < es.len() ==> (#[trigger] es[i]).section != "[server]"@,
    ensures
        es.filter(in_server()) == Seq::<Assignment>::empty(),
    decreases es.len(),
{
    reveal(Seq::filter);
    if es.len() > 0 {
        assert(es.last() == es[es.len() - 1]);
        assert forall|i: int| 0 <= i < es.drop_last().len() implies (
        #[trigger] es.drop_last()[i]).section != "[server]"@ by {
            assert(es.drop_last()[i] == es[i]);
        }
        lemma_filter_none(es.drop_last());
    }
}

proof fn lemma_filter_concat(a: Seq<Assignment>, b: Seq<Assignment>)
    requires
        a.filter(in_server()) == Seq::<Assignment>::empty(),
    ensures
        (a + b).filter(in_server()) == b.filter(in_server()),
    decreases b.len(),
{
    reveal(Seq::filter);
    if b.len() == 0 {
        assert(a + b =~= a);
        assert(b.filter(in_server()) =~= Seq::<Assignment>::empty());
    } else {
        lemma_filter_concat(a, b.drop_last());
        assert((a + b).drop_last() =~= a + b.drop_last());
        assert((a + b).last() == b.last());
    }
}

// ---- The lines that are written ----
/// A character of a key.
pub open spec fn key_char(c: char) -> bool {
    'a' <= c <= 'z' || c == '_'
}

/// Whether the text is a key: letters and underscores.
pub open spec fn is_key(s: Seq<char>) -> bool {
    s.len() > 0 && forall|i: int| 0 <= i < s.len() ==> key_char(#[trigger] s[i])
}

/// A character that no rule of the file treats in a special way.
pub open spec fn quiet_char(c: char) -> bool {
    is_digit(c) || 'a' <= c <= 'z' || 'A' <= c <= 'Z' || c == '+' || c == '-' || c == '.'
}

/// Whether the text reads as itself without quotes.
pub open spec fn is_quiet(s: Seq<char>) -> bool {
    s.len() > 0 && forall|i: int| 0 <= i < s.len() ==> quiet_char(#[trigger] s[i])
}

/// Whether a text reads as itself once it is written between double quotes: no
/// comment sign and no line feed in it, and no quote at either end.
pub open spec fn storable_text(s: Seq<char>) -> bool {
    &&& !s.contains('#')
    &&& !s.contains('\n')
    &&& s.len() > 0 ==> s[0] != '"' && s[0] != '\'' && s.last() != '"' && s.last() != '\''
}

/// Whether the settings can be stored: the texts read as themselves, the floats
/// are literals and the integers have 64 bits.
pub open spec fn storable(s: SettingsView) -> bool {
    &&& storable_text(s.whisper_model)
    &&& storable_text(s.whisper_device)
    &&& storable_text(s.whisper_compute_type)
    &&& storable_text(s.hf_token)
    &&& i64::MIN <= s.min_speakers <= i64::MAX
    &&& i64::MIN <= s.max_speakers <= i64::MAX
    &&& is_float(s.window_seconds)
    &&& is_float(s.step_seconds)
    &&& is_float(s.speech_gate_rms_db_floor)
    &&& is_float(s.speech_gate_min_speech_fraction)
    &&& is_float(s.speech_gate_silero_threshold)
    &&& storable_text(s.ollama_model)
    &&& storable_text(s.ollama_host)
    &&& is_float(s.speaker_identify_threshold)
    &&& storable_text(s.audio_input_device)
}

/// Whether each setting stays on the line that it is written on.
pub open spec fn stays_on_lines(s: SettingsView) -> bool {
    &&& one_line(s.whisper_model)
    &&& one_line(s.whisper_device)
    &&& one_line(s.whisper_compute_type)
    &&& one_line(s.hf_token)
    &&& one_line(s.window_seconds)
    &&& one_line(s.step_seconds)
    &&& one_line(s.speech_gate_rms_db_floor)
    &&& one_line(s.speech_gate_min_speech_fraction)
    &&& one_line(s.speech_gate_silero_threshold)
    &&& one_line(s.ollama_model)
    &&& one_line(s.ollama_host)
    &&& one_line(s.speaker_identify_threshold)
    &&& one_line(s.audio_input_device)
}

/// What every line of the settings is: a blank line, a comment, the header, or an assignment.
spec fn is_settings_line(line: Seq<char>) -> bool {
    &&& one_line(line)
    &&& line.len() == 0 || line[0] == '#' || key_char(line[0]) || line == "[python]"@
}

proof fn lemma_note(line: Seq<char>)
    requires
        one_line(line),
        line.len() == 0 || line[0] == '#' || line == "[python]"@,
    ensures
        is_settings_line(line),
{
}

proof fn lemma_plain_line(key: Seq<char>, value: Seq<char>)
    requires
        is_key(key),
        one_line(value),
    ensures
        is_settings_line(plain_line(key, value)),
        is_settings_line(text_line(key, value)),
{
    reveal_strlit(" = ");
    let n = key.len() as int;
    let a = plain_line(key, value);
    let b = text_line(key, value);
    assert(key_char(key[0]));
    assert(a[0] == key[0] && b[0] == key[0]);
    assert forall|i: int| 0 <= i < a.len() implies a[i] != '\n' by {
        if i < n {
            assert(key_char(key[i]));
        } else if i >= n + 3 {
            assert(a[i] == value[i - n - 3]);
        }
    }
    assert forall|i: int| 0 <= i < b.len() implies b[i] != '\n' by {
        if i < n {
            assert(key_char(key[i]));
        } else if n + 4 <= i < n + 4 + value.len() {
            assert(b[i] == value[i - n - 4]);
        }
    }
}

/// The keys of the settings are keys, and no two are the same.
pub proof fn lemma_keys()
    ensures
        is_key("whisper_model"@),
        is_key("whisper_device"@),
        is_key("whisper_compute_type"@),
        is_key("diarize"@),
        is_key("hf_token"@),
        is_key("min_speakers"@),
        is_key("max_speakers"@),
        is_key("window_seconds"@),
        is_key("step_seconds"@),
        is_key("speech_gate_enabled"@),
        is_key("speech_gate_rms_db_floor"@),
        is_key("speech_gate_min_speech_fraction"@),
        is_key("speech_gate_silero_threshold"@),
        is_key("summarize"@),
        is_key("ollama_model"@),
        is_key("ollama_host"@),
        is_key("speaker_enroll"@),
        is_key("speaker_identify_threshold"@),
        is_key("audio_input_device"@),
        "whisper_model"@.len() == 13,
        "whisper_model"@[0] == 'w',
        "whisper_model"@[1] == 'h',
        "whisper_device"@.len() == 14,
        "whisper_device"@[0] == 'w',
        "whisper_device"@[1] == 'h',
        "whisper_compute_type"@.len() == 20,
        "whisper_compute_type"@[0] == 'w',
        "whisper_compute_type"@[1] == 'h',
        "diarize"@.len() == 7,
        "diarize"@[0] == 'd',
        "diarize"@[1] == 'i',
        "hf_token"@.len() == 8,
        "hf_token"@[0] == 'h',
        "hf_token"@[1] == 'f',
        "min_speakers"@.len() == 12,
        "min_speakers"@[0] == 'm',
        "min_speakers"@[1] == 'i',
        "max_speakers"@.len() == 12,
        "max_speakers"@[0] == 'm',
        "max_speakers"@[1] == 'a',
        "window_seconds"@.len() == 14,
        "window_seconds"@[0] == 'w',
        "window_seconds"@[1] == 'i',
        "step_seconds"@.len() == 12,
        "step_seconds"@[0] == 's',
        "step_seconds"@[1] == 't',
        "speech_gate_enabled"@.len() == 19,
        "speech_gate_enabled"@[0] == 's',
        "speech_gate_enabled"@[1] == 'p',
        "speech_gate_rms_db_floor"@.len() == 24,
        "speech_gate_rms_db_floor"@[0] == 's',
        "speech_gate_rms_db_floor"@[1] == 'p',
        "speech_gate_min_speech_fraction"@.len() == 31,
        "speech_gate_min_speech_fraction"@[0] == 's',
        "speech_gate_min_speech_fraction"@[1] == 'p',
        "speech_gate_silero_threshold"@.len() == 28,
        "speech_gate_silero_threshold"@[0] == 's',
        "speech_gate_silero_threshold"@[1] == 'p',
        "summarize"@.len() == 9,
        "summarize"@[0] == 's',
        "summarize"@[1] == 'u',
        "ollama_model"@.len() == 12,
        "ollama_model"@[0] == 'o',
        "ollama_model"@[1] == 'l',
        "ollama_host"@.len() == 11,
        "ollama_host"@[0] == 'o',
        "ollama_host"@[1] == 'l',
        "speaker_enroll"@.len() == 14,
        "speaker_enroll"@[0] == 's',
        "speaker_enroll"@[1] == 'p',
        "speaker_identify_threshold"@.len() == 26,
        "speaker_identify_threshold"@[0] == 's',
        "speaker_identify_threshold"@[1] == 'p',
        "audio_input_device"@.len() == 18,
        "audio_input_device"@[0] == 'a',
        "audio_input_device"@[1] == 'u',
{
    reveal_strlit("whisper_model");
    reveal_strlit("whisper_device");
    reveal_strlit("whisper_compute_type");
    reveal_strlit("diarize");
    reveal_strlit("hf_token");
    reveal_strlit("min_speakers");
    reveal_strlit("max_speakers");
    reveal_strlit("window_seconds");
    reveal_strlit("step_seconds");
    reveal_strlit("speech_gate_enabled");
    reveal_strlit("speech_gate_rms_db_floor");
    reveal_strlit("speech_gate_min_speech_fraction");
    reveal_strlit("speech_gate_silero_threshold");
    reveal_strlit("summarize");
    reveal_strlit("ollama_model");
    reveal_strlit("ollama_host");
    reveal_strlit("speaker_enroll");
    reveal_strlit("speaker_identify_threshold");
    reveal_strlit("audio_input_device");
}

/// Every line of the settings is a line of its own, and none is the header of the
/// `[server]` section.
proof fn lemma_config_lines(s: SettingsView)
    requires
        stays_on_lines(s),
    ensures
        forall|i: int|
            0 <= i < config_lines(s).len() ==> is_settings_line(#[trigger] config_lines(s)[i]),
{
    lemma_keys();
    lemma_values_one_line(s);
    reveal_strlit("# CorpoDrone configuration");
    reveal_strlit("# Edit this file to configure the pipeline without recompiling.");
    reveal_strlit("# Whisper model size: tiny / base / small / medium / large-v3");
    reveal_strlit("# Speaker diarization (requires HuggingFace token)");
    reveal_strlit("# Sliding window config (seconds)");
    reveal_strlit("# Silence filtering before Whisper (RMS + Silero VAD)");
    reveal_strlit("# Summarization via Ollama");
    reveal_strlit("# Speaker recognition");
    reveal_strlit("# Microphone (empty = OS default; applies next recording)");
    reveal_strlit("[python]");
    reveal_strlit("");
    lemma_note("# CorpoDrone configuration"@);
    lemma_note("# Edit this file to configure the pipeline without recompiling."@);
    lemma_note("# Whisper model size: tiny / base / small / medium / large-v3"@);
    lemma_note("# Speaker diarization (requires HuggingFace token)"@);
    lemma_note("# Sliding window config (seconds)"@);
    lemma_note("# Silence filtering before Whisper (RMS + Silero VAD)"@);
    lemma_note("# Summarization via Ollama"@);
    lemma_note("# Speaker recognition"@);
    lemma_note("# Microphone (empty = OS default; applies next recording)"@);
    lemma_note("[python]"@);
    lemma_note(""@);
    lemma_plain_line("whisper_model"@, s.whisper_model);
    lemma_plain_line("whisper_device"@, s.whisper_device);
    lemma_plain_line("whisper_compute_type"@, s.whisper_compute_type);
    lemma_plain_line("diarize"@, bool_text(s.diarize));
    lemma_plain_line("hf_token"@, s.hf_token);
    lemma_plain_line("min_speakers"@, int_text(s.min_speakers));
    lemma_plain_line("max_speakers"@, int_text(s.max_speakers));
    lemma_plain_line("window_seconds"@, s.window_seconds);
    lemma_plain_line("step_seconds"@, s.step_seconds);
    lemma_plain_line("speech_gate_enabled"@, bool_text(s.speech_gate_enabled));
    lemma_plain_line("speech_gate_rms_db_floor"@, s.speech_gate_rms_db_floor);
    lemma_plain_line("speech_gate_min_speech_fraction"@, s.speech_gate_min_speech_fraction);
    lemma_plain_line("speech_gate_silero_threshold"@, s.speech_gate_silero_threshold);
    lemma_plain_line("summarize"@, bool_text(s.summarize));
    lemma_plain_line("ollama_model"@, s.ollama_model);
    lemma_plain_line("ollama_host"@, s.ollama_host);
    lemma_plain_line("speaker_enroll"@, bool_text(s.speaker_enroll));
    lemma_plain_line("speaker_identify_threshold"@, s.speaker_identify_threshold);
    lemma_plain_line("audio_input_device"@, s.audio_input_device);
}

proof fn lemma_values_one_line(s: SettingsView)
    ensures
        one_line(bool_text(s.diarize)),
        one_line(int_text(s.min_speakers)),
        one_line(int_text(s.max_speakers)),
        one_line(bool_text(s.speech_gate_enabled)),
        one_line(bool_text(s.summarize)),
        one_line(bool_text(s.speaker_enroll)),
{
    reveal_strlit("true");
    reveal_strlit("false");
    lemma_int_text(s.min_speakers);
    lemma_int_text(s.max_speakers);
    assert forall|i: int| 0 <= i < int_text(s.min_speakers).len() implies int_text(
        s.min_speakers,
    )[i] != '\n' by {
        assert(is_digit(int_text(s.min_speakers)[i]) || int_text(s.min_speakers)[i] == '-');
    }
    assert forall|i: int| 0 <= i < int_text(s.max_speakers).len() implies int_text(
        s.max_speakers,
    )[i] != '\n' by {
        assert(is_digit(int_text(s.max_speakers)[i]) || int_text(s.max_speakers)[i] == '-');
    }
}

/// A line of the settings is not the header of the `[server]` section.
proof fn lemma_not_server(line: Seq<char>)
    requires
        is_settings_line(line),
    ensures
        trim(line, Class::Space) != "[server]"@,
{
    reveal_strlit("[server]");
    reveal_strlit("[python]");
    if line.len() == 0 {
    } else if line == "[python]"@ {
        lemma_trim_same(line, Class::Space);
        assert("[python]"@[1] != "[server]"@[1]);
    } else {
        lemma_trim_first(line);
    }
}

/// Trimming keeps a first character that is no white space.
proof fn lemma_trim_first(s: Seq<char>)
    requires
        s.len() > 0,
        !is_space(s[0]),
    ensures
        trim(s, Class::Space).len() > 0,
        trim(s, Class::Space)[0] == s[0],
    decreases s.len(),
{
    assert(trim_start(s, Class::Space) == s);
    if is_space(s.last()) {
        assert(s.len() > 1);
        lemma_trim_first(s.drop_last());
        assert(trim_start(s.drop_last(), Class::Space) == s.drop_last());
    }
}

/// The lines that are read after saving are those that were written.
proof fn lemma_saved_lines_read(s: SettingsView, existing: Seq<char>)
    requires
        stays_on_lines(s),
    ensures
        lines(saved_text(s, existing)) == saved_lines(s, existing).map_values(
            |l: Seq<char>| without_return(l),
        ),
{
    let ls = saved_lines(s, existing);
    lemma_config_lines(s);
    let server = server_lines(lines(existing), false);
    assert forall|i: int| 0 <= i < lines(existing).len() implies one_line(
        #[trigger] lines(existing)[i],
    ) by {
        lemma_lines_one_line(existing, i);
    }
    lemma_server_one_line(lines(existing), false);
    assert forall|i: int| 0 <= i < ls.len() implies one_line(#[trigger] ls[i]) by {
        let n = config_lines(s).len() as int;
        if i < n {
            assert(ls[i] == config_lines(s)[i]);
        } else if i > n {
            assert(ls[i] == server[i - n - 1]);
        }
    }
    lemma_lines_joined(ls);
}

/// What the file holds after saving is what the lines that were written assign.
proof fn lemma_saved_entries(s: SettingsView, existing: Seq<char>, d: Dialect)
    requires
        stays_on_lines(s),
    ensures
        config_entries(saved_text(s, existing), d) == assignments(
            saved_lines(s, existing),
            seq![],
            d,
        ),
{
    let ls = saved_lines(s, existing);
    lemma_saved_lines_read(s, existing);
    let back = ls.map_values(|l: Seq<char>| without_return(l));
    assert forall|i: int| 0 <= i < back.len() implies trim(#[trigger] back[i], Class::Space)
        == trim(ls[i], Class::Space) by {
        lemma_trim_without_return(ls[i]);
    }
    lemma_assignments_trimmed(back, ls, seq![], d);
}

proof fn lemma_server_one_line(ls: Seq<Seq<char>>, inside: bool)
    requires
        forall|i: int| 0 <= i < ls.len() ==> one_line(#[trigger] ls[i]),
    ensures
        forall|i: int|
            0 <= i < server_lines(ls, inside).len() ==> one_line(
                #[trigger] server_lines(ls, inside)[i],
            ),
    decreases ls.len(),
{
    if ls.len() > 0 {
        let line = trim(ls[0], Class::Space);
        let rest = ls.drop_first();
        let now = if is_header(line) {
            line == "[server]"@
        } else {
            inside
        };
        assert forall|i: int| 0 <= i < rest.len() implies one_line(#[trigger] rest[i]) by {
            assert(rest[i] == ls[i + 1]);
        }
        lemma_server_one_line(rest, now);
        assert(one_line(ls[0]));
        let out = server_lines(ls, inside);
        let tail = server_lines(rest, now);
        assert forall|i: int| 0 <= i < out.len() implies one_line(#[trigger] out[i]) by {
            if now && i > 0 {
                assert(out[i] == tail[i - 1]);
            } else if !now {
                assert(out[i] == tail[i]);
            }
        }
    }
}

/// Saving the settings preserves the `[server]` section: whatever a key of it was
/// read as before, it is read as afterwards.
pub proof fn law_saving_preserves_server_section(
    s: SettingsView,
    existing: Seq<char>,
    d: Dialect,
    key: Seq<char>,
    kind: Kind,
)
    requires
        stays_on_lines(s),
    ensures
        last_value(config_entries(saved_text(s, existing), d), "[server]"@, key, kind)
            == last_value(config_entries(existing, d), "[server]"@, key, kind),
{
    let head = config_lines(s);
    let server = server_lines(lines(existing), false);
    let tail = if server.len() == 0 {
        seq![]
    } else {
        seq![seq![]] + server
    };
    let before_es = config_entries(existing, d);
    let ls = saved_lines(s, existing);
    assert(ls =~= head + tail);
    lemma_saved_entries(s, existing, d);
    lemma_assignments_concat(head, tail, seq![], d);
    lemma_config_lines(s);
    reveal_strlit("[server]");
    assert forall|i: int| 0 <= i < head.len() implies trim(#[trigger] head[i], Class::Space)
        != "[server]"@ by {
        lemma_not_server(head[i]);
    }
    lemma_sections_avoid(head, seq![], d, "[server]"@);
    lemma_filter_none(assignments(head, seq![], d));
    let at = section_after(head, seq![]);
    lemma_server_lines(lines(existing), false, seq![], at, d);
    if server.len() > 0 {
        assert(tail[0] =~= seq![]);
        assert(tail.drop_first() =~= server);
        assert(trim(tail[0], Class::Space) == tail[0]);
        assert(assignments(tail, at, d) == assignments(server, at, d));
    } else {
        assert(server =~= seq![]);
        assert(tail =~= server);
    }
    lemma_filter_concat(assignments(head, seq![], d), assignments(tail, at, d));
    let after_es = config_entries(saved_text(s, existing), d);
    lemma_filter_twice(before_es);
    lemma_last_value_filter(before_es, key, kind);
    lemma_last_value_filter(after_es, key, kind);
}

proof fn lemma_filter_twice(es: Seq<Assignment>)
    ensures
        es.filter(in_server()).filter(in_server()) == es.filter(in_server()),
    decreases es.len(),
{
    reveal(Seq::filter);
    if es.len() > 0 {
        lemma_filter_twice(es.drop_last());
        let f = es.drop_last().filter(in_server());
        if in_server()(es.last()) {
            assert(f.push(es.last()).drop_last() =~= f);
        }
    }
}

// ---- Reading back ----
/// The literal of a float is quiet.
proof fn lemma_float_quiet(s: Seq<char>)
    requires
        is_float(s),
    ensures
        is_quiet(s),
{
    reveal_strlit("inf");
    reveal_strlit("infinity");
    reveal_strlit("nan");
    let t = unsigned(s);
    assert forall|i: int| 0 <= i < t.len() implies quiet_char(#[trigger] t[i]) by {
        if is_word(t, "inf"@) {
            assert(small(t[i]) == "inf"@[i]);
        } else if is_word(t, "infinity"@) {
            assert(small(t[i]) == "infinity"@[i]);
        } else if is_word(t, "nan"@) {
            assert(small(t[i]) == "nan"@[i]);
        } else {
            lemma_number_quiet(t, i);
        }
    }
    if !is_word(t, "inf"@) && !is_word(t, "infinity"@) && !is_word(t, "nan"@) {
        lemma_find(t, 'e');
        lemma_find(t, 'E');
    }
    assert forall|i: int| 0 <= i < s.len() implies quiet_char(#[trigger] s[i]) by {
        if t.len() < s.len() {
            if i > 0 {
                assert(s[i] == t[i - 1]);
            }
        } else {
            assert(s[i] == t[i]);
        }
    }
}

proof fn lemma_number_quiet(t: Seq<char>, i: int)
    requires
        is_number(t),
        0 <= i < t.len(),
    ensures
        quiet_char(t[i]),
{
    let k = crate::number::find_exponent(t);
    lemma_find(t, 'e');
    lemma_find(t, 'E');
    if i < k {
        let m = t.take(k);
        lemma_find(m, '.');
        assert(m[i] == t[i]);
        if m.contains('.') {
            let p = find(m, '.') as int;
            if i < p {
                assert(before(m, '.')[i] == m[i]);
            } else if i > p {
                assert(after(m, '.')[i - p - 1] == m[i]);
            }
        } else {
            assert(is_digit(m[i]));
        }
    } else if i > k {
        let x = t.skip(k + 1);
        let u = unsigned(x);
        assert(x[i - k - 1] == t[i]);
        if u.len() < x.len() {
            if i > k + 1 {
                assert(u[i - k - 2] == t[i]);
            }
        } else {
            assert(u[i - k - 1] == t[i]);
        }
    }
}

/// A line that assigns something without quotes is read as that.
proof fn lemma_plain_line_read(key: Seq<char>, value: Seq<char>)
    requires
        is_key(key),
        is_quiet(value),
    ensures
        ({
            let line = trim(plain_line(key, value), Class::Space);
            &&& !is_header(line)
            &&& assignment(line, Dialect::Commented) == Some((key, value))
        }),
{
    reveal_strlit(" = ");
    let line = plain_line(key, value);
    let n = key.len() as int;
    assert(key_char(key[0]));
    assert(line[0] == key[0]);
    assert(quiet_char(value.last()));
    assert(line.last() == value.last());
    lemma_trim_same(line, Class::Space);
    lemma_key_before(key, value);
    let v = seq![' '] + value;
    assert(after(line, '=') =~= v);
    assert forall|i: int| 0 <= i < v.len() implies v[i] != '#' by {
        if i > 0 {
            assert(quiet_char(value[i - 1]));
        }
    }
    lemma_find_is(v, '#', v.len() as int);
    assert(before(v, '#') =~= v);
    lemma_trim_leading_space(value);
    assert(quiet_char(value[0]));
    lemma_trim_same(value, Class::Only('"'));
    lemma_trim_same(value, Class::Only('\''));
}

/// The key of a line that was written.
proof fn lemma_key_before(key: Seq<char>, value: Seq<char>)
    requires
        is_key(key),
    ensures
        ({
            let line = plain_line(key, value);
            &&& line.contains('=')
            &&& find(line, '=') == key.len() + 1
            &&& trim(before(line, '='), Class::Space) == key
        }),
{
    reveal_strlit(" = ");
    let line = plain_line(key, value);
    let n = key.len() as int;
    assert forall|j: int| 0 <= j < n + 1 implies line[j] != '=' by {
        if j < n {
            assert(key_char(key[j]));
        }
    }
    assert(line[n + 1] == '=');
    lemma_find_is(line, '=', n + 1);
    let h = key + seq![' '];
    assert(before(line, '=') =~= h);
    assert(h.drop_last() =~= key);
    lemma_trim_drop_space(h);
    assert(key_char(key[0]));
    assert(key_char(key.last()));
    lemma_trim_same(key, Class::Space);
}

proof fn lemma_trim_leading_space(value: Seq<char>)
    requires
        value.len() > 0,
        !is_space(value[0]),
        !is_space(value.last()),
    ensures
        trim(seq![' '] + value, Class::Space) == value,
{
    let v = seq![' '] + value;
    assert(v.drop_first() =~= value);
    assert(v[0] == ' ');
    lemma_trim_same(value, Class::Space);
    assert(trim_start(v, Class::Space) == trim_start(value, Class::Space));
}

/// A line that assigns a text is read as that text.
proof fn lemma_text_line_read(key: Seq<char>, value: Seq<char>)
    requires
        is_key(key),
        storable_text(value),
    ensures
        ({
            let line = trim(text_line(key, value), Class::Space);
            &&& !is_header(line)
            &&& assignment(line, Dialect::Commented) == Some((key, value))
        }),
{
    reveal_strlit(" = ");
    let q = seq!['"'] + value + seq!['"'];
    let line = text_line(key, value);
    assert(line =~= plain_line(key, q));
    assert(key_char(key[0]));
    assert(line[0] == key[0]);
    assert(line.last() == '"');
    lemma_trim_same(line, Class::Space);
    lemma_key_before(key, q);
    let v = seq![' '] + q;
    assert(after(line, '=') =~= v);
    assert forall|i: int| 0 <= i < v.len() implies v[i] != '#' by {
        if 2 <= i < 2 + value.len() {
            assert(v[i] == value[i - 2]);
            assert(value.contains(value[i - 2]));
        }
    }
    lemma_find_is(v, '#', v.len() as int);
    assert(before(v, '#') =~= v);
    lemma_trim_leading_space(q);
    lemma_trim_quotes(value);
    lemma_trim_same(value, Class::Only('\''));
}

/// Trimming takes the double quotes off a text that has none at its ends.
proof fn lemma_trim_quotes(value: Seq<char>)
    requires
        value.len() > 0 ==> value[0] != '"' && value.last() != '"',
    ensures
        trim(seq!['"'] + value + seq!['"'], Class::Only('"')) == value,
{
    let c = Class::Only('"');
    let q = seq!['"'] + value + seq!['"'];
    let r = value + seq!['"'];
    assert(q.drop_first() =~= r);
    assert(q[0] == '"');
    assert(trim_start(q, c) == trim_start(r, c));
    if value.len() == 0 {
        assert(r.drop_first() =~= value);
        assert(r[0] == '"');
        assert(trim_start(r, c) == trim_start(value, c));
        assert(trim(q, c) =~= value);
    } else {
        assert(r[0] == value[0]);
        assert(trim_start(r, c) == r);
        assert(r.last() == '"');
        assert(r.drop_last() =~= value);
        assert(trim_end(r, c) == trim_end(value, c));
    }
}

/// The assignments of the lines from a position on.
spec fn from(ls: Seq<Seq<char>>, i: int, section: Seq<char>) -> Seq<Assignment> {
    assignments(ls.skip(i), section, Dialect::Commented)
}

proof fn lemma_from_other(ls: Seq<Seq<char>>, i: int, section: Seq<char>)
    requires
        0 <= i < ls.len(),
        ls[i].len() == 0 || ls[i][0] == '#',
    ensures
        from(ls, i, section) == from(ls, i + 1, section),
        section == "[python]"@ ==> forall|k: Seq<char>, kind: Kind| #[trigger]
            value_from(ls, i, k, kind) == value_from(ls, i + 1, k, kind),
{
    reveal(value_from);
    assert(ls.skip(i)[0] == ls[i]);
    assert(ls.skip(i).drop_first() =~= ls.skip(i + 1));
    if ls[i].len() > 0 {
        lemma_trim_first(ls[i]);
    } else {
        assert(trim(ls[i], Class::Space) == ls[i]);
    }
}

proof fn lemma_from_header(ls: Seq<Seq<char>>, i: int, section: Seq<char>)
    requires
        0 <= i < ls.len(),
        ls[i] == "[python]"@,
    ensures
        from(ls, i, section) == from(ls, i + 1, "[python]"@),
{
    reveal_strlit("[python]");
    assert(ls.skip(i)[0] == ls[i]);
    assert(ls.skip(i).drop_first() =~= ls.skip(i + 1));
    lemma_trim_same(ls[i], Class::Space);
}

/// An assignment in the `[python]` section.
spec fn python(key: Seq<char>, value: Seq<char>) -> Assignment {
    Assignment { section: "[python]"@, key, value }
}

/// An assignment in front of others: it counts only where they assign nothing.
spec fn overridden(
    rest: Option<Seq<char>>,
    a: Assignment,
    key: Seq<char>,
    kind: Kind,
) -> Option<Seq<char>> {
    if rest is Some {
        rest
    } else if a.key == key && kind.admits(a.value) {
        Some(a.value)
    } else {
        None
    }
}

/// The last value of a key in the lines from a position on.
#[verifier::opaque]
spec fn value_from(ls: Seq<Seq<char>>, i: int, key: Seq<char>, kind: Kind) -> Option<Seq<char>> {
    last_value(from(ls, i, "[python]"@), "[python]"@, key, kind)
}

proof fn lemma_last_value_cons(a: Assignment, rest: Seq<Assignment>, key: Seq<char>, kind: Kind)
    requires
        a.section == "[python]"@,
    ensures
        last_value(seq![a] + rest, "[python]"@, key, kind) == overridden(
            last_value(rest, "[python]"@, key, kind),
            a,
            key,
            kind,
        ),
    decreases rest.len(),
{
    let all = seq![a] + rest;
    if rest.len() == 0 {
        assert(all.drop_last() =~= rest);
        assert(all.last() == a);
    } else {
        lemma_last_value_cons(a, rest.drop_last(), key, kind);
        assert(all.drop_last() =~= seq![a] + rest.drop_last());
        assert(all.last() == rest.last());
    }
}

proof fn lemma_from_pair(ls: Seq<Seq<char>>, i: int, key: Seq<char>, value: Seq<char>)
    requires
        0 <= i < ls.len(),
        !is_header(trim(ls[i], Class::Space)),
        assignment(trim(ls[i], Class::Space), Dialect::Commented) == Some((key, value)),
    ensures
        forall|k: Seq<char>, kind: Kind| #[trigger]
            value_from(ls, i, k, kind) == overridden(
                value_from(ls, i + 1, k, kind),
                python(key, value),
                k,
                kind,
            ),
{
    reveal(value_from);
    assert(ls.skip(i)[0] == ls[i]);
    assert(ls.skip(i).drop_first() =~= ls.skip(i + 1));
    let rest = from(ls, i + 1, "[python]"@);
    assert(from(ls, i, "[python]"@) == seq![python(key, value)] + rest);
    assert forall|k: Seq<char>, kind: Kind| #[trigger]
        value_from(ls, i, k, kind) == overridden(
            value_from(ls, i + 1, k, kind),
            python(key, value),
            k,
            kind,
        ) by {
        lemma_last_value_cons(python(key, value), rest, k, kind);
    }
}

proof fn lemma_from_text(ls: Seq<Seq<char>>, i: int, key: Seq<char>, value: Seq<char>)
    requires
        0 <= i < ls.len(),
        ls[i] == text_line(key, value),
        is_key(key),
        storable_text(value),
    ensures
        forall|k: Seq<char>, kind: Kind| #[trigger]
            value_from(ls, i, k, kind) == overridden(
                value_from(ls, i + 1, k, kind),
                python(key, value),
                k,
                kind,
            ),
{
    lemma_text_line_read(key, value);
    lemma_from_pair(ls, i, key, value);
}

proof fn lemma_from_plain(ls: Seq<Seq<char>>, i: int, key: Seq<char>, value: Seq<char>)
    requires
        0 <= i < ls.len(),
        ls[i] == plain_line(key, value),
        is_key(key),
        is_quiet(value),
    ensures
        forall|k: Seq<char>, kind: Kind| #[trigger]
            value_from(ls, i, k, kind) == overridden(
                value_from(ls, i + 1, k, kind),
                python(key, value),
                k,
                kind,
            ),
{
    lemma_plain_line_read(key, value);
    lemma_from_pair(ls, i, key, value);
}

/// No assignment of the `[server]` section counts in the `[python]` section.
proof fn lemma_server_is_not_python(es: Seq<Assignment>, key: Seq<char>, kind: Kind)
    requires
        forall|i: int| 0 <= i < es.len() ==> (#[trigger] es[i]).section == "[server]"@,
    ensures
        last_value(es, "[python]"@, key, kind) is None,
    decreases es.len(),
{
    reveal_strlit("[server]");
    reveal_strlit("[python]");
    assert("[python]"@[1] != "[server]"@[1]);
    if es.len() > 0 {
        assert(es.last() == es[es.len() - 1]);
        assert forall|i: int| 0 <= i < es.drop_last().len() implies (
        #[trigger] es.drop_last()[i]).section == "[server]"@ by {
            assert(es.drop_last()[i] == es[i]);
        }
        lemma_server_is_not_python(es.drop_last(), key, kind);
    }
}

/// Storable settings stay on their lines.
proof fn lemma_storable_stays(s: SettingsView)
    requires
        storable(s),
    ensures
        stays_on_lines(s),
{
    lemma_storable_one_line(s.whisper_model);
    lemma_storable_one_line(s.whisper_device);
    lemma_storable_one_line(s.whisper_compute_type);
    lemma_storable_one_line(s.hf_token);
    lemma_float_one_line(s.window_seconds);
    lemma_float_one_line(s.step_seconds);
    lemma_float_one_line(s.speech_gate_rms_db_floor);
    lemma_float_one_line(s.speech_gate_min_speech_fraction);
    lemma_float_one_line(s.speech_gate_silero_threshold);
    lemma_storable_one_line(s.ollama_model);
    lemma_storable_one_line(s.ollama_host);
    lemma_float_one_line(s.speaker_identify_threshold);
    lemma_storable_one_line(s.audio_input_device);
}

proof fn lemma_storable_one_line(v: Seq<char>)
    requires
        storable_text(v),
    ensures
        one_line(v),
{
    assert forall|i: int| 0 <= i < v.len() implies v[i] != '\n' by {
        assert(v.contains(v[i]));
    }
}

proof fn lemma_float_one_line(v: Seq<char>)
    requires
        is_float(v),
    ensures
        one_line(v),
        is_quiet(v),
{
    lemma_float_quiet(v);
    assert forall|i: int| 0 <= i < v.len() implies v[i] != '\n' by {
        assert(quiet_char(v[i]));
    }
}

proof fn lemma_bool_quiet(b: bool)
    ensures
        is_quiet(bool_text(b)),
        (bool_text(b) == "true"@) == b,
{
    reveal_strlit("true");
    reveal_strlit("false");
    assert("true"@.len() != "false"@.len());
}

proof fn lemma_int_quiet(n: int)
    ensures
        is_quiet(int_text(n)),
{
    lemma_int_text(n);
    assert forall|i: int| 0 <= i < int_text(n).len() implies quiet_char(
        #[trigger] int_text(n)[i],
    ) by {
        assert(is_digit(int_text(n)[i]) || int_text(n)[i] == '-');
    }
}

/// What each key is read as, from the lines of the settings and those behind them.
proof fn lemma_values_read(s: SettingsView, ls: Seq<Seq<char>>)
    requires
        storable(s),
        ls.len() >= 36,
        ls.take(36) == config_lines(s),
        forall|k: Seq<char>, kind: Kind| #[trigger] value_from(ls, 36, k, kind) is None,
    ensures
        from(ls, 0, seq![]) == from(ls, 5, "[python]"@),
        value_from(ls, 5, "whisper_model"@, Kind::Any) == Some(s.whisper_model),
        value_from(ls, 5, "whisper_device"@, Kind::Any) == Some(s.whisper_device),
        value_from(ls, 5, "whisper_compute_type"@, Kind::Any) == Some(s.whisper_compute_type),
        value_from(ls, 5, "diarize"@, Kind::Any) == Some(bool_text(s.diarize)),
        value_from(ls, 5, "hf_token"@, Kind::Any) == Some(s.hf_token),
        value_from(ls, 5, "min_speakers"@, Kind::Integer) == Some(int_text(s.min_speakers)),
        value_from(ls, 5, "max_speakers"@, Kind::Integer) == Some(int_text(s.max_speakers)),
        value_from(ls, 5, "window_seconds"@, Kind::Float) == Some(s.window_seconds),
        value_from(ls, 5, "step_seconds"@, Kind::Float) == Some(s.step_seconds),
        value_from(ls, 5, "speech_gate_enabled"@, Kind::Any) == Some(bool_text(s.speech_gate_enabled)),
        value_from(ls, 5, "speech_gate_rms_db_floor"@, Kind::Float) == Some(s.speech_gate_rms_db_floor),
        value_from(ls, 5, "speech_gate_min_speech_fraction"@, Kind::Float) == Some(s.speech_gate_min_speech_fraction),
        value_from(ls, 5, "speech_gate_silero_threshold"@, Kind::Float) == Some(s.speech_gate_silero_threshold),
        value_from(ls, 5, "summarize"@, Kind::Any) == Some(bool_text(s.summarize)),
        value_from(ls, 5, "ollama_model"@, Kind::Any) == Some(s.ollama_model),
        value_from(ls, 5, "ollama_host"@, Kind::Any) == Some(s.ollama_host),
        value_from(ls, 5, "speaker_enroll"@, Kind::Any) == Some(bool_text(s.speaker_enroll)),
        value_from(ls, 5, "speaker_identify_threshold"@, Kind::Float) == Some(s.speaker_identify_threshold),
        value_from(ls, 5, "audio_input_device"@, Kind::Any) == Some(s.audio_input_device),
{
    lemma_keys();
    let cl = config_lines(s);
    assert(cl.len() == 36);
    assert forall|i: int| 0 <= i < 36 implies #[trigger] ls[i] == cl[i] by {
        assert(ls.take(36)[i] == ls[i]);
    }
    lemma_int_text(s.min_speakers);
    lemma_int_text(s.max_speakers);
    reveal_strlit("# CorpoDrone configuration");
    reveal_strlit("# Edit this file to configure the pipeline without recompiling.");
    reveal_strlit("# Whisper model size: tiny / base / small / medium / large-v3");
    reveal_strlit("# Speaker diarization (requires HuggingFace token)");
    reveal_strlit("# Sliding window config (seconds)");
    reveal_strlit("# Silence filtering before Whisper (RMS + Silero VAD)");
    reveal_strlit("# Summarization via Ollama");
    reveal_strlit("# Speaker recognition");
    reveal_strlit("# Microphone (empty = OS default; applies next recording)");
    reveal_strlit("[python]");
    reveal_strlit("");
    lemma_from_text(ls, 35, "audio_input_device"@, s.audio_input_device);
    lemma_from_other(ls, 34, "[python]"@);
    lemma_from_other(ls, 33, "[python]"@);
    lemma_float_quiet(s.speaker_identify_threshold);
    lemma_from_plain(ls, 32, "speaker_identify_threshold"@, s.speaker_identify_threshold);
    lemma_bool_quiet(s.speaker_enroll);
    lemma_from_plain(ls, 31, "speaker_enroll"@, bool_text(s.speaker_enroll));
    lemma_from_other(ls, 30, "[python]"@);
    lemma_from_other(ls, 29, "[python]"@);
    lemma_from_text(ls, 28, "ollama_host"@, s.ollama_host);
    lemma_from_text(ls, 27, "ollama_model"@, s.ollama_model);
    lemma_bool_quiet(s.summarize);
    lemma_from_plain(ls, 26, "summarize"@, bool_text(s.summarize));
    lemma_from_other(ls, 25, "[python]"@);
    lemma_from_other(ls, 24, "[python]"@);
    lemma_float_quiet(s.speech_gate_silero_threshold);
    lemma_from_plain(ls, 23, "speech_gate_silero_threshold"@, s.speech_gate_silero_threshold);
    lemma_float_quiet(s.speech_gate_min_speech_fraction);
    lemma_from_plain(ls, 22, "speech_gate_min_speech_fraction"@, s.speech_gate_min_speech_fraction);
    lemma_float_quiet(s.speech_gate_rms_db_floor);
    lemma_from_plain(ls, 21, "speech_gate_rms_db_floor"@, s.speech_gate_rms_db_floor);
    lemma_bool_quiet(s.speech_gate_enabled);
    lemma_from_plain(ls, 20, "speech_gate_enabled"@, bool_text(s.speech_gate_enabled));
    lemma_from_other(ls, 19, "[python]"@);
    lemma_from_other(ls, 18, "[python]"@);
    lemma_float_quiet(s.step_seconds);
    lemma_from_plain(ls, 17, "step_seconds"@, s.step_seconds);
    lemma_float_quiet(s.window_seconds);
    lemma_from_plain(ls, 16, "window_seconds"@, s.window_seconds);
    lemma_from_other(ls, 15, "[python]"@);
    lemma_from_other(ls, 14, "[python]"@);
    lemma_int_quiet(s.max_speakers);
    lemma_from_plain(ls, 13, "max_speakers"@, int_text(s.max_speakers));
    lemma_int_quiet(s.min_speakers);
    lemma_from_plain(ls, 12, "min_speakers"@, int_text(s.min_speakers));
    lemma_from_text(ls, 11, "hf_token"@, s.hf_token);
    lemma_bool_quiet(s.diarize);
    lemma_from_plain(ls, 10, "diarize"@, bool_text(s.diarize));
    lemma_from_other(ls, 9, "[python]"@);
    lemma_from_other(ls, 8, "[python]"@);
    lemma_from_text(ls, 7, "whisper_compute_type"@, s.whisper_compute_type);
    lemma_from_text(ls, 6, "whisper_device"@, s.whisper_device);
    lemma_from_text(ls, 5, "whisper_model"@, s.whisper_model);
    lemma_from_other(ls, 4, "[python]"@);
    lemma_from_header(ls, 3, seq![]);
    lemma_from_other(ls, 2, seq![]);
    lemma_from_other(ls, 1, seq![]);
    lemma_from_other(ls, 0, seq![]);
}

/// Settings that the user interface was shown and hands back are saved as they were.
/// Nothing is said of the floating-point ones, which go through doubles.
pub proof fn law_shown_settings_are_saved(s: SettingsView)
    requires
        i64::MIN <= s.min_speakers <= i64::MAX,
        i64::MIN <= s.max_speakers <= i64::MAX,
    ensures
        ({
            let back = settings_from(settings_json(s));
            &&& back.whisper_model == s.whisper_model
            &&& back.whisper_device == s.whisper_device
            &&& back.whisper_compute_type == s.whisper_compute_type
            &&& back.diarize == s.diarize
            &&& back.hf_token == s.hf_token
            &&& back.min_speakers == s.min_speakers
            &&& back.max_speakers == s.max_speakers
            &&& back.speech_gate_enabled == s.speech_gate_enabled
            &&& back.summarize == s.summarize
            &&& back.ollama_model == s.ollama_model
            &&& back.ollama_host == s.ollama_host
            &&& back.speaker_enroll == s.speaker_enroll
            &&& back.audio_input_device == s.audio_input_device
        }),
{
    lemma_keys();
}

/// A setting that the configuration file does not assign has its default.
pub proof fn law_missing_settings_have_their_defaults(text: Seq<char>, key: Seq<char>)
    requires
        forall|i: int|
            0 <= i < config_entries(text, Dialect::Commented).len() ==> {
                let e = #[trigger] config_entries(text, Dialect::Commented)[i];
                e.section != "[python]"@ || e.key != key
            },
    ensures
        forall|d: Seq<char>| #[trigger]
            text_setting(config_entries(text, Dialect::Commented), key, d) == d,
        forall|d: Seq<char>| #[trigger]
            float_setting(config_entries(text, Dialect::Commented), key, d) == d,
        forall|d: int| #[trigger]
            int_setting(config_entries(text, Dialect::Commented), key, d) == d,
        forall|d: bool| #[trigger]
            flag_setting(config_entries(text, Dialect::Commented), key, d) == d,
{
    let es = config_entries(text, Dialect::Commented);
    lemma_unassigned(es, key, Kind::Any);
    lemma_unassigned(es, key, Kind::Integer);
    lemma_unassigned(es, key, Kind::Float);
}

proof fn lemma_unassigned(es: Seq<Assignment>, key: Seq<char>, kind: Kind)
    requires
        forall|i: int|
            0 <= i < es.len() ==> (#[trigger] es[i]).section != "[python]"@ || es[i].key != key,
    ensures
        last_value(es, "[python]"@, key, kind) is None,
    decreases es.len(),
{
    if es.len() > 0 {
        assert(es.last() == es[es.len() - 1]);
        let rest = es.drop_last();
        assert forall|i: int| 0 <= i < rest.len() implies (#[trigger] rest[i]).section
            != "[python]"@ || rest[i].key != key by {
            assert(rest[i] == es[i]);
        }
        lemma_unassigned(rest, key, kind);
    }
}

/// What is saved is what is read back: the settings that the configuration file
/// holds after storable settings were saved are those settings.
pub proof fn law_saved_settings_are_read_back(s: SettingsView, existing: Seq<char>)
    requires
        storable(s),
    ensures
        settings_of(saved_text(s, existing)) == s,
{
    reveal(value_from);
    lemma_storable_stays(s);
    lemma_saved_entries(s, existing, Dialect::Commented);
    let ls = saved_lines(s, existing);
    let server = server_lines(lines(existing), false);
    let tail = ls.skip(36);
    assert(config_lines(s).len() == 36);
    assert(ls.take(36) =~= config_lines(s));
    let p = "[python]"@;
    let es = assignments(tail, p, Dialect::Commented);
    reveal_strlit("[server]");
    lemma_server_lines(lines(existing), false, seq![], p, Dialect::Commented);
    let filtered = config_entries(existing, Dialect::Commented).filter(in_server());
    if server.len() > 0 {
        assert(tail =~= seq![seq![]] + server);
        assert(tail[0] =~= seq![]);
        assert(tail.drop_first() =~= server);
        assert(trim(tail[0], Class::Space) == tail[0]);
        assert(es == assignments(server, p, Dialect::Commented));
    } else {
        assert(tail =~= seq![]);
        assert(server =~= seq![]);
    }
    assert(es == filtered);
    assert forall|i: int| 0 <= i < es.len() implies (#[trigger] es[i]).section == "[server]"@ by {
        lemma_filter_member(config_entries(existing, Dialect::Commented), i);
    }
    assert forall|k: Seq<char>, kind: Kind| #[trigger] value_from(ls, 36, k, kind) is None by {
        lemma_server_is_not_python(es, k, kind);
    }
    lemma_values_read(s, ls);
    assert(ls.skip(0) =~= ls);
    assert(config_entries(saved_text(s, existing), Dialect::Commented) == from(ls, 5, p));
    lemma_int_text(s.min_speakers);
    lemma_int_text(s.max_speakers);
    lemma_bool_quiet(s.diarize);
    lemma_bool_quiet(s.speech_gate_enabled);
    lemma_bool_quiet(s.summarize);
    lemma_bool_quiet(s.speaker_enroll);
    assert(settings_of(saved_text(s, existing)) =~= s);
}

proof fn lemma_filter_member(es: Seq<Assignment>, i: int)
    requires
        0 <= i < es.filter(in_server()).len(),
    ensures
        es.filter(in_server())[i].section == "[server]"@,
    decreases es.len(),
{
    reveal(Seq::filter);
    if es.len() > 0 {
        let f = es.drop_last().filter(in_server());
        if i < f.len() {
            lemma_filter_member(es.drop_last(), i);
        }
    }
}

/// The microphone that a recording uses is the one that the settings show.
pub proof fn law_recording_uses_the_microphone_of_the_settings(text: Seq<char>)
    ensures
        mic_device(text) == settings_of(text).audio_input_device,
{
}

// ---- Settings that are saved and shown again ----
/// Whether a text can be stored, where the value is one.
pub open spec fn has_storable_text(v: Json) -> bool {
    v matches Json::Text(t) ==> storable_text(t)
}

/// Whether an integer has 64 bits, where the value is one.
pub open spec fn has_64_bits(v: Json) -> bool {
    v matches Json::Int(n) ==> i64::MIN <= n <= i64::MAX
}

/// Whether the double of a number is read from the text that it is written as.
pub open spec fn survives(v: Json) -> bool {
    &&& is_float(with_point(double_text(v)))
    &&& literal_json(with_point(double_text(v))) == v
}

/// A settings object that is saved is shown again as it was, whatever stood in the files
/// before: the texts in it can be stored, it has a token, and its doubles are read from
/// their texts.
pub proof fn law_saved_object_is_shown_again(v: Json, existing: Seq<char>, env: Option<&str>)
    requires
        is_settings_object(v),
        forall|k: Seq<char>| #[trigger]
            setting_types().contains_key(k) ==> {
                &&& has_storable_text(object_members(v)[k])
                &&& has_64_bits(object_members(v)[k])
                &&& setting_types()[k] is Float ==> survives(object_members(v)[k])
            },
        object_members(v)["hf_token"@] != Json::Text(seq![]),
    ensures
        settings_json(
            with_env_token(settings_of(saved_text(settings_from(v), existing)), env),
        ) == v,
{
    lemma_keys();
    let m = object_members(v);
    let s = settings_from(v);
    assert(setting_types().contains_key("whisper_model"@));
    assert(setting_types().contains_key("whisper_device"@));
    assert(setting_types().contains_key("whisper_compute_type"@));
    assert(setting_types().contains_key("hf_token"@));
    assert(setting_types().contains_key("ollama_model"@));
    assert(setting_types().contains_key("ollama_host"@));
    assert(setting_types().contains_key("audio_input_device"@));
    assert(setting_types().contains_key("window_seconds"@));
    assert(setting_types().contains_key("step_seconds"@));
    assert(setting_types().contains_key("speech_gate_rms_db_floor"@));
    assert(setting_types().contains_key("speech_gate_min_speech_fraction"@));
    assert(setting_types().contains_key("speech_gate_silero_threshold"@));
    assert(setting_types().contains_key("speaker_identify_threshold"@));
    assert(setting_types().contains_key("min_speakers"@));
    assert(setting_types().contains_key("max_speakers"@));
    assert(setting_types().contains_key("diarize"@));
    assert(setting_types().contains_key("speech_gate_enabled"@));
    assert(setting_types().contains_key("summarize"@));
    assert(setting_types().contains_key("speaker_enroll"@));
    assert(m["hf_token"@] == Json::Text(s.hf_token));
    assert(s.hf_token.len() > 0) by {
        if s.hf_token.len() == 0 {
            assert(s.hf_token =~= seq![]);
        }
    }
    assert(storable(s));
    law_saved_settings_are_read_back(s, existing);
    let back = object_members(settings_json(s));
    assert(back.dom() =~= setting_types().dom());
    assert(back =~= m);
}

// ---- Saving twice ----
proof fn lemma_server_lines_again(ls: Seq<Seq<char>>, inside: bool, again: bool)
    requires
        inside ==> again,
    ensures
        server_lines(server_lines(ls, inside), again) == server_lines(ls, inside),
    decreases ls.len(),
{
    if ls.len() > 0 {
        let line = trim(ls[0], Class::Space);
        let rest = ls.drop_first();
        let now = if is_header(line) {
            line == "[server]"@
        } else {
            inside
        };
        if now {
            lemma_server_lines_again(rest, true, true);
            let out = server_lines(ls, inside);
            assert(out[0] == ls[0]);
            assert(out.drop_first() =~= server_lines(rest, true));
        } else {
            lemma_server_lines_again(rest, false, again);
        }
    }
}

proof fn lemma_server_lines_behind(head: Seq<Seq<char>>, tail: Seq<Seq<char>>)
    requires
        forall|i: int|
            0 <= i < head.len() ==> trim(#[trigger] head[i], Class::Space) != "[server]"@,
    ensures
        server_lines(head + tail, false) == server_lines(tail, false),
    decreases head.len(),
{
    if head.len() == 0 {
        assert(head + tail =~= tail);
    } else {
        let rest = head.drop_first();
        assert forall|i: int| 0 <= i < rest.len() implies trim(#[trigger] rest[i], Class::Space)
            != "[server]"@ by {
            assert(rest[i] == head[i + 1]);
        }
        lemma_server_lines_behind(rest, tail);
        assert((head + tail)[0] == head[0]);
        assert((head + tail).drop_first() =~= rest + tail);
    }
}

/// No line of a text without carriage returns has one.
proof fn lemma_lines_no_return(s: Seq<char>, i: int)
    requires
        !s.contains('\r'),
        0 <= i < lines(s).len(),
    ensures
        !lines(s)[i].contains('\r'),
    decreases s.len(),
{
    lemma_find(s, '\n');
    assert forall|j: int| 0 <= j < s.len() implies s[j] != '\r' by {
        if s[j] == '\r' {
            assert(s.contains('\r'));
        }
    }
    if s.len() > 0 && find(s, '\n') < s.len() {
        let first = without_return(before(s, '\n'));
        let rest = after(s, '\n');
        if i == 0 {
            assert(lines(s)[0] == first);
        } else {
            assert forall|j: int| 0 <= j < rest.len() implies rest[j] != '\r' by {
                assert(rest[j] == s[find(s, '\n') + 1 + j]);
            }
            lemma_lines_no_return(rest, i - 1);
            assert(lines(s)[i] == lines(rest)[i - 1]);
        }
    } else if s.len() > 0 {
        assert(lines(s)[0] == s);
    }
}

proof fn lemma_server_member(ls: Seq<Seq<char>>, inside: bool, i: int)
    requires
        0 <= i < server_lines(ls, inside).len(),
    ensures
        ls.contains(server_lines(ls, inside)[i]),
    decreases ls.len(),
{
    if ls.len() > 0 {
        let line = trim(ls[0], Class::Space);
        let rest = ls.drop_first();
        let now = if is_header(line) {
            line == "[server]"@
        } else {
            inside
        };
        let out = server_lines(ls, inside);
        if now && i == 0 {
            assert(out[0] == ls[0]);
        } else {
            let j = if now {
                i - 1
            } else {
                i
            };
            lemma_server_member(rest, now, j);
            assert(out[i] == server_lines(rest, now)[j]);
            let k = choose|k: int| 0 <= k < rest.len() && rest[k] == out[i];
            assert(ls[k + 1] == out[i]);
        }
    }
}

/// Saving the same settings once more leaves the file as it is: the `[server]` section
/// neither grows nor moves.
pub proof fn law_saving_twice_changes_nothing(s: SettingsView, existing: Seq<char>)
    requires
        stays_on_lines(s),
        !existing.contains('\r'),
    ensures
        saved_text(s, saved_text(s, existing)) == saved_text(s, existing),
{
    let head = config_lines(s);
    let server = server_lines(lines(existing), false);
    let ls = saved_lines(s, existing);
    let back = lines(saved_text(s, existing));
    lemma_saved_lines_read(s, existing);
    let cut = |l: Seq<char>| without_return(l);
    lemma_config_lines(s);
    let blank: Seq<char> = seq![];
    let tail = if server.len() == 0 {
        seq![]
    } else {
        seq![blank] + server
    };
    let h = head.map_values(cut);
    assert forall|i: int| 0 <= i < tail.len() implies cut(#[trigger] tail[i]) == tail[i] by {
        if i > 0 {
            let line = server[i - 1];
            assert(tail[i] == line);
            lemma_server_member(lines(existing), false, i - 1);
            let k = choose|k: int| 0 <= k < lines(existing).len() && lines(existing)[k] == line;
            lemma_lines_no_return(existing, k);
            if line.len() > 0 && line.last() == '\r' {
                assert(line[line.len() - 1] == '\r');
                assert(line.contains('\r'));
            }
        }
    }
    assert(ls =~= head + tail);
    assert(back =~= h + tail) by {
        assert forall|i: int| 0 <= i < back.len() implies back[i] == (h + tail)[i] by {
            assert(back[i] == cut(ls[i]));
            if i >= head.len() {
                assert(ls[i] == tail[i - head.len()]);
            } else {
                assert(ls[i] == head[i]);
            }
        }
    }
    assert forall|i: int| 0 <= i < h.len() implies trim(#[trigger] h[i], Class::Space)
        != "[server]"@ by {
        lemma_not_server(head[i]);
        lemma_trim_without_return(head[i]);
    }
    lemma_server_lines_behind(h, tail);
    lemma_server_lines_again(lines(existing), false, false);
    if server.len() > 0 {
        reveal_strlit("[server]");
        assert(trim(blank, Class::Space) == blank);
        assert(tail[0] == blank);
        assert(tail.drop_first() =~= server);
    } else {
        assert(server =~= seq![]);
    }
    assert(server_lines(back, false) == server);
}

} // verus!
