//! What each setting is called, where it comes from and where it goes: key by key.

use vstd::prelude::*;
use crate::config::{bare, config_entries, is_header, last_value, Assignment, Dialect, Kind};
use crate::config_laws::{law_assigned_value_is_read, law_bare_value};
use crate::json::{double_text, literal_json, member, Json};
use crate::number::{i64_value, int_text, is_float, with_point};
use crate::number_laws::{law_digits_are_a_float, law_digits_with_a_point_are_a_float};
use crate::settings::{configured, env_token, settings_from, settings_json, settings_of, with_env_token, Settings, SettingsView};
use crate::settings_file::{joined, lemma_joined_push, saved_lines, saved_text, server_lines};
use crate::settings_laws::lemma_keys;
use crate::text::{before, has_prefix, lines, trim, Class};
use crate::text_laws::law_trimming_gives_the_middle;

verus! {

broadcast use vstd::string::group_string_axioms;

/// A setting that is a text is the member of its key where that is a text, and else its
/// default.
pub proof fn law_text_members_are_the_settings(v: Json, t: Seq<char>)
    ensures
        member(v, "whisper_model"@) == Some(Json::Text(t)) ==> settings_from(v).whisper_model == t,
        !(member(v, "whisper_model"@) matches Some(Json::Text(_))) ==> settings_from(v).whisper_model == "small"@,
        member(v, "whisper_device"@) == Some(Json::Text(t)) ==> settings_from(v).whisper_device == t,
        !(member(v, "whisper_device"@) matches Some(Json::Text(_))) ==> settings_from(v).whisper_device == "auto"@,
        member(v, "whisper_compute_type"@) == Some(Json::Text(t)) ==> settings_from(v).whisper_compute_type == t,
        !(member(v, "whisper_compute_type"@) matches Some(Json::Text(_))) ==> settings_from(v).whisper_compute_type == "auto"@,
        member(v, "hf_token"@) == Some(Json::Text(t)) ==> settings_from(v).hf_token == t,
        !(member(v, "hf_token"@) matches Some(Json::Text(_))) ==> settings_from(v).hf_token == ""@,
        member(v, "ollama_model"@) == Some(Json::Text(t)) ==> settings_from(v).ollama_model == t,
        !(member(v, "ollama_model"@) matches Some(Json::Text(_))) ==> settings_from(v).ollama_model == "mistral"@,
        member(v, "ollama_host"@) == Some(Json::Text(t)) ==> settings_from(v).ollama_host == t,
        !(member(v, "ollama_host"@) matches Some(Json::Text(_))) ==> settings_from(v).ollama_host == "http://localhost:11434"@,
        member(v, "audio_input_device"@) == Some(Json::Text(t)) ==> settings_from(v).audio_input_device == t,
        !(member(v, "audio_input_device"@) matches Some(Json::Text(_))) ==> settings_from(v).audio_input_device == ""@,
{
}

/// A setting that is a flag is the member of its key where that is a truth value, and else
/// set.
pub proof fn law_flag_members_are_the_settings(v: Json, b: bool)
    ensures
        member(v, "diarize"@) == Some(Json::Bool(b)) ==> settings_from(v).diarize == b,
        !(member(v, "diarize"@) matches Some(Json::Bool(_))) ==> settings_from(v).diarize,
        member(v, "speech_gate_enabled"@) == Some(Json::Bool(b)) ==> settings_from(v).speech_gate_enabled == b,
        !(member(v, "speech_gate_enabled"@) matches Some(Json::Bool(_))) ==> settings_from(v).speech_gate_enabled,
        member(v, "summarize"@) == Some(Json::Bool(b)) ==> settings_from(v).summarize == b,
        !(member(v, "summarize"@) matches Some(Json::Bool(_))) ==> settings_from(v).summarize,
        member(v, "speaker_enroll"@) == Some(Json::Bool(b)) ==> settings_from(v).speaker_enroll == b,
        !(member(v, "speaker_enroll"@) matches Some(Json::Bool(_))) ==> settings_from(v).speaker_enroll,
{
}

/// A setting that is an integer is the member of its key where that is an integer of 64 bits,
/// and else its default.
pub proof fn law_integer_members_are_the_settings(v: Json, n: int)
    ensures
        member(v, "min_speakers"@) == Some(Json::Int(n)) && -0x8000_0000_0000_0000 <= n
            <= 0x7fff_ffff_ffff_ffff ==> settings_from(v).min_speakers == n,
        member(v, "min_speakers"@) == Some(Json::Int(n)) && !(-0x8000_0000_0000_0000 <= n
            <= 0x7fff_ffff_ffff_ffff) ==> settings_from(v).min_speakers == 1,
        !(member(v, "min_speakers"@) matches Some(Json::Int(_))) ==> settings_from(v).min_speakers == 1,
        member(v, "max_speakers"@) == Some(Json::Int(n)) && -0x8000_0000_0000_0000 <= n
            <= 0x7fff_ffff_ffff_ffff ==> settings_from(v).max_speakers == n,
        member(v, "max_speakers"@) == Some(Json::Int(n)) && !(-0x8000_0000_0000_0000 <= n
            <= 0x7fff_ffff_ffff_ffff) ==> settings_from(v).max_speakers == 8,
        !(member(v, "max_speakers"@) matches Some(Json::Int(_))) ==> settings_from(v).max_speakers == 8,
{
}

/// A setting that is a float is the text of the double of its member, with a point, where
/// that is a number, whole or not and of either sign, and else its default.
pub proof fn law_number_members_are_the_settings(v: Json, m: Json)
    requires
        m is Int || m is Real,
    ensures
        member(v, "window_seconds"@) == Some(m) ==> settings_from(v).window_seconds == with_point(double_text(m)),
        !(member(v, "window_seconds"@) matches Some(Json::Int(_))) && !(member(
            v,
            "window_seconds"@,
        ) matches Some(Json::Real(_))) ==> settings_from(v).window_seconds == "20.0"@,
        member(v, "step_seconds"@) == Some(m) ==> settings_from(v).step_seconds == with_point(double_text(m)),
        !(member(v, "step_seconds"@) matches Some(Json::Int(_))) && !(member(
            v,
            "step_seconds"@,
        ) matches Some(Json::Real(_))) ==> settings_from(v).step_seconds == "3.0"@,
        member(v, "speech_gate_rms_db_floor"@) == Some(m) ==> settings_from(v).speech_gate_rms_db_floor == with_point(double_text(m)),
        !(member(v, "speech_gate_rms_db_floor"@) matches Some(Json::Int(_))) && !(member(
            v,
            "speech_gate_rms_db_floor"@,
        ) matches Some(Json::Real(_))) ==> settings_from(v).speech_gate_rms_db_floor == "-50.0"@,
        member(v, "speech_gate_min_speech_fraction"@) == Some(m) ==> settings_from(v).speech_gate_min_speech_fraction == with_point(double_text(m)),
        !(member(v, "speech_gate_min_speech_fraction"@) matches Some(Json::Int(_))) && !(member(
            v,
            "speech_gate_min_speech_fraction"@,
        ) matches Some(Json::Real(_))) ==> settings_from(v).speech_gate_min_speech_fraction == "0.12"@,
        member(v, "speech_gate_silero_threshold"@) == Some(m) ==> settings_from(v).speech_gate_silero_threshold == with_point(double_text(m)),
        !(member(v, "speech_gate_silero_threshold"@) matches Some(Json::Int(_))) && !(member(
            v,
            "speech_gate_silero_threshold"@,
        ) matches Some(Json::Real(_))) ==> settings_from(v).speech_gate_silero_threshold == "0.5"@,
        member(v, "speaker_identify_threshold"@) == Some(m) ==> settings_from(v).speaker_identify_threshold == with_point(double_text(m)),
        !(member(v, "speaker_identify_threshold"@) matches Some(Json::Int(_))) && !(member(
            v,
            "speaker_identify_threshold"@,
        ) matches Some(Json::Real(_))) ==> settings_from(v).speaker_identify_threshold == "0.58"@,
{
}

/// Every line of a file stands in its text, with a line feed behind it, between the text of
/// the lines before it and that of the lines behind it.
pub proof fn law_lines_stand_in_the_file(ls: Seq<Seq<char>>, i: int)
    requires
        0 <= i < ls.len(),
    ensures
        joined(ls) == joined(ls.take(i)) + ls[i] + seq!['\n'] + joined(ls.skip(i + 1)),
        joined(Seq::empty()) == Seq::<char>::empty(),
    decreases ls.len(),
{
    let e = Seq::<Seq<char>>::empty();
    assert(joined(e) =~= Seq::<char>::empty());
    if i == ls.len() - 1 {
        lemma_joined_push(ls.drop_last(), ls.last());
        assert(ls.drop_last().push(ls.last()) =~= ls);
        assert(ls.take(i) =~= ls.drop_last());
        assert(ls.skip(i + 1) =~= e);
        assert(joined(ls) =~= joined(ls.take(i)) + ls[i] + seq!['\n'] + joined(e));
    } else {
        let init = ls.drop_last();
        law_lines_stand_in_the_file(init, i);
        lemma_joined_push(init, ls.last());
        assert(init.push(ls.last()) =~= ls);
        assert(init.take(i) =~= ls.take(i));
        let rest = init.skip(i + 1);
        lemma_joined_push(rest, ls.last());
        assert(rest.push(ls.last()) =~= ls.skip(i + 1));
        assert(joined(ls) =~= joined(ls.take(i)) + ls[i] + seq!['\n'] + joined(ls.skip(i + 1)));
    }
}

/// The saved file assigns each setting to its key in one line: a text between double quotes,
/// a flag as `true` or `false`, an integer in decimals and a float by its literal. The header
/// of the section stands before them, and every other line is empty or one of the comments.
pub proof fn law_saved_file_assigns_each_setting(s: SettingsView, existing: Seq<char>)
    ensures
        ({
            let ls = saved_lines(s, existing);
            let quote = seq!['"'];
            &&& saved_text(s, existing) == joined(ls)
            &&& ls.len() >= 36
            &&& ls[3] == "[python]"@
            &&& ls[5] == "whisper_model = "@ + quote + s.whisper_model + quote
            &&& ls[6] == "whisper_device = "@ + quote + s.whisper_device + quote
            &&& ls[7] == "whisper_compute_type = "@ + quote + s.whisper_compute_type + quote
            &&& ls[11] == "hf_token = "@ + quote + s.hf_token + quote
            &&& ls[27] == "ollama_model = "@ + quote + s.ollama_model + quote
            &&& ls[28] == "ollama_host = "@ + quote + s.ollama_host + quote
            &&& ls[35] == "audio_input_device = "@ + quote + s.audio_input_device + quote
            &&& s.diarize ==> ls[10] == "diarize = true"@
            &&& !s.diarize ==> ls[10] == "diarize = false"@
            &&& s.speech_gate_enabled ==> ls[20] == "speech_gate_enabled = true"@
            &&& !s.speech_gate_enabled ==> ls[20] == "speech_gate_enabled = false"@
            &&& s.summarize ==> ls[26] == "summarize = true"@
            &&& !s.summarize ==> ls[26] == "summarize = false"@
            &&& s.speaker_enroll ==> ls[31] == "speaker_enroll = true"@
            &&& !s.speaker_enroll ==> ls[31] == "speaker_enroll = false"@
            &&& ls[12] == "min_speakers = "@ + int_text(s.min_speakers)
            &&& ls[13] == "max_speakers = "@ + int_text(s.max_speakers)
            &&& ls[16] == "window_seconds = "@ + s.window_seconds
            &&& ls[17] == "step_seconds = "@ + s.step_seconds
            &&& ls[21] == "speech_gate_rms_db_floor = "@ + s.speech_gate_rms_db_floor
            &&& ls[22] == "speech_gate_min_speech_fraction = "@ + s.speech_gate_min_speech_fraction
            &&& ls[23] == "speech_gate_silero_threshold = "@ + s.speech_gate_silero_threshold
            &&& ls[32] == "speaker_identify_threshold = "@ + s.speaker_identify_threshold
            &&& ls[0] == "# CorpoDrone configuration"@
            &&& ls[1] == "# Edit this file to configure the pipeline without recompiling."@
            &&& ls[2].len() == 0
            &&& ls[4] == "# Whisper model size: tiny / base / small / medium / large-v3"@
            &&& ls[8].len() == 0
            &&& ls[9] == "# Speaker diarization (requires HuggingFace token)"@
            &&& ls[14].len() == 0
            &&& ls[15] == "# Sliding window config (seconds)"@
            &&& ls[18].len() == 0
            &&& ls[19] == "# Silence filtering before Whisper (RMS + Silero VAD)"@
            &&& ls[24].len() == 0
            &&& ls[25] == "# Summarization via Ollama"@
            &&& ls[29].len() == 0
            &&& ls[30] == "# Speaker recognition"@
            &&& ls[33].len() == 0
            &&& ls[34] == "# Microphone (empty = OS default; applies next recording)"@
        }),
{
    reveal_strlit("");
    lemma_whisper_model_line(s, existing);
    lemma_whisper_device_line(s, existing);
    lemma_whisper_compute_type_line(s, existing);
    lemma_hf_token_line(s, existing);
    lemma_ollama_model_line(s, existing);
    lemma_ollama_host_line(s, existing);
    lemma_audio_input_device_line(s, existing);
    lemma_diarize_line(s, existing);
    lemma_speech_gate_enabled_line(s, existing);
    lemma_summarize_line(s, existing);
    lemma_speaker_enroll_line(s, existing);
    lemma_min_speakers_line(s, existing);
    lemma_max_speakers_line(s, existing);
    lemma_window_seconds_line(s, existing);
    lemma_step_seconds_line(s, existing);
    lemma_speech_gate_rms_db_floor_line(s, existing);
    lemma_speech_gate_min_speech_fraction_line(s, existing);
    lemma_speech_gate_silero_threshold_line(s, existing);
    lemma_speaker_identify_threshold_line(s, existing);
}

proof fn lemma_whisper_model_line(s: SettingsView, existing: Seq<char>)
    ensures
        saved_lines(s, existing)[5] == "whisper_model = "@ + seq!['"'] + s.whisper_model + seq!['"'],
{
    reveal_strlit("whisper_model");
    reveal_strlit(" = ");
    reveal_strlit("whisper_model = ");
    assert("whisper_model = "@ =~= "whisper_model"@ + " = "@);
    assert(saved_lines(s, existing)[5] =~= "whisper_model = "@ + seq!['"'] + s.whisper_model + seq!['"']);
}

proof fn lemma_whisper_device_line(s: SettingsView, existing: Seq<char>)
    ensures
        saved_lines(s, existing)[6] == "whisper_device = "@ + seq!['"'] + s.whisper_device + seq!['"'],
{
    reveal_strlit("whisper_device");
    reveal_strlit(" = ");
    reveal_strlit("whisper_device = ");
    assert("whisper_device = "@ =~= "whisper_device"@ + " = "@);
    assert(saved_lines(s, existing)[6] =~= "whisper_device = "@ + seq!['"'] + s.whisper_device + seq!['"']);
}

proof fn lemma_whisper_compute_type_line(s: SettingsView, existing: Seq<char>)
    ensures
        saved_lines(s, existing)[7] == "whisper_compute_type = "@ + seq!['"'] + s.whisper_compute_type + seq!['"'],
{
    reveal_strlit("whisper_compute_type");
    reveal_strlit(" = ");
    reveal_strlit("whisper_compute_type = ");
    assert("whisper_compute_type = "@ =~= "whisper_compute_type"@ + " = "@);
    assert(saved_lines(s, existing)[7] =~= "whisper_compute_type = "@ + seq!['"'] + s.whisper_compute_type + seq!['"']);
}

proof fn lemma_hf_token_line(s: SettingsView, existing: Seq<char>)
    ensures
        saved_lines(s, existing)[11] == "hf_token = "@ + seq!['"'] + s.hf_token + seq!['"'],
{
    reveal_strlit("hf_token");
    reveal_strlit(" = ");
    reveal_strlit("hf_token = ");
    assert("hf_token = "@ =~= "hf_token"@ + " = "@);
    assert(saved_lines(s, existing)[11] =~= "hf_token = "@ + seq!['"'] + s.hf_token + seq!['"']);
}

proof fn lemma_ollama_model_line(s: SettingsView, existing: Seq<char>)
    ensures
        saved_lines(s, existing)[27] == "ollama_model = "@ + seq!['"'] + s.ollama_model + seq!['"'],
{
    reveal_strlit("ollama_model");
    reveal_strlit(" = ");
    reveal_strlit("ollama_model = ");
    assert("ollama_model = "@ =~= "ollama_model"@ + " = "@);
    assert(saved_lines(s, existing)[27] =~= "ollama_model = "@ + seq!['"'] + s.ollama_model + seq!['"']);
}

proof fn lemma_ollama_host_line(s: SettingsView, existing: Seq<char>)
    ensures
        saved_lines(s, existing)[28] == "ollama_host = "@ + seq!['"'] + s.ollama_host + seq!['"'],
{
    reveal_strlit("ollama_host");
    reveal_strlit(" = ");
    reveal_strlit("ollama_host = ");
    assert("ollama_host = "@ =~= "ollama_host"@ + " = "@);
    assert(saved_lines(s, existing)[28] =~= "ollama_host = "@ + seq!['"'] + s.ollama_host + seq!['"']);
}

proof fn lemma_audio_input_device_line(s: SettingsView, existing: Seq<char>)
    ensures
        saved_lines(s, existing)[35] == "audio_input_device = "@ + seq!['"'] + s.audio_input_device + seq!['"'],
{
    reveal_strlit("audio_input_device");
    reveal_strlit(" = ");
    reveal_strlit("audio_input_device = ");
    assert("audio_input_device = "@ =~= "audio_input_device"@ + " = "@);
    assert(saved_lines(s, existing)[35] =~= "audio_input_device = "@ + seq!['"'] + s.audio_input_device + seq!['"']);
}

proof fn lemma_diarize_line(s: SettingsView, existing: Seq<char>)
    ensures
        s.diarize ==> saved_lines(s, existing)[10] == "diarize = true"@,
        !s.diarize ==> saved_lines(s, existing)[10] == "diarize = false"@,
{
    reveal_strlit("diarize");
    reveal_strlit(" = ");
    reveal_strlit("true");
    reveal_strlit("false");
    reveal_strlit("diarize = true");
    reveal_strlit("diarize = false");
    assert("diarize = true"@ =~= "diarize"@ + " = "@ + "true"@);
    assert("diarize = false"@ =~= "diarize"@ + " = "@ + "false"@);
}

proof fn lemma_speech_gate_enabled_line(s: SettingsView, existing: Seq<char>)
    ensures
        s.speech_gate_enabled ==> saved_lines(s, existing)[20] == "speech_gate_enabled = true"@,
        !s.speech_gate_enabled ==> saved_lines(s, existing)[20] == "speech_gate_enabled = false"@,
{
    reveal_strlit("speech_gate_enabled");
    reveal_strlit(" = ");
    reveal_strlit("true");
    reveal_strlit("false");
    reveal_strlit("speech_gate_enabled = true");
    reveal_strlit("speech_gate_enabled = false");
    assert("speech_gate_enabled = true"@ =~= "speech_gate_enabled"@ + " = "@ + "true"@);
    assert("speech_gate_enabled = false"@ =~= "speech_gate_enabled"@ + " = "@ + "false"@);
}

proof fn lemma_summarize_line(s: SettingsView, existing: Seq<char>)
    ensures
        s.summarize ==> saved_lines(s, existing)[26] == "summarize = true"@,
        !s.summarize ==> saved_lines(s, existing)[26] == "summarize = false"@,
{
    reveal_strlit("summarize");
    reveal_strlit(" = ");
    reveal_strlit("true");
    reveal_strlit("false");
    reveal_strlit("summarize = true");
    reveal_strlit("summarize = false");
    assert("summarize = true"@ =~= "summarize"@ + " = "@ + "true"@);
    assert("summarize = false"@ =~= "summarize"@ + " = "@ + "false"@);
}

proof fn lemma_speaker_enroll_line(s: SettingsView, existing: Seq<char>)
    ensures
        s.speaker_enroll ==> saved_lines(s, existing)[31] == "speaker_enroll = true"@,
        !s.speaker_enroll ==> saved_lines(s, existing)[31] == "speaker_enroll = false"@,
{
    reveal_strlit("speaker_enroll");
    reveal_strlit(" = ");
    reveal_strlit("true");
    reveal_strlit("false");
    reveal_strlit("speaker_enroll = true");
    reveal_strlit("speaker_enroll = false");
    assert("speaker_enroll = true"@ =~= "speaker_enroll"@ + " = "@ + "true"@);
    assert("speaker_enroll = false"@ =~= "speaker_enroll"@ + " = "@ + "false"@);
}

proof fn lemma_min_speakers_line(s: SettingsView, existing: Seq<char>)
    ensures
        saved_lines(s, existing)[12] == "min_speakers = "@ + int_text(s.min_speakers),
{
    reveal_strlit("min_speakers");
    reveal_strlit(" = ");
    reveal_strlit("min_speakers = ");
    assert("min_speakers = "@ =~= "min_speakers"@ + " = "@);
}

proof fn lemma_max_speakers_line(s: SettingsView, existing: Seq<char>)
    ensures
        saved_lines(s, existing)[13] == "max_speakers = "@ + int_text(s.max_speakers),
{
    reveal_strlit("max_speakers");
    reveal_strlit(" = ");
    reveal_strlit("max_speakers = ");
    assert("max_speakers = "@ =~= "max_speakers"@ + " = "@);
}

proof fn lemma_window_seconds_line(s: SettingsView, existing: Seq<char>)
    ensures
        saved_lines(s, existing)[16] == "window_seconds = "@ + s.window_seconds,
{
    reveal_strlit("window_seconds");
    reveal_strlit(" = ");
    reveal_strlit("window_seconds = ");
    assert("window_seconds = "@ =~= "window_seconds"@ + " = "@);
}

proof fn lemma_step_seconds_line(s: SettingsView, existing: Seq<char>)
    ensures
        saved_lines(s, existing)[17] == "step_seconds = "@ + s.step_seconds,
{
    reveal_strlit("step_seconds");
    reveal_strlit(" = ");
    reveal_strlit("step_seconds = ");
    assert("step_seconds = "@ =~= "step_seconds"@ + " = "@);
}

proof fn lemma_speech_gate_rms_db_floor_line(s: SettingsView, existing: Seq<char>)
    ensures
        saved_lines(s, existing)[21] == "speech_gate_rms_db_floor = "@ + s.speech_gate_rms_db_floor,
{
    reveal_strlit("speech_gate_rms_db_floor");
    reveal_strlit(" = ");
    reveal_strlit("speech_gate_rms_db_floor = ");
    assert("speech_gate_rms_db_floor = "@ =~= "speech_gate_rms_db_floor"@ + " = "@);
}

proof fn lemma_speech_gate_min_speech_fraction_line(s: SettingsView, existing: Seq<char>)
    ensures
        saved_lines(s, existing)[22] == "speech_gate_min_speech_fraction = "@ + s.speech_gate_min_speech_fraction,
{
    reveal_strlit("speech_gate_min_speech_fraction");
    reveal_strlit(" = ");
    reveal_strlit("speech_gate_min_speech_fraction = ");
    assert("speech_gate_min_speech_fraction = "@ =~= "speech_gate_min_speech_fraction"@ + " = "@);
}

proof fn lemma_speech_gate_silero_threshold_line(s: SettingsView, existing: Seq<char>)
    ensures
        saved_lines(s, existing)[23] == "speech_gate_silero_threshold = "@ + s.speech_gate_silero_threshold,
{
    reveal_strlit("speech_gate_silero_threshold");
    reveal_strlit(" = ");
    reveal_strlit("speech_gate_silero_threshold = ");
    assert("speech_gate_silero_threshold = "@ =~= "speech_gate_silero_threshold"@ + " = "@);
}

proof fn lemma_speaker_identify_threshold_line(s: SettingsView, existing: Seq<char>)
    ensures
        saved_lines(s, existing)[32] == "speaker_identify_threshold = "@ + s.speaker_identify_threshold,
{
    reveal_strlit("speaker_identify_threshold");
    reveal_strlit(" = ");
    reveal_strlit("speaker_identify_threshold = ");
    assert("speaker_identify_threshold = "@ =~= "speaker_identify_threshold"@ + " = "@);
}

/// A number, whole or not and of either sign, is saved as the text of its double with a
/// point, in the line of its key, and never as the default.
pub proof fn law_numbers_are_saved(v: Json, m: Json, existing: Seq<char>)
    requires
        m is Int || m is Real,
    ensures
        ({
            let ls = saved_lines(settings_from(v), existing);
            let t = with_point(double_text(m));
            &&& member(v, "window_seconds"@) == Some(m) ==> ls[16] == "window_seconds = "@ + t
            &&& member(v, "step_seconds"@) == Some(m) ==> ls[17] == "step_seconds = "@ + t
            &&& member(v, "speech_gate_rms_db_floor"@) == Some(m) ==> ls[21] == "speech_gate_rms_db_floor = "@ + t
            &&& member(v, "speech_gate_min_speech_fraction"@) == Some(m) ==> ls[22] == "speech_gate_min_speech_fraction = "@ + t
            &&& member(v, "speech_gate_silero_threshold"@) == Some(m) ==> ls[23] == "speech_gate_silero_threshold = "@ + t
            &&& member(v, "speaker_identify_threshold"@) == Some(m) ==> ls[32] == "speaker_identify_threshold = "@ + t
        }),
{
    law_saved_file_assigns_each_setting(settings_from(v), existing);
}

/// Texts, flags and integers are saved as they are, in the line of their key.
pub proof fn law_members_are_saved(v: Json, t: Seq<char>, n: int, existing: Seq<char>)
    requires
        -0x8000_0000_0000_0000 <= n <= 0x7fff_ffff_ffff_ffff,
    ensures
        ({
            let ls = saved_lines(settings_from(v), existing);
            let quote = seq!['"'];
            &&& member(v, "whisper_model"@) == Some(Json::Text(t)) ==> ls[5] == "whisper_model = "@ + quote + t + quote
            &&& member(v, "whisper_device"@) == Some(Json::Text(t)) ==> ls[6] == "whisper_device = "@ + quote + t + quote
            &&& member(v, "whisper_compute_type"@) == Some(Json::Text(t)) ==> ls[7] == "whisper_compute_type = "@ + quote + t + quote
            &&& member(v, "hf_token"@) == Some(Json::Text(t)) ==> ls[11] == "hf_token = "@ + quote + t + quote
            &&& member(v, "ollama_model"@) == Some(Json::Text(t)) ==> ls[27] == "ollama_model = "@ + quote + t + quote
            &&& member(v, "ollama_host"@) == Some(Json::Text(t)) ==> ls[28] == "ollama_host = "@ + quote + t + quote
            &&& member(v, "audio_input_device"@) == Some(Json::Text(t)) ==> ls[35] == "audio_input_device = "@ + quote + t + quote
            &&& member(v, "diarize"@) == Some(Json::Bool(true)) ==> ls[10] == "diarize = true"@
            &&& member(v, "diarize"@) == Some(Json::Bool(false)) ==> ls[10] == "diarize = false"@
            &&& member(v, "speech_gate_enabled"@) == Some(Json::Bool(true)) ==> ls[20] == "speech_gate_enabled = true"@
            &&& member(v, "speech_gate_enabled"@) == Some(Json::Bool(false)) ==> ls[20] == "speech_gate_enabled = false"@
            &&& member(v, "summarize"@) == Some(Json::Bool(true)) ==> ls[26] == "summarize = true"@
            &&& member(v, "summarize"@) == Some(Json::Bool(false)) ==> ls[26] == "summarize = false"@
            &&& member(v, "speaker_enroll"@) == Some(Json::Bool(true)) ==> ls[31] == "speaker_enroll = true"@
            &&& member(v, "speaker_enroll"@) == Some(Json::Bool(false)) ==> ls[31] == "speaker_enroll = false"@
            &&& member(v, "min_speakers"@) == Some(Json::Int(n)) ==> ls[12] == "min_speakers = "@ + int_text(n)
            &&& member(v, "max_speakers"@) == Some(Json::Int(n)) ==> ls[13] == "max_speakers = "@ + int_text(n)
        }),
{
    law_saved_file_assigns_each_setting(settings_from(v), existing);
}

/// A setting that is read is the last value of its key in the `[python]` section, where that
/// has one of the right kind, and else its default: a flag is set by the word `true` alone.
pub proof fn law_settings_are_those_of_their_keys(text: Seq<char>, v: Seq<char>)
    ensures
        ({
            let es = config_entries(text, Dialect::Commented);
            let s = settings_of(text);
            &&& last_value(es, "[python]"@, "whisper_model"@, Kind::Any) == Some(v) ==> s.whisper_model == v
            &&& last_value(es, "[python]"@, "whisper_model"@, Kind::Any) is None ==> s.whisper_model == "small"@
            &&& last_value(es, "[python]"@, "whisper_device"@, Kind::Any) == Some(v) ==> s.whisper_device == v
            &&& last_value(es, "[python]"@, "whisper_device"@, Kind::Any) is None ==> s.whisper_device == "auto"@
            &&& last_value(es, "[python]"@, "whisper_compute_type"@, Kind::Any) == Some(v) ==> s.whisper_compute_type == v
            &&& last_value(es, "[python]"@, "whisper_compute_type"@, Kind::Any) is None ==> s.whisper_compute_type == "auto"@
            &&& last_value(es, "[python]"@, "hf_token"@, Kind::Any) == Some(v) ==> s.hf_token == v
            &&& last_value(es, "[python]"@, "hf_token"@, Kind::Any) is None ==> s.hf_token == ""@
            &&& last_value(es, "[python]"@, "ollama_model"@, Kind::Any) == Some(v) ==> s.ollama_model == v
            &&& last_value(es, "[python]"@, "ollama_model"@, Kind::Any) is None ==> s.ollama_model == "mistral"@
            &&& last_value(es, "[python]"@, "ollama_host"@, Kind::Any) == Some(v) ==> s.ollama_host == v
            &&& last_value(es, "[python]"@, "ollama_host"@, Kind::Any) is None ==> s.ollama_host == "http://localhost:11434"@
            &&& last_value(es, "[python]"@, "audio_input_device"@, Kind::Any) == Some(v) ==> s.audio_input_device == v
            &&& last_value(es, "[python]"@, "audio_input_device"@, Kind::Any) is None ==> s.audio_input_device == ""@
            &&& last_value(es, "[python]"@, "diarize"@, Kind::Any) == Some(v) ==> s.diarize == (v == "true"@)
            &&& last_value(es, "[python]"@, "diarize"@, Kind::Any) is None ==> s.diarize
            &&& last_value(es, "[python]"@, "speech_gate_enabled"@, Kind::Any) == Some(v) ==> s.speech_gate_enabled == (v == "true"@)
            &&& last_value(es, "[python]"@, "speech_gate_enabled"@, Kind::Any) is None ==> s.speech_gate_enabled
            &&& last_value(es, "[python]"@, "summarize"@, Kind::Any) == Some(v) ==> s.summarize == (v == "true"@)
            &&& last_value(es, "[python]"@, "summarize"@, Kind::Any) is None ==> s.summarize
            &&& last_value(es, "[python]"@, "speaker_enroll"@, Kind::Any) == Some(v) ==> s.speaker_enroll == (v == "true"@)
            &&& last_value(es, "[python]"@, "speaker_enroll"@, Kind::Any) is None ==> s.speaker_enroll
            &&& last_value(es, "[python]"@, "min_speakers"@, Kind::Integer) == Some(v) ==> s.min_speakers == i64_value(v)->0
            &&& last_value(es, "[python]"@, "min_speakers"@, Kind::Integer) is None ==> s.min_speakers == 1
            &&& last_value(es, "[python]"@, "max_speakers"@, Kind::Integer) == Some(v) ==> s.max_speakers == i64_value(v)->0
            &&& last_value(es, "[python]"@, "max_speakers"@, Kind::Integer) is None ==> s.max_speakers == 8
            &&& last_value(es, "[python]"@, "window_seconds"@, Kind::Float) == Some(v) ==> s.window_seconds == v
            &&& last_value(es, "[python]"@, "window_seconds"@, Kind::Float) is None ==> s.window_seconds == "20.0"@
            &&& last_value(es, "[python]"@, "step_seconds"@, Kind::Float) == Some(v) ==> s.step_seconds == v
            &&& last_value(es, "[python]"@, "step_seconds"@, Kind::Float) is None ==> s.step_seconds == "3.0"@
            &&& last_value(es, "[python]"@, "speech_gate_rms_db_floor"@, Kind::Float) == Some(v) ==> s.speech_gate_rms_db_floor == v
            &&& last_value(es, "[python]"@, "speech_gate_rms_db_floor"@, Kind::Float) is None ==> s.speech_gate_rms_db_floor == "-50.0"@
            &&& last_value(es, "[python]"@, "speech_gate_min_speech_fraction"@, Kind::Float) == Some(v) ==> s.speech_gate_min_speech_fraction == v
            &&& last_value(es, "[python]"@, "speech_gate_min_speech_fraction"@, Kind::Float) is None ==> s.speech_gate_min_speech_fraction == "0.12"@
            &&& last_value(es, "[python]"@, "speech_gate_silero_threshold"@, Kind::Float) == Some(v) ==> s.speech_gate_silero_threshold == v
            &&& last_value(es, "[python]"@, "speech_gate_silero_threshold"@, Kind::Float) is None ==> s.speech_gate_silero_threshold == "0.5"@
            &&& last_value(es, "[python]"@, "speaker_identify_threshold"@, Kind::Float) == Some(v) ==> s.speaker_identify_threshold == v
            &&& last_value(es, "[python]"@, "speaker_identify_threshold"@, Kind::Float) is None ==> s.speaker_identify_threshold == "0.58"@
        }),
{
}

/// Digits, with or without a sign and with or without one point in them, are a literal: where
/// the last line for the key of a float assigns them, behind the header `[python]` at place
/// `h` with no other between, they are the setting.
pub proof fn law_digits_set_the_float(
    text: Seq<char>,
    key: Seq<char>,
    sign: Seq<char>,
    whole: Seq<char>,
    point: Seq<char>,
    fraction: Seq<char>,
    h: int,
    i: int,
)
    requires
        sign == Seq::<char>::empty() || sign == seq!['+'] || sign == seq!['-'],
        point == seq!['.'] || (point == Seq::<char>::empty() && fraction.len() == 0),
        whole.len() + fraction.len() > 0,
        forall|k: int| 0 <= k < whole.len() ==> '0' <= #[trigger] whole[k] <= '9',
        forall|k: int| 0 <= k < fraction.len() ==> '0' <= #[trigger] fraction[k] <= '9',
        key.len() > 0,
        forall|k: int|
            0 <= k < key.len() ==> 'a' <= #[trigger] key[k] <= 'z' || key[k] == '_',
        0 <= h < i < lines(text).len(),
        trim(lines(text)[h], Class::Space) == "[python]"@,
        forall|j: int|
            h < j < i ==> trim(#[trigger] lines(text)[j], Class::Space).len() == 0 || trim(
                lines(text)[j],
                Class::Space,
            )[0] != '[',
        trim(lines(text)[i], Class::Space) == key + seq![' ', '=', ' '] + sign + whole + point
            + fraction,
        forall|j: int|
            i < j < lines(text).len() ==> !trim(#[trigger] lines(text)[j], Class::Space).contains(
                '=',
            ) || trim(before(trim(lines(text)[j], Class::Space), '='), Class::Space) != key,
    ensures
        key == "window_seconds"@ ==> settings_of(text).window_seconds == sign + whole + point + fraction,
        key == "step_seconds"@ ==> settings_of(text).step_seconds == sign + whole + point + fraction,
        key == "speech_gate_rms_db_floor"@ ==> settings_of(text).speech_gate_rms_db_floor == sign + whole + point + fraction,
        key == "speech_gate_min_speech_fraction"@ ==> settings_of(text).speech_gate_min_speech_fraction == sign + whole + point + fraction,
        key == "speech_gate_silero_threshold"@ ==> settings_of(text).speech_gate_silero_threshold == sign + whole + point + fraction,
        key == "speaker_identify_threshold"@ ==> settings_of(text).speaker_identify_threshold == sign + whole + point + fraction,
{
    reveal_strlit("[python]");
    let d = Dialect::Commented;
    let m = whole + point + fraction;
    let value = sign + whole + point + fraction;
    let name = key.push(' ');
    let none = Seq::<char>::empty();
    assert(value =~= sign + m);
    if point.len() == 0 {
        assert(m =~= whole);
        law_digits_are_a_float(sign, whole);
    } else {
        law_digits_with_a_point_are_a_float(sign, whole, fraction);
    }
    assert(is_float(value));
    assert forall|k: int| 0 <= k < value.len() implies ('0' <= #[trigger] value[k] <= '9' || value[k]
        == '.' || value[k] == '+' || value[k] == '-') by {
        let a = sign.len() as int;
        let b = a + whole.len();
        if a <= k < b {
            assert(value[k] == whole[k - a]);
        } else if k >= b + point.len() {
            assert(value[k] == fraction[k - b - point.len()]);
        }
    }
    assert(!value.contains('#')) by {
        if value.contains('#') {
            let k = choose|k: int| 0 <= k < value.len() && value[k] == '#';
            assert('0' <= value[k] <= '9' || value[k] == '.' || value[k] == '+' || value[k] == '-');
        }
    }
    assert(!name.contains('=')) by {
        if name.contains('=') {
            let k = choose|k: int| 0 <= k < name.len() && name[k] == '=';
            assert(name[k] == key[k]);
        }
    }
    assert('a' <= key[0] <= 'z' || key[0] == '_');
    assert('a' <= key.last() <= 'z' || key.last() == '_');
    law_trimming_gives_the_middle(none, key, seq![' '], Class::Space);
    assert(none + key + seq![' '] =~= name);
    law_bare_value(seq![' '], value, none, d);
    assert(seq![' '] + value + none =~= seq![' '] + value);
    assert(trim(lines(text)[i], Class::Space) =~= name.push('=') + (seq![' '] + value));
    law_assigned_value_is_read(text, d, h, i, name, seq![' '] + value, Kind::Float);
    law_settings_are_those_of_their_keys(text, value);
}

/// The object for the user interface has each setting under its key.
pub proof fn law_object_has_each_setting(s: SettingsView)
    ensures
        member(settings_json(s), "whisper_model"@) == Some(Json::Text(s.whisper_model)),
        member(settings_json(s), "whisper_device"@) == Some(Json::Text(s.whisper_device)),
        member(settings_json(s), "whisper_compute_type"@) == Some(Json::Text(s.whisper_compute_type)),
        member(settings_json(s), "hf_token"@) == Some(Json::Text(s.hf_token)),
        member(settings_json(s), "ollama_model"@) == Some(Json::Text(s.ollama_model)),
        member(settings_json(s), "ollama_host"@) == Some(Json::Text(s.ollama_host)),
        member(settings_json(s), "audio_input_device"@) == Some(Json::Text(s.audio_input_device)),
        member(settings_json(s), "diarize"@) == Some(Json::Bool(s.diarize)),
        member(settings_json(s), "speech_gate_enabled"@) == Some(Json::Bool(s.speech_gate_enabled)),
        member(settings_json(s), "summarize"@) == Some(Json::Bool(s.summarize)),
        member(settings_json(s), "speaker_enroll"@) == Some(Json::Bool(s.speaker_enroll)),
        member(settings_json(s), "min_speakers"@) == Some(Json::Int(s.min_speakers)),
        member(settings_json(s), "max_speakers"@) == Some(Json::Int(s.max_speakers)),
        member(settings_json(s), "window_seconds"@) == Some(literal_json(s.window_seconds)),
        member(settings_json(s), "step_seconds"@) == Some(literal_json(s.step_seconds)),
        member(settings_json(s), "speech_gate_rms_db_floor"@) == Some(literal_json(s.speech_gate_rms_db_floor)),
        member(settings_json(s), "speech_gate_min_speech_fraction"@) == Some(literal_json(s.speech_gate_min_speech_fraction)),
        member(settings_json(s), "speech_gate_silero_threshold"@) == Some(literal_json(s.speech_gate_silero_threshold)),
        member(settings_json(s), "speaker_identify_threshold"@) == Some(literal_json(s.speaker_identify_threshold)),
{
    lemma_keys();
}

/// Without a configuration file the settings are those of an empty one.
pub proof fn law_no_file_is_an_empty_file(text: &str)
    requires
        text@.len() == 0,
    ensures
        configured(None) == settings_of(text@),
        configured(Some(text)) == settings_of(text@),
{
    let es = config_entries(text@, Dialect::Commented);
    assert(text@ =~= Seq::<char>::empty());
    assert(lines(text@) =~= Seq::<Seq<char>>::empty());
    assert(es =~= Seq::<Assignment>::empty());
}

/// The token of the environment file is that of the first line that assigns one, at place
/// `i`: what stands behind the name, without white space and quotes around it. There is none
/// where no line assigns one.
pub proof fn law_first_token_counts(ls: Seq<Seq<char>>, i: int, value: Seq<char>)
    requires
        0 <= i <= ls.len(),
        i < ls.len() ==> trim(ls[i], Class::Space) == "HUGGINGFACE_TOKEN="@ + value,
        forall|j: int|
            0 <= j < i ==> !has_prefix(
                trim(#[trigger] ls[j], Class::Space),
                "HUGGINGFACE_TOKEN="@,
            ),
    ensures
        i < ls.len() ==> env_token(ls) == bare(value),
        i == ls.len() ==> env_token(ls) == Seq::<char>::empty(),
    decreases ls.len(),
{
    let name = "HUGGINGFACE_TOKEN="@;
    if ls.len() > 0 {
        if i == 0 {
            let line = trim(ls[0], Class::Space);
            assert(line.take(name.len() as int) =~= name);
            assert(line.skip(name.len() as int) =~= value);
        } else {
            let rest = ls.drop_first();
            assert(!has_prefix(trim(ls[0], Class::Space), name));
            assert forall|j: int| 0 <= j < i - 1 implies !has_prefix(
                trim(#[trigger] rest[j], Class::Space),
                name,
            ) by {
                assert(rest[j] == ls[j + 1]);
            }
            law_first_token_counts(rest, i - 1, value);
        }
    }
}

/// The token of the environment file stands in only where the settings have none, and
/// nothing else of them changes.
pub proof fn law_token_of_the_settings_wins(s: SettingsView, env: &str)
    ensures
        with_env_token(s, None) == s,
        s.hf_token.len() > 0 ==> with_env_token(s, Some(env)) == s,
        s.hf_token.len() == 0 ==> with_env_token(s, Some(env)).hf_token == env_token(lines(env@)),
        (SettingsView { hf_token: s.hf_token, ..with_env_token(s, Some(env)) }) == s,
{
}

/// Whether what stands behind the lines is in a `[server]` section.
spec fn server_behind(ls: Seq<Seq<char>>, inside: bool) -> bool
    decreases ls.len(),
{
    if ls.len() == 0 {
        inside
    } else {
        let line = trim(ls[0], Class::Space);
        server_behind(
            ls.drop_first(),
            if is_header(line) {
                line == "[server]"@
            } else {
                inside
            },
        )
    }
}

proof fn lemma_server_push(ls: Seq<Seq<char>>, line: Seq<char>, inside: bool)
    ensures
        ({
            let t = trim(line, Class::Space);
            let now = if is_header(t) {
                t == "[server]"@
            } else {
                server_behind(ls, inside)
            };
            &&& server_behind(ls.push(line), inside) == now
            &&& server_lines(ls.push(line), inside) == server_lines(ls, inside) + (if now {
                seq![line]
            } else {
                seq![]
            })
        }),
    decreases ls.len(),
{
    let all = ls.push(line);
    let t = trim(line, Class::Space);
    let now = if is_header(t) {
        t == "[server]"@
    } else {
        server_behind(ls, inside)
    };
    let last = if now {
        seq![line]
    } else {
        seq![]
    };
    if ls.len() == 0 {
        let e = Seq::<Seq<char>>::empty();
        assert(all.drop_first() =~= e);
        assert(server_lines(e, now) =~= e);
        assert(server_behind(e, now) == now);
        assert(server_lines(all, inside) =~= server_lines(ls, inside) + last);
    } else {
        let first = trim(ls[0], Class::Space);
        let next = if is_header(first) {
            first == "[server]"@
        } else {
            inside
        };
        lemma_server_push(ls.drop_first(), line, next);
        assert(all[0] == ls[0]);
        assert(all.drop_first() =~= ls.drop_first().push(line));
        assert(server_lines(all, inside) =~= server_lines(ls, inside) + last);
    }
}

proof fn lemma_server_behind(ls: Seq<Seq<char>>, h: int)
    requires
        -1 <= h < ls.len(),
        h >= 0 ==> trim(ls[h], Class::Space).len() > 0 && trim(ls[h], Class::Space)[0] == '[',
        forall|j: int|
            h < j < ls.len() ==> trim(#[trigger] ls[j], Class::Space).len() == 0 || trim(
                ls[j],
                Class::Space,
            )[0] != '[',
    ensures
        server_behind(ls, false) <==> h >= 0 && trim(ls[h], Class::Space) == "[server]"@,
    decreases ls.len(),
{
    if ls.len() > 0 {
        let init = ls.drop_last();
        lemma_server_push(init, ls.last(), false);
        assert(init.push(ls.last()) =~= ls);
        assert(ls.last() == ls[ls.len() - 1]);
        if h < ls.len() - 1 {
            assert forall|j: int| h < j < init.len() implies trim(
                #[trigger] init[j],
                Class::Space,
            ).len() == 0 || trim(init[j], Class::Space)[0] != '[' by {
                assert(init[j] == ls[j]);
            }
            lemma_server_behind(init, h);
        }
    }
}

/// Saving keeps exactly the lines of the `[server]` sections, as they are and in their order:
/// a line more is kept where it is the header `[server]`, or is no header and the last header
/// before it, at place `h`, is that one.
pub proof fn law_server_lines_are_kept(ls: Seq<Seq<char>>, line: Seq<char>, h: int)
    requires
        -1 <= h < ls.len(),
        h >= 0 ==> trim(ls[h], Class::Space).len() > 0 && trim(ls[h], Class::Space)[0] == '[',
        forall|j: int|
            h < j < ls.len() ==> trim(#[trigger] ls[j], Class::Space).len() == 0 || trim(
                ls[j],
                Class::Space,
            )[0] != '[',
    ensures
        server_lines(Seq::empty(), false) == Seq::<Seq<char>>::empty(),
        ({
            let t = trim(line, Class::Space);
            let kept = if t.len() > 0 && t[0] == '[' {
                t == seq!['[', 's', 'e', 'r', 'v', 'e', 'r', ']']
            } else {
                h >= 0 && trim(ls[h], Class::Space) == seq!['[', 's', 'e', 'r', 'v', 'e', 'r', ']']
            };
            &&& kept ==> server_lines(ls.push(line), false) == server_lines(ls, false).push(line)
            &&& !kept ==> server_lines(ls.push(line), false) == server_lines(ls, false)
        }),
{
    reveal_strlit("[server]");
    assert("[server]"@ =~= seq!['[', 's', 'e', 'r', 'v', 'e', 'r', ']']);
    lemma_server_push(ls, line, false);
    lemma_server_behind(ls, h);
    let e = Seq::<Seq<char>>::empty();
    assert(server_lines(ls, false) + e =~= server_lines(ls, false));
}

/// The kept lines stand behind the settings, with one empty line between; where there are
/// none, the settings are all.
pub proof fn law_server_lines_follow_the_settings(s: SettingsView, existing: Seq<char>)
    ensures
        ({
            let ls = saved_lines(s, existing);
            let kept = server_lines(lines(existing), false);
            &&& kept.len() == 0 ==> ls.len() == 36
            &&& kept.len() > 0 ==> ls.len() == 37 + kept.len() && ls[36].len() == 0 && ls.skip(37)
                == kept
        }),
{
    let ls = saved_lines(s, existing);
    let kept = server_lines(lines(existing), false);
    if kept.len() > 0 {
        assert(ls.skip(37) =~= kept);
    }
}

/// The settings that are handed out are the ones that were read, each as it is.
pub proof fn law_settings_are_handed_out(s: Settings)
    ensures
        s@.whisper_model == s.whisper_model@,
        s@.whisper_device == s.whisper_device@,
        s@.whisper_compute_type == s.whisper_compute_type@,
        s@.diarize == s.diarize,
        s@.hf_token == s.hf_token@,
        s@.min_speakers == s.min_speakers,
        s@.max_speakers == s.max_speakers,
        s@.window_seconds == s.window_seconds@,
        s@.step_seconds == s.step_seconds@,
        s@.speech_gate_enabled == s.speech_gate_enabled,
        s@.speech_gate_rms_db_floor == s.speech_gate_rms_db_floor@,
        s@.speech_gate_min_speech_fraction == s.speech_gate_min_speech_fraction@,
        s@.speech_gate_silero_threshold == s.speech_gate_silero_threshold@,
        s@.summarize == s.summarize,
        s@.ollama_model == s.ollama_model@,
        s@.ollama_host == s.ollama_host@,
        s@.speaker_enroll == s.speaker_enroll,
        s@.speaker_identify_threshold == s.speaker_identify_threshold@,
        s@.audio_input_device == s.audio_input_device@,
{
}

} // verus!
