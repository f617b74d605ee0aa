//! The pipeline's settings: reading them from the configuration file, taking
//! them from the user interface, and writing them back.

use vstd::prelude::*;
use serde_json::Value;
use vstd::slice::slice_subrange;
use crate::config::{bare, config_entries, entries, entry_views, flag_or, int_or, lookup_flag, lookup_int, lookup_or, strip, value_or, Assignment, Dialect, Entry, Kind};
use crate::json::{as_double_text, bool_value, double_text, get, int_value, is_plain, json, literal_json, literal_value, member, object_members, object_value, with, with_text, Json, Members};
use crate::number::{fmt_float, is_digit, unsigned, with_point};
use crate::settings_laws::lemma_keys;
use crate::text::{after, before, begins, chars, has_prefix, lemma_find, lemma_find_is, lines, lines_of, string, trim, trimmed, views, Class};

verus! {

broadcast use vstd::string::group_string_axioms;

/// The pipeline's settings. The settings that are floating-point numbers are held
/// as their literals.
pub struct Settings {
    pub whisper_model: String,
    pub whisper_device: String,
    pub whisper_compute_type: String,
    pub diarize: bool,
    pub hf_token: String,
    pub min_speakers: i64,
    pub max_speakers: i64,
    pub window_seconds: String,
    pub step_seconds: String,
    pub speech_gate_enabled: bool,
    pub speech_gate_rms_db_floor: String,
    pub speech_gate_min_speech_fraction: String,
    pub speech_gate_silero_threshold: String,
    pub summarize: bool,
    pub ollama_model: String,
    pub ollama_host: String,
    pub speaker_enroll: bool,
    pub speaker_identify_threshold: String,
    pub audio_input_device: String,
}

/// The pipeline's settings, as mathematics sees them.
#[verifier::ext_equal]
pub struct SettingsView {
    pub whisper_model: Seq<char>,
    pub whisper_device: Seq<char>,
    pub whisper_compute_type: Seq<char>,
    pub diarize: bool,
    pub hf_token: Seq<char>,
    pub min_speakers: int,
    pub max_speakers: int,
    pub window_seconds: Seq<char>,
    pub step_seconds: Seq<char>,
    pub speech_gate_enabled: bool,
    pub speech_gate_rms_db_floor: Seq<char>,
    pub speech_gate_min_speech_fraction: Seq<char>,
    pub speech_gate_silero_threshold: Seq<char>,
    pub summarize: bool,
    pub ollama_model: Seq<char>,
    pub ollama_host: Seq<char>,
    pub speaker_enroll: bool,
    pub speaker_identify_threshold: Seq<char>,
    pub audio_input_device: Seq<char>,
}

impl View for Settings {
    type V = SettingsView;

    open spec fn view(&self) -> SettingsView {
        SettingsView {
            whisper_model: self.whisper_model@,
            whisper_device: self.whisper_device@,
            whisper_compute_type: self.whisper_compute_type@,
            diarize: self.diarize,
            hf_token: self.hf_token@,
            min_speakers: self.min_speakers as int,
            max_speakers: self.max_speakers as int,
            window_seconds: self.window_seconds@,
            step_seconds: self.step_seconds@,
            speech_gate_enabled: self.speech_gate_enabled,
            speech_gate_rms_db_floor: self.speech_gate_rms_db_floor@,
            speech_gate_min_speech_fraction: self.speech_gate_min_speech_fraction@,
            speech_gate_silero_threshold: self.speech_gate_silero_threshold@,
            summarize: self.summarize,
            ollama_model: self.ollama_model@,
            ollama_host: self.ollama_host@,
            speaker_enroll: self.speaker_enroll,
            speaker_identify_threshold: self.speaker_identify_threshold@,
            audio_input_device: self.audio_input_device@,
        }
    }
}

/// The settings where nothing is said of them.
pub open spec fn default_settings() -> SettingsView {
    SettingsView {
        whisper_model: "small"@,
        whisper_device: "auto"@,
        whisper_compute_type: "auto"@,
        diarize: true,
        hf_token: ""@,
        min_speakers: 1,
        max_speakers: 8,
        window_seconds: "20.0"@,
        step_seconds: "3.0"@,
        speech_gate_enabled: true,
        speech_gate_rms_db_floor: "-50.0"@,
        speech_gate_min_speech_fraction: "0.12"@,
        speech_gate_silero_threshold: "0.5"@,
        summarize: true,
        ollama_model: "mistral"@,
        ollama_host: "http://localhost:11434"@,
        speaker_enroll: true,
        speaker_identify_threshold: "0.58"@,
        audio_input_device: ""@,
    }
}

/// A text of the `[python]` section.
pub open spec fn text_setting(es: Seq<Assignment>, key: Seq<char>, default: Seq<char>) -> Seq<
    char,
> {
    value_or(es, "[python]"@, key, Kind::Any, default)
}

/// A float of the `[python]` section.
pub open spec fn float_setting(es: Seq<Assignment>, key: Seq<char>, default: Seq<char>) -> Seq<
    char,
> {
    value_or(es, "[python]"@, key, Kind::Float, default)
}

/// An integer of the `[python]` section.
pub open spec fn int_setting(es: Seq<Assignment>, key: Seq<char>, default: int) -> int {
    int_or(es, "[python]"@, key, default)
}

/// A truth value of the `[python]` section.
pub open spec fn flag_setting(es: Seq<Assignment>, key: Seq<char>, default: bool) -> bool {
    flag_or(es, "[python]"@, key, default)
}

/// The settings that the entries of a configuration file hold.
pub open spec fn settings_in(es: Seq<Assignment>) -> SettingsView {
    let d = default_settings();
    SettingsView {
        whisper_model: text_setting(es, "whisper_model"@, d.whisper_model),
        whisper_device: text_setting(es, "whisper_device"@, d.whisper_device),
        whisper_compute_type: text_setting(es, "whisper_compute_type"@, d.whisper_compute_type),
        diarize: flag_setting(es, "diarize"@, d.diarize),
        hf_token: text_setting(es, "hf_token"@, d.hf_token),
        min_speakers: int_setting(es, "min_speakers"@, d.min_speakers),
        max_speakers: int_setting(es, "max_speakers"@, d.max_speakers),
        window_seconds: float_setting(es, "window_seconds"@, d.window_seconds),
        step_seconds: float_setting(es, "step_seconds"@, d.step_seconds),
        speech_gate_enabled: flag_setting(es, "speech_gate_enabled"@, d.speech_gate_enabled),
        speech_gate_rms_db_floor: float_setting(
            es,
            "speech_gate_rms_db_floor"@,
            d.speech_gate_rms_db_floor,
        ),
        speech_gate_min_speech_fraction: float_setting(
            es,
            "speech_gate_min_speech_fraction"@,
            d.speech_gate_min_speech_fraction,
        ),
        speech_gate_silero_threshold: float_setting(
            es,
            "speech_gate_silero_threshold"@,
            d.speech_gate_silero_threshold,
        ),
        summarize: flag_setting(es, "summarize"@, d.summarize),
        ollama_model: text_setting(es, "ollama_model"@, d.ollama_model),
        ollama_host: text_setting(es, "ollama_host"@, d.ollama_host),
        speaker_enroll: flag_setting(es, "speaker_enroll"@, d.speaker_enroll),
        speaker_identify_threshold: float_setting(
            es,
            "speaker_identify_threshold"@,
            d.speaker_identify_threshold,
        ),
        audio_input_device: text_setting(es, "audio_input_device"@, d.audio_input_device),
    }
}

/// The settings that a configuration file holds; a missing key has its default.
pub open spec fn settings_of(text: Seq<char>) -> SettingsView {
    settings_in(config_entries(text, Dialect::Commented))
}

/// The HuggingFace token in the lines of an environment file: that of the first
/// line that assigns one.
pub open spec fn env_token(ls: Seq<Seq<char>>) -> Seq<char>
    decreases ls.len(),
{
    if ls.len() == 0 {
        seq![]
    } else {
        let line = trim(ls[0], Class::Space);
        if has_prefix(line, "HUGGINGFACE_TOKEN="@) {
            bare(line.skip("HUGGINGFACE_TOKEN="@.len() as int))
        } else {
            env_token(ls.drop_first())
        }
    }
}

/// The settings with the token of the environment file, where they have none themselves.
pub open spec fn with_env_token(s: SettingsView, env: Option<&str>) -> SettingsView {
    match env {
        Some(t) => if s.hf_token.len() == 0 {
            SettingsView { hf_token: env_token(lines(t@)), ..s }
        } else {
            s
        },
        None => s,
    }
}

/// The settings where nothing is said of them.
pub fn defaults() -> (r: Settings)
    ensures
        r@ == default_settings(),
{
    Settings {
        whisper_model: "small".to_owned(),
        whisper_device: "auto".to_owned(),
        whisper_compute_type: "auto".to_owned(),
        diarize: true,
        hf_token: "".to_owned(),
        min_speakers: 1,
        max_speakers: 8,
        window_seconds: "20.0".to_owned(),
        step_seconds: "3.0".to_owned(),
        speech_gate_enabled: true,
        speech_gate_rms_db_floor: "-50.0".to_owned(),
        speech_gate_min_speech_fraction: "0.12".to_owned(),
        speech_gate_silero_threshold: "0.5".to_owned(),
        summarize: true,
        ollama_model: "mistral".to_owned(),
        ollama_host: "http://localhost:11434".to_owned(),
        speaker_enroll: true,
        speaker_identify_threshold: "0.58".to_owned(),
        audio_input_device: "".to_owned(),
    }
}

/// A text of the `[python]` section.
fn text_in(es: &Vec<Entry>, key: &str, default: &str) -> (r: String)
    ensures
        r@ == text_setting(entry_views(es@), key@, default@),
{
    lookup_or(es, "[python]", key, Kind::Any, default)
}

/// A float of the `[python]` section.
fn float_in(es: &Vec<Entry>, key: &str, default: &str) -> (r: String)
    ensures
        r@ == float_setting(entry_views(es@), key@, default@),
{
    lookup_or(es, "[python]", key, Kind::Float, default)
}

/// A truth value of the `[python]` section.
fn flag_in(es: &Vec<Entry>, key: &str) -> (r: bool)
    ensures
        r == flag_setting(entry_views(es@), key@, true),
{
    lookup_flag(es, "[python]", key, true)
}

/// Reads the settings of a configuration file.
pub fn read_settings(text: &str) -> (r: Settings)
    ensures
        r@ == settings_of(text@),
{
    let es: Vec<Entry> = entries(text, Dialect::Commented);
    Settings {
        whisper_model: text_in(&es, "whisper_model", "small"),
        whisper_device: text_in(&es, "whisper_device", "auto"),
        whisper_compute_type: text_in(&es, "whisper_compute_type", "auto"),
        diarize: flag_in(&es, "diarize"),
        hf_token: text_in(&es, "hf_token", ""),
        min_speakers: lookup_int(&es, "[python]", "min_speakers", 1),
        max_speakers: lookup_int(&es, "[python]", "max_speakers", 8),
        window_seconds: float_in(&es, "window_seconds", "20.0"),
        step_seconds: float_in(&es, "step_seconds", "3.0"),
        speech_gate_enabled: flag_in(&es, "speech_gate_enabled"),
        speech_gate_rms_db_floor: float_in(&es, "speech_gate_rms_db_floor", "-50.0"),
        speech_gate_min_speech_fraction: float_in(&es, "speech_gate_min_speech_fraction", "0.12"),
        speech_gate_silero_threshold: float_in(&es, "speech_gate_silero_threshold", "0.5"),
        summarize: flag_in(&es, "summarize"),
        ollama_model: text_in(&es, "ollama_model", "mistral"),
        ollama_host: text_in(&es, "ollama_host", "http://localhost:11434"),
        speaker_enroll: flag_in(&es, "speaker_enroll"),
        speaker_identify_threshold: float_in(&es, "speaker_identify_threshold", "0.58"),
        audio_input_device: text_in(&es, "audio_input_device", ""),
    }
}

/// The HuggingFace token in an environment file; empty where there is none.
pub fn read_env_token(env: &str) -> (r: String)
    ensures
        r@ == env_token(lines(env@)),
{
    let cs: Vec<char> = chars(env);
    let ls: Vec<&[char]> = lines_of(cs.as_slice());
    let ghost all = views(ls@);
    let mut i: usize = 0;
    proof {
        assert(all.skip(0) =~= all);
    }
    while i < ls.len()
        invariant
            all == views(ls@),
            all == lines(env@),
            i <= ls@.len(),
            env_token(all.skip(i as int)) == env_token(all),
        decreases ls@.len() - i,
    {
        proof {
            assert(all.skip(i as int)[0] == ls@[i as int]@);
            assert(all.skip(i as int).drop_first() =~= all.skip(i + 1));
        }
        let line: &[char] = trimmed(ls[i], Class::Space);
        if begins(line, "HUGGINGFACE_TOKEN=") {
            let n: usize = chars("HUGGINGFACE_TOKEN=").len();
            let rest: &[char] = slice_subrange(line, n, line.len());
            proof {
                assert(rest@ =~= line@.skip(n as int));
            }
            return strip(rest);
        }
        i += 1;
    }
    proof {
        assert(all.skip(i as int) =~= seq![]);
    }
    String::new()
}

/// The settings in a configuration file that may be missing: without one, the defaults.
pub open spec fn configured(config: Option<&str>) -> SettingsView {
    match config {
        Some(text) => settings_of(text@),
        None => default_settings(),
    }
}

/// The settings: those of the configuration file, or the defaults without one, with the
/// token of the environment file where they have none.
pub fn get_settings(config: Option<&str>, env: Option<&str>) -> (r: Settings)
    ensures
        r@ == with_env_token(configured(config), env),
{
    let mut s: Settings = match config {
        Some(text) => read_settings(text),
        None => defaults(),
    };
    if s.hf_token.as_str().is_empty() {
        if let Some(t) = env {
            s.hf_token = read_env_token(t);
        }
    }
    s
}

/// The settings as the user interface takes them.
pub open spec fn settings_json(s: SettingsView) -> Json {
    Json::Object(
        map![
            "whisper_model"@ => Json::Text(s.whisper_model),
            "whisper_device"@ => Json::Text(s.whisper_device),
            "whisper_compute_type"@ => Json::Text(s.whisper_compute_type),
            "diarize"@ => Json::Bool(s.diarize),
            "hf_token"@ => Json::Text(s.hf_token),
            "min_speakers"@ => Json::Int(s.min_speakers),
            "max_speakers"@ => Json::Int(s.max_speakers),
            "window_seconds"@ => literal_json(s.window_seconds),
            "step_seconds"@ => literal_json(s.step_seconds),
            "speech_gate_enabled"@ => Json::Bool(s.speech_gate_enabled),
            "speech_gate_rms_db_floor"@ => literal_json(s.speech_gate_rms_db_floor),
            "speech_gate_min_speech_fraction"@ => literal_json(s.speech_gate_min_speech_fraction),
            "speech_gate_silero_threshold"@ => literal_json(s.speech_gate_silero_threshold),
            "summarize"@ => Json::Bool(s.summarize),
            "ollama_model"@ => Json::Text(s.ollama_model),
            "ollama_host"@ => Json::Text(s.ollama_host),
            "speaker_enroll"@ => Json::Bool(s.speaker_enroll),
            "speaker_identify_threshold"@ => literal_json(s.speaker_identify_threshold),
            "audio_input_device"@ => Json::Text(s.audio_input_device),
        ],
    )
}

/// The types of the settings.
pub enum SettingType {
    Text,
    Flag,
    Whole,
    Float,
}

/// The keys of the settings, and the type of each.
pub open spec fn setting_types() -> Map<Seq<char>, SettingType> {
    map![
        "whisper_model"@ => SettingType::Text,
        "whisper_device"@ => SettingType::Text,
        "whisper_compute_type"@ => SettingType::Text,
        "diarize"@ => SettingType::Flag,
        "hf_token"@ => SettingType::Text,
        "min_speakers"@ => SettingType::Whole,
        "max_speakers"@ => SettingType::Whole,
        "window_seconds"@ => SettingType::Float,
        "step_seconds"@ => SettingType::Float,
        "speech_gate_enabled"@ => SettingType::Flag,
        "speech_gate_rms_db_floor"@ => SettingType::Float,
        "speech_gate_min_speech_fraction"@ => SettingType::Float,
        "speech_gate_silero_threshold"@ => SettingType::Float,
        "summarize"@ => SettingType::Flag,
        "ollama_model"@ => SettingType::Text,
        "ollama_host"@ => SettingType::Text,
        "speaker_enroll"@ => SettingType::Flag,
        "speaker_identify_threshold"@ => SettingType::Float,
        "audio_input_device"@ => SettingType::Text,
    ]
}

/// Whether a value is of the type.
pub open spec fn is_of(v: Json, t: SettingType) -> bool {
    match t {
        SettingType::Text => v is Text,
        SettingType::Flag => v is Bool,
        SettingType::Whole => v is Int,
        SettingType::Float => v is Real,
    }
}

/// Whether a value is an object with the keys of the settings and no others, and each
/// member has its type.
pub open spec fn is_settings_object(v: Json) -> bool {
    &&& v is Object
    &&& object_members(v).dom() == setting_types().dom()
    &&& forall|k: Seq<char>| #[trigger]
        setting_types().contains_key(k) ==> is_of(object_members(v)[k], setting_types()[k])
}

/// Whether a literal stands for a number: neither for an infinity nor for a NaN.
pub open spec fn is_finite(literal: Seq<char>) -> bool {
    is_plain(literal) || !(literal_json(literal) is Null)
}

/// Whether the settings that are floats are numbers.
pub open spec fn floats_are_numbers(s: SettingsView) -> bool {
    &&& is_finite(s.window_seconds)
    &&& is_finite(s.step_seconds)
    &&& is_finite(s.speech_gate_rms_db_floor)
    &&& is_finite(s.speech_gate_min_speech_fraction)
    &&& is_finite(s.speech_gate_silero_threshold)
    &&& is_finite(s.speaker_identify_threshold)
}

/// The settings as the user interface takes them.
pub fn settings_value(s: &Settings) -> (r: Value)
    ensures
        json(r) == settings_json(s@),
        floats_are_numbers(s@) ==> is_settings_object(json(r)),
{
    let m: Members = with_text(Members::new(), "whisper_model", s.whisper_model.as_str());
    let m: Members = with_text(m, "whisper_device", s.whisper_device.as_str());
    let m: Members = with_text(m, "whisper_compute_type", s.whisper_compute_type.as_str());
    let m: Members = with(m, "diarize", bool_value(s.diarize));
    let m: Members = with_text(m, "hf_token", s.hf_token.as_str());
    let m: Members = with(m, "min_speakers", int_value(s.min_speakers));
    let m: Members = with(m, "max_speakers", int_value(s.max_speakers));
    let m: Members = with(m, "window_seconds", literal_value(s.window_seconds.as_str()));
    let m: Members = with(m, "step_seconds", literal_value(s.step_seconds.as_str()));
    let m: Members = with(m, "speech_gate_enabled", bool_value(s.speech_gate_enabled));
    let m: Members = with(m, "speech_gate_rms_db_floor", literal_value(s.speech_gate_rms_db_floor.as_str()));
    let m: Members = with(m, "speech_gate_min_speech_fraction", literal_value(s.speech_gate_min_speech_fraction.as_str()));
    let m: Members = with(m, "speech_gate_silero_threshold", literal_value(s.speech_gate_silero_threshold.as_str()));
    let m: Members = with(m, "summarize", bool_value(s.summarize));
    let m: Members = with_text(m, "ollama_model", s.ollama_model.as_str());
    let m: Members = with_text(m, "ollama_host", s.ollama_host.as_str());
    let m: Members = with(m, "speaker_enroll", bool_value(s.speaker_enroll));
    let m: Members = with(m, "speaker_identify_threshold", literal_value(s.speaker_identify_threshold.as_str()));
    let m: Members = with_text(m, "audio_input_device", s.audio_input_device.as_str());
    proof {
        if floats_are_numbers(s@) {
            law_settings_have_their_types(s@);
        }
    }
    object_value(m)
}

/// The settings for the user interface, from the text of the configuration file and that
/// of the environment file.
pub fn shown_settings(config: Option<&str>, env: Option<&str>) -> (r: Value)
    ensures
        json(r) == settings_json(with_env_token(configured(config), env)),
        floats_are_numbers(with_env_token(configured(config), env)) ==> is_settings_object(json(r)),
{
    settings_value(&get_settings(config, env))
}

/// Settings whose floats give JSON numbers are an object with the keys of the settings
/// and no others, each member of its type.
pub proof fn law_settings_have_their_types(s: SettingsView)
    requires
        literal_json(s.window_seconds) is Real,
        literal_json(s.step_seconds) is Real,
        literal_json(s.speech_gate_rms_db_floor) is Real,
        literal_json(s.speech_gate_min_speech_fraction) is Real,
        literal_json(s.speech_gate_silero_threshold) is Real,
        literal_json(s.speaker_identify_threshold) is Real,
    ensures
        is_settings_object(settings_json(s)),
{
    lemma_keys();
    let m = object_members(settings_json(s));
    assert(m.dom() =~= setting_types().dom());
}

/// The defaults are numbers where they are floats.
pub proof fn law_defaults_are_numbers()
    ensures
        floats_are_numbers(default_settings()),
{
    reveal_strlit("20.0");
    reveal_strlit("3.0");
    reveal_strlit("-50.0");
    reveal_strlit("0.12");
    reveal_strlit("0.5");
    reveal_strlit("0.58");
    lemma_plain("20.0"@, 2);
    lemma_plain("3.0"@, 1);
    lemma_plain("-50.0"@, 3);
    lemma_plain("0.12"@, 1);
    lemma_plain("0.5"@, 1);
    lemma_plain("0.58"@, 1);
}

/// Digits with a point at position `i` among them, with or without a sign, are plain.
proof fn lemma_plain(s: Seq<char>, i: int)
    requires
        2 < s.len() <= 300,
        0 < i < s.len(),
        s[0] == '-' || s[0] == '+' || is_digit(s[0]),
        forall|j: int| 0 < j < s.len() && j != i ==> is_digit(#[trigger] s[j]),
        s[i] == '.',
    ensures
        is_plain(s),
{
    let t = unsigned(s);
    let k = if is_digit(s[0]) {
        i
    } else {
        i - 1
    };
    let d = i - k;
    assert(t =~= s.skip(d));
    assert(t[k] == '.');
    lemma_find_is(t, '.', k);
    lemma_find(t, '.');
    assert forall|j: int| 0 <= j < before(t, '.').len() implies is_digit(
        #[trigger] before(t, '.')[j],
    ) by {
        assert(before(t, '.')[j] == s[j + d]);
    }
    assert forall|j: int| 0 <= j < after(t, '.').len() implies is_digit(
        #[trigger] after(t, '.')[j],
    ) by {
        assert(after(t, '.')[j] == s[j + d + k + 1]);
    }
}

/// A text member of an object, or `default`.
pub open spec fn text_member(v: Json, key: Seq<char>, default: Seq<char>) -> Seq<char> {
    match member(v, key) {
        Some(Json::Text(t)) => t,
        _ => default,
    }
}

/// A truth value member of an object, or `default`.
pub open spec fn flag_member(v: Json, key: Seq<char>, default: bool) -> bool {
    match member(v, key) {
        Some(Json::Bool(b)) => b,
        _ => default,
    }
}

/// An integer member of an object, within 64 bits, or `default`.
pub open spec fn int_member(v: Json, key: Seq<char>, default: int) -> int {
    match member(v, key) {
        Some(Json::Int(n)) => if i64::MIN <= n <= i64::MAX {
            n
        } else {
            default
        },
        _ => default,
    }
}

/// The literal of a number member of an object, with a point, or `default`.
pub open spec fn float_member(v: Json, key: Seq<char>, default: Seq<char>) -> Seq<char> {
    match member(v, key) {
        Some(Json::Int(n)) => with_point(double_text(Json::Int(n))),
        Some(Json::Real(b)) => with_point(double_text(Json::Real(b))),
        _ => default,
    }
}

/// The settings that an object holds; a missing member, and one of another type,
/// has its default.
pub open spec fn settings_from(v: Json) -> SettingsView {
    let d = default_settings();
    SettingsView {
        whisper_model: text_member(v, "whisper_model"@, d.whisper_model),
        whisper_device: text_member(v, "whisper_device"@, d.whisper_device),
        whisper_compute_type: text_member(v, "whisper_compute_type"@, d.whisper_compute_type),
        diarize: flag_member(v, "diarize"@, d.diarize),
        hf_token: text_member(v, "hf_token"@, d.hf_token),
        min_speakers: int_member(v, "min_speakers"@, d.min_speakers),
        max_speakers: int_member(v, "max_speakers"@, d.max_speakers),
        window_seconds: float_member(v, "window_seconds"@, d.window_seconds),
        step_seconds: float_member(v, "step_seconds"@, d.step_seconds),
        speech_gate_enabled: flag_member(v, "speech_gate_enabled"@, d.speech_gate_enabled),
        speech_gate_rms_db_floor: float_member(
            v,
            "speech_gate_rms_db_floor"@,
            d.speech_gate_rms_db_floor,
        ),
        speech_gate_min_speech_fraction: float_member(
            v,
            "speech_gate_min_speech_fraction"@,
            d.speech_gate_min_speech_fraction,
        ),
        speech_gate_silero_threshold: float_member(
            v,
            "speech_gate_silero_threshold"@,
            d.speech_gate_silero_threshold,
        ),
        summarize: flag_member(v, "summarize"@, d.summarize),
        ollama_model: text_member(v, "ollama_model"@, d.ollama_model),
        ollama_host: text_member(v, "ollama_host"@, d.ollama_host),
        speaker_enroll: flag_member(v, "speaker_enroll"@, d.speaker_enroll),
        speaker_identify_threshold: float_member(
            v,
            "speaker_identify_threshold"@,
            d.speaker_identify_threshold,
        ),
        audio_input_device: text_member(v, "audio_input_device"@, d.audio_input_device),
    }
}

/// A text member of an object, or `default`.
fn get_text(v: &Value, key: &str, default: &str) -> (r: String)
    ensures
        r@ == text_member(json(*v), key@, default@),
{
    match get(v, key) {
        Some(m) => match m.as_str() {
            Some(t) => t.to_owned(),
            None => default.to_owned(),
        },
        None => default.to_owned(),
    }
}

/// A truth value member of an object, or true.
fn get_flag(v: &Value, key: &str) -> (r: bool)
    ensures
        r == flag_member(json(*v), key@, true),
{
    match get(v, key) {
        Some(m) => match m.as_bool() {
            Some(b) => b,
            None => true,
        },
        None => true,
    }
}

/// An integer member of an object, or `default`.
fn get_int(v: &Value, key: &str, default: i64) -> (r: i64)
    ensures
        r == int_member(json(*v), key@, default as int),
{
    match get(v, key) {
        Some(m) => match m.as_i64() {
            Some(n) => n,
            None => default,
        },
        None => default,
    }
}

/// The literal of a number member of an object, or `default`.
fn get_float(v: &Value, key: &str, default: &str) -> (r: String)
    ensures
        r@ == float_member(json(*v), key@, default@),
{
    match get(v, key) {
        Some(m) => match as_double_text(m) {
            Some(t) => fmt_float(t.as_str()),
            None => default.to_owned(),
        },
        None => default.to_owned(),
    }
}

/// Takes the settings out of an object.
pub fn settings_from_value(v: &Value) -> (r: Settings)
    ensures
        r@ == settings_from(json(*v)),
{
    Settings {
        whisper_model: get_text(v, "whisper_model", "small"),
        whisper_device: get_text(v, "whisper_device", "auto"),
        whisper_compute_type: get_text(v, "whisper_compute_type", "auto"),
        diarize: get_flag(v, "diarize"),
        hf_token: get_text(v, "hf_token", ""),
        min_speakers: get_int(v, "min_speakers", 1),
        max_speakers: get_int(v, "max_speakers", 8),
        window_seconds: get_float(v, "window_seconds", "20.0"),
        step_seconds: get_float(v, "step_seconds", "3.0"),
        speech_gate_enabled: get_flag(v, "speech_gate_enabled"),
        speech_gate_rms_db_floor: get_float(v, "speech_gate_rms_db_floor", "-50.0"),
        speech_gate_min_speech_fraction: get_float(v, "speech_gate_min_speech_fraction", "0.12"),
        speech_gate_silero_threshold: get_float(v, "speech_gate_silero_threshold", "0.5"),
        summarize: get_flag(v, "summarize"),
        ollama_model: get_text(v, "ollama_model", "mistral"),
        ollama_host: get_text(v, "ollama_host", "http://localhost:11434"),
        speaker_enroll: get_flag(v, "speaker_enroll"),
        speaker_identify_threshold: get_float(v, "speaker_identify_threshold", "0.58"),
        audio_input_device: get_text(v, "audio_input_device", ""),
    }
}

} // verus!
