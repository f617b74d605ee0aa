use corpo_drone::desktop_config::read_mic_device_from_config;
use corpo_drone::settings::{defaults, get_settings, read_env_token, read_settings, settings_from_value, settings_value, shown_settings};
use corpo_drone::settings_file::{render, save_settings, SaveError};
use serde_json::Value;

fn value(text: &str) -> Value {
    serde_json::from_str(text).unwrap()
}

#[test]
fn settings_have_defaults() {
    let s = get_settings(None, None);
    assert_eq!(s.whisper_model, "small");
    assert_eq!(s.whisper_device, "auto");
    assert_eq!(s.whisper_compute_type, "auto");
    assert!(s.diarize);
    assert_eq!(s.hf_token, "");
    assert_eq!((s.min_speakers, s.max_speakers), (1, 8));
    assert_eq!(s.window_seconds, "20.0");
    assert_eq!(s.step_seconds, "3.0");
    assert!(s.speech_gate_enabled);
    assert_eq!(s.speech_gate_rms_db_floor, "-50.0");
    assert_eq!(s.speech_gate_min_speech_fraction, "0.12");
    assert_eq!(s.speech_gate_silero_threshold, "0.5");
    assert!(s.summarize);
    assert_eq!(s.ollama_model, "mistral");
    assert_eq!(s.ollama_host, "http://localhost:11434");
    assert!(s.speaker_enroll);
    assert_eq!(s.speaker_identify_threshold, "0.58");
    assert_eq!(s.audio_input_device, "");
}

#[test]
fn settings_are_read_from_the_configuration() {
    let text = "\
[python]
whisper_model = \"large-v3\" # big
# whisper_device = cuda
diarize = false
min_speakers = 2
max_speakers = many
window_seconds = 1e1
step_seconds = fast
hf_token = 'tok'
[server]
whisper_device = cpu
";
    let s = get_settings(Some(text), Some("HUGGINGFACE_TOKEN=hf"));
    assert_eq!(s.whisper_model, "large-v3");
    assert_eq!(s.whisper_device, "auto");
    assert!(!s.diarize);
    assert_eq!((s.min_speakers, s.max_speakers), (2, 8));
    assert_eq!(s.window_seconds, "1e1");
    assert_eq!(s.step_seconds, "3.0");
    assert_eq!(s.hf_token, "tok");
}

#[test]
fn the_token_may_stand_in_the_environment_file() {
    let env = "# HUGGINGFACE_TOKEN=no\n A=b\n HUGGINGFACE_TOKEN= \"hf_1\" \nHUGGINGFACE_TOKEN=hf_2\n";
    assert_eq!(read_env_token(env), "hf_1");
    assert_eq!(get_settings(Some(""), Some(env)).hf_token, "hf_1");
    assert_eq!(get_settings(Some(""), None).hf_token, "");
    assert_eq!(get_settings(Some("[python]\nhf_token = x"), Some(env)).hf_token, "x");
    assert_eq!(read_env_token("HUGGINGFACE_TOKEN=\nHUGGINGFACE_TOKEN=x\n"), "");
    assert_eq!(read_env_token(""), "");
}

#[test]
fn only_an_object_is_saved() {
    for text in ["[]", "null", "3", "\"x\""] {
        assert_eq!(save_settings(&value(text), None).err(), Some(SaveError::NotAnObject));
    }
    assert_eq!(SaveError::NotAnObject.message(), "expected object");
}

#[test]
fn the_saved_file_is_complete() {
    let saved = save_settings(&value("{}"), None).ok().unwrap();
    let want = "\
# CorpoDrone configuration
# Edit this file to configure the pipeline without recompiling.

[python]
# Whisper model size: tiny / base / small / medium / large-v3
whisper_model = \"small\"
whisper_device = \"auto\"
whisper_compute_type = \"auto\"

# Speaker diarization (requires HuggingFace token)
diarize = true
hf_token = \"\"
min_speakers = 1
max_speakers = 8

# Sliding window config (seconds)
window_seconds = 20.0
step_seconds = 3.0

# Silence filtering before Whisper (RMS + Silero VAD)
speech_gate_enabled = true
speech_gate_rms_db_floor = -50.0
speech_gate_min_speech_fraction = 0.12
speech_gate_silero_threshold = 0.5

# Summarization via Ollama
summarize = true
ollama_model = \"mistral\"
ollama_host = \"http://localhost:11434\"

# Speaker recognition
speaker_enroll = true
speaker_identify_threshold = 0.58

# Microphone (empty = OS default; applies next recording)
audio_input_device = \"\"
";
    assert_eq!(saved.text, want);
    assert!(saved.command.is_none());
}

#[test]
fn saving_keeps_the_server_section() {
    let existing = "[python]\nwhisper_model = x\n  [server]\n bind = 1\n# note\n[other]\ny = 2\n[server]\nz = 3";
    let saved = save_settings(&value("{}"), Some(existing)).ok().unwrap();
    assert!(saved.text.ends_with("audio_input_device = \"\"\n\n  [server]\n bind = 1\n# note\n[server]\nz = 3\n"));
    assert!(!saved.text.contains("y = 2"));
    let again = save_settings(&value("{}"), Some(&saved.text)).ok().unwrap();
    assert_eq!(again.text, saved.text);
}

#[test]
fn saved_settings_are_read_back() {
    let v = value(
        r#"{"whisper_model":"base","diarize":false,"min_speakers":-3,"max_speakers":4,
            "window_seconds":15,"step_seconds":2.5,"speech_gate_rms_db_floor":1e21,
            "hf_token":"hf_x","audio_input_device":"USB mic","summarize":"no"}"#,
    );
    let saved = save_settings(&v, None).ok().unwrap();
    let s = read_settings(&saved.text);
    assert_eq!(s.whisper_model, "base");
    assert!(!s.diarize);
    assert_eq!((s.min_speakers, s.max_speakers), (-3, 4));
    assert_eq!(s.window_seconds, "15.0");
    assert_eq!(s.step_seconds, "2.5");
    assert_eq!(s.speech_gate_rms_db_floor, "1000000000000000000000.0");
    assert_eq!(s.hf_token, "hf_x");
    assert!(s.summarize);
    assert_eq!(s.audio_input_device, "USB mic");
    assert_eq!(read_mic_device_from_config(Some(&saved.text)), "USB mic");
}

#[test]
fn a_token_starts_the_download() {
    let saved = save_settings(&value(r#"{"hf_token":"hf_x"}"#), None).ok().unwrap();
    assert_eq!(saved.command.unwrap(), value(r#"{"cmd":"prefetch_diarizer","hf_token":"hf_x"}"#));
}

#[test]
fn settings_of_the_wrong_kind_give_way_to_the_defaults() {
    let s = settings_from_value(&value(
        r#"{"whisper_model":7,"diarize":"no","min_speakers":1.5,"max_speakers":9223372036854775808,"step_seconds":"x"}"#,
    ));
    assert_eq!(s.whisper_model, "small");
    assert!(s.diarize);
    assert_eq!((s.min_speakers, s.max_speakers), (1, 8));
    assert_eq!(s.step_seconds, "3.0");
    let d = defaults();
    assert_eq!(render(&s, ""), render(&d, ""));
}

#[test]
fn a_missing_setting_has_its_default() {
    let s = read_settings("[python]\nwhisper_model = tiny\n[server]\nollama_model = x\n");
    assert_eq!(s.whisper_model, "tiny");
    assert_eq!(s.ollama_model, "mistral");
    assert_eq!(s.window_seconds, "20.0");
    assert_eq!(s.max_speakers, 8);
    assert!(s.diarize);
}

#[test]
fn the_interface_is_shown_the_settings() {
    let v = settings_value(&defaults());
    assert_eq!(
        v,
        value(
            r#"{"whisper_model":"small","whisper_device":"auto","whisper_compute_type":"auto",
                "diarize":true,"hf_token":"","min_speakers":1,"max_speakers":8,
                "window_seconds":20.0,"step_seconds":3.0,"speech_gate_enabled":true,
                "speech_gate_rms_db_floor":-50.0,"speech_gate_min_speech_fraction":0.12,
                "speech_gate_silero_threshold":0.5,"summarize":true,"ollama_model":"mistral",
                "ollama_host":"http://localhost:11434","speaker_enroll":true,
                "speaker_identify_threshold":0.58,"audio_input_device":""}"#
        )
    );
    let s = read_settings("[python]\nwindow_seconds = 1e1\nstep_seconds = inf\n");
    let v = settings_value(&s);
    assert_eq!(v["window_seconds"], value("10.0"));
    assert_eq!(v["step_seconds"], value("null"));
}

#[test]
fn settings_that_were_shown_are_saved() {
    let mut s = defaults();
    s.hf_token = "hf_é \"x\"".to_string();
    s.min_speakers = -7;
    s.max_speakers = i64::MAX;
    s.diarize = false;
    s.audio_input_device = "USB".to_string();
    let back = settings_from_value(&settings_value(&s));
    assert_eq!(back.hf_token, s.hf_token);
    assert_eq!((back.min_speakers, back.max_speakers), (-7, i64::MAX));
    assert!(!back.diarize);
    assert_eq!(back.audio_input_device, "USB");
    assert_eq!(back.window_seconds, "20.0");
}

#[test]
fn the_token_of_the_environment_file_needs_no_configuration() {
    let s = get_settings(None, Some("HUGGINGFACE_TOKEN=tok1\n"));
    assert_eq!(s.hf_token, "tok1");
    assert_eq!(s.whisper_model, "small");
    let v = shown_settings(None, Some("HUGGINGFACE_TOKEN=tok1\n"));
    assert_eq!(v["hf_token"].as_str(), Some("tok1"));
}

#[test]
fn the_settings_shown_have_their_types() {
    let v = shown_settings(Some("[python]\nwindow_seconds = 15\nunknown = 1\n"), None);
    let m = v.as_object().unwrap();
    assert_eq!(m.len(), 19);
    assert!(m["window_seconds"].is_f64());
    assert!(m["step_seconds"].is_f64());
    assert!(m["speech_gate_rms_db_floor"].is_f64());
    assert!(m["min_speakers"].is_i64());
    assert!(m["diarize"].is_boolean());
    assert!(m["audio_input_device"].is_string());
    let v = shown_settings(Some("[python]\nwindow_seconds = -Infinity\n"), None);
    assert!(v["window_seconds"].is_null());
}

#[test]
fn a_saved_object_is_shown_again() {
    let v = value(
        r#"{"whisper_model":"base","whisper_device":"cpu","whisper_compute_type":"int8",
            "diarize":false,"hf_token":"hf_x","min_speakers":2,"max_speakers":5,
            "window_seconds":15.25,"step_seconds":0.1,"speech_gate_enabled":false,
            "speech_gate_rms_db_floor":-1e-7,"speech_gate_min_speech_fraction":1e21,
            "speech_gate_silero_threshold":0.3,"summarize":false,"ollama_model":"m",
            "ollama_host":"http://h","speaker_enroll":false,
            "speaker_identify_threshold":0.58,"audio_input_device":"USB mic"}"#,
    );
    let saved = save_settings(&v, Some("[server]\nx = 1\n")).ok().unwrap();
    assert_eq!(shown_settings(Some(&saved.text), Some("HUGGINGFACE_TOKEN=other")), v);
}

#[test]
fn saving_twice_changes_nothing() {
    let v = value(r#"{"hf_token":"[server]","audio_input_device":"a#b"}"#);
    for existing in ["", "[server]\nbind = 1\n\n[x]\n[server]\nz", "a = 1"] {
        let once = save_settings(&v, Some(existing)).ok().unwrap().text;
        let twice = save_settings(&v, Some(&once)).ok().unwrap().text;
        assert_eq!(once, twice);
    }
}
