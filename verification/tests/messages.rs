use corpo_drone::messages::{
    clock, command_line, emit_system, import_audio_file, log_event, ok_reply, prefetch_command,
    set_pipeline_mode, speaker_update_event, status_event, system_event, Level, Log, SpeakerUpdate,
};
use corpo_drone::number::{fmt_float, i64_text, parse_i64, parse_u32, u64_text};
use serde_json::Value;

fn value(text: &str) -> Value {
    serde_json::from_str(text).unwrap()
}

#[test]
fn a_log_line_names_its_process() {
    assert_eq!(log_event("audio", "{\"a\":1}"), value(r#"{"process":"audio","line":"{\"a\":1}"}"#));
}

#[test]
fn the_time_of_day_has_six_digits() {
    assert_eq!(clock(0), "00:00:00");
    assert_eq!(clock(86_399), "23:59:59");
    assert_eq!(clock(86_400 + 3_661), "01:01:01");
}

#[test]
fn a_system_entry_is_an_object_in_a_line() {
    let v = system_event("info", 3_661, "hello \"x\"");
    assert_eq!(v["process"].as_str(), Some("system"));
    assert_eq!(
        value(v["line"].as_str().unwrap()),
        value(r#"{"level":"info","timestamp":"01:01:01","event":"hello \"x\""}"#)
    );
    let v = emit_system(&Log { level: Level::Warning, event: "e".to_string() });
    let line = value(v["line"].as_str().unwrap());
    assert_eq!(line["level"].as_str(), Some("warning"));
    assert_eq!(line["event"].as_str(), Some("e"));
    assert_eq!(line["timestamp"].as_str().unwrap().len(), 8);
}

#[test]
fn events_tell_of_changes() {
    assert_eq!(status_event("recording"), value(r#"{"type":"status","state":"recording"}"#));
    let u = SpeakerUpdate { speaker_id: "i".to_string(), name: "n".to_string() };
    assert_eq!(speaker_update_event(&u), value(r#"{"type":"speaker_update","speaker_id":"i","name":"n"}"#));
    assert_eq!(ok_reply(false), value(r#"{"ok":false}"#));
}

#[test]
fn commands_are_lines_of_json() {
    assert_eq!(command_line(&set_pipeline_mode("live")), "{\"cmd\":\"set_mode\",\"mode\":\"live\"}\n");
    assert_eq!(prefetch_command("t"), value(r#"{"cmd":"prefetch_diarizer","hf_token":"t"}"#));
    let c = import_audio_file("/a b\n\"c\".wav");
    let line = command_line(&c);
    assert_eq!(line.matches('\n').count(), 1);
    assert!(line.ends_with('\n'));
    assert_eq!(value(line.trim_end()), c);
    assert_eq!(c["cmd"].as_str(), Some("process_audio_file"));
}

#[test]
fn numbers_are_written_and_read() {
    assert_eq!(u64_text(0), "0");
    assert_eq!(u64_text(u64::MAX), "18446744073709551615");
    assert_eq!(i64_text(i64::MIN), "-9223372036854775808");
    let chars = |s: &str| -> Vec<char> { s.chars().collect() };
    assert_eq!(parse_i64(&chars("-9223372036854775808")), Some(i64::MIN));
    assert_eq!(parse_i64(&chars("9223372036854775808")), None);
    assert_eq!(parse_i64(&chars("+7")), Some(7));
    assert_eq!(parse_i64(&chars("-")), None);
    assert_eq!(parse_u32(&chars("-0")), None);
    assert_eq!(parse_u32(&chars("4294967295")), Some(u32::MAX));
    assert_eq!(fmt_float("20"), "20.0");
    assert_eq!(fmt_float("0.12"), "0.12");
    assert_eq!(fmt_float("inf"), "inf.0");
}

#[test]
fn floats_are_written_with_one_point() {
    for (text, want) in [("20", "20.0"), ("-50", "-50.0"), ("0.12", "0.12"), ("5.", "5."), (".5", ".5")] {
        let r = fmt_float(text);
        assert_eq!(r, want);
        assert_eq!(r.matches('.').count(), 1);
        assert_eq!(r.parse::<f64>().unwrap(), text.parse::<f64>().unwrap());
    }
}
