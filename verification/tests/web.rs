use corpo_drone::messages::SpeakerUpdate;
use corpo_drone::server_config::default_args;
use corpo_drone::web::{spawn_python, start_failed, ui_url, update_speaker, Answer, Body, Server};
use serde_json::Value;

fn value(text: &str) -> Value {
    serde_json::from_str(text).unwrap()
}

fn json_of(a: Answer) -> (u16, Value) {
    match a.body {
        Body::Json(v) => (a.status, v),
        Body::Text(_) => panic!("a text"),
    }
}

fn text_of(a: Answer) -> (u16, String) {
    match a.body {
        Body::Text(t) => (a.status, t),
        Body::Json(_) => panic!("a value"),
    }
}

#[test]
fn a_recording_is_started_once() {
    let mut s = Server::new();
    let args = default_args();
    let c = s.start(&args).ok().unwrap();
    assert_eq!(c.program, "target\\release\\audio-capture.exe");
    assert_eq!(c.args, vec!["--pipe", "\\\\.\\pipe\\corpodrone-audio"]);
    let (event, answer) = s.started();
    assert_eq!(event, value(r#"{"type":"status","state":"recording"}"#));
    assert_eq!(json_of(answer), (200, value(r#"{"ok":true}"#)));
    assert_eq!(text_of(s.start(&args).err().unwrap()), (409, "Already recording".to_string()));
    assert_eq!(json_of(s.status(3)), (200, value(r#"{"recording":true,"ws_clients":3}"#)));
    s.capture_exited();
    assert!(s.start(&args).is_ok());
}

#[test]
fn a_recording_is_stopped_while_it_runs() {
    let mut s = Server::new();
    assert_eq!(text_of(s.stop().err().unwrap()), (409, "Not recording".to_string()));
    s.started();
    let c = s.stop().ok().unwrap();
    assert_eq!(c.program, "taskkill");
    assert_eq!(c.args, vec!["/F", "/IM", "audio-capture.exe"]);
    let (event, answer) = s.stopped();
    assert_eq!(event, value(r#"{"type":"status","state":"stopped"}"#));
    assert_eq!(json_of(answer), (200, value(r#"{"ok":true}"#)));
    assert_eq!(json_of(s.status(0)), (200, value(r#"{"recording":false,"ws_clients":0}"#)));
}

#[test]
fn a_failed_start_is_told() {
    assert_eq!(text_of(start_failed("gone")), (500, "Failed to start capture: gone".to_string()));
}

#[test]
fn a_new_name_is_told_to_all() {
    let u = SpeakerUpdate { speaker_id: "s1".to_string(), name: "Ann".to_string() };
    let (event, answer) = update_speaker(&u);
    assert_eq!(event, value(r#"{"type":"speaker_update","speaker_id":"s1","name":"Ann"}"#));
    assert_eq!(json_of(answer), (200, value(r#"{"ok":true}"#)));
}

#[test]
fn the_pipeline_needs_its_script() {
    let args = default_args();
    let c = spawn_python(&args, true).ok().unwrap();
    assert_eq!(c.program, "python");
    assert_eq!(c.args, vec!["python\\pipeline.py"]);
    assert_eq!(spawn_python(&args, false).err().unwrap(), "Python script not found: python\\pipeline.py");
}

#[test]
fn the_server_ends_what_it_started() {
    let mut s = Server::new();
    assert_eq!(s.kill_subprocesses().len(), 1);
    s.pipeline_started(12);
    let cs = s.kill_subprocesses();
    assert_eq!(cs[0].args, vec!["/F", "/PID", "12"]);
    assert_eq!(cs[1].args, vec!["/F", "/IM", "audio-capture.exe"]);
}

#[test]
fn the_interface_has_an_address() {
    assert_eq!(ui_url("127.0.0.1:8080"), "http://127.0.0.1:8080");
}
