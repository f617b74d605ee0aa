use corpo_drone::desktop_config::Platform;
use corpo_drone::recorder::{
    capture_args, kill_capture_command, kill_command, mute_file_name, mute_file_text, MuteFile,
    Recorder, Refusal,
};
use serde_json::Value;

fn value(text: &str) -> Value {
    serde_json::from_str(text).unwrap()
}

#[test]
fn a_capture_gets_its_arguments() {
    assert_eq!(capture_args("/p", &None, None), vec!["--pipe", "/p"]);
    let apps = Some(vec!["a".to_string(), "b".to_string()]);
    let config = "[python]\naudio_input_device = \"  USB mic \" # desk\n";
    assert_eq!(
        capture_args("/p", &apps, Some(config)),
        vec!["--pipe", "/p", "--loopback-apps", "a,b", "--mic-device", "USB mic"]
    );
    assert_eq!(
        capture_args("/p", &Some(vec![]), Some("[python]\naudio_input_device = \" \"\n")),
        vec!["--pipe", "/p"]
    );
}

#[test]
fn a_recording_runs_once() {
    let mut r = Recorder::new();
    assert_eq!(r.stop_recording(Platform::Unix).err(), Some(Refusal::NotRecording));
    assert!(r.start_recording("/p", &None, None).is_ok());
    let (log, reply) = r.capture_started(42);
    assert_eq!(log.event, "audio_capture_started pid=42");
    assert_eq!(reply, value(r#"{"ok":true}"#));
    r.set_mute(true);
    assert_eq!(r.get_status(), value(r#"{"recording":true,"muted":true}"#));
    assert_eq!(r.start_recording("/p", &None, None).err(), Some(Refusal::AlreadyRecording));
    assert_eq!(Refusal::AlreadyRecording.message(), "Already recording");
    assert_eq!(Refusal::NotRecording.message(), "Not recording");
}

#[test]
fn stopping_unmutes_the_microphone() {
    let mut r = Recorder::new();
    r.capture_started(0);
    r.set_mute(true);
    assert!(r.stop_recording(Platform::Unix).is_ok());
    let (file, log, reply) = r.recording_stopped();
    assert!(file == MuteFile::Remove);
    assert_eq!(log.event, "recording_stopped");
    assert_eq!(log.level.name(), "info");
    assert_eq!(reply, value(r#"{"ok":true}"#));
    assert_eq!(r.get_status(), value(r#"{"recording":false,"muted":false}"#));
}

#[test]
fn a_capture_that_exits_leaves_the_mute() {
    let mut r = Recorder::new();
    r.capture_started(1);
    r.set_mute(true);
    assert_eq!(r.capture_exited().event, "audio_capture_stopped");
    assert_eq!(r.get_status(), value(r#"{"recording":false,"muted":true}"#));
    assert!(r.start_recording("/p", &None, None).is_ok());
}

#[test]
fn muting_is_told_to_the_pipeline() {
    let mut r = Recorder::new();
    let (file, reply) = r.set_mute(true);
    assert!(file == MuteFile::Write);
    assert_eq!(reply, value(r#"{"ok":true,"muted":true}"#));
    let (file, reply) = r.set_mute(false);
    assert!(file == MuteFile::Remove);
    assert_eq!(reply, value(r#"{"ok":true,"muted":false}"#));
    assert_eq!(mute_file_name(), ".mic_muted");
    assert_eq!(mute_file_text(), "1");
}

#[test]
fn a_pipeline_that_never_ran_is_not_killed() {
    let k = Recorder::new().kill_pipeline(Platform::Unix);
    assert!(k.log.is_none());
    assert!(k.command.is_none());
    assert_eq!(k.reply, value(r#"{"ok":false,"reason":"no pipeline running"}"#));
}

#[test]
fn a_pipeline_is_killed_by_its_process() {
    let mut r = Recorder::new();
    assert_eq!(r.pipeline_started(7).event, "python_pipeline_started pid=7");
    let k = r.kill_pipeline(Platform::Unix);
    let log = k.log.unwrap();
    assert_eq!(log.event, "killing_pipeline_by_user pid=7");
    assert_eq!(log.level.name(), "warning");
    let c = k.command.unwrap();
    assert_eq!(c.program, "kill");
    assert_eq!(c.args, vec!["-9", "7"]);
    assert_eq!(k.reply, value(r#"{"ok":true}"#));
}

#[test]
fn commands_differ_by_platform() {
    let c = kill_command(Platform::Windows, 4294967295);
    assert_eq!(c.program, "taskkill");
    assert_eq!(c.args, vec!["/F", "/PID", "4294967295"]);
    let c = kill_capture_command(Platform::Windows);
    assert_eq!(c.program, "taskkill");
    assert_eq!(c.args, vec!["/F", "/IM", "audio-capture.exe"]);
    let c = kill_capture_command(Platform::Unix);
    assert_eq!(c.program, "pkill");
    assert_eq!(c.args, vec!["-f", "audio-capture"]);
}

#[test]
fn a_shutdown_ends_the_processes() {
    let mut r = Recorder::new();
    let cs = r.kill_subprocesses(Platform::Unix);
    assert_eq!(cs.len(), 1);
    assert_eq!(cs[0].program, "pkill");
    assert!(r.shutting_down);
    r.pipeline_started(3);
    let cs = r.kill_subprocesses(Platform::Unix);
    assert_eq!(cs.len(), 2);
    assert_eq!(cs[0].args, vec!["-9", "3"]);
    assert_eq!(cs[1].program, "pkill");
    r.capture_started(1);
    r.set_mute(true);
    r.recording_stopped();
    assert!(r.shutting_down);
}
