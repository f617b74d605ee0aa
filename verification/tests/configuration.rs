use corpo_drone::config::{entries, lookup, lookup_flag, lookup_int, lookup_or, Dialect, Kind};
use corpo_drone::desktop_config::{
    capture_bin_name, default_pipe, load_config, read_mic_device_from_config, working_dir, Platform,
};
use corpo_drone::server_config;

#[test]
fn the_defaults_of_the_desktop_program_on_unix() {
    let c = load_config(None, Platform::Unix, "/opt/audio-capture");
    assert_eq!(c.transcript_pipe, "/tmp/corpodrone-transcript");
    assert_eq!(c.audio_pipe, "/tmp/corpodrone-audio");
    assert_eq!(c.capture_bin, "/opt/audio-capture");
    assert_eq!(c.python_exe, ".venv/bin/python");
    assert_eq!(c.python_script, "pipeline/pipeline.py");
    assert_eq!(c.speakers_file, "speakers.json");
    assert_eq!(c.ollama_host, "http://localhost:11434");
    assert_eq!(c.ollama_model, "mistral");
    assert!(c.summarize);
    assert_eq!(default_pipe(Platform::Unix), "/tmp/corpodrone-audio");
    assert_eq!(capture_bin_name(Platform::Unix), "audio-capture");
}

#[test]
fn the_defaults_of_the_desktop_program_on_windows() {
    let c = load_config(None, Platform::Windows, "audio-capture.exe");
    assert_eq!(c.transcript_pipe, "\\\\.\\pipe\\corpodrone-transcript");
    assert_eq!(c.audio_pipe, "\\\\.\\pipe\\corpodrone-audio");
    assert_eq!(c.python_exe, ".venv/Scripts/python.exe");
    assert_eq!(c.python_script, "pipeline\\pipeline.py");
    assert_eq!(default_pipe(Platform::Windows), "\\\\.\\pipe\\corpodrone-audio");
    assert_eq!(capture_bin_name(Platform::Windows), "audio-capture.exe");
}

#[test]
fn the_configuration_overrides_the_defaults() {
    let text = "\
python_exe = 'ignored'
[server]
python_exe = 'py'
python_script = \"s.py\"
  capture_bin =  cap  
audio_pipe = nowhere
[python]
transcript_pipe = /t
audio_pipe = /a
speakers_file = 'x.json'
ollama_host = \"http://h:1\"
ollama_model = first
ollama_model = 'second'
summarize = yes
[other]
ollama_model = third
";
    let c = load_config(Some(text), Platform::Unix, "b");
    assert_eq!(c.python_exe, "py");
    assert_eq!(c.python_script, "s.py");
    assert_eq!(c.capture_bin, "cap");
    assert_eq!(c.transcript_pipe, "/t");
    assert_eq!(c.audio_pipe, "/a");
    assert_eq!(c.speakers_file, "x.json");
    assert_eq!(c.ollama_host, "http://h:1");
    assert_eq!(c.ollama_model, "second");
    assert!(!c.summarize);
}

#[test]
fn the_microphone_is_read_at_each_recording() {
    assert_eq!(read_mic_device_from_config(None), "");
    assert_eq!(read_mic_device_from_config(Some("audio_input_device = x")), "");
    let text = "[python]\r\n#audio_input_device = no\r\naudio_input_device = \"USB\" # mine\r\n";
    assert_eq!(read_mic_device_from_config(Some(text)), "USB");
}

#[test]
fn the_program_works_where_its_configuration_is() {
    assert_eq!(working_dir("d", true, Some("u")), "d");
    assert_eq!(working_dir("d", false, Some("u")), "u");
    assert_eq!(working_dir("d", false, None), "d");
}

#[test]
fn entries_are_looked_up() {
    let es = entries("[a]\nk = 1\nk = x\n[b]\nk = 7\nf = true # c\n", Dialect::Commented);
    assert_eq!(lookup(&es, "[a]", "k", Kind::Any).as_deref(), Some("x"));
    assert_eq!(lookup(&es, "[a]", "k", Kind::Integer).as_deref(), Some("1"));
    assert_eq!(lookup(&es, "[c]", "k", Kind::Any), None);
    assert_eq!(lookup_or(&es, "[a]", "z", Kind::Any, "d"), "d");
    assert_eq!(lookup_int(&es, "[b]", "k", 3), 7);
    assert_eq!(lookup_int(&es, "[b]", "f", 3), 3);
    assert!(lookup_flag(&es, "[b]", "f", false));
    assert!(!lookup_flag(&es, "[b]", "g", false));
    let plain = entries("[b]\nf = true # c\n", Dialect::Plain);
    assert!(!lookup_flag(&plain, "[b]", "f", true));
}

#[test]
fn the_server_section_fills_in_defaults() {
    let mut args = server_config::default_args();
    let text = "[server]\npython_exe = 'py'\npython_script = s.py\ncapture_bin = c\nbind = \"0.0.0.0:1\"\n[python]\nbind = x\n";
    server_config::load_config(&mut args, Some(text));
    assert_eq!(args.python_exe, "py");
    assert_eq!(args.python_script, "s.py");
    assert_eq!(args.capture_bin, "c");
    assert_eq!(args.bind, "0.0.0.0:1");
    assert_eq!(args.audio_pipe, "\\\\.\\pipe\\corpodrone-audio");
}

#[test]
fn options_of_the_command_line_win() {
    let mut args = server_config::default_args();
    args.bind = "127.0.0.1:9".to_string();
    server_config::load_config(&mut args, Some("[server]\nbind = 1.1.1.1:1\npython_exe = py\n"));
    assert_eq!(args.bind, "127.0.0.1:9");
    assert_eq!(args.python_exe, "py");
    let mut args = server_config::default_args();
    server_config::load_config(&mut args, None);
    assert_eq!(args.bind, "127.0.0.1:8080");
    assert_eq!(args.control_pipe, "\\\\.\\pipe\\corpodrone-control");
}
