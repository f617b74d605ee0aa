use corpo_drone::pipe_reader::{proceed, read_line, Next, PipeEvent};

fn check(event: PipeEvent, level: &str, text: &str, next: Next) {
    let step = proceed(event);
    let log = step.log.unwrap();
    assert_eq!(log.level.name(), level);
    assert_eq!(log.event, text);
    assert!(step.message.is_none());
    assert!(step.next == next);
}

fn e() -> String {
    "why".to_string()
}

#[test]
fn events_lead_to_the_next_step() {
    check(PipeEvent::Created, "info", "waiting_for_pipeline_transcript_pipe", Next::Connect);
    check(PipeEvent::CreateFailed(e()), "warning", "transcript_pipe_create_failed error=why", Next::Reopen(2000));
    check(PipeEvent::ConnectFailed(e()), "warning", "transcript_pipe_connect_error error=why", Next::Reopen(1000));
    check(PipeEvent::OpenFailed(e()), "warning", "transcript_fifo_open_failed error=why", Next::Reopen(1000));
    check(PipeEvent::Connected, "info", "pipeline_connected_transcript_pipe", Next::Read);
    check(PipeEvent::Closed, "info", "transcript_pipe_closed_reconnecting", Next::Reopen(500));
    check(PipeEvent::ReadFailed(e()), "warning", "transcript_pipe_read_error error=why", Next::Reopen(500));
}

#[test]
fn only_a_lost_task_ends_the_reading() {
    check(PipeEvent::TaskFailed(e()), "warning", "transcript_fifo_spawn_blocking_error error=why", Next::Stop);
}

#[test]
fn a_line_of_json_is_a_message() {
    let step = proceed(PipeEvent::Line(" {\"type\":\"segment\",\"n\":[1,2.5]} \r\n".to_string()));
    let m = step.message.unwrap();
    assert_eq!(m["type"].as_str(), Some("segment"));
    assert_eq!(m["n"][0].as_i64(), Some(1));
    assert!(step.log.is_none());
    assert!(step.next == Next::Read);
}

#[test]
fn a_blank_line_is_passed_over() {
    let step = read_line(" \t\n");
    assert!(step.message.is_none());
    assert!(step.log.is_none());
    assert!(step.next == Next::Read);
}

#[test]
fn a_broken_line_is_reported() {
    let step = read_line("nonsense\n");
    assert!(step.message.is_none());
    assert!(step.next == Next::Read);
    let log = step.log.unwrap();
    assert_eq!(log.event, "transcript_pipe_invalid_json error=expected ident at line 1 column 2");
    assert_eq!(log.level.name(), "warning");
}
