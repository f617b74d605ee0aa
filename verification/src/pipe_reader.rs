//! The reading end of the transcript pipe: what follows each thing that can happen
//! to it.

use vstd::prelude::*;
use serde_json::Value;
use crate::json::{json, json_parsed, parse, Parsed};
use crate::messages::{log, log_with, Level, Log};
use crate::text::{chars, string, trim, trimmed, Class};

verus! {

broadcast use vstd::string::group_string_axioms;

/// What is done next.
#[derive(Clone, Copy, Debug, PartialEq, Eq, Structural)]
pub enum Next {
    /// The writer is awaited.
    Connect,
    /// The next line is read.
    Read,
    /// The pipe is made anew, after so many milliseconds.
    Reopen(u64),
    /// Nothing more is read.
    Stop,
}

/// What can happen to the pipe.
pub enum PipeEvent {
    /// The pipe was made, and waits for its writer.
    Created,
    /// The pipe could not be made, for this reason.
    CreateFailed(String),
    /// The wait for a writer failed, for this reason.
    ConnectFailed(String),
    /// The pipe could not be opened, for this reason.
    OpenFailed(String),
    /// The task that opens the pipe was lost, for this reason.
    TaskFailed(String),
    /// A writer is there.
    Connected,
    /// The writer closed the pipe.
    Closed,
    /// The writer wrote a line.
    Line(String),
    /// Reading failed, for this reason.
    ReadFailed(String),
}

/// What follows: an entry of the log, a message of the pipeline, and what is done next.
pub struct PipeStep {
    pub log: Option<Log>,
    pub message: Option<Value>,
    pub next: Next,
}

impl PipeStep {
    /// Whether the step has this entry of the log, and no message.
    pub open spec fn reports(self, level: Level, event: Seq<char>, next: Next) -> bool {
        &&& self.log matches Some(l) && l.says(level, event)
        &&& self.message is None
        &&& self.next == next
    }
}

fn report(entry: Log, next: Next) -> (r: PipeStep)
    ensures
        r.reports(entry.level, entry.event@, next),
{
    PipeStep { log: Some(entry), message: None, next }
}

/// What follows a line: a blank one is passed over, JSON is a message, and anything else
/// is reported with what is wrong with it.
pub open spec fn follows_line(step: PipeStep, line: Seq<char>) -> bool {
    let t = trim(line, Class::Space);
    if t.len() == 0 {
        step.log is None && step.message is None && step.next == Next::Read
    } else {
        match json_parsed(t) {
            Parsed::Holds(v) => {
                &&& step.log is None
                &&& step.message matches Some(m) && json(m) == v
                &&& step.next == Next::Read
            },
            Parsed::Refused(e) => step.reports(
                Level::Warning,
                "transcript_pipe_invalid_json error="@ + e,
                Next::Read,
            ),
        }
    }
}

/// What follows an event.
pub open spec fn follows(step: PipeStep, event: PipeEvent) -> bool {
    match event {
        PipeEvent::Created => step.reports(
            Level::Info,
            "waiting_for_pipeline_transcript_pipe"@,
            Next::Connect,
        ),
        PipeEvent::CreateFailed(e) => step.reports(
            Level::Warning,
            "transcript_pipe_create_failed error="@ + e@,
            Next::Reopen(2000),
        ),
        PipeEvent::ConnectFailed(e) => step.reports(
            Level::Warning,
            "transcript_pipe_connect_error error="@ + e@,
            Next::Reopen(1000),
        ),
        PipeEvent::OpenFailed(e) => step.reports(
            Level::Warning,
            "transcript_fifo_open_failed error="@ + e@,
            Next::Reopen(1000),
        ),
        PipeEvent::TaskFailed(e) => step.reports(
            Level::Warning,
            "transcript_fifo_spawn_blocking_error error="@ + e@,
            Next::Stop,
        ),
        PipeEvent::Connected => step.reports(
            Level::Info,
            "pipeline_connected_transcript_pipe"@,
            Next::Read,
        ),
        PipeEvent::Closed => step.reports(
            Level::Info,
            "transcript_pipe_closed_reconnecting"@,
            Next::Reopen(500),
        ),
        PipeEvent::Line(line) => follows_line(step, line@),
        PipeEvent::ReadFailed(e) => step.reports(
            Level::Warning,
            "transcript_pipe_read_error error="@ + e@,
            Next::Reopen(500),
        ),
    }
}

/// What follows a line of the pipeline.
pub fn read_line(line: &str) -> (r: PipeStep)
    ensures
        follows_line(r, line@),
{
    let cs: Vec<char> = chars(line);
    let t: &[char] = trimmed(cs.as_slice(), Class::Space);
    if t.len() == 0 {
        return PipeStep { log: None, message: None, next: Next::Read };
    }
    match parse(string(t).as_str()) {
        Ok(v) => PipeStep { log: None, message: Some(v), next: Next::Read },
        Err(e) => report(
            log_with(Level::Warning, "transcript_pipe_invalid_json error=", e.as_str()),
            Next::Read,
        ),
    }
}

/// What follows an event of the pipe.
pub fn proceed(event: PipeEvent) -> (r: PipeStep)
    ensures
        follows(r, event),
{
    match event {
        PipeEvent::Created => report(
            log(Level::Info, "waiting_for_pipeline_transcript_pipe"),
            Next::Connect,
        ),
        PipeEvent::CreateFailed(e) => report(
            log_with(Level::Warning, "transcript_pipe_create_failed error=", e.as_str()),
            Next::Reopen(2000),
        ),
        PipeEvent::ConnectFailed(e) => report(
            log_with(Level::Warning, "transcript_pipe_connect_error error=", e.as_str()),
            Next::Reopen(1000),
        ),
        PipeEvent::OpenFailed(e) => report(
            log_with(Level::Warning, "transcript_fifo_open_failed error=", e.as_str()),
            Next::Reopen(1000),
        ),
        PipeEvent::TaskFailed(e) => report(
            log_with(Level::Warning, "transcript_fifo_spawn_blocking_error error=", e.as_str()),
            Next::Stop,
        ),
        PipeEvent::Connected => report(
            log(Level::Info, "pipeline_connected_transcript_pipe"),
            Next::Read,
        ),
        PipeEvent::Closed => report(
            log(Level::Info, "transcript_pipe_closed_reconnecting"),
            Next::Reopen(500),
        ),
        PipeEvent::Line(line) => read_line(line.as_str()),
        PipeEvent::ReadFailed(e) => report(
            log_with(Level::Warning, "transcript_pipe_read_error error=", e.as_str()),
            Next::Reopen(500),
        ),
    }
}

/// Reading goes on after everything but the loss of the task that opens the pipe.
pub proof fn law_reading_goes_on(step: PipeStep, event: PipeEvent)
    requires
        follows(step, event),
    ensures
        step.next == Next::Stop <==> event is TaskFailed,
{
}

/// A line never ends the reading of the pipe, and a message comes of it exactly where it
/// holds JSON.
pub proof fn law_lines_keep_the_pipe_open(step: PipeStep, line: Seq<char>)
    requires
        follows_line(step, line),
    ensures
        step.next == Next::Read,
        step.message is Some <==> trim(line, Class::Space).len() > 0 && json_parsed(
            trim(line, Class::Space),
        ) is Holds,
{
}

/// What is done next: the writer is awaited once the pipe is there, lines are read while a
/// writer is, and after a failure the pipe is made anew, after two seconds where it could not
/// be made, one where it could not be opened, and half a second where it ended.
pub proof fn law_pipe_is_made_anew(step: PipeStep, event: PipeEvent)
    requires
        follows(step, event),
    ensures
        event is Created <==> step.next == Next::Connect,
        event is Connected || event is Line <==> step.next == Next::Read,
        event is CreateFailed <==> step.next == Next::Reopen(2000),
        event is ConnectFailed || event is OpenFailed <==> step.next == Next::Reopen(1000),
        event is Closed || event is ReadFailed <==> step.next == Next::Reopen(500),
        event is TaskFailed <==> step.next == Next::Stop,
{
}

/// Every event but a line of the pipeline is told to the log, a failure as a warning with its
/// reason, and gives no message.
pub proof fn law_pipe_events_are_logged(step: PipeStep, event: PipeEvent)
    requires
        follows(step, event),
        !(event is Line),
    ensures
        step.message is None,
        step.log is Some,
        step.log->0.level == Level::Info <==> event is Created || event is Connected || event is Closed,
        event is Created ==> step.log->0.event@ == "waiting_for_pipeline_transcript_pipe"@,
        event is Connected ==> step.log->0.event@ == "pipeline_connected_transcript_pipe"@,
        event is Closed ==> step.log->0.event@ == "transcript_pipe_closed_reconnecting"@,
        event matches PipeEvent::CreateFailed(e) ==> step.log->0.event@
            == "transcript_pipe_create_failed error="@ + e@,
        event matches PipeEvent::ConnectFailed(e) ==> step.log->0.event@
            == "transcript_pipe_connect_error error="@ + e@,
        event matches PipeEvent::OpenFailed(e) ==> step.log->0.event@
            == "transcript_fifo_open_failed error="@ + e@,
        event matches PipeEvent::TaskFailed(e) ==> step.log->0.event@
            == "transcript_fifo_spawn_blocking_error error="@ + e@,
        event matches PipeEvent::ReadFailed(e) ==> step.log->0.event@
            == "transcript_pipe_read_error error="@ + e@,
{
}

/// A line gives the message that it holds; a blank one gives nothing, and one that holds no
/// JSON is told to the log as a warning, with what is wrong with it.
pub proof fn law_line_gives_its_message(step: PipeStep, line: Seq<char>)
    requires
        follows_line(step, line),
    ensures
        step.message matches Some(m) ==> json_parsed(trim(line, Class::Space)) == Parsed::Holds(
            json(m),
        ) && step.log is None,
        trim(line, Class::Space).len() == 0 ==> step.message is None && step.log is None,
        trim(line, Class::Space).len() > 0 ==> (json_parsed(
            trim(line, Class::Space),
        ) matches Parsed::Refused(e) ==> step.message is None && step.log is Some
            && step.log->0.level == Level::Warning && step.log->0.event@
            == "transcript_pipe_invalid_json error="@ + e),
{
}

} // verus!
