//! The supervision of the pipeline's process: it is started, watched, and started
//! again after it ends, until the program shuts down.

use vstd::prelude::*;
use serde_json::Value;
use vstd::string::StringExecFns;
use crate::json::{json, member, Json};
use crate::messages::{log, log_with, status_event, status_json, Level, Log};
use crate::number::{decimal, int_text};
use crate::recorder::{Change, Recorder};

verus! {

broadcast use vstd::string::group_string_axioms;

/// What the supervisor waits for.
#[derive(Clone, Copy, Debug, PartialEq, Eq, Structural)]
pub enum Phase {
    /// The process is to be spawned.
    Spawning,
    /// The process runs, and its end is awaited.
    Running,
    /// The process ended or was never there, and it is to be decided what follows.
    Down,
    /// The delay before the next start.
    Delaying,
    /// There is nothing more to do.
    Stopped,
}

/// The delay before the next start, in milliseconds.
pub const RESTART_DELAY_MS: u64 = 1000;

/// What happened.
pub enum Event {
    /// The process was spawned; its identifier may be unknown.
    Spawned(Option<u32>),
    /// The process could not be spawned, for this reason.
    SpawnFailed(String),
    /// The process ended.
    Exited,
    /// The end was dealt with.
    Settled,
    /// The delay is over.
    Slept,
}

/// Whether the event is one that the phase waits for.
pub open spec fn fits(phase: Phase, event: Event) -> bool {
    match event {
        Event::Spawned(_) => phase == Phase::Spawning,
        Event::SpawnFailed(_) => phase == Phase::Spawning,
        Event::Exited => phase == Phase::Running,
        Event::Settled => phase == Phase::Down,
        Event::Slept => phase == Phase::Delaying,
    }
}

/// The phase that follows an event.
pub open spec fn next_phase(event: Event, shutting_down: bool) -> Phase {
    match event {
        Event::Spawned(_) => Phase::Running,
        Event::SpawnFailed(_) => Phase::Down,
        Event::Exited => Phase::Down,
        Event::Settled => if shutting_down {
            Phase::Stopped
        } else {
            Phase::Delaying
        },
        Event::Slept => if shutting_down {
            Phase::Stopped
        } else {
            Phase::Spawning
        },
    }
}

/// What an event leads to: an entry of the log, an event for the user interface, and
/// the next phase.
pub struct Step {
    pub log: Option<Log>,
    pub event: Option<Value>,
    pub phase: Phase,
}

/// Whether there is an entry of the log, and it is this one.
pub open spec fn logs(entry: Option<Log>, level: Level, event: Seq<char>) -> bool {
    match entry {
        Some(l) => l.says(level, event),
        None => false,
    }
}

/// What the log is told of an event.
pub open spec fn logged(step: Step, script: Seq<char>, event: Event, shutting_down: bool) -> bool {
    match event {
        Event::Spawned(Some(pid)) => logs(
            step.log,
            Level::Info,
            "python_pipeline_started pid="@ + decimal(pid as nat),
        ),
        Event::Spawned(None) => step.log is None,
        Event::SpawnFailed(e) => logs(
            step.log,
            Level::Warning,
            "python_pipeline_spawn_failed error="@ + e@,
        ),
        Event::Exited => logs(step.log, Level::Info, "python_pipeline_exited"@),
        Event::Settled => if shutting_down {
            step.log is None
        } else {
            logs(step.log, Level::Info, "python_pipeline_restarting delay=1s"@)
        },
        Event::Slept => if shutting_down {
            step.log is None
        } else {
            logs(step.log, Level::Info, "spawning_python_pipeline script="@ + script)
        },
    }
}

/// What the user interface is told of an event: that the pipeline crashed, where it
/// ended and the program does not shut down.
pub open spec fn told(step: Step, event: Event, shutting_down: bool) -> bool {
    match step.event {
        Some(v) => event is Exited && !shutting_down && json(v) == status_json(
            "pipeline_crashed"@,
        ),
        None => !(event is Exited && !shutting_down),
    }
}

/// Begins to supervise the pipeline. A script that does not exist is refused.
pub fn begin(script: &str, exists: bool) -> (r: Result<Step, String>)
    ensures
        match r {
            Ok(step) => {
                &&& exists
                &&& logs(step.log, Level::Info, "spawning_python_pipeline script="@ + script@)
                &&& step.event is None
                &&& step.phase == Phase::Spawning
            },
            Err(e) => !exists && e@ == "Python script not found: "@ + script@,
        },
{
    if !exists {
        let mut e: String = "Python script not found: ".to_owned();
        e.append(script);
        return Err(e);
    }
    Ok(
        Step {
            log: Some(log_with(Level::Info, "spawning_python_pipeline script=", script)),
            event: None,
            phase: Phase::Spawning,
        },
    )
}

/// What an event leads to. The recorder learns of the process.
pub fn proceed(recorder: &mut Recorder, phase: Phase, script: &str, event: Event) -> (r: Step)
    requires
        fits(phase, event),
    ensures
        r.phase == next_phase(event, old(recorder).shutting_down),
        logged(r, script@, event, old(recorder).shutting_down),
        told(r, event, old(recorder).shutting_down),
        *final(recorder) == (match event {
            Event::Spawned(Some(pid)) => old(recorder).after(Change::PipelineStarted(pid)),
            _ => *old(recorder),
        }),
{
    match event {
        Event::Spawned(id) => {
            let entry: Option<Log> = match id {
                Some(pid) => Some(recorder.pipeline_started(pid)),
                None => None,
            };
            Step { log: entry, event: None, phase: Phase::Running }
        },
        Event::SpawnFailed(e) => Step {
            log: Some(
                log_with(Level::Warning, "python_pipeline_spawn_failed error=", e.as_str()),
            ),
            event: None,
            phase: Phase::Down,
        },
        Event::Exited => {
            let crash: Option<Value> = if recorder.shutting_down {
                None
            } else {
                Some(status_event("pipeline_crashed"))
            };
            Step {
                log: Some(log(Level::Info, "python_pipeline_exited")),
                event: crash,
                phase: Phase::Down,
            }
        },
        Event::Settled => if recorder.shutting_down {
            Step { log: None, event: None, phase: Phase::Stopped }
        } else {
            Step {
                log: Some(log(Level::Info, "python_pipeline_restarting delay=1s")),
                event: None,
                phase: Phase::Delaying,
            }
        },
        Event::Slept => if recorder.shutting_down {
            Step { log: None, event: None, phase: Phase::Stopped }
        } else {
            Step {
                log: Some(log_with(Level::Info, "spawning_python_pipeline script=", script)),
                event: None,
                phase: Phase::Spawning,
            }
        },
    }
}

/// Whether each of the events is one that the phase before it waits for, while the
/// program shuts down or does not.
pub open spec fn is_run(phase: Phase, events: Seq<Event>, shutting_down: bool) -> bool
    decreases events.len(),
{
    events.len() > 0 ==> {
        &&& fits(phase, events[0])
        &&& is_run(next_phase(events[0], shutting_down), events.drop_first(), shutting_down)
    }
}

/// The phase after several events.
pub open spec fn phase_after(phase: Phase, events: Seq<Event>, shutting_down: bool) -> Phase
    decreases events.len(),
{
    if events.len() == 0 {
        phase
    } else {
        phase_after(next_phase(events[0], shutting_down), events.drop_first(), shutting_down)
    }
}

/// Once the program shuts down, no process is spawned that was not about to be: the
/// supervisor comes to rest after two more events at most.
pub proof fn law_shutdown_ends_supervision(phase: Phase, events: Seq<Event>)
    requires
        phase != Phase::Spawning,
        is_run(phase, events, true),
    ensures
        phase_after(phase, events, true) != Phase::Spawning,
        events.len() <= 2,
    decreases events.len(),
{
    if events.len() > 0 {
        let rest = events.drop_first();
        let next = next_phase(events[0], true);
        if rest.len() > 0 {
            let last = next_phase(rest[0], true);
            assert(is_run(next, rest, true));
            if rest.len() > 1 {
                assert(is_run(last, rest.drop_first(), true));
                assert(fits(last, rest.drop_first()[0]));
            }
        }
        law_shutdown_ends_supervision(next, rest);
    }
}

/// While the program does not shut down, supervision never comes to rest: the process
/// is started again however often it ends.
pub proof fn law_supervision_goes_on(phase: Phase, events: Seq<Event>)
    requires
        phase != Phase::Stopped,
        is_run(phase, events, false),
    ensures
        phase_after(phase, events, false) != Phase::Stopped,
    decreases events.len(),
{
    if events.len() > 0 {
        law_supervision_goes_on(next_phase(events[0], false), events.drop_first());
    }
}

/// Each phase waits for its own events: the spawning for its success or failure, a running
/// process for its end, and so on; nothing is awaited at rest.
pub proof fn law_phases_wait_for_their_events(phase: Phase, event: Event)
    ensures
        phase == Phase::Spawning ==> (fits(phase, event) <==> event is Spawned || event is SpawnFailed),
        phase == Phase::Running ==> (fits(phase, event) <==> event is Exited),
        phase == Phase::Down ==> (fits(phase, event) <==> event is Settled),
        phase == Phase::Delaying ==> (fits(phase, event) <==> event is Slept),
        phase == Phase::Stopped ==> !fits(phase, event),
{
}

/// A process that ended, or that could not be spawned, is spawned again after one delay of a
/// second: it is down, the delay follows, and then the spawning, unless the program shuts
/// down, and then supervision comes to rest.
pub proof fn law_process_is_started_again(
    pid: Option<u32>,
    reason: String,
    ending: bool,
)
    ensures
        next_phase(Event::Spawned(pid), ending) == Phase::Running,
        next_phase(Event::Exited, ending) == Phase::Down,
        next_phase(Event::SpawnFailed(reason), ending) == Phase::Down,
        phase_after(Phase::Running, seq![Event::Exited, Event::Settled, Event::Slept], false)
            == Phase::Spawning,
        phase_after(Phase::Running, seq![Event::Exited, Event::Settled], false) == Phase::Delaying,
        phase_after(Phase::Running, seq![Event::Exited, Event::Settled], true) == Phase::Stopped,
        phase_after(Phase::Delaying, seq![Event::Slept], true) == Phase::Stopped,
        phase_after(Phase::Delaying, seq![Event::Slept], false) == Phase::Spawning,
        RESTART_DELAY_MS == 1000,
{
    let three = seq![Event::Exited, Event::Settled, Event::Slept];
    let two = seq![Event::Exited, Event::Settled];
    let none = Seq::<Event>::empty();
    reveal_with_fuel(phase_after, 4);
    assert(three.drop_first() =~= seq![Event::Settled, Event::Slept]);
    assert(three.drop_first().drop_first() =~= seq![Event::Slept]);
    assert(two.drop_first() =~= seq![Event::Settled]);
    assert(seq![Event::Slept].drop_first() =~= none);
    assert(seq![Event::Settled].drop_first() =~= none);
}

/// The log is told of the process with its number, of a failure with its reason and as a
/// warning, and of an end; of a delay and a new start only while the program does not shut
/// down.
pub proof fn law_log_tells_what_happened(
    step: Step,
    script: Seq<char>,
    event: Event,
    ending: bool,
)
    requires
        logged(step, script, event, ending),
    ensures
        step.log is None <==> event matches Event::Spawned(None) || (ending && (event is Settled
            || event is Slept)),
        step.log matches Some(l) ==> (l.level == Level::Warning <==> event is SpawnFailed),
        event matches Event::Spawned(Some(pid)) ==> step.log->0.event@
            == "python_pipeline_started pid="@ + int_text(pid as int),
        event matches Event::SpawnFailed(e) ==> step.log->0.event@
            == "python_pipeline_spawn_failed error="@ + e@,
        event is Exited ==> step.log->0.event@ == "python_pipeline_exited"@,
        event is Settled && !ending ==> step.log->0.event@ == "python_pipeline_restarting delay=1s"@,
        event is Slept && !ending ==> step.log->0.event@ == "spawning_python_pipeline script="@
            + script,
{
}

/// The user interface is told of a crash, and of nothing else: where the process ended, and
/// the program does not shut down.
pub proof fn law_crashes_are_told(step: Step, event: Event, ending: bool)
    requires
        told(step, event, ending),
    ensures
        step.event is Some <==> event is Exited && !ending,
        step.event matches Some(v) ==> member(json(v), "state"@) == Some(
            Json::Text("pipeline_crashed"@),
        ) && member(json(v), "type"@) == Some(Json::Text("status"@)),
{
    reveal_strlit("type");
    reveal_strlit("state");
    assert("type"@[0] != "state"@[0]);
}

/// The phase after further events is that after the last of them.
pub proof fn law_phases_come_in_order(phase: Phase, event: Event, events: Seq<Event>, ending: bool)
    ensures
        phase_after(phase, Seq::empty(), ending) == phase,
        phase_after(phase, seq![event] + events, ending) == phase_after(
            next_phase(event, ending),
            events,
            ending,
        ),
        is_run(phase, seq![event] + events, ending) <==> fits(phase, event) && is_run(
            next_phase(event, ending),
            events,
            ending,
        ),
{
    let all = seq![event] + events;
    assert(all.drop_first() =~= events);
    assert(all[0] == event);
}

} // verus!
