use corpo_drone::desktop_config::Platform;
use corpo_drone::recorder::Recorder;
use corpo_drone::supervisor::{begin, proceed, Event, Phase, RESTART_DELAY_MS};

#[test]
fn a_missing_script_is_refused() {
    assert_eq!(begin("x/y.py", false).err().unwrap(), "Python script not found: x/y.py");
}

#[test]
fn a_pipeline_that_ends_is_started_again() {
    let mut r = Recorder::new();
    let step = begin("p.py", true).ok().unwrap();
    assert_eq!(step.log.unwrap().event, "spawning_python_pipeline script=p.py");
    assert!(step.phase == Phase::Spawning);
    let step = proceed(&mut r, step.phase, "p.py", Event::Spawned(Some(9)));
    assert_eq!(step.log.unwrap().event, "python_pipeline_started pid=9");
    assert_eq!(r.python_pid, 9);
    assert!(step.phase == Phase::Running);
    let step = proceed(&mut r, step.phase, "p.py", Event::Exited);
    assert_eq!(step.log.unwrap().event, "python_pipeline_exited");
    let event = step.event.unwrap();
    assert_eq!(event["type"].as_str(), Some("status"));
    assert_eq!(event["state"].as_str(), Some("pipeline_crashed"));
    let step = proceed(&mut r, step.phase, "p.py", Event::Settled);
    assert_eq!(step.log.unwrap().event, "python_pipeline_restarting delay=1s");
    assert!(step.phase == Phase::Delaying);
    assert_eq!(RESTART_DELAY_MS, 1000);
    let step = proceed(&mut r, step.phase, "p.py", Event::Slept);
    assert_eq!(step.log.unwrap().event, "spawning_python_pipeline script=p.py");
    assert!(step.phase == Phase::Spawning);
}

#[test]
fn a_failed_spawn_is_tried_again() {
    let mut r = Recorder::new();
    let step = proceed(&mut r, Phase::Spawning, "p", Event::SpawnFailed("no such file".to_string()));
    let log = step.log.unwrap();
    assert_eq!(log.event, "python_pipeline_spawn_failed error=no such file");
    assert_eq!(log.level.name(), "warning");
    assert!(step.event.is_none());
    assert!(step.phase == Phase::Down);
    assert_eq!(r.python_pid, 0);
}

#[test]
fn an_unknown_process_is_watched_all_the_same() {
    let mut r = Recorder::new();
    let step = proceed(&mut r, Phase::Spawning, "p", Event::Spawned(None));
    assert!(step.log.is_none());
    assert!(step.phase == Phase::Running);
    assert_eq!(r.python_pid, 0);
}

#[test]
fn a_shutdown_ends_supervision() {
    let mut r = Recorder::new();
    r.kill_subprocesses(Platform::Unix);
    let step = proceed(&mut r, Phase::Running, "p", Event::Exited);
    assert!(step.event.is_none());
    assert!(step.log.is_some());
    let step = proceed(&mut r, step.phase, "p", Event::Settled);
    assert!(step.log.is_none());
    assert!(step.phase == Phase::Stopped);
    let step = proceed(&mut r, Phase::Delaying, "p", Event::Slept);
    assert!(step.phase == Phase::Stopped);
    assert!(step.log.is_none());
}
