use crony::at::At;
use crony::error::Error;
use crony::moment::Moment;
use crony::registry::{exit_code, register, register_new, unregister, RegisterArgs, Registered, UnregisterArgs};
use crony::scheduler::{short_sleep_nanos, soonest, Scheduler, Slot, Tick, LATE_LIMIT, SETTLE_SECONDS};
use crony::service::{
    begin, check_daemon_status, hello, is_daemon_running, poll, reload_tasks, running_tasks,
    scheduled, start_daemon, stop, DaemonStartArgs, DaemonStatus, DrainStep, EngineArgs, Probe,
    RequestContent, ResponseContent, ServiceStep, StartStep, State,
};
use crony::task::{comes_before, same_text, Task, Tasks};
use std::collections::HashMap;

fn moment(year: i32, month: u8, day: u8, hour: u8, minute: u8, second: u8) -> Moment {
    Moment::new(year, month, day, hour, minute, second, 0).unwrap()
}

fn task(id: u64, name: &str, pattern: &str) -> Task {
    Task {
        id,
        name: name.to_string(),
        at: At::parse(pattern).unwrap(),
        shell: None,
        cmd: "true".to_string(),
    }
}

fn task_set(tasks: Vec<Task>) -> Tasks {
    let mut set = Tasks::new();
    for task in tasks {
        set.insert(task);
    }
    set
}

fn later(start: &Moment, seconds: u32) -> Moment {
    let total = start.hour as u32 * 3600 + start.minute as u32 * 60 + start.second as u32 + seconds;
    assert!(total < 86400);
    Moment::new(start.year, start.month, start.day, (total / 3600) as u8, (total / 60 % 60) as u8, (total % 60) as u8, 0).unwrap()
}

#[test]
fn scheduler_dispatch() {
    let start = moment(2024, 1, 1, 0, 0, 0);
    let mut scheduler = Scheduler::new(task_set(vec![task(1, "A", "s=*"), task(2, "B", "s=30")]), start).unwrap();
    let mut runs: Vec<(u64, Moment)> = Vec::new();
    let mut planned: HashMap<u64, Moment> = HashMap::new();
    for second in 0..=90 {
        let now = later(&start, second);
        loop {
            match scheduler.tick(now) {
                Tick::Idle { .. } => break,
                Tick::Dispatch { task, planned_for, late, settle } => {
                    assert_eq!(late, 0);
                    assert!(!settle);
                    assert_eq!(planned_for, now);
                    runs.push((task.id, now));
                    let next = scheduler.complete(task.id, now).unwrap();
                    if let Some(before) = planned.insert(task.id, next) {
                        assert!(next.is_after(&before));
                    }
                    assert!(next.is_after(&planned_for));
                }
            }
        }
    }
    let of_a = runs.iter().filter(|run| run.0 == 1).count();
    let of_b: Vec<Moment> = runs.iter().filter(|run| run.0 == 2).map(|run| run.1).collect();
    assert!(of_a >= 60);
    assert_eq!(of_a, 91);
    assert_eq!(of_b, vec![moment(2024, 1, 1, 0, 0, 30), moment(2024, 1, 1, 0, 1, 30)]);
}

#[test]
fn scheduler_idles_and_announces_once() {
    let start = moment(2024, 1, 1, 0, 0, 0);
    let mut scheduler = Scheduler::new(task_set(vec![task(7, "hourly", "m=30")]), start).unwrap();
    match scheduler.tick(start) {
        Tick::Idle { announce } => assert_eq!(announce, Some(moment(2024, 1, 1, 0, 30, 0))),
        Tick::Dispatch { .. } => panic!("nothing is due"),
    }
    match scheduler.tick(later(&start, 1)) {
        Tick::Idle { announce } => assert_eq!(announce, None),
        Tick::Dispatch { .. } => panic!("nothing is due"),
    }
    let listed = scheduler.scheduled();
    assert_eq!(listed.len(), 1);
    assert_eq!(listed[0].0.id, 7);
    assert_eq!(listed[0].1, moment(2024, 1, 1, 0, 30, 0));
    let mut empty = Scheduler::new(Tasks::new(), start).unwrap();
    match empty.tick(start) {
        Tick::Idle { announce } => assert_eq!(announce, None),
        Tick::Dispatch { .. } => panic!("nothing is due"),
    }
    assert_eq!(empty.scheduled().len(), 0);
}

#[test]
fn scheduler_late_dispatch_settles() {
    let start = moment(2024, 1, 1, 0, 0, 0);
    let mut scheduler = Scheduler::new(task_set(vec![task(7, "hourly", "m=30")]), start).unwrap();
    match scheduler.tick(moment(2024, 1, 1, 0, 31, 1)) {
        Tick::Dispatch { task, planned_for, late, settle } => {
            assert_eq!(task.name, "hourly");
            assert_eq!(planned_for, moment(2024, 1, 1, 0, 30, 0));
            assert_eq!(late, 61);
            assert!(settle);
        }
        Tick::Idle { .. } => panic!("the task is due"),
    }
    assert_eq!(scheduler.scheduled().len(), 0);
    match scheduler.tick(moment(2024, 1, 1, 0, 31, 2)) {
        Tick::Idle { announce } => assert_eq!(announce, None),
        Tick::Dispatch { .. } => panic!("the task runs already"),
    }
    assert_eq!(scheduler.complete(7, moment(2024, 1, 1, 0, 31, 5)), Ok(moment(2024, 1, 1, 1, 30, 0)));
    assert_eq!(scheduler.complete(7, moment(2024, 1, 1, 0, 31, 5)), Err(Error::NoSuchTask));
    assert_eq!(scheduler.scheduled().len(), 1);
    let mut exact = Scheduler::new(task_set(vec![task(7, "hourly", "m=30")]), start).unwrap();
    match exact.tick(moment(2024, 1, 1, 0, 31, 0)) {
        Tick::Dispatch { late, settle, .. } => {
            assert_eq!(late, 60);
            assert!(!settle);
        }
        Tick::Idle { .. } => panic!("the task is due"),
    }
    assert_eq!(LATE_LIMIT, 60);
    assert_eq!(SETTLE_SECONDS, 30);
}

#[test]
fn scheduler_refuses_a_task_without_a_date() {
    let start = moment(2024, 1, 1, 0, 0, 0);
    assert!(matches!(Scheduler::new(task_set(vec![task(1, "never", "M=2 D=30")]), start), Err(Error::NoSuchDate)));
    let mut broken = task(2, "broken", "s=1");
    broken.at.seconds = crony::at::Occurrences::Once(60);
    assert!(matches!(Scheduler::new(task_set(vec![broken]), start), Err(Error::InvalidPattern)));
}

#[test]
fn scheduler_retires_a_task_without_further_date() {
    let start = moment(2093, 1, 1, 0, 0, 0);
    let mut scheduler = Scheduler::new(task_set(vec![task(1, "leap", "M=2 D=29")]), start).unwrap();
    let due = moment(2096, 2, 29, 0, 0, 0);
    assert!(matches!(scheduler.tick(due), Tick::Dispatch { .. }));
    assert_eq!(scheduler.complete(1, due), Err(Error::NoSuchDate));
    assert_eq!(scheduler.scheduled().len(), 0);
    assert_eq!(scheduler.complete(1, due), Err(Error::NoSuchTask));
}

#[test]
fn a_task_waits_or_runs() {
    let start = moment(2024, 1, 1, 0, 0, 0);
    let mut scheduler = Scheduler::new(task_set(vec![task(1, "A", "s=*"), task(2, "B", "s=30")]), start).unwrap();
    assert_eq!(scheduler.slot(1), Some(Slot::Waiting(start)));
    assert_eq!(scheduler.slot(2), Some(Slot::Waiting(moment(2024, 1, 1, 0, 0, 30))));
    assert_eq!(scheduler.slot(3), None);
    assert!(matches!(scheduler.tick(start), Tick::Dispatch { .. }));
    assert_eq!(scheduler.slot(1), Some(Slot::Running(start)));
    assert_eq!(scheduler.slot(2), Some(Slot::Waiting(moment(2024, 1, 1, 0, 0, 30))));
    assert_eq!(scheduler.scheduled().len(), 1);
    assert_eq!(scheduler.complete(1, later(&start, 3)), Ok(moment(2024, 1, 1, 0, 0, 3)));
    assert_eq!(scheduler.slot(1), Some(Slot::Waiting(moment(2024, 1, 1, 0, 0, 3))));
    assert_eq!(scheduler.scheduled().len(), 2);
}

#[test]
fn soonest_entry_and_short_sleep() {
    let mut plan: HashMap<u64, Slot> = HashMap::new();
    assert_eq!(soonest(&plan), None);
    plan.insert(1, Slot::Waiting(moment(2024, 1, 1, 0, 0, 30)));
    plan.insert(2, Slot::Waiting(moment(2024, 1, 1, 0, 0, 10)));
    plan.insert(3, Slot::Waiting(moment(2024, 1, 2, 0, 0, 0)));
    plan.insert(4, Slot::Running(moment(2024, 1, 1, 0, 0, 1)));
    assert_eq!(soonest(&plan), Some((2, moment(2024, 1, 1, 0, 0, 10))));
    plan.insert(2, Slot::Running(moment(2024, 1, 1, 0, 0, 10)));
    assert_eq!(soonest(&plan), Some((1, moment(2024, 1, 1, 0, 0, 30))));
    assert_eq!(short_sleep_nanos(&moment(2024, 1, 1, 0, 0, 0)), 1_000_000_000);
    assert_eq!(short_sleep_nanos(&Moment::new(2024, 1, 1, 0, 0, 0, 999_999_999).unwrap()), 1);
    assert_eq!(short_sleep_nanos(&Moment::new(2024, 1, 1, 0, 0, 0, 250_000_000).unwrap()), 750_000_000);
}

#[test]
fn task_names() {
    assert!(Task::is_valid_name("backup-2024_A"));
    assert!(Task::is_valid_name("a"));
    assert!(!Task::is_valid_name(""));
    assert!(!Task::is_valid_name("with space"));
    assert!(!Task::is_valid_name("dot.name"));
    assert!(!Task::is_valid_name("é"));
    assert!(!Task::is_valid_name("a/b"));
    assert!(comes_before("a", "b"));
    assert!(comes_before("", "a"));
    assert!(comes_before("a", "aa"));
    assert!(comes_before("B", "a"));
    assert!(!comes_before("b", "a"));
    assert!(!comes_before("a", "a"));
    assert!(same_text("abc", "abc"));
    assert!(!same_text("abc", "abd"));
    assert!(!same_text("abc", "ab"));
}

#[test]
fn task_set_is_ordered_by_name() {
    let mut set = task_set(vec![task(3, "c", "s=1"), task(1, "a", "s=1"), task(2, "b", "s=1")]);
    let names: Vec<&str> = set.values().iter().map(|t| t.name.as_str()).collect();
    assert_eq!(names, vec!["a", "b", "c"]);
    assert_eq!(set.len(), 3);
    assert_eq!(set.get("b").map(|t| t.id), Some(2));
    assert_eq!(set.get("d").map(|t| t.id), None);
    assert_eq!(set.find_by_id(3).map(|t| t.name.as_str()), Some("c"));
    assert_eq!(set.find_by_id(9).map(|t| t.name.as_str()), None);
    let replaced = set.insert(task(20, "b", "s=2"));
    assert_eq!(replaced.map(|t| t.id), Some(2));
    assert_eq!(set.len(), 3);
    assert_eq!(set.get("b").map(|t| t.id), Some(20));
    assert_eq!(set.remove("a").map(|t| t.id), Some(1));
    assert_eq!(set.remove("a").map(|t| t.id), None);
    let names: Vec<&str> = set.values().iter().map(|t| t.name.as_str()).collect();
    assert_eq!(names, vec!["b", "c"]);
    let copy = set.values()[0].duplicate();
    assert_eq!(&copy, &set.values()[0]);
    assert!(copy.same_but_id(&task(99, "b", "s=2")));
    assert!(!copy.same_but_id(&task(99, "b", "s=3")));
}

fn args(name: &str, at: &str) -> RegisterArgs {
    RegisterArgs {
        name: name.to_string(),
        run: "true".to_string(),
        at: at.to_string(),
        using: None,
        force_override: false,
        ignore_identical: false,
        silent: false,
    }
}

#[test]
fn registration() {
    let now = moment(2024, 1, 1, 0, 30, 15);
    let mut set = Tasks::new();
    assert_eq!(register(&mut set, &args("bad name", "m=0"), 1, now), Err(Error::InvalidName));
    assert_eq!(register(&mut set, &args("x", "m=60"), 1, now), Err(Error::InvalidPattern));
    assert_eq!(register(&mut set, &args("x", "M=2 D=30"), 1, now), Err(Error::NoSuchDate));
    assert_eq!(set.len(), 0);
    assert_eq!(register(&mut set, &args("x", "m=0"), 1, now), Ok(Registered::Added { next: moment(2024, 1, 1, 1, 0, 0) }));
    assert_eq!(set.get("x").map(|t| t.id), Some(1));
    assert_eq!(register(&mut set, &args("x", "m=0"), 2, now), Err(Error::TaskExists));
    let mut same = args("x", "m=0");
    same.ignore_identical = true;
    assert_eq!(register(&mut set, &same, 3, now), Ok(Registered::Unchanged));
    assert_eq!(set.get("x").map(|t| t.id), Some(1));
    let mut other = args("x", "m=5");
    other.ignore_identical = true;
    assert_eq!(register(&mut set, &other, 4, now), Err(Error::TaskExists));
    other.force_override = true;
    assert_eq!(register(&mut set, &other, 5, now), Ok(Registered::Added { next: moment(2024, 1, 1, 1, 5, 0) }));
    assert_eq!(set.get("x").map(|t| t.id), Some(5));
    assert_eq!(set.len(), 1);
    let mut fresh = Tasks::new();
    assert_eq!(register_new(&mut fresh, &args("z", "m=0"), now), Ok(Registered::Added { next: moment(2024, 1, 1, 1, 0, 0) }));
    assert_eq!(fresh.get("z").map(|t| t.name.as_str()), Some("z"));
    assert_eq!(register_new(&mut fresh, &args("z", "m=0"), now), Err(Error::TaskExists));
    assert_eq!(register_new(&mut fresh, &args("", "m=0"), now), Err(Error::InvalidName));
    assert_eq!(exit_code(&Ok(Registered::Unchanged)), 0);
    assert_eq!(exit_code(&Err(Error::TaskExists)), 2);
    assert_eq!(exit_code(&Err(Error::InvalidName)), 1);
    assert_eq!(exit_code(&Err(Error::InvalidPattern)), 1);
    assert_eq!(unregister(&mut set, &UnregisterArgs { name: "y".to_string() }).map(|t| t.id), Err(Error::NoSuchTask));
    assert_eq!(unregister(&mut set, &UnregisterArgs { name: "x".to_string() }).map(|t| t.id), Ok(5));
    assert_eq!(set.len(), 0);
}

#[test]
fn reload_coherence() {
    let now = moment(2024, 1, 1, 0, 0, 0);
    let mut set = task_set(vec![task(1, "old", "s=*")]);
    let mut state = State::new();
    let scheduler = Scheduler::new(task_set(vec![task(1, "old", "s=*")]), now).unwrap();
    assert!(!state.stop_on(&scheduler));
    assert!(matches!(register(&mut set, &args("X", "m=0"), 42, now), Ok(Registered::Added { .. })));
    begin(&mut state, RequestContent::ReloadTasks);
    assert!(poll(&mut state, RequestContent::ReloadTasks).is_none());
    assert!(state.stop_on(&scheduler));
    assert!(poll(&mut state, RequestContent::ReloadTasks).is_none());
    assert_eq!(state.next_step(), ServiceStep::Load);
    assert!(poll(&mut state, RequestContent::ReloadTasks).is_none());
    state.tasks_loaded();
    let fresh = Scheduler::new(set, now).unwrap();
    assert!(matches!(poll(&mut state, RequestContent::ReloadTasks), Some(ResponseContent::ReloadTasks)));
    assert!(!state.stop_on(&fresh));
    let listed = fresh.scheduled();
    let x: Vec<&(Task, Moment)> = listed.iter().filter(|entry| entry.0.id == 42).collect();
    assert_eq!(x.len(), 1);
    assert_eq!(x[0].0.name, "X");
    assert_eq!(x[0].1, moment(2024, 1, 1, 0, 0, 0));
    assert!(x[0].1.is_valid());
    assert_eq!(listed.len(), 2);
}

#[test]
fn stop_drain() {
    let now = moment(2024, 1, 1, 0, 0, 0);
    let long = task(1, "long", "s=*");
    let mut scheduler = Scheduler::new(task_set(vec![task(1, "long", "s=*")]), now).unwrap();
    let mut state = State::new();
    assert!(matches!(scheduler.tick(now), Tick::Dispatch { .. }));
    state.mark_running(&long, now);
    assert_eq!(running_tasks(&state), 1);
    begin(&mut state, RequestContent::Stop);
    assert!(poll(&mut state, RequestContent::Stop).is_none());
    assert!(state.stop_on(&scheduler));
    assert_eq!(state.next_step(), ServiceStep::Drain);
    assert!(matches!(poll(&mut state, RequestContent::Stop), Some(ResponseContent::Stop)));
    assert_eq!(state.drain_step(0), DrainStep::Wait { notice: Some(1) });
    assert_eq!(state.drain_step(1), DrainStep::Wait { notice: None });
    assert!(state.mark_done(1));
    assert!(!state.mark_done(1));
    assert_eq!(state.drain_step(1), DrainStep::Done);
    assert_eq!(state.next_step(), ServiceStep::Load);
}

#[test]
fn requests_and_answers() {
    let now = moment(2024, 1, 1, 0, 0, 0);
    let mut state = State::new();
    assert!(!state.exit && !state.must_reload_tasks);
    assert_eq!(hello(&state), "Hello");
    begin(&mut state, RequestContent::Hello);
    match poll(&mut state, RequestContent::Hello) {
        Some(ResponseContent::Hello(text)) => assert_eq!(text, "Hello"),
        _ => panic!("hello is answered at once"),
    }
    state.mark_running(&task(5, "five", "s=*"), now);
    match poll(&mut state, RequestContent::RunningTasks) {
        Some(ResponseContent::RunningTasks(n)) => assert_eq!(n, 1),
        _ => panic!("the count is answered at once"),
    }
    let scheduler = Scheduler::new(task_set(vec![task(5, "five", "s=*"), task(6, "six", "m=1")]), now).unwrap();
    assert!(poll(&mut state, RequestContent::Scheduled).is_none());
    begin(&mut state, RequestContent::Scheduled);
    assert!(state.scheduled_request == Some(None));
    assert!(poll(&mut state, RequestContent::Scheduled).is_none());
    assert!(!state.stop_on(&scheduler));
    match poll(&mut state, RequestContent::Scheduled) {
        Some(ResponseContent::Scheduled(answer)) => {
            assert_eq!(answer.upcoming.len(), 2);
            assert_eq!(answer.running.len(), 1);
            assert_eq!(answer.running[0].task.id, 5);
            assert_eq!(answer.running[0].started, now);
        }
        _ => panic!("the list is there"),
    }
    assert!(state.scheduled_request.is_none());
    assert!(poll(&mut state, RequestContent::Scheduled).is_none());
    stop(&mut state);
    assert!(state.exit);
    reload_tasks(&mut state);
    assert!(state.must_reload_tasks);
    scheduled(&mut state);
    assert!(state.scheduled_request == Some(None));
    assert_eq!(state.running().len(), 1);
}

#[test]
fn starting_the_service() {
    let quiet = DaemonStartArgs { engine_args: EngineArgs { direct_output: false }, ignore_started: true };
    let strict = DaemonStartArgs { engine_args: EngineArgs { direct_output: false }, ignore_started: false };
    assert_eq!(check_daemon_status(Probe::Absent), Some(DaemonStatus::NoSocketFile));
    assert_eq!(check_daemon_status(Probe::Connected), Some(DaemonStatus::Running));
    assert_eq!(check_daemon_status(Probe::Refused), Some(DaemonStatus::NotRunning));
    assert_eq!(check_daemon_status(Probe::Failed), None);
    assert_eq!(is_daemon_running(Probe::Absent), Some(false));
    assert_eq!(is_daemon_running(Probe::Connected), Some(true));
    assert_eq!(is_daemon_running(Probe::Refused), Some(false));
    assert_eq!(is_daemon_running(Probe::Failed), None);
    assert_eq!(start_daemon(DaemonStatus::Running, &strict), Err(Error::AlreadyRunning));
    assert_eq!(start_daemon(DaemonStatus::Running, &quiet), Ok(StartStep::Nothing));
    assert_eq!(start_daemon(DaemonStatus::NotRunning, &strict), Ok(StartStep::Launch { reclaim: true }));
    assert_eq!(start_daemon(DaemonStatus::NoSocketFile, &quiet), Ok(StartStep::Launch { reclaim: false }));
}
