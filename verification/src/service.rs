use vstd::prelude::*;
use std::collections::HashMap;
use vstd::std_specs::iter::IteratorSpec;
use crate::error::Error;
use crate::moment::Moment;
use crate::scheduler::Scheduler;
use crate::task::{first_of_id, same_text, Task};

verus! {

broadcast use vstd::std_specs::hash::group_hash_axioms;

/// A task that is being run, and the moment at which its run began.
pub struct RunningTask {
    pub task: Task,
    pub started: Moment,
}

impl RunningTask {
    /// A copy of the entry.
    pub fn duplicate(&self) -> (r: RunningTask)
        ensures
            r.task@ == self.task@,
            r.started == self.started,
    {
        RunningTask { task: self.task.duplicate(), started: self.started }
    }
}

/// The answer to the question what is planned and what runs.
pub struct Scheduled {
    pub upcoming: Vec<(Task, Moment)>,
    pub running: Vec<RunningTask>,
}

/// What a client can ask of the service.
#[derive(Clone, Copy, Debug, PartialEq, Eq, Structural)]
pub enum RequestContent {
    Hello,
    Stop,
    ReloadTasks,
    RunningTasks,
    Scheduled,
}

/// The name of a kind of request on the wire.
pub open spec fn tag_of(request: RequestContent) -> Seq<char> {
    match request {
        RequestContent::Hello => "Hello"@,
        RequestContent::Stop => "Stop"@,
        RequestContent::ReloadTasks => "ReloadTasks"@,
        RequestContent::RunningTasks => "RunningTasks"@,
        RequestContent::Scheduled => "Scheduled"@,
    }
}

impl RequestContent {
    /// The name of this kind of request on the wire.
    pub fn tag(&self) -> (r: &'static str)
        ensures
            r@ == tag_of(*self),
    {
        match self {
            RequestContent::Hello => "Hello",
            RequestContent::Stop => "Stop",
            RequestContent::ReloadTasks => "ReloadTasks",
            RequestContent::RunningTasks => "RunningTasks",
            RequestContent::Scheduled => "Scheduled",
        }
    }

    /// The kind of request that `tag` names, if it names one.
    pub fn from_tag(tag: &str) -> (r: Option<RequestContent>)
        ensures
            match r {
                Some(request) => tag@ == tag_of(request),
                None => forall|request: RequestContent| tag@ != tag_of(request),
            },
    {
        if same_text(tag, "Hello") {
            Some(RequestContent::Hello)
        } else if same_text(tag, "Stop") {
            Some(RequestContent::Stop)
        } else if same_text(tag, "ReloadTasks") {
            Some(RequestContent::ReloadTasks)
        } else if same_text(tag, "RunningTasks") {
            Some(RequestContent::RunningTasks)
        } else if same_text(tag, "Scheduled") {
            Some(RequestContent::Scheduled)
        } else {
            None
        }
    }
}

/// The answers of the service, one kind for each kind of request.
pub enum ResponseContent {
    Hello(String),
    Stop,
    ReloadTasks,
    RunningTasks(usize),
    Scheduled(Scheduled),
}

impl ResponseContent {
    /// The kind of request that this answers.
    pub open spec fn answers(self) -> RequestContent {
        match self {
            ResponseContent::Hello(_) => RequestContent::Hello,
            ResponseContent::Stop => RequestContent::Stop,
            ResponseContent::ReloadTasks => RequestContent::ReloadTasks,
            ResponseContent::RunningTasks(_) => RequestContent::RunningTasks,
            ResponseContent::Scheduled(_) => RequestContent::Scheduled,
        }
    }
}

/// What the service shares between its scheduler and the handlers of its clients.
pub struct State {
    pub must_reload_tasks: bool,
    pub exit: bool,
    pub running_tasks: HashMap<u64, RunningTask>,
    pub scheduled_request: Option<Option<Vec<(Task, Moment)>>>,
}

/// What the service does next, between two runs of its scheduler.
#[derive(Clone, Copy, Debug, PartialEq, Eq, Structural)]
pub enum ServiceStep {
    /// A stop was asked for: wait until no task runs, remove the socket and end.
    Drain,
    /// Read the task set and run the scheduler on it.
    Load,
}

/// What the service does while it waits for the running tasks to end.
#[derive(Clone, Copy, Debug, PartialEq, Eq, Structural)]
pub enum DrainStep {
    /// No task runs any more.
    Done,
    /// Tasks still run; `notice` holds their number where it has changed.
    Wait { notice: Option<usize> },
}

/// Milliseconds that the service lets pass after it failed to read the task set or to run a
/// task, before it goes on.
pub const FAILURE_PAUSE_MS: u64 = 5000;

/// Milliseconds between two looks at the running tasks during the drain.
pub const DRAIN_POLL_MS: u64 = 100;

/// Milliseconds between two looks of a handler that waits for the service to take up its
/// request.
pub const HANDLER_POLL_MS: u64 = 20;

/// The greeting that answers `Hello`.
pub open spec fn greeting() -> Seq<char> {
    seq!['H', 'e', 'l', 'l', 'o']
}

impl State {
    /// The state of a service that has just started.
    pub fn new() -> (r: State)
        ensures
            !r.must_reload_tasks,
            !r.exit,
            r.running_tasks@ == Map::<u64, RunningTask>::empty(),
            r.scheduled_request is None,
    {
        State {
            must_reload_tasks: false,
            exit: false,
            running_tasks: HashMap::new(),
            scheduled_request: None,
        }
    }

    /// Decides what follows a run of the scheduler: the drain where a stop was asked for,
    /// which takes the request back, and else a new run on the task set read anew.
    pub fn next_step(&mut self) -> (r: ServiceStep)
        ensures
            r == if old(self).exit {
                ServiceStep::Drain
            } else {
                ServiceStep::Load
            },
            !final(self).exit,
            final(self).must_reload_tasks == old(self).must_reload_tasks,
            final(self).running_tasks@ == old(self).running_tasks@,
            final(self).scheduled_request == old(self).scheduled_request,
    {
        if self.exit {
            self.exit = false;
            ServiceStep::Drain
        } else {
            ServiceStep::Load
        }
    }

    /// Records that the task set was read: a pending reload is done with that.
    pub fn tasks_loaded(&mut self)
        ensures
            !final(self).must_reload_tasks,
            final(self).exit == old(self).exit,
            final(self).running_tasks@ == old(self).running_tasks@,
            final(self).scheduled_request == old(self).scheduled_request,
    {
        self.must_reload_tasks = false;
    }

    /// Asked by the scheduler before each look at its queue: answers a pending question for
    /// what is planned from the queue, and tells whether the scheduler has to stop, which it
    /// has where a reload or a stop was asked for.
    #[verifier::spinoff_prover]
    pub fn stop_on(&mut self, scheduler: &Scheduler) -> (r: bool)
        ensures
            r == (old(self).must_reload_tasks || old(self).exit),
            final(self).must_reload_tasks == old(self).must_reload_tasks,
            final(self).exit == old(self).exit,
            final(self).running_tasks@ == old(self).running_tasks@,
            if old(self).scheduled_request == Some(None::<Vec<(Task, Moment)>>) {
                final(self).scheduled_request matches Some(Some(list)) && snapshot_of(
                    scheduler,
                    list@,
                )
            } else {
                final(self).scheduled_request == old(self).scheduled_request
            },
    {
        let asked = match &self.scheduled_request {
            Some(None) => true,
            _ => false,
        };
        if asked {
            self.scheduled_request = Some(Some(scheduler.scheduled()));
        }
        self.must_reload_tasks || self.exit
    }

    /// Records that the run of `task` begins at `started`.
    pub fn mark_running(&mut self, task: &Task, started: Moment)
        ensures
            final(self).running_tasks@.dom() == old(self).running_tasks@.dom().insert(task@.id),
            final(self).running_tasks@[task@.id].task@ == task@,
            final(self).running_tasks@[task@.id].started == started,
            forall|id: u64|
                id != task@.id && old(self).running_tasks@.contains_key(id)
                    ==> #[trigger] final(self).running_tasks@[id] == old(self).running_tasks@[id],
            final(self).must_reload_tasks == old(self).must_reload_tasks,
            final(self).exit == old(self).exit,
            final(self).scheduled_request == old(self).scheduled_request,
    {
        self.running_tasks.insert(task.id, RunningTask { task: task.duplicate(), started });
    }

    /// Records that the run of the task `task_id` has ended. Tells whether it was running.
    pub fn mark_done(&mut self, task_id: u64) -> (r: bool)
        ensures
            r == old(self).running_tasks@.contains_key(task_id),
            final(self).running_tasks@ == old(self).running_tasks@.remove(task_id),
            final(self).must_reload_tasks == old(self).must_reload_tasks,
            final(self).exit == old(self).exit,
            final(self).scheduled_request == old(self).scheduled_request,
    {
        self.running_tasks.remove(&task_id).is_some()
    }

    /// One look at the running tasks during the drain, `last_running` being the number seen
    /// at the look before, 0 at first.
    pub fn drain_step(&self, last_running: usize) -> (r: DrainStep)
        ensures
            r == if self.running_tasks@.len() == 0 {
                DrainStep::Done
            } else if self.running_tasks@.len() != last_running {
                DrainStep::Wait { notice: Some(self.running_tasks@.len() as usize) }
            } else {
                DrainStep::Wait { notice: None }
            },
    {
        let len = self.running_tasks.len();
        if len == 0 {
            DrainStep::Done
        } else if len != last_running {
            DrainStep::Wait { notice: Some(len) }
        } else {
            DrainStep::Wait { notice: None }
        }
    }

    /// The running tasks, in no particular order.
    #[verifier::spinoff_prover]
    pub fn running(&self) -> (r: Vec<RunningTask>)
        ensures
            r@.len() == self.running_tasks@.len(),
            forall|i: int| 0 <= i < r@.len() ==> is_running(self.running_tasks@, #[trigger] r@[i]),
            forall|id: u64|
                self.running_tasks@.contains_key(id) ==> exists|i: int|
                    0 <= i < r@.len() && (#[trigger] r@[i]).task@ == self.running_tasks@[id].task@
                        && r@[i].started == self.running_tasks@[id].started,
    {
        let mut out: Vec<RunningTask> = Vec::new();
        for entry in it: self.running_tasks.iter()
            invariant
                it.seq() == vstd::std_specs::hash::spec_hash_map_iter(
                    &self.running_tasks,
                ).remaining(),
                out@.len() == it.index(),
                forall|i: int|
                    0 <= i < out@.len() ==> is_running(self.running_tasks@, #[trigger] out@[i]),
                forall|i: int|
                    0 <= i < out@.len() ==> (#[trigger] out@[i]).task@ == it.seq()[i].1.task@
                        && out@[i].started == it.seq()[i].1.started,
        {
            let (id, running) = entry;
            assert(self.running_tasks@.contains_key(*it.seq()[it.index() as int].0));
            assert(self.running_tasks@.contains_key(*id) && self.running_tasks@[*id] == *running);
            let copy = running.duplicate();
            assert(is_running(self.running_tasks@, copy));
            out.push(copy);
        }
        proof {
            let all = vstd::std_specs::hash::spec_hash_map_iter(&self.running_tasks).remaining();
            assert forall|id: u64| self.running_tasks@.contains_key(id) implies exists|i: int|
                0 <= i < out@.len() && (#[trigger] out@[i]).task@ == self.running_tasks@[id].task@
                    && out@[i].started == self.running_tasks@[id].started by {
                assert(all.contains((&id, &self.running_tasks@[id])));
                let i = choose|i: int|
                    0 <= i < all.len() && all[i] == (&id, &self.running_tasks@[id]);
                assert(out@[i].task@ == self.running_tasks@[id].task@);
            }
        }
        out
    }
}

/// Whether `entry` is what the map of the running tasks holds for one of them.
pub open spec fn is_running(running_tasks: Map<u64, RunningTask>, entry: RunningTask) -> bool {
    exists|id: u64|
        running_tasks.contains_key(id) && entry.task@ == (#[trigger] running_tasks[id]).task@
            && entry.started == running_tasks[id].started
}

/// Whether `list` holds the queue of `scheduler`: each waiting task once, with the moment
/// of its next run.
pub open spec fn snapshot_of(scheduler: &Scheduler, list: Seq<(Task, Moment)>) -> bool {
    &&& forall|i: int|
        0 <= i < list.len() ==> scheduler.queue().contains_key((#[trigger] list[i]).0@.id)
            && scheduler.queue()[list[i].0@.id] == list[i].1 && first_of_id(
            scheduler.tasks(),
            list[i].0@.id,
            list[i].0@,
        )
    &&& forall|id: u64|
        scheduler.queue().contains_key(id) ==> exists|i: int|
            0 <= i < list.len() && (#[trigger] list[i]).0@.id == id
    &&& forall|i: int, j: int|
        0 <= i < j < list.len() ==> (#[trigger] list[i]).0@.id != (#[trigger] list[j]).0@.id
}

/// The answer to `Hello`.
pub fn hello(state: &State) -> (r: String)
    ensures
        r@ == greeting(),
{
    proof {
        reveal_strlit("Hello");
    }
    let r = String::from_str("Hello");
    assert(r@ =~= greeting());
    r
}

/// Asks the service to stop. The request is answered when [`poll`] finds it taken back, which
/// the service does when its drain begins.
pub fn stop(state: &mut State)
    ensures
        final(state).exit,
        final(state).must_reload_tasks == old(state).must_reload_tasks,
        final(state).running_tasks@ == old(state).running_tasks@,
        final(state).scheduled_request == old(state).scheduled_request,
{
    state.exit = true;
}

/// Asks the service to read the task set anew. The request is answered when [`poll`] finds it
/// taken back, which the service does when it has read the task set.
pub fn reload_tasks(state: &mut State)
    ensures
        final(state).must_reload_tasks,
        final(state).exit == old(state).exit,
        final(state).running_tasks@ == old(state).running_tasks@,
        final(state).scheduled_request == old(state).scheduled_request,
{
    state.must_reload_tasks = true;
}

/// Number of tasks that run.
pub fn running_tasks(state: &State) -> (r: usize)
    ensures
        r == state.running_tasks@.len(),
{
    state.running_tasks.len()
}

/// Asks the scheduler for what is planned. The request is answered when [`poll`] finds the
/// list that the scheduler has put there.
pub fn scheduled(state: &mut State)
    ensures
        final(state).scheduled_request == Some(None::<Vec<(Task, Moment)>>),
        final(state).must_reload_tasks == old(state).must_reload_tasks,
        final(state).exit == old(state).exit,
        final(state).running_tasks@ == old(state).running_tasks@,
{
    state.scheduled_request = Some(None);
}

/// Takes a request up: sets what the service has to see of it.
pub fn begin(state: &mut State, request: RequestContent)
    ensures
        final(state).running_tasks@ == old(state).running_tasks@,
        final(state).exit == (old(state).exit || request == RequestContent::Stop),
        final(state).must_reload_tasks == (old(state).must_reload_tasks || request
            == RequestContent::ReloadTasks),
        final(state).scheduled_request == if request == RequestContent::Scheduled {
            Some(None::<Vec<(Task, Moment)>>)
        } else {
            old(state).scheduled_request
        },
{
    match request {
        RequestContent::Hello => {},
        RequestContent::Stop => stop(state),
        RequestContent::ReloadTasks => reload_tasks(state),
        RequestContent::RunningTasks => {},
        RequestContent::Scheduled => scheduled(state),
    }
}

/// Whether a request that was taken up can be answered in this state.
pub open spec fn answerable(state: &State, request: RequestContent) -> bool {
    match request {
        RequestContent::Hello => true,
        RequestContent::Stop => !state.exit,
        RequestContent::ReloadTasks => !state.must_reload_tasks,
        RequestContent::RunningTasks => true,
        RequestContent::Scheduled => state.scheduled_request matches Some(Some(_)),
    }
}

/// Looks whether a request that was taken up can be answered, and answers it if so: at once
/// for `Hello` and `RunningTasks`; for `Stop` and `ReloadTasks` when the service has taken the
/// request back; for `Scheduled` when the scheduler has put its list there, which is taken
/// away with the answer.
#[verifier::spinoff_prover]
pub fn poll(state: &mut State, request: RequestContent) -> (r: Option<ResponseContent>)
    ensures
        r is Some <==> answerable(old(state), request),
        r matches Some(response) ==> response.answers() == request,
        r matches Some(ResponseContent::Hello(text)) ==> text@ == greeting(),
        r matches Some(ResponseContent::RunningTasks(n)) ==> n == old(state).running_tasks@.len(),
        r matches Some(ResponseContent::Scheduled(answer)) ==> old(state).scheduled_request
            matches Some(Some(list)) && answer.upcoming == list && answer.running@.len() == old(
            state,
        ).running_tasks@.len() && forall|i: int|
            0 <= i < answer.running@.len() ==> is_running(
                old(state).running_tasks@,
                #[trigger] answer.running@[i],
            ),
        final(state).exit == old(state).exit,
        final(state).must_reload_tasks == old(state).must_reload_tasks,
        final(state).running_tasks@ == old(state).running_tasks@,
        final(state).scheduled_request == if request == RequestContent::Scheduled && r is Some {
            None
        } else {
            old(state).scheduled_request
        },
{
    match request {
        RequestContent::Hello => Some(ResponseContent::Hello(hello(state))),
        RequestContent::Stop => if state.exit {
            None
        } else {
            Some(ResponseContent::Stop)
        },
        RequestContent::ReloadTasks => if state.must_reload_tasks {
            None
        } else {
            Some(ResponseContent::ReloadTasks)
        },
        RequestContent::RunningTasks => Some(ResponseContent::RunningTasks(running_tasks(state))),
        RequestContent::Scheduled => {
            let ready = match &state.scheduled_request {
                Some(Some(_)) => true,
                _ => false,
            };
            if !ready {
                return None;
            }
            let mut request: Option<Option<Vec<(Task, Moment)>>> = None;
            core::mem::swap(&mut request, &mut state.scheduled_request);
            match request {
                Some(Some(upcoming)) => {
                    let running = state.running();
                    Some(ResponseContent::Scheduled(Scheduled { upcoming, running }))
                },
                _ => None,
            }
        },
    }
}

/// What a client that looks for the service finds at the place of its socket.
#[derive(Clone, Copy, Debug, PartialEq, Eq, Structural)]
pub enum Probe {
    /// No socket file is there.
    Absent,
    /// The file is there and a service answers.
    Connected,
    /// The file is there and the connection is refused: no service listens.
    Refused,
    /// The connection fails otherwise.
    Failed,
}

/// The state of the service, as a client finds it.
#[derive(Clone, Copy, Debug, PartialEq, Eq, Structural)]
pub enum DaemonStatus {
    NoSocketFile,
    NotRunning,
    Running,
}

/// Reads the state of the service off what the client found.
pub fn check_daemon_status(probe: Probe) -> (r: Option<DaemonStatus>)
    ensures
        r == match probe {
            Probe::Absent => Some(DaemonStatus::NoSocketFile),
            Probe::Connected => Some(DaemonStatus::Running),
            Probe::Refused => Some(DaemonStatus::NotRunning),
            Probe::Failed => None::<DaemonStatus>,
        },
{
    match probe {
        Probe::Absent => Some(DaemonStatus::NoSocketFile),
        Probe::Connected => Some(DaemonStatus::Running),
        Probe::Refused => Some(DaemonStatus::NotRunning),
        Probe::Failed => None,
    }
}

/// Tells whether the service runs, where that can be told.
pub fn is_daemon_running(probe: Probe) -> (r: Option<bool>)
    ensures
        r == match probe {
            Probe::Absent => Some(false),
            Probe::Connected => Some(true),
            Probe::Refused => Some(false),
            Probe::Failed => None::<bool>,
        },
{
    match check_daemon_status(probe) {
        Some(DaemonStatus::Running) => Some(true),
        Some(_) => Some(false),
        None => None,
    }
}

/// The options of the scheduling engine.
#[derive(Clone, Copy, Debug, PartialEq, Eq, Structural)]
pub struct EngineArgs {
    /// Show the output of the tasks directly, not in their log files.
    pub direct_output: bool,
}

/// The options of the start of the service.
#[derive(Clone, Copy, Debug, PartialEq, Eq, Structural)]
pub struct DaemonStartArgs {
    pub engine_args: EngineArgs,
    /// Do nothing where the service runs already.
    pub ignore_started: bool,
}

/// What a start of the service has to do.
#[derive(Clone, Copy, Debug, PartialEq, Eq, Structural)]
pub enum StartStep {
    /// The service runs and the caller asked for nothing more.
    Nothing,
    /// Bind the socket and launch the service; where `reclaim` is set, the socket file of a
    /// service that is gone is in the way and has to be removed first.
    Launch { reclaim: bool },
}

/// Decides what a start of the service has to do, given the state of the service found.
pub fn start_daemon(status: DaemonStatus, args: &DaemonStartArgs) -> (r: Result<StartStep, Error>)
    ensures
        r == match status {
            DaemonStatus::Running => if args.ignore_started {
                Ok::<StartStep, Error>(StartStep::Nothing)
            } else {
                Err::<StartStep, Error>(Error::AlreadyRunning)
            },
            DaemonStatus::NotRunning => Ok::<StartStep, Error>(StartStep::Launch { reclaim: true }),
            DaemonStatus::NoSocketFile => Ok::<StartStep, Error>(
                StartStep::Launch { reclaim: false },
            ),
        },
{
    match status {
        DaemonStatus::Running => {
            if args.ignore_started {
                Ok(StartStep::Nothing)
            } else {
                Err(Error::AlreadyRunning)
            }
        },
        DaemonStatus::NotRunning => Ok(StartStep::Launch { reclaim: true }),
        DaemonStatus::NoSocketFile => Ok(StartStep::Launch { reclaim: false }),
    }
}

} // verus!
