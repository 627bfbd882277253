use vstd::prelude::*;
use crate::at::At;
use crate::at::at_of;
use crate::error::Error;
use crate::ipc::random_id;
use crate::moment::Moment;
use crate::task::{has_name, names_ascend, valid_name, Task, TaskView, Tasks};
use crate::upcoming::{get_upcoming_moment, upcoming};

verus! {

/// What a registration is asked with.
pub struct RegisterArgs {
    /// Name of the task.
    pub name: String,
    /// The command to run.
    pub run: String,
    /// The pattern of the recurrence.
    pub at: String,
    /// The shell to use.
    pub using: Option<String>,
    /// Replace a task that has the name already.
    pub force_override: bool,
    /// Do nothing where a task with the same name and the same content is there.
    pub ignore_identical: bool,
    /// Say nothing but errors.
    pub silent: bool,
}

/// What the removal of a task is asked with.
pub struct UnregisterArgs {
    /// Name of the task to remove.
    pub name: String,
}

/// How a registration ended.
#[derive(Clone, Copy, Debug, PartialEq, Eq, Structural)]
pub enum Registered {
    /// The same task was there already: nothing was changed.
    Unchanged,
    /// The task is in the set now; `next` is the moment of its first run.
    Added { next: Moment },
}

/// The task that a registration asks for, under the id `id`, where its pattern is one.
pub open spec fn asked_task(args: &RegisterArgs, id: u64) -> Option<TaskView> {
    match at_of(args.at@) {
        None => None,
        Some(at) => Some(
            TaskView {
                id,
                name: args.name@,
                at,
                shell: match args.using {
                    Some(shell) => Some(shell@),
                    None => None,
                },
                cmd: args.run@,
            },
        ),
    }
}

/// Whether the set holds a task of the name of `task` that differs from it in more than the
/// id.
pub open spec fn other_task_named(tasks: Seq<TaskView>, task: TaskView) -> bool {
    exists|i: int|
        0 <= i < tasks.len() && (#[trigger] tasks[i]).name == task.name && tasks[i] != (TaskView {
            id: tasks[i].id,
            ..task
        })
}

/// What a registration under the id `id` at the moment `now` has to give, `before` and `after`
/// being the task set before and after it. In this order: the name has to be a task name, the
/// pattern a pattern, and the recurrence has to have an upcoming moment; where a task of that
/// name is there, nothing is done if it is the same and `ignore_identical` is set, and the
/// registration fails unless `force_override` is set. Else the task is put into the set, in
/// the place of the task of its name if there is one.
pub open spec fn registration(
    before: Seq<TaskView>,
    after: Seq<TaskView>,
    args: &RegisterArgs,
    id: u64,
    now: Moment,
    r: Result<Registered, Error>,
) -> bool {
    &&& !(r matches Ok(Registered::Added { .. })) ==> after == before
    &&& r matches Ok(Registered::Added { .. }) ==> names_ascend(after)
    &&& if !valid_name(args.name@) {
        r == Err::<Registered, Error>(Error::InvalidName)
    } else {
        match asked_task(args, id) {
            None => r == Err::<Registered, Error>(Error::InvalidPattern),
            Some(task) => if upcoming(task.at, now, Err(Error::NoSuchDate)) {
                r == Err::<Registered, Error>(Error::NoSuchDate)
            } else if has_name(before, task.name) && args.ignore_identical && !other_task_named(
                before,
                task,
            ) {
                r == Ok::<Registered, Error>(Registered::Unchanged)
            } else if has_name(before, task.name) && !args.force_override {
                r == Err::<Registered, Error>(Error::TaskExists)
            } else {
                &&& r matches Ok(Registered::Added { next })
                &&& upcoming(task.at, now, Ok(next))
                &&& forall|t: TaskView|
                    #![trigger after.contains(t)]
                    after.contains(t) <==> (t == task || (before.contains(t) && t.name
                        != task.name))
            },
        }
    }
}

/// Registers a task under the id `id`, `now` being the present moment: see [`registration`].
#[verifier::spinoff_prover]
pub fn register(tasks: &mut Tasks, args: &RegisterArgs, id: u64, now: Moment) -> (r: Result<
    Registered,
    Error,
>)
    requires
        now.valid(),
    ensures
        registration(old(tasks)@, final(tasks)@, args, id, now, r),
{
    if !Task::is_valid_name(args.name.as_str()) {
        return Err(Error::InvalidName);
    }
    let parsed_at = match At::parse(args.at.as_str()) {
        Ok(at) => at,
        Err(e) => {
            return Err(e);
        },
    };
    let task = Task {
        id,
        name: args.name.clone(),
        at: parsed_at,
        cmd: args.run.clone(),
        shell: match &args.using {
            Some(shell) => Some(shell.clone()),
            None => None,
        },
    };
    assert(asked_task(args, id) == Some(task@));
    let found = get_upcoming_moment(now, &task.at);
    let next = match found {
        Ok(next) => next,
        Err(e) => {
            return Err(e);
        },
    };
    proof {
        if upcoming(task@.at, now, Err(Error::NoSuchDate)) {
            crate::upcoming::lemma_upcoming_unique(
                task@.at,
                now,
                next,
                Err(Error::NoSuchDate),
            );
        }
    }
    let ghost before = tasks@;
    match tasks.get(args.name.as_str()) {
        Some(existing) => {
            let identical = task.same_but_id(existing);
            proof {
                let seen = existing@;
                assert(has_name(before, task@.name)) by {
                    let i = choose|i: int| 0 <= i < before.len() && before[i] == seen;
                    assert(crate::task::named(before, task@.name, i));
                }
                lemma_one_of_a_name(tasks, seen, task@);
                assert(identical == !other_task_named(before, task@));
            }
            if identical && args.ignore_identical {
                return Ok(Registered::Unchanged);
            }
            if !args.force_override {
                return Err(Error::TaskExists);
            }
        },
        None => {},
    }
    tasks.insert(task);
    Ok(Registered::Added { next })
}

/// Registers a task under an id drawn at random: see [`registration`].
pub fn register_new(tasks: &mut Tasks, args: &RegisterArgs, now: Moment) -> (r: Result<
    Registered,
    Error,
>)
    requires
        now.valid(),
    ensures
        exists|id: u64| registration(old(tasks)@, final(tasks)@, args, id, now, r),
{
    let id = random_id();
    register(tasks, args, id, now)
}

/// The task of a name is the only one of that name, so that it alone decides whether another
/// task of the name is there.
proof fn lemma_one_of_a_name(tasks: &Tasks, seen: TaskView, task: TaskView)
    requires
        names_ascend(tasks@),
        tasks@.contains(seen),
        seen.name == task.name,
    ensures
        other_task_named(tasks@, task) == (seen != TaskView { id: seen.id, ..task }),
{
    let k = choose|k: int| 0 <= k < tasks@.len() && tasks@[k] == seen;
    assert forall|i: int| 0 <= i < tasks@.len() && (#[trigger] tasks@[i]).name
        == task.name implies i == k by {
        crate::task::lemma_text_order_total(tasks@[i].name, tasks@[k].name);
    }
    if seen != (TaskView { id: seen.id, ..task }) {
        assert(tasks@[k].name == task.name);
    }
}

/// Takes the task named in `args` out of the set and gives it back; fails with `NoSuchTask`
/// where the set has no task of that name.
pub fn unregister(tasks: &mut Tasks, args: &UnregisterArgs) -> (r: Result<Task, Error>)
    ensures
        names_ascend(final(tasks)@),
        match r {
            Ok(removed) => has_name(old(tasks)@, args.name@) && removed@.name == args.name@
                && old(tasks)@.contains(removed@) && forall|t: TaskView|
                #![trigger final(tasks)@.contains(t)]
                final(tasks)@.contains(t) <==> (old(tasks)@.contains(t) && t.name != args.name@),
            Err(e) => e == Error::NoSuchTask && !has_name(old(tasks)@, args.name@)
                && final(tasks)@ == old(tasks)@,
        },
{
    match tasks.remove(args.name.as_str()) {
        Some(removed) => {
            proof {
                let i = choose|i: int| 0 <= i < old(tasks)@.len() && old(tasks)@[i] == removed@;
                assert(crate::task::named(old(tasks)@, args.name@, i));
            }
            Ok(removed)
        },
        None => Err(Error::NoSuchTask),
    }
}

/// The exit code of the program after a registration: 0 where it was done, 2 where a task of
/// the name was in the way, 1 after another failure.
pub fn exit_code(outcome: &Result<Registered, Error>) -> (r: i32)
    ensures
        r == match *outcome {
            Ok(_) => 0i32,
            Err(Error::TaskExists) => 2i32,
            Err(_) => 1i32,
        },
{
    match outcome {
        Ok(_) => 0,
        Err(Error::TaskExists) => 2,
        Err(_) => 1,
    }
}

} // verus!
