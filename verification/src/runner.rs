use vstd::prelude::*;
use crate::history::{HistoryEntry, TaskResult};
use crate::moment::Moment;
use crate::service::EngineArgs;
use crate::task::Task;
use crate::text::{split, split_at};

verus! {

/// The shell that runs a task which names none.
pub const DEFAULT_SHELL_CMD: &'static str = "/bin/sh -c";

/// The command line of the shell of a task, as a text.
pub open spec fn shell_of(shell: Option<Seq<char>>) -> Seq<char> {
    match shell {
        Some(text) => text,
        None => DEFAULT_SHELL_CMD@,
    }
}

/// The program to start for a task and its arguments: the command line of the shell, split at
/// each space, and the command of the task as the last argument.
pub open spec fn command_of(shell: Option<Seq<char>>, cmd: Seq<char>) -> Seq<Seq<char>> {
    split_at(shell_of(shell), ' ').push(cmd)
}

/// The program to start for `task`, then its arguments: see [`command_of`].
pub fn command_line(task: &Task) -> (r: Vec<String>)
    ensures
        r@.map_values(|p: String| p@) == command_of(task@.shell, task@.cmd),
        r@.len() >= 2,
{
    let mut parts = match &task.shell {
        Some(shell) => split(shell.as_str(), ' '),
        None => split(DEFAULT_SHELL_CMD, ' '),
    };
    let ghost before = parts@.map_values(|p: String| p@);
    proof {
        let text = shell_of(task@.shell);
        assert(split_at(text, ' ').len() >= 1);
    }
    parts.push(task.cmd.clone());
    assert(parts@.map_values(|p: String| p@) =~= before.push(task@.cmd));
    parts
}

/// Whether the output of a task goes to its log file.
pub fn use_log_files(args: &EngineArgs) -> (r: bool)
    ensures
        r == !args.direct_output,
{
    !args.direct_output
}

/// The line that opens the part of a log file that one run writes.
pub fn started_banner(stamp: &str) -> (r: String)
    ensures
        r@ == "=======> Started on "@ + stamp@ + "\n\n"@,
{
    let mut r = String::from_str("=======> Started on ");
    r.append(stamp);
    r.append("\n\n");
    r
}

/// The line that closes the part of a log file that one run writes.
pub fn ended_banner(stamp: &str) -> (r: String)
    ensures
        r@ == "\n=======> Ended on "@ + stamp@ + "\n\n\n"@,
{
    let mut r = String::from_str("\n=======> Ended on ");
    r.append(stamp);
    r.append("\n\n\n");
    r
}

/// A line of output as it is kept: the time stamp in brackets, a space, the line; and the end
/// of the line where it goes to a log file.
pub fn log_line(stamp: &str, line: &str, to_file: bool) -> (r: String)
    ensures
        r@ == "["@ + stamp@ + "] "@ + line@ + if to_file {
            "\n"@
        } else {
            Seq::<char>::empty()
        },
{
    let mut r = String::from_str("[");
    r.append(stamp);
    r.append("] ");
    r.append(line);
    if to_file {
        r.append("\n");
    }
    assert(r@ =~= "["@ + stamp@ + "] "@ + line@ + if to_file {
        "\n"@
    } else {
        Seq::<char>::empty()
    });
    r
}

/// The entry that the run of `task` leaves in the history.
pub fn finish(
    task: &Task,
    started_at: Moment,
    ended_at: Moment,
    success: bool,
    code: Option<i32>,
) -> (r: HistoryEntry)
    ensures
        r.task_id == task@.id,
        r.task_name@ == task@.name,
        r.started_at == started_at,
        r.ended_at == ended_at,
        r.result == if success {
            TaskResult::Success
        } else {
            TaskResult::Failed { code }
        },
{
    HistoryEntry {
        task_id: task.id,
        task_name: task.name.clone(),
        started_at,
        ended_at,
        result: TaskResult::from_exit(success, code),
    }
}

} // verus!
