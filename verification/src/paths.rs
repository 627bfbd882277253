use vstd::prelude::*;
use crate::text::chars_of;

verus! {

/// The path of `name` below the directory `base`: `name` alone where it starts at the root,
/// else `base`, a `/` unless `base` is empty or ends in one, and `name`.
pub open spec fn joined_path(base: Seq<char>, name: Seq<char>) -> Seq<char> {
    if name.len() > 0 && name[0] == '/' {
        name
    } else if base.len() == 0 || base.last() == '/' {
        base + name
    } else {
        base.push('/') + name
    }
}

/// The path of `name` below the directory `base`: see [`joined_path`].
pub fn join_path(base: &str, name: &str) -> (r: String)
    ensures
        r@ == joined_path(base@, name@),
{
    proof {
        reveal_strlit("/");
    }
    let first = chars_of(name);
    if first.len() > 0 && first[0] == '/' {
        return String::from_str(name);
    }
    let dir = chars_of(base);
    let mut r = String::from_str(base);
    if dir.len() > 0 && dir[dir.len() - 1] != '/' {
        r.append("/");
    }
    r.append(name);
    assert(r@ =~= joined_path(base@, name@));
    r
}

/// Where the service and its clients keep their files.
pub struct Paths {
    pub data_dir: String,
    pub daemon_dir: String,
    pub tasks_dir: String,
    pub tasks_file: String,
    pub history_file: String,
    pub daemon_socket_file: String,
    pub daemon_log_file: String,
}

impl Paths {
    /// The paths below the data directory `data_dir`.
    pub fn new(data_dir: String) -> (r: Paths)
        ensures
            r.data_dir@ == data_dir@,
            r.daemon_dir@ == joined_path(data_dir@, "daemon"@),
            r.tasks_dir@ == joined_path(data_dir@, "tasks"@),
            r.tasks_file@ == joined_path(data_dir@, "tasks.json"@),
            r.history_file@ == joined_path(data_dir@, "history.json"@),
            r.daemon_socket_file@ == joined_path(r.daemon_dir@, "daemon.sock"@),
            r.daemon_log_file@ == joined_path(r.daemon_dir@, "daemon.log"@),
    {
        let daemon_dir = join_path(data_dir.as_str(), "daemon");
        Paths {
            tasks_file: join_path(data_dir.as_str(), "tasks.json"),
            history_file: join_path(data_dir.as_str(), "history.json"),
            tasks_dir: join_path(data_dir.as_str(), "tasks"),
            daemon_socket_file: join_path(daemon_dir.as_str(), "daemon.sock"),
            daemon_log_file: join_path(daemon_dir.as_str(), "daemon.log"),
            daemon_dir,
            data_dir,
        }
    }

    /// The log file of the task named `task_name`.
    pub fn task_log_file(&self, task_name: &str) -> (r: String)
        ensures
            r@ == joined_path(self.tasks_dir@, task_name@ + ".log"@),
    {
        let mut file = String::from_str(task_name);
        file.append(".log");
        join_path(self.tasks_dir.as_str(), file.as_str())
    }
}

} // verus!
